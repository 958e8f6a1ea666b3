//! Judgements on records, remembered in caches.
//!
//! A record under the status list's key is judged by the issuer's key, every
//! other record by the key that it holds itself.  With caches, a record that was
//! judged is not judged again as long as its verdict is remembered.

use vstd::prelude::*;
use vstd::utf8::encode_utf8;

use crate::auth_handler::AuthFault;
use crate::auth_handler::IssuerKey;
use crate::auth_handler::IssuerModel;
use crate::auth_handler::SignatureVerifierHandler;
use crate::signature_cache::no_results;
use crate::signature_cache::sha256_of;
use crate::signature_cache::SignatureCache;
use crate::signature_cache::RESULT_TTL;
use crate::text::same_text;
use crate::utils::digest;
use crate::utils::sha1_of;
use crate::utils::ID_LEN;
use crate::node::same_id;

verus! {

/// How many verdicts a cache holds at most.
pub const CACHE_CAPACITY: u64 = 4096;

/// The name under which the status list is stored.
pub open spec fn status_list_name() -> Seq<char> {
    "did:iiot:status-list"@
}

/// The name under which the status list is stored.
pub fn status_list_key() -> (name: &'static str)
    ensures
        name@ == status_list_name(),
{
    "did:iiot:status-list"
}

/// The key is that of the status list.
pub open spec fn is_status_list(key: [u8; ID_LEN]) -> bool {
    key@ == sha1_of(encode_utf8(status_list_name()))
}

/// Whether the key is that of the status list.
pub fn names_status_list(key: &[u8; ID_LEN]) -> (is_list: bool)
    ensures
        is_list == is_status_list(*key),
{
    let list: [u8; ID_LEN] = digest(status_list_key());
    proof {
        if key@ == list@ {
            assert(*key =~= list);
        }
    }
    same_id(key, &list)
}

/// The judgement is that the record is valid.  A judgement that could not be made
/// counts as none.
pub open spec fn accepts(outcome: Result<bool, AuthFault>) -> bool {
    outcome == Ok::<bool, AuthFault>(true)
}

/// Remembered verdicts.
pub struct Caches {
    /// Verdicts on records by their own keys.
    pub records: SignatureCache,
    /// Verdicts on status lists by the issuer's key.
    pub status_lists: SignatureCache,
}

impl Caches {
    /// The cache for status lists or for other records.
    pub open spec fn of(&self, is_list: bool) -> SignatureCache {
        if is_list {
            self.status_lists
        } else {
            self.records
        }
    }

    /// Nothing is remembered, and the limits are those of this library.
    pub open spec fn fresh(&self) -> bool {
        forall|is_list: bool|
            (#[trigger] self.of(is_list))@ == no_results() && self.of(is_list).limits() == (
                CACHE_CAPACITY,
                RESULT_TTL,
            )
    }
}

/// Judges records and remembers the verdicts, if it has caches.
pub struct Judge<H: SignatureVerifierHandler> {
    pub handler: H,
    pub caches: Option<Caches>,
}

/// Every remembered verdict was the verdict on a record with that digest.
pub open spec fn remembers_records<H: SignatureVerifierHandler>(
    handler: H,
    verdicts: Map<Seq<u8>, bool>,
) -> bool {
    forall|key: Seq<u8>| #[trigger]
        verdicts.contains_key(key) ==> exists|value: Seq<u8>| #[trigger]
            sha256_of(value) == key && verdicts[key] == accepts(handler.record_verdict(value))
}

/// Every remembered verdict was the verdict on a status list with that digest,
/// under the issuer's key as it was then.
pub open spec fn remembers_lists<H: SignatureVerifierHandler>(
    handler: H,
    verdicts: Map<Seq<u8>, bool>,
) -> bool {
    forall|key: Seq<u8>| #[trigger]
        verdicts.contains_key(key) ==> exists|value: Seq<u8>, issuer: IssuerModel|
            sha256_of(value) == key && verdicts[key] == accepts(
                #[trigger] handler.issuer_verdict(value, issuer),
            )
}

/// No other record has the digest of this one.
pub open spec fn digest_is_unique(value: Seq<u8>) -> bool {
    forall|other: Seq<u8>| #[trigger] sha256_of(other) == sha256_of(value) ==> other == value
}

impl<H: SignatureVerifierHandler> Judge<H> {
    /// Every remembered verdict was once given.
    pub open spec fn wf(&self) -> bool {
        self.caches matches Some(caches) ==> remembers_records(self.handler, caches.records@)
            && remembers_lists(self.handler, caches.status_lists@)
    }

    /// The verdict on a record, judged anew.
    pub open spec fn verdict(&self, is_list: bool, value: Seq<u8>, issuer: IssuerModel) -> bool {
        if is_list {
            accepts(self.handler.issuer_verdict(value, issuer))
        } else {
            accepts(self.handler.record_verdict(value))
        }
    }

    /// `valid` is the verdict on the record, and `after` is the judge with the
    /// verdict remembered.  With caches, the cache is asked first: a verdict that it
    /// still has is the answer, and nothing changes.  Only where it has none is the
    /// record judged anew and the verdict put in.
    pub open spec fn gives(
        &self,
        after: Judge<H>,
        is_list: bool,
        value: Seq<u8>,
        issuer: IssuerModel,
        valid: bool,
    ) -> bool {
        &&& after.handler == self.handler
        &&& match (self.caches, after.caches) {
            (None, None) => valid == self.verdict(is_list, value, issuer),
            (Some(old), Some(new)) => {
                let before = old.of(is_list)@;
                let then = new.of(is_list)@;
                let digest = sha256_of(value);
                &&& new.of(!is_list)@ == old.of(!is_list)@
                &&& new.records.limits() == old.records.limits()
                &&& new.status_lists.limits() == old.status_lists.limits()
                &&& exists|found: Option<bool>| #[trigger]
                    old.of(is_list).answers(digest, found) && match found {
                        Some(known) => before.contains_key(digest) && known == before[digest]
                            && valid == known && then == before,
                        None => valid == self.verdict(is_list, value, issuer) && then
                            == before.insert(digest, valid),
                    }
            },
            _ => false,
        }
    }

    /// A judge that asks the handler.
    pub fn new(handler: H, use_cache: bool) -> (judge: Self)
        ensures
            judge.wf(),
            judge.handler == handler,
            use_cache ==> (judge.caches matches Some(caches) && caches.fresh()),
            !use_cache ==> judge.caches is None,
    {
        let caches: Option<Caches> = if use_cache {
            Some(
                Caches {
                    records: SignatureCache::new(CACHE_CAPACITY),
                    status_lists: SignatureCache::new(CACHE_CAPACITY),
                },
            )
        } else {
            None
        };
        Self { handler, caches }
    }

    fn judge_anew(&self, is_list: bool, value: &[u8], issuer: &IssuerKey) -> (valid: bool)
        ensures
            valid == self.verdict(is_list, value@, issuer@),
    {
        if is_list {
            match self.handler.handle_issuer_node_signature_verification(value, issuer) {
                Ok(valid) => valid,
                Err(_) => false,
            }
        } else {
            match self.handler.handle_signature_verification(value) {
                Ok(valid) => valid,
                Err(_) => false,
            }
        }
    }

    /// Whether the record is valid: as a status list under the issuer's key, or
    /// else under its own.  A remembered verdict on a record under its own key is
    /// the verdict that a new judgement would give, unless another record with the
    /// same digest was judged before.
    pub fn verify(&mut self, is_list: bool, value: &[u8], issuer: &IssuerKey) -> (valid: bool)
        requires
            old(self).wf(),
        ensures
            final(self).wf(),
            old(self).gives(*final(self), is_list, value@, issuer@, valid),
            !is_list && digest_is_unique(value@) ==> valid == old(self).verdict(
                is_list,
                value@,
                issuer@,
            ),
    {
        match &self.caches {
            None => self.judge_anew(is_list, value, issuer),
            Some(caches) => {
                let key: [u8; 32] = SignatureCache::compute_key(value);
                let known: Option<bool> = if is_list {
                    caches.status_lists.get_by_key(&key)
                } else {
                    caches.records.get_by_key(&key)
                };
                assert(caches.of(is_list).answers(sha256_of(value@), known));
                if let Some(valid) = known {
                    return valid;
                }
                let valid: bool = self.judge_anew(is_list, value, issuer);
                self.remember(is_list, key, valid);
                proof {
                    let old_caches = old(self).caches->Some_0;
                    let new_caches = self.caches->Some_0;
                    assert forall|k: Seq<u8>| #[trigger]
                        new_caches.records@.contains_key(k) implies exists|v: Seq<u8>| #[trigger]
                        sha256_of(v) == k && new_caches.records@[k] == accepts(
                            self.handler.record_verdict(v),
                        ) by {
                        if !is_list && k == key@ {
                            assert(sha256_of(value@) == k);
                        } else {
                            assert(old_caches.records@.contains_key(k));
                        }
                    }
                    assert forall|k: Seq<u8>| #[trigger]
                        new_caches.status_lists@.contains_key(k) implies exists|
                        v: Seq<u8>,
                        i: IssuerModel,
                    |
                        sha256_of(v) == k && new_caches.status_lists@[k] == accepts(
                            #[trigger] self.handler.issuer_verdict(v, i),
                        ) by {
                        if is_list && k == key@ {
                            assert(sha256_of(value@) == k && new_caches.status_lists@[k] == accepts(
                                self.handler.issuer_verdict(value@, issuer@),
                            ));
                        } else {
                            assert(old_caches.status_lists@.contains_key(k));
                        }
                    }
                }
                valid
            },
        }
    }

    fn remember(&mut self, is_list: bool, key: [u8; 32], valid: bool)
        requires
            old(self).caches is Some,
        ensures
            final(self).handler == old(self).handler,
            final(self).caches is Some,
            final(self).caches->Some_0.records.limits()
                == old(self).caches->Some_0.records.limits(),
            final(self).caches->Some_0.status_lists.limits()
                == old(self).caches->Some_0.status_lists.limits(),
            is_list ==> final(self).caches->Some_0.status_lists@
                == old(self).caches->Some_0.status_lists@.insert(key@, valid)
                && final(self).caches->Some_0.records@ == old(self).caches->Some_0.records@,
            !is_list ==> final(self).caches->Some_0.records@
                == old(self).caches->Some_0.records@.insert(key@, valid)
                && final(self).caches->Some_0.status_lists@
                == old(self).caches->Some_0.status_lists@,
    {
        if let Some(caches) = &mut self.caches {
            if is_list {
                caches.status_lists.insert_by_key(key, valid);
            } else {
                caches.records.insert_by_key(key, valid);
            }
        }
    }

    /// Whether the record is valid under the key.
    pub fn verify_for_key(&mut self, key: &[u8; ID_LEN], value: &[u8], issuer: &IssuerKey) -> (valid:
        bool)
        requires
            old(self).wf(),
        ensures
            final(self).wf(),
            old(self).gives(*final(self), is_status_list(*key), value@, issuer@, valid),
            !is_status_list(*key) && digest_is_unique(value@) ==> valid == old(self).verdict(
                false,
                value@,
                issuer@,
            ),
    {
        let is_list: bool = names_status_list(key);
        self.verify(is_list, value, issuer)
    }

    /// Whether the record is valid under the name.
    pub fn verify_value(&mut self, name: &str, value: &[u8], issuer: &IssuerKey) -> (valid: bool)
        requires
            old(self).wf(),
        ensures
            final(self).wf(),
            old(self).gives(
                *final(self),
                name@ == status_list_name(),
                value@,
                issuer@,
                valid,
            ),
            name@ != status_list_name() && digest_is_unique(value@) ==> valid == old(
                self,
            ).verdict(false, value@, issuer@),
    {
        let is_list: bool = same_text(name, status_list_key());
        self.verify(is_list, value, issuer)
    }

    /// Whether `value` may replace `old_value`.
    pub fn permits_update(&self, value: &[u8], old_value: &[u8], auth_signature: &[u8]) -> (permitted:
        bool)
        ensures
            permitted == accepts(
                self.handler.update_verdict(value@, old_value@, auth_signature@),
            ),
    {
        match self.handler.handle_update_verification(value, old_value, auth_signature) {
            Ok(valid) => valid,
            Err(_) => false,
        }
    }

    /// Whether `value` may be deleted.
    pub fn permits_delete(&self, value: &[u8], auth_signature: &[u8], delete_msg: &[u8]) -> (permitted:
        bool)
        ensures
            permitted == accepts(
                self.handler.delete_verdict(value@, auth_signature@, delete_msg@),
            ),
    {
        match self.handler.handle_signature_delete_operation(value, auth_signature, delete_msg) {
            Ok(valid) => valid,
            Err(_) => false,
        }
    }

    /// Whether `value` is signed by the issuer, judged anew.
    pub fn permits_status_list(&self, value: &[u8], issuer: &IssuerKey) -> (permitted: bool)
        ensures
            permitted == accepts(self.handler.issuer_verdict(value@, issuer@)),
    {
        self.judge_anew(true, value, issuer)
    }
}

/// A record whose digest was not seen before is judged anew: a change to a record
/// that changes its digest is never answered from the cache.
pub proof fn an_unseen_record_is_judged_anew<H: SignatureVerifierHandler>(
    before: Judge<H>,
    after: Judge<H>,
    is_list: bool,
    value: Seq<u8>,
    issuer: IssuerModel,
    valid: bool,
)
    requires
        before.gives(after, is_list, value, issuer, valid),
        before.caches matches Some(caches) ==> !caches.of(is_list)@.contains_key(
            sha256_of(value),
        ),
    ensures
        valid == before.verdict(is_list, value, issuer),
{
}

/// A verdict that was given is remembered for the record, and no other verdict is
/// forgotten.
pub proof fn a_verdict_is_remembered<H: SignatureVerifierHandler>(
    before: Judge<H>,
    after: Judge<H>,
    is_list: bool,
    value: Seq<u8>,
    issuer: IssuerModel,
    valid: bool,
    other: Seq<u8>,
)
    requires
        before.gives(after, is_list, value, issuer, valid),
        before.caches is Some,
    ensures
        ({
            let old_verdicts = before.caches->Some_0.of(is_list)@;
            let verdicts = after.caches->Some_0.of(is_list)@;
            &&& verdicts.contains_key(sha256_of(value))
            &&& verdicts[sha256_of(value)] == valid
            &&& old_verdicts.contains_key(other) && other != sha256_of(value)
                ==> verdicts.contains_key(other) && verdicts[other] == old_verdicts[other]
        }),
{
}

} // verus!
