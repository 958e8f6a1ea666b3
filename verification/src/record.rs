//! The layout of signed records.
//!
//! ```text
//! | algorithm (12 bytes, padded with zeros) | signature | document (JSON) |
//! ```

use vstd::prelude::*;
use vstd::utf8::encode_utf8;

use crate::auth_handler::document_key;
use crate::auth_handler::opened;
use crate::auth_handler::self_signed;
use crate::auth_handler::AuthFault;
use crate::crypto::factory::scheme_of;
use crate::crypto::factory::scheme_pair;
use crate::crypto::factory::scheme_can_give;
use crate::crypto::factory::scheme_verdict;
use crate::crypto::factory::signature_len;
use crate::crypto::factory::Scheme;
use crate::crypto::factory::SignerFactory;
use crate::crypto::signature_verifier::resolved;
use crate::crypto::signature_verifier::Signer;
use crate::crypto::signature_verifier::VerifierError;
use crate::crypto::signature_verifier::VerifierFault;

verus! {

/// Length of the field that names the algorithm.
pub const ALG_FIELD_LEN: usize = 12;

/// The name of an algorithm in its field: cut or padded with zeros to twelve
/// bytes.
pub open spec fn alg_field(name: Seq<u8>) -> Seq<u8> {
    Seq::new(
        ALG_FIELD_LEN as nat,
        |i: int|
            if i < name.len() {
                name[i]
            } else {
                0u8
            },
    )
}

/// The record of a document, its signature and the algorithm.
pub open spec fn record_of(algorithm: Seq<char>, signature: Seq<u8>, document: Seq<u8>) -> Seq<u8> {
    alg_field(encode_utf8(algorithm)) + signature + document
}

/// How many bytes stand before the first zero.
pub open spec fn before_zero(bytes: Seq<u8>) -> nat
    decreases bytes.len(),
{
    if bytes.len() > 0 && bytes[0] != 0 {
        1 + before_zero(bytes.drop_first())
    } else {
        0
    }
}

/// The bytes of the name in the algorithm field of a record.
pub open spec fn name_bytes(record: Seq<u8>) -> Seq<u8> {
    let field = record.take(ALG_FIELD_LEN as int);
    field.take(before_zero(field) as int)
}

/// The first `len` bytes are not zero, and the next is or there is none.
pub proof fn before_zero_is(bytes: Seq<u8>, len: nat)
    requires
        len <= bytes.len(),
        forall|i: int| 0 <= i < len ==> bytes[i] != 0,
        len < bytes.len() ==> bytes[len as int] == 0,
    ensures
        before_zero(bytes) == len,
    decreases bytes.len(),
{
    if len > 0 {
        assert forall|i: int| 0 <= i < len - 1 implies bytes.drop_first()[i] != 0 by {
            assert(bytes.drop_first()[i] == bytes[i + 1]);
        }
        before_zero_is(bytes.drop_first(), (len - 1) as nat);
    }
}

/// The name fits its field and can be read back from it.
pub open spec fn names_an_algorithm(algorithm: Seq<char>) -> bool {
    let name = encode_utf8(algorithm);
    &&& name.len() <= ALG_FIELD_LEN
    &&& forall|i: int| 0 <= i < name.len() ==> name[i] != 0
}

/// Algorithm, signature and document are read back from a record as they were
/// put into it.
pub proof fn a_record_is_read_back(algorithm: Seq<char>, signature: Seq<u8>, document: Seq<u8>)
    requires
        names_an_algorithm(algorithm),
        resolved(algorithm) matches Ok((_, len)) && len == signature.len(),
    ensures
        opened(record_of(algorithm, signature, document)) == Ok::<_, AuthFault>(
            (algorithm, signature, document),
        ),
{
    let name = encode_utf8(algorithm);
    let record = record_of(algorithm, signature, document);
    let field = record.take(12);
    assert(field =~= alg_field(name));
    before_zero_is(field, name.len());
    assert(name_bytes(record) =~= name);
    vstd::utf8::encode_utf8_valid_utf8(algorithm);
    vstd::utf8::encode_utf8_decode_utf8(algorithm);
    let end = 12 + signature.len() as int;
    assert(record.subrange(12, end) =~= signature);
    assert(record.skip(end) =~= document);
}

/// A record whose signature is valid under the key in its own document is
/// accepted as self-signed.
pub proof fn a_signed_record_verifies(
    algorithm: Seq<char>,
    scheme: Scheme,
    public_key: Seq<u8>,
    signature: Seq<u8>,
    document: Seq<u8>,
)
    requires
        names_an_algorithm(algorithm),
        resolved(algorithm) matches Ok((_, len)) && len == signature.len(),
        scheme_of(algorithm) == Ok::<_, VerifierFault>(scheme),
        document_key(document) == Ok::<_, AuthFault>(public_key),
        scheme_verdict(scheme, public_key, signature, document) == Ok::<bool, VerifierFault>(true),
    ensures
        self_signed(record_of(algorithm, signature, document)) == Ok::<bool, AuthFault>(true),
{
    a_record_is_read_back(algorithm, signature, document);
}

/// Readers of a record accept signatures of the given length under the algorithm:
/// the document holds the public key, which belongs to the private one, and the
/// length is the one that they expect.
pub open spec fn fits_its_reader(
    algorithm: Seq<char>,
    private_key: Seq<u8>,
    document: Seq<u8>,
    signature_len: nat,
) -> bool {
    match (scheme_of(algorithm), document_key(document), resolved(algorithm)) {
        (Ok(scheme), Ok(public_key), Ok((_, len))) => {
            &&& names_an_algorithm(algorithm)
            &&& scheme_pair(scheme, public_key, private_key)
            &&& len == signature_len
        },
        _ => false,
    }
}

/// The record is that of the document, with a signature that the scheme of the
/// algorithm makes with the private key.  It verifies if the signature fits its
/// reader.
pub open spec fn signed_with(
    record: Seq<u8>,
    algorithm: Seq<char>,
    private_key: Seq<u8>,
    document: Seq<u8>,
    signature: Seq<u8>,
) -> bool {
    &&& record == record_of(algorithm, signature, document)
    &&& scheme_of(algorithm) matches Ok(scheme) && scheme_can_give(
        scheme,
        private_key,
        document,
        Ok(signature),
    ) && (signature_len(scheme, private_key) matches Some(len) ==> signature.len() == len)
    &&& fits_its_reader(algorithm, private_key, document, signature.len()) ==> self_signed(record)
        == Ok::<bool, AuthFault>(true)
}

/// Signs the document with the private key and puts the record together.  Where
/// the document holds the public key that belongs to the private one, and readers
/// expect a signature of the length it has, the record verifies.
pub fn build_signed_record(document: &[u8], private_key: &[u8], algorithm: &str) -> (record: Result<
    Vec<u8>,
    VerifierError,
>)
    ensures
        record matches Ok(bytes) ==> exists|signature: Seq<u8>| #[trigger]
            signed_with(bytes@, algorithm@, private_key@, document@, signature),
        record matches Err(error) ==> match scheme_of(algorithm@) {
            Ok(scheme) => scheme_can_give(scheme, private_key@, document@, Err(error@)),
            Err(fault) => fault == error@,
        },
{
    let signer: Scheme = match SignerFactory::get_signer(algorithm) {
        Ok(signer) => signer,
        Err(error) => {
            return Err(error);
        },
    };
    let signature: Vec<u8> = match signer.sign(private_key, document) {
        Ok(signature) => signature,
        Err(error) => {
            return Err(error);
        },
    };
    let name: &[u8] = algorithm.as_bytes();
    let mut record: Vec<u8> = Vec::new();
    while record.len() < ALG_FIELD_LEN
        invariant
            record@.len() <= ALG_FIELD_LEN,
            name@ == encode_utf8(algorithm@),
            record@ == alg_field(name@).take(record@.len() as int),
        decreases ALG_FIELD_LEN - record@.len(),
    {
        let at: usize = record.len();
        if at < name.len() {
            record.push(name[at]);
        } else {
            record.push(0);
        }
        assert(record@ =~= alg_field(name@).take(record@.len() as int));
    }
    assert(record@ =~= alg_field(name@));
    record.extend_from_slice(signature.as_slice());
    record.extend_from_slice(document);
    proof {
        assert(record@ =~= record_of(algorithm@, signature@, document@));
        if fits_its_reader(algorithm@, private_key@, document@, signature@.len()) {
            let public_key = document_key(document@)->Ok_0;
            assert(scheme_verdict(signer, public_key, signature@, document@) == Ok::<
                bool,
                VerifierFault,
            >(true));
            a_signed_record_verifies(algorithm@, signer, public_key, signature@, document@);
        }
        assert(signed_with(record@, algorithm@, private_key@, document@, signature@));
    }
    let ghost bytes = record@;
    let built: Result<Vec<u8>, VerifierError> = Ok(record);
    assert(built->Ok_0@ == bytes);
    built
}

} // verus!
