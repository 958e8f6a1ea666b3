//! Base64 in the URL-safe alphabet, without padding.

use base64::engine::general_purpose::URL_SAFE_NO_PAD;
use base64::Engine;
use vstd::prelude::*;
use vstd::string::StrSliceExecFns;

verus! {

/// The bytes as URL-safe base64 without padding.
pub uninterp spec fn b64url_encoded(bytes: Seq<u8>) -> Seq<char>;

/// The bytes that the text stands for, or the text of the error where it is not
/// URL-safe base64 without padding.
pub uninterp spec fn b64url_decoded(text: Seq<char>) -> Result<Seq<u8>, Seq<char>>;

/// `Engine::encode` of `URL_SAFE_NO_PAD`.  Its text has no padding, and decodes
/// to the bytes.
#[verifier::external_body]
pub(crate) fn b64url_encode(bytes: &[u8]) -> (text: String)
    ensures
        text@ == b64url_encoded(bytes@),
        b64url_decoded(text@) is Ok && b64url_decoded(text@)->Ok_0 == bytes@,
        !text@.contains('='),
{
    URL_SAFE_NO_PAD.encode(bytes)
}

/// `Engine::decode` of `URL_SAFE_NO_PAD`, with an error as text.
#[verifier::external_body]
pub(crate) fn b64url_decode(text: &str) -> (bytes: Result<Vec<u8>, String>)
    ensures
        match bytes {
            Ok(bytes) => b64url_decoded(text@) == Ok::<_, Seq<char>>(bytes@),
            Err(error) => b64url_decoded(text@) == Err::<Seq<u8>, _>(error@),
        },
{
    URL_SAFE_NO_PAD.decode(text).map_err(|error| error.to_string())
}

/// The text without equals signs at its end.
pub open spec fn unpadded(text: Seq<char>) -> Seq<char>
    decreases text.len(),
{
    if text.len() > 0 && text.last() == '=' {
        unpadded(text.drop_last())
    } else {
        text
    }
}

/// Text without an equals sign at its end stays as it is.
pub proof fn unpadded_stays(text: Seq<char>)
    requires
        !text.contains('='),
    ensures
        unpadded(text) == text,
{
    if text.len() > 0 {
        assert(text[text.len() - 1] == text.last());
    }
}

/// The text without equals signs at its end.
pub fn strip_padding(text: &str) -> (bare: &str)
    ensures
        bare@ == unpadded(text@),
{
    let mut len: usize = text.unicode_len();
    assert(text@.take(len as int) =~= text@);
    while len > 0 && text.get_char(len - 1) == '='
        invariant
            len <= text@.len(),
            unpadded(text@) == unpadded(text@.take(len as int)),
        decreases len,
    {
        assert(text@.take(len as int).drop_last() =~= text@.take(len - 1));
        len = len - 1;
    }
    assert(len > 0 ==> text@.take(len as int).last() == text@[len - 1]);
    let bare: &str = text.substring_char(0, len);
    assert(bare@ =~= text@.take(len as int));
    bare
}

} // verus!
