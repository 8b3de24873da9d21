//! The plain-text content kind: decoding labeled bytes into a canonical text
//! value and encoding it back.

use crate::lossy::{lossy_string_from_bytes, lossy_utf8};
use crate::mime::{
    has_no_cr, is_normalizing, is_supported, lemma_normalize_lf_identity, lemma_normalize_lf_no_cr,
    normalize_lf, normalize_to_lf, Error, MimeType,
};
use vstd::prelude::*;
use vstd::string::StrSliceExecFns;
use vstd::utf8::{encode_utf8, encode_utf8_decode_utf8, encode_utf8_valid_utf8};

verus! {

/// The canonical in-memory value of the plain-text content kind: always valid
/// text, normalized according to the label it was decoded under.
#[derive(Debug)]
pub struct Text(pub String);

impl View for Text {
    type V = Seq<char>;

    open spec fn view(&self) -> Seq<char> {
        self.0@
    }
}

/// The text a successful decode of `bytes` under `mime_type` yields: a lossy
/// UTF-8 recovery of the bytes, line-normalized when the label asks for it.
pub open spec fn decoded_text(bytes: Seq<u8>, mime_type: MimeType) -> Seq<char> {
    if is_normalizing(mime_type) {
        normalize_lf(lossy_utf8(bytes))
    } else {
        lossy_utf8(bytes)
    }
}

/// The fixed, ordered set of labels the plain-text content kind accepts on
/// decode and can render to on encode. The order is a stable preference
/// ranking.
pub open spec fn allowed_mime_types() -> Seq<MimeType> {
    seq![MimeType::TextPlainUtf8, MimeType::Utf8String, MimeType::TextPlain]
}

impl Text {
    /// Decodes owned bytes declared as `mime_type` into a canonical text
    /// value. Invalid UTF-8 never aborts the decode: it is repaired with the
    /// replacement character. Plain-text labels additionally normalize every
    /// line break to LF; the raw-string label passes the text through
    /// unchanged. The one failure is an unrecognized label.
    pub fn try_from(content: Vec<u8>, mime_type: MimeType) -> (r: Result<Text, Error>)
        ensures
            is_supported(mime_type) ==> (r matches Ok(t) && t@ == decoded_text(
                content@,
                mime_type,
            )),
            !is_supported(mime_type) ==> (r matches Err(e) && e == Error::Unsupported),
    {
        let utf8 = lossy_string_from_bytes(content);
        match mime_type {
            MimeType::TextPlainUtf8 | MimeType::TextPlain => Ok(Text(normalize_to_lf(utf8))),
            MimeType::Utf8String => Ok(Text(utf8)),
            MimeType::Other(_) => Err(Error::Unsupported),
        }
    }

    /// The labels this content kind accepts, in stable preference order.
    pub fn allowed() -> (r: Vec<MimeType>)
        ensures
            r@ == allowed_mime_types(),
    {
        let mut r: Vec<MimeType> = Vec::new();
        r.push(MimeType::TextPlainUtf8);
        r.push(MimeType::Utf8String);
        r.push(MimeType::TextPlain);
        proof {
            assert(r@ =~= allowed_mime_types());
        }
        r
    }

    /// The labels this value can be encoded to: the content kind's fixed set,
    /// independent of the content.
    pub fn available(&self) -> (r: Vec<MimeType>)
        ensures
            r@ == allowed_mime_types(),
    {
        Self::allowed()
    }

    /// Renders the value as UTF-8 bytes for the given label. Every recognized
    /// label yields the same bytes; an unrecognized label has no
    /// representation, reported as absence rather than an error.
    pub fn as_bytes(&self, mime_type: &MimeType) -> (r: Option<Vec<u8>>)
        ensures
            is_supported(*mime_type) ==> (r matches Some(b) && b@ == encode_utf8(self@)),
            !is_supported(*mime_type) ==> r is None,
    {
        match mime_type {
            MimeType::TextPlainUtf8 | MimeType::Utf8String | MimeType::TextPlain => Some(
                self.0.as_str().as_bytes_vec(),
            ),
            MimeType::Other(_) => None,
        }
    }
}

/// Law: under a line-normalizing label, decoded text never contains a
/// carriage return, whatever the input bytes were.
pub proof fn lemma_decoded_text_no_cr(bytes: Seq<u8>, mime_type: MimeType)
    requires
        is_normalizing(mime_type),
    ensures
        has_no_cr(decoded_text(bytes, mime_type)),
{
    lemma_normalize_lf_no_cr(lossy_utf8(bytes));
}

/// Law (round trip): for every accepted label, decoding the UTF-8 encoding of
/// text that holds no carriage return yields that text back unchanged.
pub proof fn lemma_round_trip(text: Seq<char>, mime_type: MimeType)
    requires
        is_supported(mime_type),
        has_no_cr(text),
    ensures
        decoded_text(encode_utf8(text), mime_type) == text,
{
    encode_utf8_valid_utf8(text);
    encode_utf8_decode_utf8(text);
    if is_normalizing(mime_type) {
        lemma_normalize_lf_identity(text);
    }
}

/// Law: the encoder's reported label set and the decoder's accepted label set
/// have exactly the same members.
pub proof fn lemma_allowed_iff_supported(mime_type: MimeType)
    ensures
        allowed_mime_types().contains(mime_type) <==> is_supported(mime_type),
{
    let labels = allowed_mime_types();
    if is_supported(mime_type) {
        match mime_type {
            MimeType::TextPlainUtf8 => assert(labels[0] == mime_type),
            MimeType::Utf8String => assert(labels[1] == mime_type),
            MimeType::TextPlain => assert(labels[2] == mime_type),
            MimeType::Other(_) => assert(false),
        }
    }
    if labels.contains(mime_type) {
        let i = choose|i: int| 0 <= i < labels.len() && labels[i] == mime_type;
        assert(i == 0 || i == 1 || i == 2);
        assert(is_supported(mime_type));
    }
}

} // verus!

