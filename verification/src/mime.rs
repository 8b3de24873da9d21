//! Content-type labels and line-ending normalization.
//!
//! A [`MimeType`] is a closed set of recognized content-type identifiers plus
//! a catch-all variant carrying an unrecognized descriptor. Plain-text labels
//! ask for line-ending normalization: every CRLF pair and every lone CR
//! becomes a single LF.

use vstd::prelude::*;
use vstd::string::StrSliceExecFns;

verus! {

/// A content-type label: the identifiers this content kind recognizes, plus a
/// catch-all for any other descriptor. Compared by value; usable as a
/// dispatch key.
#[derive(Debug, Clone, PartialEq, Eq, Hash)]
pub enum MimeType {
    /// Plain text with an explicit UTF-8 charset qualifier.
    TextPlainUtf8,
    /// Plain text without a charset qualifier.
    TextPlain,
    /// A raw UTF-8 string, passed through without normalization.
    Utf8String,
    /// Any other label, kept as its original descriptor.
    Other(String),
}

/// The only decode-time failure: the label is not one this content kind can
/// decode.
#[derive(Debug, Clone, PartialEq, Eq)]
pub enum Error {
    Unsupported,
}

/// Whether the decoder accepts the label (and the encoder can render to it).
pub open spec fn is_supported(mime_type: MimeType) -> bool {
    !(mime_type is Other)
}

/// Whether decoding under the label normalizes line endings.
pub open spec fn is_normalizing(mime_type: MimeType) -> bool {
    mime_type is TextPlainUtf8 || mime_type is TextPlain
}

/// Text with every line break written as a single LF: each CRLF pair becomes
/// one LF (one line break, not two), and each CR not followed by LF becomes
/// its own LF.
pub open spec fn normalize_lf(s: Seq<char>) -> Seq<char>
    decreases s.len(),
{
    if s.len() == 0 {
        Seq::empty()
    } else if s[0] == '\r' && s.len() >= 2 && s[1] == '\n' {
        seq!['\n'] + normalize_lf(s.skip(2))
    } else if s[0] == '\r' {
        seq!['\n'] + normalize_lf(s.skip(1))
    } else {
        seq![s[0]] + normalize_lf(s.skip(1))
    }
}

/// Whether the text contains no carriage return at all.
pub open spec fn has_no_cr(s: Seq<char>) -> bool {
    forall|i: int| 0 <= i < s.len() ==> s[i] != '\r'
}

/// Relies on `String::push`: appends the one character at the end of the
/// string.
#[verifier::external_body]
fn push_char(s: &mut String, c: char)
    ensures
        final(s)@ == old(s)@.push(c),
{
    s.push(c);
}

/// Rewrites every line break in `content` as a single LF: each CRLF pair and
/// each lone CR becomes one LF. Everything else is kept as it stands.
pub fn normalize_to_lf(content: String) -> (r: String)
    ensures
        r@ == normalize_lf(content@),
{
    let text = content.as_str();
    let n = text.unicode_len();
    let mut out = String::new();
    let mut i: usize = 0;
    proof {
        assert(content@.skip(0) =~= content@);
        assert(Seq::<char>::empty() + normalize_lf(content@) =~= normalize_lf(content@));
    }
    while i < n
        invariant
            i <= n,
            n == text@.len(),
            text@ == content@,
            normalize_lf(content@) == out@ + normalize_lf(content@.skip(i as int)),
        decreases n - i,
    {
        let ghost rest = content@.skip(i as int);
        let ghost out0 = out@;
        let c = text.get_char(i);
        if c == '\r' {
            push_char(&mut out, '\n');
            if i + 1 < n && text.get_char(i + 1) == '\n' {
                proof {
                    assert(rest.skip(2) =~= content@.skip(i + 2));
                    assert(out@ =~= out0 + seq!['\n']);
                    assert(normalize_lf(rest) == seq!['\n'] + normalize_lf(rest.skip(2)));
                    assert(out0 + (seq!['\n'] + normalize_lf(rest.skip(2))) =~= (out0
                        + seq!['\n']) + normalize_lf(rest.skip(2)));
                }
                i = i + 2;
            } else {
                proof {
                    assert(rest.skip(1) =~= content@.skip(i + 1));
                    assert(out@ =~= out0 + seq!['\n']);
                    assert(normalize_lf(rest) == seq!['\n'] + normalize_lf(rest.skip(1)));
                    assert(out0 + (seq!['\n'] + normalize_lf(rest.skip(1))) =~= (out0
                        + seq!['\n']) + normalize_lf(rest.skip(1)));
                }
                i = i + 1;
            }
        } else {
            push_char(&mut out, c);
            proof {
                assert(rest.skip(1) =~= content@.skip(i + 1));
                assert(out@ =~= out0 + seq![c]);
                assert(normalize_lf(rest) == seq![c] + normalize_lf(rest.skip(1)));
                assert(out0 + (seq![c] + normalize_lf(rest.skip(1))) =~= (out0 + seq![c])
                    + normalize_lf(rest.skip(1)));
            }
            i = i + 1;
        }
    }
    proof {
        assert(content@.skip(n as int) =~= Seq::<char>::empty());
        assert(out@ + normalize_lf(content@.skip(n as int)) =~= out@);
    }
    out
}

/// Normalized text never contains a carriage return.
pub proof fn lemma_normalize_lf_no_cr(s: Seq<char>)
    ensures
        has_no_cr(normalize_lf(s)),
    decreases s.len(),
{
    if s.len() == 0 {
    } else if s[0] == '\r' && s.len() >= 2 && s[1] == '\n' {
        lemma_normalize_lf_no_cr(s.skip(2));
        assert forall|i: int| 0 <= i < normalize_lf(s).len() implies normalize_lf(s)[i] != '\r' by {
            if i > 0 {
                assert(normalize_lf(s)[i] == normalize_lf(s.skip(2))[i - 1]);
            }
        }
    } else if s[0] == '\r' {
        lemma_normalize_lf_no_cr(s.skip(1));
        assert forall|i: int| 0 <= i < normalize_lf(s).len() implies normalize_lf(s)[i] != '\r' by {
            if i > 0 {
                assert(normalize_lf(s)[i] == normalize_lf(s.skip(1))[i - 1]);
            }
        }
    } else {
        lemma_normalize_lf_no_cr(s.skip(1));
        assert forall|i: int| 0 <= i < normalize_lf(s).len() implies normalize_lf(s)[i] != '\r' by {
            if i > 0 {
                assert(normalize_lf(s)[i] == normalize_lf(s.skip(1))[i - 1]);
            }
        }
    }
}

/// Text that already contains no carriage return is left unchanged by
/// normalization.
pub proof fn lemma_normalize_lf_identity(s: Seq<char>)
    requires
        has_no_cr(s),
    ensures
        normalize_lf(s) == s,
    decreases s.len(),
{
    if s.len() == 0 {
        assert(normalize_lf(s) =~= s);
    } else {
        assert(s[0] != '\r');
        lemma_normalize_lf_identity(s.skip(1));
        assert(normalize_lf(s) =~= s);
    }
}

/// Normalization is idempotent: normalizing already-normalized text changes
/// nothing.
pub proof fn lemma_normalize_lf_idempotent(s: Seq<char>)
    ensures
        normalize_lf(normalize_lf(s)) == normalize_lf(s),
{
    lemma_normalize_lf_no_cr(s);
    lemma_normalize_lf_identity(normalize_lf(s));
}

} // verus!
