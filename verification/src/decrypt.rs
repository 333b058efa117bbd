//! Turns the bytes of a file into text that can be read and edited.
//!
//! A file is either plain text, which starts with a fixed marker, or a
//! sealed container that has to be decoded. This module tells the two
//! apart and says what the text is once the container was decoded, or
//! could not be. Decoding itself is not done here: the caller runs the
//! decoder on the raw bytes and hands its outcome back. A read never
//! fails its caller; where the decoder fails, the raw bytes are read as
//! text, and lookups in them simply find nothing.

use vstd::prelude::*;
use vstd::utf8::valid_utf8;
use crate::text::{ascii, ascii_bytes, starts_with_at};

verus! {

/// Why a container did not yield its text.
#[derive(Clone, Copy, PartialEq, Eq, Structural, Debug)]
pub enum DecryptError {
    /// The decoder rejected the container.
    DecodeFailed,
}

/// The marker that plain text starts with.
pub open spec fn plain_marker() -> Seq<u8> {
    ascii_bytes("SiiNunit"@)
}

/// Whether raw bytes are plain text.
pub open spec fn is_plain(raw: Seq<u8>) -> bool {
    crate::text::has_prefix_at(raw, 0, plain_marker())
}

/// The bytes of the text that `bytes` decode to when every ill-formed
/// sequence in them is replaced by the replacement character.
pub uninterp spec fn lossy_text(bytes: Seq<u8>) -> Seq<u8>;

/// `String::from_utf8_lossy`, with the text handed back as its bytes. The
/// result is well-formed UTF-8, and it is the input itself where that is
/// well-formed already.
#[verifier::external_body]
fn utf8_lossy(bytes: &[u8]) -> (r: Vec<u8>)
    ensures
        r@ == lossy_text(bytes@),
        valid_utf8(r@),
        valid_utf8(bytes@) ==> r@ == bytes@,
{
    String::from_utf8_lossy(bytes).into_owned().into_bytes()
}

/// What raw bytes are taken for.
#[derive(Debug)]
pub enum Source {
    /// The bytes are plain text; this is it.
    Text(Vec<u8>),
    /// The bytes are a container: decode them, then call `finish_decrypt`.
    Sealed,
}

/// What raw bytes are taken for, as a mathematical value.
pub enum SourceView {
    Text(Seq<u8>),
    Sealed,
}

impl View for Source {
    type V = SourceView;

    open spec fn view(&self) -> SourceView {
        match self {
            Source::Text(t) => SourceView::Text(t@),
            Source::Sealed => SourceView::Sealed,
        }
    }
}

/// The text of a file and, where the decoder failed on it, the failure
/// that was recovered from.
#[derive(Debug)]
pub struct Decoded {
    pub text: Vec<u8>,
    pub recovered: Option<DecryptError>,
}

/// What `raw` is taken for.
pub open spec fn source_of(raw: Seq<u8>) -> SourceView {
    if is_plain(raw) {
        SourceView::Text(lossy_text(raw))
    } else {
        SourceView::Sealed
    }
}

/// Classifies the raw bytes of a file.
///
/// Bytes that start with the plain-text marker are text and are decoded
/// as such, ill-formed sequences giving way to the replacement character.
/// Any other bytes are taken for a container.
pub fn decrypt_if_needed(raw: &[u8]) -> (r: Source)
    ensures
        r@ == source_of(raw@),
        is_plain(raw@) && valid_utf8(raw@) ==> r@ == SourceView::Text(raw@),
{
    proof {
        reveal_strlit("SiiNunit");
    }
    if starts_with_at(raw, 0, ascii("SiiNunit")) {
        Source::Text(utf8_lossy(raw))
    } else {
        Source::Sealed
    }
}

/// Says what the text of a container is, given what the decoder made of
/// it: the decoder's output where there is one, the raw bytes where it
/// failed. Either is decoded as text leniently. The failure is reported
/// beside the text, for the caller to log; it is not an error of the read.
pub fn finish_decrypt(raw: &[u8], decoded: Option<&[u8]>) -> (r: Decoded)
    ensures
        r.text@ == match decoded {
            Some(d) => lossy_text(d@),
            None => lossy_text(raw@),
        },
        r.recovered == match decoded {
            Some(_) => None::<DecryptError>,
            None => Some(DecryptError::DecodeFailed),
        },
        valid_utf8(r.text@),
        match decoded {
            Some(d) => valid_utf8(d@) ==> r.text@ == d@,
            None => valid_utf8(raw@) ==> r.text@ == raw@,
        },
{
    match decoded {
        Some(d) => Decoded { text: utf8_lossy(d), recovered: None },
        None => Decoded { text: utf8_lossy(raw), recovered: Some(DecryptError::DecodeFailed) },
    }
}

} // verus!
