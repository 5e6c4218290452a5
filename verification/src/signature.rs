//! Signature detection: classifying a byte window as a known binary format,
//! as plain text, or as nothing recognisable.

use vstd::prelude::*;

verus! {

/// Shortest slice that the detector will classify. Anything shorter is
/// reported as "no match".
pub const MIN_PROBE_LEN: usize = 33;

/// Extension token reported for plain text.
pub const TEXT_TOKEN: &'static str = "txt";

/// Whether a byte counts as text: tab, line feed, carriage return, or a
/// printable ASCII character (`0x20..=0x7E`).
pub open spec fn is_text_byte(b: u8) -> bool {
    b == 0x09 || b == 0x0A || b == 0x0D || (0x20 <= b && b <= 0x7E)
}

/// Number of text bytes in `buf`.
pub open spec fn text_count(buf: Seq<u8>) -> nat
    decreases buf.len(),
{
    if buf.len() == 0 {
        0
    } else {
        text_count(buf.drop_last()) + if is_text_byte(buf.last()) {
            1nat
        } else {
            0nat
        }
    }
}

/// Whether strictly more than nine tenths of the bytes of `buf` are text bytes.
pub open spec fn mostly_text(buf: Seq<u8>) -> bool {
    10 * text_count(buf) > 9 * buf.len()
}

/// The view of an optional extension token.
pub open spec fn token_view(token: Option<&'static str>) -> Option<Seq<char>> {
    match token {
        Some(t) => Some(t@),
        None => None,
    }
}

/// The extension that the magic-number catalogue associates with the first
/// entry whose signature matches `buf`, or `None` when no entry matches.
pub uninterp spec fn catalog_extension(buf: Seq<u8>) -> Option<Seq<char>>;

/// The classification of `buf`, given what the catalogue said about it:
/// slices shorter than [`MIN_PROBE_LEN`] never match; a catalogue hit wins;
/// otherwise the slice is text when it is [`mostly_text`].
pub open spec fn classify(magic: Option<Seq<char>>, buf: Seq<u8>) -> Option<Seq<char>> {
    if buf.len() < MIN_PROBE_LEN {
        None
    } else if magic is Some {
        magic
    } else if mostly_text(buf) {
        Some(TEXT_TOKEN@)
    } else {
        None
    }
}

/// The classification of `buf` by the detector.
pub open spec fn detect(buf: Seq<u8>) -> Option<Seq<char>> {
    classify(catalog_extension(buf), buf)
}

/// Calls `infer::get` on `buf` and takes the `extension` of the type it
/// finds. Trusted: the result is the catalogue's answer for these bytes,
/// which depends on nothing but the bytes.
#[verifier::external_body]
fn match_catalog(buf: &[u8]) -> (found: Option<&'static str>)
    ensures
        token_view(found) == catalog_extension(buf@),
{
    match infer::get(buf) {
        Some(kind) => Some(kind.extension()),
        None => None,
    }
}

/// Executable form of [`is_text_byte`].
pub fn text_byte(b: u8) -> (r: bool)
    ensures
        r == is_text_byte(b),
{
    b == 0x09 || b == 0x0A || b == 0x0D || (b >= 0x20 && b <= 0x7E)
}

/// Counts the text bytes of `buf`.
pub fn count_text_bytes(buf: &[u8]) -> (n: usize)
    ensures
        n == text_count(buf@),
        n <= buf@.len(),
{
    let mut n: usize = 0;
    let mut i: usize = 0;
    while i < buf.len()
        invariant
            i <= buf.len(),
            n <= i,
            n == text_count(buf@.take(i as int)),
        decreases buf.len() - i,
    {
        proof {
            assert(buf@.take(i + 1).drop_last() =~= buf@.take(i as int));
        }
        if text_byte(buf[i]) {
            n += 1;
        }
        i += 1;
    }
    proof {
        assert(buf@.take(buf@.len() as int) =~= buf@);
    }
    n
}

/// Classifies `buf` once the catalogue's answer `magic` for it is known.
pub fn classify_window(magic: Option<&'static str>, buf: &[u8]) -> (token: Option<&'static str>)
    ensures
        token_view(token) == classify(token_view(magic), buf@),
{
    if buf.len() < MIN_PROBE_LEN {
        return None;
    }
    if magic.is_some() {
        return magic;
    }
    let text: usize = count_text_bytes(buf);
    if 10 * (text as u128) > 9 * (buf.len() as u128) {
        Some(TEXT_TOKEN)
    } else {
        None
    }
}

/// Classifies `buf`: the catalogue's extension for a known binary format,
/// [`TEXT_TOKEN`] for a slice that is mostly text, `None` otherwise and for
/// every slice shorter than [`MIN_PROBE_LEN`].
pub fn detect_signature(buf: &[u8]) -> (token: Option<&'static str>)
    ensures
        token_view(token) == detect(buf@),
        buf@.len() < MIN_PROBE_LEN ==> token is None,
{
    if buf.len() < MIN_PROBE_LEN {
        return None;
    }
    let magic = match_catalog(buf);
    classify_window(magic, buf)
}

/// The text count of a slice in which every byte is a text byte is its length.
pub proof fn lemma_all_text_count(buf: Seq<u8>)
    requires
        forall|i: int| 0 <= i < buf.len() ==> is_text_byte(#[trigger] buf[i]),
    ensures
        text_count(buf) == buf.len(),
    decreases buf.len(),
{
    if buf.len() > 0 {
        lemma_all_text_count(buf.drop_last());
    }
}

/// The text count never exceeds the length.
pub proof fn lemma_text_count_bound(buf: Seq<u8>)
    ensures
        text_count(buf) <= buf.len(),
    decreases buf.len(),
{
    if buf.len() > 0 {
        lemma_text_count_bound(buf.drop_last());
    }
}

/// No slice shorter than [`MIN_PROBE_LEN`] is ever classified, whatever the
/// catalogue says of it.
pub proof fn lemma_short_slice_never_matches(buf: Seq<u8>)
    requires
        buf.len() < MIN_PROBE_LEN,
    ensures
        detect(buf) is None,
        forall|magic: Option<Seq<char>>| classify(magic, buf) is None,
{
}

/// Where the catalogue has no entry for a slice of at least
/// [`MIN_PROBE_LEN`] bytes, the slice is classified as text exactly when
/// more than nine tenths of its bytes are text bytes, and is not classified
/// at all otherwise.
pub proof fn lemma_text_threshold(buf: Seq<u8>)
    requires
        buf.len() >= MIN_PROBE_LEN,
        catalog_extension(buf) is None,
    ensures
        10 * text_count(buf) > 9 * buf.len() ==> detect(buf) == Some(TEXT_TOKEN@),
        10 * text_count(buf) <= 9 * buf.len() ==> detect(buf) is None,
{
}

/// A slice of at least [`MIN_PROBE_LEN`] bytes that consists of text bytes
/// only, and for which the catalogue has no entry, is classified as text.
pub proof fn lemma_pure_text_is_text(buf: Seq<u8>)
    requires
        buf.len() >= MIN_PROBE_LEN,
        catalog_extension(buf) is None,
        forall|i: int| 0 <= i < buf.len() ==> is_text_byte(#[trigger] buf[i]),
    ensures
        detect(buf) == Some(TEXT_TOKEN@),
{
    lemma_all_text_count(buf);
}

} // verus!
