//! Bytes read as text.

use vstd::prelude::*;
use vstd::utf8::*;

verus! {

/// What `String::from_utf8_lossy` makes of bytes that are not valid UTF-8.
pub uninterp spec fn replaced_utf8(bytes: Seq<u8>) -> Seq<char>;

/// The text that `bytes` encode; where they are not valid UTF-8, the text with
/// what could not be read replaced.
pub open spec fn lossy(bytes: Seq<u8>) -> Seq<char> {
    if valid_utf8(bytes) {
        decode_utf8(bytes)
    } else {
        replaced_utf8(bytes)
    }
}

/// How many line feeds stand in `s`.
pub open spec fn line_feeds(s: Seq<char>) -> nat
    decreases s.len(),
{
    if s.len() == 0 {
        0
    } else if s.last() == '\n' {
        line_feeds(s.drop_last()) + 1
    } else {
        line_feeds(s.drop_last())
    }
}

/// How many line feeds stand in `bytes`.
pub open spec fn line_feed_bytes(bytes: Seq<u8>) -> nat
    decreases bytes.len(),
{
    if bytes.len() == 0 {
        0
    } else if bytes.last() == 10 {
        line_feed_bytes(bytes.drop_last()) + 1
    } else {
        line_feed_bytes(bytes.drop_last())
    }
}

/// `String::from_utf8_lossy`: valid UTF-8 comes back as the text it encodes.
/// Of other bytes is claimed that the result is a function of them, and that
/// the line feeds among them, which are valid wherever they stand, are kept:
/// as many, and one at the end where there was one. Where the replacement
/// characters fall is left unsaid.
#[verifier::external_body]
pub(crate) fn lossy_text(bytes: &[u8]) -> (r: String)
    ensures
        line_feeds(r@) == line_feed_bytes(bytes@),
        (r@.len() > 0 && r@.last() == '\n') == (bytes@.len() > 0 && bytes@.last() == 10),
        r@.len() == 0 <==> bytes@.len() == 0,
        r@ == (if valid_utf8(bytes@) {
            decode_utf8(bytes@)
        } else {
            replaced_utf8(bytes@)
        }),
{
    String::from_utf8_lossy(bytes).into_owned()
}

/// What the error of `String::from_utf8` on `bytes` says.
pub uninterp spec fn utf8_error(bytes: Seq<u8>) -> Seq<char>;

/// `String::from_utf8`: the text that `bytes` encode where they are valid
/// UTF-8, and its error in words otherwise. Of the words only that they are a
/// function of the bytes is claimed.
#[verifier::external_body]
pub(crate) fn checked_text(bytes: Vec<u8>) -> (r: Result<String, String>)
    ensures
        match r {
            Ok(s) => valid_utf8(bytes@) && s@ == decode_utf8(bytes@),
            Err(e) => !valid_utf8(bytes@) && e@ == utf8_error(bytes@),
        },
{
    match String::from_utf8(bytes) {
        Ok(s) => Ok(s),
        Err(e) => Err(e.to_string()),
    }
}

/// Encoding distributes over concatenation.
pub proof fn lemma_encode_concat(a: Seq<char>, b: Seq<char>)
    ensures
        encode_utf8(a + b) == encode_utf8(a) + encode_utf8(b),
    decreases a.len(),
{
    if a.len() == 0 {
        assert(a + b =~= b);
        assert(encode_utf8(a) =~= Seq::<u8>::empty());
        assert(encode_utf8(a + b) =~= encode_utf8(a) + encode_utf8(b));
    } else {
        assert((a + b).drop_first() =~= a.drop_first() + b);
        lemma_encode_concat(a.drop_first(), b);
        assert(encode_utf8(a + b) =~= encode_utf8(a) + encode_utf8(b));
    }
}

/// The encoding of one character.
pub proof fn lemma_encode_one(c: char)
    ensures
        encode_utf8(seq![c]) == encode_scalar(c as u32),
{
    assert(seq![c].drop_first() =~= Seq::<char>::empty());
    assert(encode_utf8(Seq::<char>::empty()) =~= Seq::<u8>::empty());
    assert(encode_utf8(seq![c]) =~= encode_scalar(c as u32));
}

/// Text read back from its own encoding is that text.
pub proof fn lossy_reads_back_encoded_text(s: Seq<char>)
    ensures
        lossy(encode_utf8(s)) == s,
{
    encode_utf8_valid_utf8(s);
    encode_utf8_decode_utf8(s);
}

/// The line feeds among bytes are those of the one part and those of the other.
pub proof fn line_feeds_add_up(a: Seq<u8>, b: Seq<u8>)
    ensures
        line_feed_bytes(a + b) == line_feed_bytes(a) + line_feed_bytes(b),
    decreases b.len(),
{
    if b.len() == 0 {
        assert(a + b =~= a);
    } else {
        assert((a + b).drop_last() =~= a + b.drop_last());
        line_feeds_add_up(a, b.drop_last());
    }
}

} // verus!
