//! Percent-encoding for the values a route interpolates.

use vstd::prelude::*;
use vstd::utf8::*;
use crate::text;
use crate::text::{contains_char, join_with, split_on};
use crate::utf8;
use crate::utf8::lossy_text;

verus! {

/// A control character: the general category Cc.
pub open spec fn is_control(c: char) -> bool {
    c as u32 <= 0x1f || 0x7f <= c as u32 <= 0x9f
}

/// The characters that read as route syntax, or that a browser would rewrite.
pub open spec fn needs_escape(c: char) -> bool {
    c == '%' || c == '#' || c == '?' || c == '&' || c == '/' || c == ' ' || is_control(c)
}

/// The uppercase hexadecimal digit for `n`.
pub open spec fn hex_digit(n: int) -> char {
    if n < 10 {
        (48 + n) as char
    } else {
        (55 + n) as char
    }
}

/// Each byte as `%XX`.
pub open spec fn escaped_bytes(bytes: Seq<u8>) -> Seq<char>
    decreases bytes.len(),
{
    if bytes.len() == 0 {
        Seq::empty()
    } else {
        seq!['%', hex_digit(bytes[0] as int / 16), hex_digit(bytes[0] as int % 16)]
            + escaped_bytes(bytes.drop_first())
    }
}

/// One character as it stands in a route.
pub open spec fn encoded_char(c: char) -> Seq<char> {
    if needs_escape(c) {
        escaped_bytes(encode_scalar(c as u32))
    } else {
        seq![c]
    }
}

/// A route component, percent-encoded.
pub open spec fn encoded(s: Seq<char>) -> Seq<char>
    decreases s.len(),
{
    if s.len() == 0 {
        Seq::empty()
    } else {
        encoded_char(s[0]) + encoded(s.drop_first())
    }
}

/// The value of a hexadecimal digit, in either case.
pub open spec fn nibble(b: u8) -> Option<u8> {
    if 48 <= b <= 57 {
        Some((b - 48) as u8)
    } else if 97 <= b <= 102 {
        Some((b - 87) as u8)
    } else if 65 <= b <= 70 {
        Some((b - 55) as u8)
    } else {
        None
    }
}

/// Whether `bytes` begin with a `%` and two hexadecimal digits.
pub open spec fn begins_escape(bytes: Seq<u8>) -> bool {
    bytes.len() >= 3 && bytes[0] == 37 && nibble(bytes[1]) is Some && nibble(bytes[2]) is Some
}

/// `bytes` with each escape resolved to the byte it names.
pub open spec fn unescaped(bytes: Seq<u8>) -> Seq<u8>
    decreases bytes.len(),
{
    if bytes.len() == 0 {
        Seq::empty()
    } else if begins_escape(bytes) {
        seq![(16 * nibble(bytes[1])->0 + nibble(bytes[2])->0) as u8] + unescaped(bytes.skip(3))
    } else {
        seq![bytes[0]] + unescaped(bytes.skip(1))
    }
}

/// A percent-encoded route component, decoded.
pub open spec fn decoded(s: Seq<char>) -> Seq<char> {
    utf8::lossy(unescaped(encode_utf8(s)))
}

/// Each of a path's components, percent-encoded.
pub open spec fn encoded_path(path: Seq<char>) -> Seq<char> {
    text::join(text::split(path, '/').map_values(|p: Seq<char>| encoded(p)), seq!['/'])
}

/// Each of a path's components, decoded.
pub open spec fn decoded_path(path: Seq<char>) -> Seq<char> {
    text::join(text::split(path, '/').map_values(|p: Seq<char>| decoded(p)), seq!['/'])
}

fn push_escape(b: u8, out: &mut String)
    ensures
        final(out)@ == old(out)@ + seq!['%', hex_digit(b as int / 16), hex_digit(b as int % 16)],
{
    let hi: u8 = b / 16;
    let lo: u8 = b % 16;
    out.push('%');
    out.push(if hi < 10 { (48 + hi) as char } else { (55 + hi) as char });
    out.push(if lo < 10 { (48 + lo) as char } else { (55 + lo) as char });
    assert(out@ =~= old(out)@ + seq!['%', hex_digit(b as int / 16), hex_digit(b as int % 16)]);
}

/// The bytes of the characters that are escaped: ASCII stands for itself, and
/// the two-byte control characters follow a lead byte of 0xC2.
proof fn lemma_escapable_bytes(u: u32)
    requires
        u <= 0x9f,
    ensures
        u <= 0x7f ==> encode_scalar(u) == seq![u as u8],
        u >= 0x80 ==> encode_scalar(u) == seq![0xc2u8, u as u8],
{
    assert(u <= 0x7f ==> (u & 0x7F) as u8 == u as u8) by (bit_vector);
    assert(0x80 <= u <= 0x9f ==> 0xC0 | ((u >> 6) & 0x1F) as u8 == 0xc2u8) by (bit_vector);
    assert(0x80 <= u <= 0x9f ==> 0x80 | (u & 0x3F) as u8 == u as u8) by (bit_vector);
    if u <= 0x7f {
        assert(encode_scalar(u) =~= seq![u as u8]);
    } else {
        assert(encode_scalar(u) =~= seq![0xc2u8, u as u8]);
    }
}

proof fn lemma_escaped_two(a: u8, b: u8)
    ensures
        escaped_bytes(seq![a]) == seq!['%', hex_digit(a as int / 16), hex_digit(a as int % 16)],
        escaped_bytes(seq![a, b]) == seq!['%', hex_digit(a as int / 16), hex_digit(a as int % 16)]
            + seq!['%', hex_digit(b as int / 16), hex_digit(b as int % 16)],
{
    assert(seq![a].drop_first() =~= Seq::<u8>::empty());
    assert(seq![b].drop_first() =~= Seq::<u8>::empty());
    assert(seq![a, b].drop_first() =~= seq![b]);
    assert(escaped_bytes(Seq::<u8>::empty()) =~= Seq::<char>::empty());
    assert(escaped_bytes(seq![a]) =~= seq![
        '%',
        hex_digit(a as int / 16),
        hex_digit(a as int % 16),
    ]);
    assert(escaped_bytes(seq![b]) =~= seq![
        '%',
        hex_digit(b as int / 16),
        hex_digit(b as int % 16),
    ]);
}

/// Adding a character at the end of a component adds its encoding.
proof fn lemma_encoded_push(s: Seq<char>, c: char)
    ensures
        encoded(s.push(c)) == encoded(s) + encoded_char(c),
    decreases s.len(),
{
    if s.len() == 0 {
        assert(s.push(c).drop_first() =~= s);
        assert(encoded(s) =~= Seq::<char>::empty());
        assert(encoded(s.push(c)) =~= encoded(s) + encoded_char(c));
    } else {
        assert(s.push(c).drop_first() =~= s.drop_first().push(c));
        lemma_encoded_push(s.drop_first(), c);
        assert(encoded(s.push(c)) =~= encoded(s) + encoded_char(c));
    }
}

/// Percent-encode one route component: a ref name, or a single path segment.
///
/// Only what would otherwise read as route syntax is escaped, together with
/// space and control characters, which a browser would rewrite in the address
/// bar. Everything else, non-ASCII included, stays legible.
pub fn encode_component(s: &str) -> (r: String)
    ensures
        r@ == encoded(s@),
{
    let mut out: String = String::new();
    assert(s@.take(0) =~= Seq::<char>::empty());
    for c in it: s.chars()
        invariant
            it.seq() == s@,
            out@ == encoded(s@.take(it.index())),
    {
        proof {
            assert(s@.take(it.index() + 1) =~= s@.take(it.index()).push(c));
            lemma_encoded_push(s@.take(it.index()), c);
        }
        let u: u32 = c as u32;
        if c == '%' || c == '#' || c == '?' || c == '&' || c == '/' || c == ' ' || u <= 0x1f || (
        0x7f <= u && u <= 0x9f) {
            proof {
                lemma_escapable_bytes(u);
                lemma_escaped_two(0xc2u8, u as u8);
                lemma_escaped_two(u as u8, u as u8);
            }
            let ghost start = out@;
            if u >= 0x80 {
                push_escape(0xc2, &mut out);
            }
            push_escape(u as u8, &mut out);
            assert(out@ =~= start + encoded_char(c));
        } else {
            let ghost start = out@;
            out.push(c);
            assert(out@ =~= start + encoded_char(c));
        }
    }
    assert(s@.take(s@.len() as int) =~= s@);
    out
}

/// The value of a hexadecimal digit.
pub fn hex_nibble(b: u8) -> (r: Option<u8>)
    ensures
        r == nibble(b),
{
    if 48 <= b && b <= 57 {
        Some(b - 48)
    } else if 97 <= b && b <= 102 {
        Some(b - 87)
    } else if 65 <= b && b <= 70 {
        Some(b - 55)
    } else {
        None
    }
}

/// Text without a `%` decodes to itself.
pub proof fn lemma_unescaped_identity(b: Seq<u8>)
    requires
        forall|i: int| 0 <= i < b.len() ==> b[i] != 37,
    ensures
        unescaped(b) == b,
    decreases b.len(),
{
    if b.len() > 0 {
        let t = b.skip(1);
        assert forall|i: int| 0 <= i < t.len() implies t[i] != 37 by {
            assert(t[i] == b[i + 1]);
        }
        lemma_unescaped_identity(t);
        assert(unescaped(b) =~= b);
    }
}

/// The bytes of a character hold a `%` only where it is one.
pub proof fn lemma_char_bytes(c: char)
    ensures
        encode_scalar(c as u32).len() >= 1,
        c as int <= 0x7f ==> encode_scalar(c as u32).len() == 1 && encode_scalar(c as u32)[0] as int
            == c as int,
        c as int > 0x7f ==> forall|i: int|
            0 <= i < encode_scalar(c as u32).len() ==> #[trigger] encode_scalar(c as u32)[i] >= 0x80,
{
    let u = c as u32;
    assert(u <= 0x7f ==> (u & 0x7F) as u8 == u as u8) by (bit_vector);
    assert(0xC0 | ((u >> 6) & 0x1F) as u8 >= 0x80) by (bit_vector);
    assert(0xE0 | ((u >> 12) & 0x0F) as u8 >= 0x80) by (bit_vector);
    assert(0xF0 | ((u >> 18) & 0x7) as u8 >= 0x80) by (bit_vector);
    assert(0x80 | (u & 0x3F) as u8 >= 0x80) by (bit_vector);
    assert(0x80 | ((u >> 6) & 0x3F) as u8 >= 0x80) by (bit_vector);
    assert(0x80 | ((u >> 12) & 0x3F) as u8 >= 0x80) by (bit_vector);
    if u <= 0x7f {
        assert(encode_scalar(u) =~= seq![c as u8]);
    }
}

/// The encoding of text without a `%` holds no byte of one.
proof fn lemma_no_percent(s: Seq<char>)
    requires
        !s.contains('%'),
    ensures
        forall|i: int| 0 <= i < encode_utf8(s).len() ==> encode_utf8(s)[i] != 37,
    decreases s.len(),
{
    if s.len() > 0 {
        let t = s.drop_first();
        assert(!t.contains('%')) by {
            if t.contains('%') {
                let k = t.index_of('%');
                assert(s[k + 1] == '%');
            }
        }
        lemma_no_percent(t);
        assert(s[0] != '%');
        lemma_char_bytes(s[0]);
        let head = encode_scalar(s[0] as u32);
        assert forall|i: int| 0 <= i < encode_utf8(s).len() implies encode_utf8(s)[i] != 37 by {
            if i < head.len() {
                assert(encode_utf8(s)[i] == head[i]);
            } else {
                assert(encode_utf8(s)[i] == encode_utf8(t)[i - head.len()]);
            }
        }
    }
}

/// A component without a `%` decodes to itself.
pub proof fn unescaped_text_decodes_to_itself(s: Seq<char>)
    requires
        !s.contains('%'),
    ensures
        decoded(s) == s,
{
    lemma_no_percent(s);
    lemma_unescaped_identity(encode_utf8(s));
    utf8::lossy_reads_back_encoded_text(s);
}

/// Decode a percent-encoded route component.
///
/// Escapes are resolved to bytes and the result decoded as UTF-8, so a
/// multi-byte character split across several `%XX` is reassembled. A `%` that
/// does not begin a valid escape stands for itself.
pub fn decode_component(s: &str) -> (r: String)
    ensures
        r@ == decoded(s@),
{
    if !contains_char(s, '%') {
        proof {
            unescaped_text_decodes_to_itself(s@);
        }
        return s.to_string();
    }
    let bytes: &[u8] = s.as_bytes();
    let n: usize = bytes.len();
    let mut out: Vec<u8> = Vec::new();
    let mut i: usize = 0;
    assert(bytes@.skip(0) =~= bytes@);
    assert(out@ + unescaped(bytes@) =~= unescaped(bytes@));
    while i < n
        invariant
            n == bytes@.len(),
            i <= n,
            out@ + unescaped(bytes@.skip(i as int)) == unescaped(bytes@),
        decreases n - i,
    {
        let ghost rest = bytes@.skip(i as int);
        let ghost start = out@;
        let mut step: usize = 1;
        let mut value: u8 = bytes[i];
        if bytes[i] == 37 && n - i > 2 {
            if let (Some(hi), Some(lo)) = (hex_nibble(bytes[i + 1]), hex_nibble(bytes[i + 2])) {
                value = 16 * hi + lo;
                step = 3;
            }
        }
        out.push(value);
        proof {
            assert(rest.skip(step as int) =~= bytes@.skip(i + step));
            assert(unescaped(rest) == seq![value] + unescaped(rest.skip(step as int)));
            assert(out@ + unescaped(rest.skip(step as int)) =~= start + unescaped(rest));
        }
        i = i + step;
    }
    assert(out@ + unescaped(bytes@.skip(n as int)) =~= out@);
    lossy_text(out.as_slice())
}

/// Encode a slash-separated path, one component at a time, so the separators
/// survive as separators while anything inside a component that looks like one
/// is escaped.
pub fn encode_path(path: &str) -> (r: String)
    ensures
        r@ == encoded_path(path@),
{
    let parts = split_on(path, '/');
    let mut out: Vec<String> = Vec::new();
    let n: usize = parts.len();
    let mut i: usize = 0;
    while i < n
        invariant
            n == parts@.len(),
            i <= n,
            out@.len() == i,
            forall|j: int| 0 <= j < i ==> (#[trigger] out@[j])@ == encoded(parts@[j]@),
        decreases n - i,
    {
        out.push(encode_component(parts[i].as_str()));
        i = i + 1;
    }
    proof {
        reveal_strlit("/");
        assert("/"@ =~= seq!['/']);
        assert(text::texts(out@) =~= text::split(path@, '/').map_values(
            |p: Seq<char>| encoded(p),
        )) by {
            assert forall|j: int| 0 <= j < n implies text::texts(out@)[j] == encoded(
                text::split(path@, '/')[j],
            ) by {
                assert(text::split(path@, '/')[j] == text::texts(parts@)[j]);
            }
        }
    }
    join_with(&out, "/")
}

/// The reverse of [`encode_path`].
pub fn decode_path(path: &str) -> (r: String)
    ensures
        r@ == decoded_path(path@),
{
    let parts = split_on(path, '/');
    let mut out: Vec<String> = Vec::new();
    let n: usize = parts.len();
    let mut i: usize = 0;
    while i < n
        invariant
            n == parts@.len(),
            i <= n,
            out@.len() == i,
            forall|j: int| 0 <= j < i ==> (#[trigger] out@[j])@ == decoded(parts@[j]@),
        decreases n - i,
    {
        out.push(decode_component(parts[i].as_str()));
        i = i + 1;
    }
    proof {
        reveal_strlit("/");
        assert("/"@ =~= seq!['/']);
        assert(text::texts(out@) =~= text::split(path@, '/').map_values(
            |p: Seq<char>| decoded(p),
        )) by {
            assert forall|j: int| 0 <= j < n implies text::texts(out@)[j] == decoded(
                text::split(path@, '/')[j],
            ) by {
                assert(text::split(path@, '/')[j] == text::texts(parts@)[j]);
            }
        }
    }
    join_with(&out, "/")
}

/// Bytes none of which is a `%` pass through ahead of whatever follows them.
proof fn lemma_unescaped_plain(b: Seq<u8>, rest: Seq<u8>)
    requires
        forall|i: int| 0 <= i < b.len() ==> b[i] != 37,
    ensures
        unescaped(b + rest) == b + unescaped(rest),
    decreases b.len(),
{
    if b.len() == 0 {
        assert(b + rest =~= rest);
        assert(b + unescaped(rest) =~= unescaped(rest));
    } else {
        let t = b.skip(1);
        assert forall|i: int| 0 <= i < t.len() implies t[i] != 37 by {
            assert(t[i] == b[i + 1]);
        }
        lemma_unescaped_plain(t, rest);
        assert((b + rest).skip(1) =~= t + rest);
        assert(unescaped(b + rest) =~= b + unescaped(rest));
    }
}

/// One escape, ahead of whatever follows it, is the byte it names.
proof fn lemma_unescaped_escape(b: u8, rest: Seq<u8>)
    ensures
        ({
            let text = seq!['%', hex_digit(b as int / 16), hex_digit(b as int % 16)];
            unescaped(encode_utf8(text) + rest) == seq![b] + unescaped(rest)
        }),
{
    let text = seq!['%', hex_digit(b as int / 16), hex_digit(b as int % 16)];
    assert(is_ascii_chars(text));
    is_ascii_chars_encode_utf8(text);
    let e = encode_utf8(text);
    let all = e + rest;
    assert(e.len() == 3);
    assert(all[0] == 37);
    assert(all[1] == text[1] as u8);
    assert(all[2] == text[2] as u8);
    assert(nibble(all[1]) == Some((b as int / 16) as u8));
    assert(nibble(all[2]) == Some((b as int % 16) as u8));
    assert(all.skip(3) =~= rest);
    assert(begins_escape(all));
    assert(16 * (b as int / 16) + b as int % 16 == b);
}

/// A run of escapes, ahead of whatever follows it, is the bytes it names.
proof fn lemma_unescaped_run(bytes: Seq<u8>, rest: Seq<u8>)
    ensures
        unescaped(encode_utf8(escaped_bytes(bytes)) + rest) == bytes + unescaped(rest),
    decreases bytes.len(),
{
    if bytes.len() == 0 {
        assert(encode_utf8(escaped_bytes(bytes)) =~= Seq::<u8>::empty());
        assert(encode_utf8(escaped_bytes(bytes)) + rest =~= rest);
        assert(bytes + unescaped(rest) =~= unescaped(rest));
    } else {
        let b = bytes[0];
        let first = seq!['%', hex_digit(b as int / 16), hex_digit(b as int % 16)];
        let more = escaped_bytes(bytes.drop_first());
        utf8::lemma_encode_concat(first, more);
        lemma_unescaped_run(bytes.drop_first(), rest);
        lemma_unescaped_escape(b, encode_utf8(more) + rest);
        assert(encode_utf8(escaped_bytes(bytes)) + rest =~= encode_utf8(first) + (encode_utf8(more)
            + rest));
        assert(seq![b] + (bytes.drop_first() + unescaped(rest)) =~= bytes + unescaped(rest));
    }
}

/// The escapes of an encoded component name the component's own bytes.
proof fn lemma_unescaped_encoded(s: Seq<char>)
    ensures
        unescaped(encode_utf8(encoded(s))) == encode_utf8(s),
    decreases s.len(),
{
    if s.len() == 0 {
        assert(encode_utf8(encoded(s)) =~= Seq::<u8>::empty());
        assert(encode_utf8(s) =~= Seq::<u8>::empty());
    } else {
        let c = s[0];
        let more = encoded(s.drop_first());
        let head = encode_scalar(c as u32);
        lemma_unescaped_encoded(s.drop_first());
        utf8::lemma_encode_concat(encoded_char(c), more);
        if needs_escape(c) {
            lemma_unescaped_run(head, encode_utf8(more));
        } else {
            lemma_char_bytes(c);
            utf8::lemma_encode_one(c);
            assert(c != '%');
            lemma_unescaped_plain(head, encode_utf8(more));
        }
    }
}

/// A component comes back out of its own encoding.
pub proof fn component_round_trips(s: Seq<char>)
    ensures
        decoded(encoded(s)) == s,
{
    lemma_unescaped_encoded(s);
    utf8::lossy_reads_back_encoded_text(s);
}

/// The characters an encoded component is made of: escapes, and characters
/// that need none.
pub proof fn encoded_component_holds_no_route_syntax(s: Seq<char>)
    ensures
        forall|i: int|
            0 <= i < encoded(s).len() ==> {
                let c = #[trigger] encoded(s)[i];
                c == '%' || !needs_escape(c)
            },
    decreases s.len(),
{
    if s.len() > 0 {
        encoded_component_holds_no_route_syntax(s.drop_first());
        let c = s[0];
        let head = encoded_char(c);
        if needs_escape(c) {
            lemma_escaped_chars(encode_scalar(c as u32));
        }
        assert forall|i: int| 0 <= i < encoded(s).len() implies {
            let c = #[trigger] encoded(s)[i];
            c == '%' || !needs_escape(c)
        } by {
            if i < head.len() {
                assert(encoded(s)[i] == head[i]);
            } else {
                assert(encoded(s)[i] == encoded(s.drop_first())[i - head.len()]);
            }
        }
    }
}

proof fn lemma_escaped_chars(bytes: Seq<u8>)
    ensures
        forall|i: int|
            0 <= i < escaped_bytes(bytes).len() ==> {
                let c = #[trigger] escaped_bytes(bytes)[i];
                c == '%' || !needs_escape(c)
            },
    decreases bytes.len(),
{
    if bytes.len() > 0 {
        lemma_escaped_chars(bytes.drop_first());
        let b = bytes[0];
        let first = seq!['%', hex_digit(b as int / 16), hex_digit(b as int % 16)];
        assert forall|i: int| 0 <= i < escaped_bytes(bytes).len() implies {
            let c = #[trigger] escaped_bytes(bytes)[i];
            c == '%' || !needs_escape(c)
        } by {
            if i < 3 {
                assert(escaped_bytes(bytes)[i] == first[i]);
            } else {
                assert(escaped_bytes(bytes)[i] == escaped_bytes(bytes.drop_first())[i - 3]);
            }
        }
    }
}

/// No route syntax other than `%` stands in an encoded component.
pub proof fn lemma_encoded_lacks(s: Seq<char>, c: char)
    requires
        needs_escape(c),
        c != '%',
    ensures
        !encoded(s).contains(c),
{
    encoded_component_holds_no_route_syntax(s);
    if encoded(s).contains(c) {
        let k = encoded(s).index_of(c);
        assert(encoded(s)[k] == c);
    }
}

/// The components of an encoded path are the encoded components of the path.
pub proof fn lemma_encoded_path_split(path: Seq<char>)
    ensures
        text::split(encoded_path(path), '/') == text::split(path, '/').map_values(
            |p: Seq<char>| encoded(p),
        ),
{
    let parts = text::split(path, '/').map_values(|p: Seq<char>| encoded(p));
    text::lemma_split_pieces(path, '/');
    assert forall|i: int| 0 <= i < parts.len() implies !(#[trigger] parts[i]).contains('/') by {
        lemma_encoded_lacks(text::split(path, '/')[i], '/');
    }
    text::splitting_a_join_gives_the_pieces_back(parts, '/');
}

/// A path comes back out of its own encoding.
pub proof fn path_round_trips(path: Seq<char>)
    ensures
        decoded_path(encoded_path(path)) == path,
{
    lemma_encoded_path_split(path);
    let parts = text::split(path, '/');
    let through = parts.map_values(|p: Seq<char>| encoded(p)).map_values(
        |p: Seq<char>| decoded(p),
    );
    assert(through =~= parts) by {
        assert forall|i: int| 0 <= i < parts.len() implies through[i] == parts[i] by {
            component_round_trips(parts[i]);
        }
    }
    text::joining_a_split_gives_the_text_back(path, '/');
}

/// An encoded path holds none of the characters that end a path in a route.
pub proof fn lemma_encoded_path_lacks(path: Seq<char>, c: char)
    requires
        needs_escape(c),
        c != '%',
        c != '/',
    ensures
        !encoded_path(path).contains(c),
{
    let parts = text::split(path, '/').map_values(|p: Seq<char>| encoded(p));
    assert forall|i: int| 0 <= i < parts.len() implies !(#[trigger] parts[i]).contains(c) by {
        lemma_encoded_lacks(text::split(path, '/')[i], c);
    }
    text::lemma_join_lacks(parts, seq!['/'], c);
}

proof fn lemma_plain(c: char)
    requires
        c != '%' && c != '#' && c != '?' && c != '&' && c != '/' && c != ' ',
        (c as int) >= 0x20,
        !(0x7f <= c as int <= 0x9f),
    ensures
        !needs_escape(c),
{
    assert(c as u32 as int == c as int);
}

/// Only the characters that a URL reads in its own way are escaped, and text
/// without them is written as it is.
pub proof fn plain_text_is_written_as_it_is(s: Seq<char>)
    requires
        forall|i: int|
            0 <= i < s.len() ==> {
                let c = #[trigger] s[i];
                &&& c != '%' && c != '#' && c != '?' && c != '&' && c != '/' && c != ' '
                &&& (c as int) >= 0x20
                &&& !(0x7f <= c as int <= 0x9f)
            },
    ensures
        encoded(s) == s,
    decreases s.len(),
{
    if s.len() > 0 {
        let t = s.drop_first();
        assert forall|i: int| 0 <= i < t.len() implies {
            let c = #[trigger] t[i];
            &&& c != '%' && c != '#' && c != '?' && c != '&' && c != '/' && c != ' '
            &&& (c as int) >= 0x20
            &&& !(0x7f <= c as int <= 0x9f)
        } by {
            assert(t[i] == s[i + 1]);
        }
        plain_text_is_written_as_it_is(t);
        lemma_plain(s[0]);
        assert(encoded(s) =~= s);
    }
}

/// Text is written character by character; one that a URL reads in its own way is
/// a percent sign and its two digits, in capitals.
pub proof fn special_characters_are_written_in_digits(a: Seq<char>, b: Seq<char>, c: char)
    ensures
        encoded(a + b) == encoded(a) + encoded(b),
        c == '%' || c == '#' || c == '?' || c == '&' || c == '/' || c == ' ' || (c as int) < 0x20
            || c as int == 0x7f ==> {
            let e = encoded(seq![c]);
            let value = |d: char|
                if '0' <= d <= '9' {
                    d as int - '0' as int
                } else {
                    d as int - 'A' as int + 10
                };
            &&& e.len() == 3
            &&& e[0] == '%'
            &&& '0' <= e[1] <= '9' || 'A' <= e[1] <= 'F'
            &&& '0' <= e[2] <= '9' || 'A' <= e[2] <= 'F'
            &&& 16 * value(e[1]) + value(e[2]) == c as int
        },
    decreases a.len(),
{
    let one = seq![c];
    assert(one.drop_first() =~= Seq::empty());
    assert(encoded(Seq::<char>::empty()) =~= Seq::empty());
    assert(encoded(one) =~= encoded_char(c));
    lemma_char_bytes(c);
    if needs_escape(c) && c as int <= 0x7f {
        let bytes = encode_scalar(c as u32);
        let b0 = bytes[0] as int;
        assert(bytes =~= seq![bytes[0]]);
        assert(bytes.drop_first() =~= Seq::empty());
        assert(escaped_bytes(Seq::<u8>::empty()) =~= Seq::empty());
        assert(encoded_char(c) =~= seq!['%', hex_digit(b0 / 16), hex_digit(b0 % 16)]);
    }
    if a.len() == 0 {
        assert(a + b =~= b);
        assert(encoded(a) + encoded(b) =~= encoded(b));
    } else {
        assert((a + b).drop_first() =~= a.drop_first() + b);
        special_characters_are_written_in_digits(a.drop_first(), b, c);
        assert(encoded(a + b) =~= encoded(a) + encoded(b));
    }
}

/// A percent sign and two digits, in letters of either size, are read as one
/// byte; every other byte, a lone percent sign too, is read as it is.
pub proof fn escapes_are_read_one_by_one(b: u8, high: u8, low: u8, rest: Seq<u8>)
    ensures
        ({
            let digit = |d: u8|
                if 48 <= d <= 57 {
                    d as int - 48
                } else if 65 <= d <= 70 {
                    d as int - 55
                } else if 97 <= d <= 102 {
                    d as int - 87
                } else {
                    -1int
                };
            &&& digit(high) >= 0 && digit(low) >= 0 ==> unescaped(seq![37u8, high, low] + rest) == seq![
                (16 * digit(high) + digit(low)) as u8,
            ] + unescaped(rest)
            &&& digit(high) < 0 || digit(low) < 0 ==> unescaped(seq![37u8, high, low] + rest) == seq![
                37u8,
            ] + unescaped(seq![high, low] + rest)
            &&& b != 37 ==> unescaped(seq![b] + rest) == seq![b] + unescaped(rest)
        }),
{
    let escape = seq![37u8, high, low] + rest;
    assert(escape.skip(3) =~= rest);
    assert(escape.skip(1) =~= seq![high, low] + rest);
    assert((seq![b] + rest).skip(1) =~= rest);
    assert((seq![b] + rest)[0] == b);
}

} // verus!
