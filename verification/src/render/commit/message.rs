//! A commit message split into linkable pieces.

use vstd::prelude::*;
use crate::text::{chars_of, concat};

verus! {

/// One piece of a commit message: either literal text or a SHA-1 reference
/// that becomes a link to that commit.
#[derive(PartialEq, Debug)]
pub enum MessageSegment {
    Text(String),
    Sha(String),
}

/// What a [`MessageSegment`] says.
pub enum Piece {
    Text(Seq<char>),
    Sha(Seq<char>),
}

impl View for MessageSegment {
    type V = Piece;

    open spec fn view(&self) -> Piece {
        match self {
            MessageSegment::Text(t) => Piece::Text(t@),
            MessageSegment::Sha(s) => Piece::Sha(s@),
        }
    }
}

/// What the segments of a message say.
pub open spec fn pieces_view(segments: Seq<MessageSegment>) -> Seq<Piece> {
    segments.map_values(|s: MessageSegment| s@)
}

/// A digit of a SHA-1 as git writes it.
pub open spec fn sha_char(c: char) -> bool {
    '0' <= c <= '9' || 'a' <= c <= 'f'
}

/// Seven to forty lowercase hex digits, i.e. a full SHA-1 or one of git's
/// abbreviated forms.
pub open spec fn sha_shaped(token: Seq<char>) -> bool {
    7 <= token.len() <= 40 && forall|i: int| 0 <= i < token.len() ==> sha_char(#[trigger] token[i])
}

/// A character that words are made of. An underscore is one, so that a hash
/// inside `word_abc1234` is not taken for a reference.
pub open spec fn word_char(c: char) -> bool {
    '0' <= c <= '9' || 'a' <= c <= 'z' || 'A' <= c <= 'Z' || c == '_'
}

/// The word that `s` begins with; empty where it begins with none.
pub open spec fn leading_word(s: Seq<char>) -> Seq<char>
    decreases s.len(),
{
    if s.len() == 0 || !word_char(s[0]) {
        Seq::empty()
    } else {
        seq![s[0]] + leading_word(s.drop_first())
    }
}

/// `pieces` with `t` in front of them, in one piece with text that comes next.
pub open spec fn with_text(t: Seq<char>, pieces: Seq<Piece>) -> Seq<Piece> {
    if t.len() == 0 {
        pieces
    } else if pieces.len() == 0 {
        seq![Piece::Text(t)]
    } else {
        match pieces[0] {
            Piece::Text(u) => seq![Piece::Text(t + u)] + pieces.drop_first(),
            Piece::Sha(_) => seq![Piece::Text(t)] + pieces,
        }
    }
}

/// The pieces of a message: the words that are shaped like a SHA-1, and the
/// text between them.
pub open spec fn pieces(message: Seq<char>) -> Seq<Piece>
    decreases message.len(),
{
    let word = leading_word(message);
    if message.len() == 0 {
        Seq::empty()
    } else if word.len() == 0 || word.len() > message.len() {
        with_text(message.take(1), pieces(message.drop_first()))
    } else if sha_shaped(word) {
        seq![Piece::Sha(word)] + pieces(message.skip(word.len() as int))
    } else {
        with_text(word, pieces(message.skip(word.len() as int)))
    }
}

proof fn lemma_leading_word(token: Seq<char>, rest: Seq<char>)
    requires
        forall|i: int| 0 <= i < token.len() ==> word_char(#[trigger] token[i]),
        rest.len() == 0 || !word_char(rest[0]),
    ensures
        leading_word(token + rest) == token,
    decreases token.len(),
{
    let all = token + rest;
    if token.len() == 0 {
        assert(all =~= rest);
    } else {
        assert(all[0] == token[0]);
        assert(all.drop_first() =~= token.drop_first() + rest);
        lemma_leading_word(token.drop_first(), rest);
        assert(seq![token[0]] + token.drop_first() =~= token);
    }
}

/// Text in front of text is their concatenation in front.
proof fn lemma_with_text(a: Seq<char>, b: Seq<char>, rest: Seq<Piece>)
    ensures
        with_text(a, with_text(b, rest)) == with_text(a + b, rest),
{
    if a.len() == 0 {
        assert(a + b =~= b);
    } else if b.len() == 0 {
        assert(a + b =~= a);
    } else {
        let inner = with_text(b, rest);
        if rest.len() == 0 {
            assert(inner.drop_first() =~= Seq::empty());
            assert(with_text(a, inner) =~= seq![Piece::Text(a + b)]);
        } else {
            match rest[0] {
                Piece::Text(u) => {
                    assert(inner.drop_first() =~= rest.drop_first());
                    assert(a + (b + u) =~= (a + b) + u);
                },
                Piece::Sha(_) => {
                    assert(inner.drop_first() =~= rest);
                },
            }
        }
    }
}

/// A message that goes on with a word and then with what is in no word.
proof fn lemma_pieces_word(token: Seq<char>, rest: Seq<char>)
    requires
        forall|i: int| 0 <= i < token.len() ==> word_char(#[trigger] token[i]),
        rest.len() == 0 || !word_char(rest[0]),
    ensures
        pieces(token + rest) == (if sha_shaped(token) {
            seq![Piece::Sha(token)] + pieces(rest)
        } else {
            with_text(token, pieces(rest))
        }),
{
    lemma_leading_word(token, rest);
    let all = token + rest;
    if token.len() == 0 {
        assert(all =~= rest);
        assert(!sha_shaped(token));
    } else {
        assert(all.skip(token.len() as int) =~= rest);
    }
}

/// A message that goes on with a character that is in no word.
proof fn lemma_pieces_other(c: char, rest: Seq<char>)
    requires
        !word_char(c),
    ensures
        pieces(seq![c] + rest) == with_text(seq![c], pieces(rest)),
{
    let all = seq![c] + rest;
    assert(all.drop_first() =~= rest);
    assert(all.take(1) =~= seq![c]);
}

fn is_word(c: char) -> (r: bool)
    ensures
        r == word_char(c),
{
    ('0' <= c && c <= '9') || ('a' <= c && c <= 'z') || ('A' <= c && c <= 'Z') || c
        == '_'
}

/// Whether a word is shaped like a SHA-1.
///
/// All-digit runs are included, so a date ("20250101") or a bug number
/// ("1234567") is hex-shaped enough to be linkified. Whether such a link goes
/// anywhere is left to resolving it: one that names no object reports "unknown
/// SHA" rather than rendering as a commit.
pub fn is_sha1(token: &str) -> (r: bool)
    ensures
        r == sha_shaped(token@),
{
    let chars = chars_of(token);
    if chars.len() < 7 || chars.len() > 40 {
        return false;
    }
    let mut i: usize = 0;
    while i < chars.len()
        invariant
            i <= chars@.len(),
            chars@ == token@,
            forall|j: int| 0 <= j < i ==> sha_char(#[trigger] token@[j]),
        decreases chars@.len() - i,
    {
        let c: char = chars[i];
        if !(('0' <= c && c <= '9') || ('a' <= c && c <= 'f')) {
            assert(!sha_char(token@[i as int]));
            return false;
        }
        i = i + 1;
    }
    true
}

/// The segments that stand when the current word has ended, and the text that
/// stands behind them.
pub open spec fn flushed(token: Seq<char>, t: Seq<char>, segments: Seq<Piece>) -> (
    Seq<char>,
    Seq<Piece>,
) {
    if sha_shaped(token) {
        (
            Seq::empty(),
            (if t.len() == 0 {
                segments
            } else {
                segments.push(Piece::Text(t))
            }).push(Piece::Sha(token)),
        )
    } else {
        (t + token, segments)
    }
}

/// End the current word: it is a segment of its own if it looks like a commit
/// reference, and goes on the running text otherwise.
fn flush_token(token: &mut String, t: &mut String, segments: &mut Vec<MessageSegment>)
    ensures
        final(token)@.len() == 0,
        (final(t)@, pieces_view(final(segments)@)) == flushed(
            old(token)@,
            old(t)@,
            pieces_view(old(segments)@),
        ),
{
    let ghost was = pieces_view(segments@);
    if is_sha1(token.as_str()) {
        if !t.as_str().is_empty() {
            let mut taken = String::new();
            std::mem::swap(&mut taken, t);
            segments.push(MessageSegment::Text(taken));
            assert(pieces_view(segments@) =~= was.push(Piece::Text(old(t)@)));
        } else {
            assert(t@ =~= Seq::empty());
        }
        let ghost now = pieces_view(segments@);
        let mut taken = String::new();
        std::mem::swap(&mut taken, token);
        segments.push(MessageSegment::Sha(taken));
        assert(pieces_view(segments@) =~= now.push(Piece::Sha(old(token)@)));
    } else {
        t.append(token.as_str());
        *token = String::new();
    }
}

/// What a message comes to when some of it has been read: the segments that
/// stand, and what the running text, the current word and the rest make.
spec fn as_read(
    segments: Seq<Piece>,
    t: Seq<char>,
    token: Seq<char>,
    rest: Seq<char>,
) -> Seq<Piece> {
    segments + with_text(t, pieces(token + rest))
}

/// Ending the current word changes nothing of what a message comes to.
proof fn lemma_flush(segments: Seq<Piece>, t: Seq<char>, token: Seq<char>, rest: Seq<char>)
    requires
        forall|i: int| 0 <= i < token.len() ==> word_char(#[trigger] token[i]),
        rest.len() == 0 || !word_char(rest[0]),
    ensures
        as_read(segments, t, token, rest) == as_read(
            flushed(token, t, segments).1,
            flushed(token, t, segments).0,
            Seq::empty(),
            rest,
        ),
{
    lemma_pieces_word(token, rest);
    assert(Seq::<char>::empty() + rest =~= rest);
    if sha_shaped(token) {
        let after = seq![Piece::Sha(token)] + pieces(rest);
        assert(after[0] == Piece::Sha(token));
        let (_, segs) = flushed(token, t, segments);
        if t.len() == 0 {
            assert(segments + with_text(t, after) =~= segs + pieces(rest));
        } else {
            assert(with_text(t, after) == seq![Piece::Text(t)] + after);
            assert(segments + with_text(t, after) =~= segs + pieces(rest));
        }
    } else {
        lemma_with_text(t, token, pieces(rest));
    }
}

/// Split a commit message into text and SHA segments. SHA-1 references become
/// links to the referenced commit; everything else is plain text.
pub fn linkify_message(message: &str) -> (r: Vec<MessageSegment>)
    ensures
        pieces_view(r@) == pieces(message@),
{
    let mut segments: Vec<MessageSegment> = Vec::new();
    let mut t = String::new();
    let mut token = String::new();
    proof {
        assert(token@ + message@.skip(0) =~= message@);
        assert(pieces_view(segments@) =~= Seq::empty());
        assert(as_read(Seq::empty(), t@, token@, message@.skip(0)) =~= pieces(message@));
    }
    for c in it: message.chars()
        invariant
            it.seq() == message@,
            forall|i: int| 0 <= i < token@.len() ==> word_char(#[trigger] token@[i]),
            as_read(pieces_view(segments@), t@, token@, message@.skip(it.index() as int))
                == pieces(message@),
    {
        let ghost rest = message@.skip(it.index() as int);
        let ghost later = message@.skip(it.index() + 1);
        proof {
            assert(rest =~= seq![c] + later);
        }
        // Words are ASCII alphanumerics and underscores; anything else ends
        // the current one, so a hash inside "word_abc1234" is not matched.
        if is_word(c) {
            proof {
                assert(token@ + rest =~= token@.push(c) + later);
            }
            token.push(c);
        } else {
            proof {
                assert(rest[0] == c);
                lemma_flush(pieces_view(segments@), t@, token@, rest);
            }
            flush_token(&mut token, &mut t, &mut segments);
            proof {
                lemma_pieces_other(c, later);
                assert(Seq::<char>::empty() + rest =~= rest);
                assert(t@.push(c) =~= t@ + seq![c]);
                lemma_with_text(t@, seq![c], pieces(later));
                assert(token@ + later =~= later);
            }
            t.push(c);
        }
    }
    proof {
        let rest = message@.skip(message@.len() as int);
        assert(rest.len() == 0);
        lemma_flush(pieces_view(segments@), t@, token@, rest);
    }
    flush_token(&mut token, &mut t, &mut segments);
    proof {
        let rest = message@.skip(message@.len() as int);
        assert(Seq::<char>::empty() + rest =~= Seq::<char>::empty());
        assert(pieces(Seq::<char>::empty()) =~= Seq::empty());
    }
    let ghost was = pieces_view(segments@);
    if !t.as_str().is_empty() {
        segments.push(MessageSegment::Text(t));
        assert(pieces_view(segments@) =~= was + seq![Piece::Text(t@)]);
    } else {
        assert(was + Seq::<Piece>::empty() =~= was);
    }
    segments
}

impl MessageSegment {
    /// Where the segment links to; text links nowhere.
    pub fn href(&self) -> (r: Option<String>)
        ensures
            match self@ {
                Piece::Text(_) => r is None,
                Piece::Sha(s) => r matches Some(url) && url@ == "#!/commit/"@ + s,
            },
    {
        match self {
            MessageSegment::Text(_) => None,
            MessageSegment::Sha(s) => Some(concat("#!/commit/", s.as_str())),
        }
    }
}

/// The text of pieces, one after another.
pub open spec fn pieces_text(pieces: Seq<Piece>) -> Seq<char>
    decreases pieces.len(),
{
    if pieces.len() == 0 {
        Seq::empty()
    } else {
        (match pieces[0] {
            Piece::Text(t) => t,
            Piece::Sha(s) => s,
        }) + pieces_text(pieces.drop_first())
    }
}

proof fn lemma_text_in_front(t: Seq<char>, rest: Seq<Piece>)
    ensures
        pieces_text(with_text(t, rest)) == t + pieces_text(rest),
{
    let all = with_text(t, rest);
    if t.len() == 0 {
        assert(t + pieces_text(rest) =~= pieces_text(rest));
    } else if rest.len() == 0 {
        assert(all.drop_first() =~= Seq::empty());
        assert(pieces_text(all.drop_first()) =~= Seq::empty());
        assert(pieces_text(all) =~= t + pieces_text(rest));
    } else {
        match rest[0] {
            Piece::Text(u) => {
                assert(all.drop_first() =~= rest.drop_first());
                assert(pieces_text(all) =~= t + pieces_text(rest));
            },
            Piece::Sha(_) => {
                assert(all.drop_first() =~= rest);
            },
        }
    }
}

proof fn lemma_word_is_front(s: Seq<char>)
    ensures
        leading_word(s).len() <= s.len(),
        leading_word(s) == s.take(leading_word(s).len() as int),
        forall|i: int| 0 <= i < leading_word(s).len() ==> word_char(#[trigger] leading_word(s)[i]),
        leading_word(s).len() < s.len() ==> !word_char(s[leading_word(s).len() as int]),
    decreases s.len(),
{
    if s.len() > 0 && word_char(s[0]) {
        let rest = s.drop_first();
        lemma_word_is_front(rest);
        let word = leading_word(s);
        assert(word =~= s.take(word.len() as int)) by {
            assert forall|i: int| 0 <= i < word.len() implies word[i] == s[i] by {
                if i > 0 {
                    assert(word[i] == leading_word(rest)[i - 1]);
                    assert(rest.take(leading_word(rest).len() as int)[i - 1] == rest[i - 1]);
                }
            }
        }
        assert forall|i: int| 0 <= i < word.len() implies word_char(#[trigger] word[i]) by {
            if i > 0 {
                assert(word[i] == leading_word(rest)[i - 1]);
            }
        }
    } else {
        assert(leading_word(s) =~= s.take(0));
    }
}

/// Splitting a message loses nothing of it.
pub proof fn pieces_are_the_message(message: Seq<char>)
    ensures
        pieces_text(pieces(message)) == message,
    decreases message.len(),
{
    lemma_word_is_front(message);
    let word = leading_word(message);
    if message.len() == 0 {
        assert(pieces_text(pieces(message)) =~= message);
    } else if word.len() == 0 {
        pieces_are_the_message(message.drop_first());
        lemma_text_in_front(message.take(1), pieces(message.drop_first()));
        assert(message.take(1) + message.drop_first() =~= message);
    } else {
        let rest = message.skip(word.len() as int);
        pieces_are_the_message(rest);
        assert(word + rest =~= message);
        if sha_shaped(word) {
            let all = seq![Piece::Sha(word)] + pieces(rest);
            assert(all.drop_first() =~= pieces(rest));
            assert(all[0] == Piece::Sha(word));
        } else {
            lemma_text_in_front(word, pieces(rest));
        }
    }
}

/// Every link is shaped like a SHA-1, no text is empty, and between two texts
/// there is a link.
pub open spec fn well_split(pieces: Seq<Piece>) -> bool {
    &&& forall|i: int|
        0 <= i < pieces.len() ==> (match #[trigger] pieces[i] {
            Piece::Text(t) => t.len() > 0,
            Piece::Sha(s) => sha_shaped(s),
        })
    &&& forall|i: int|
        0 <= i < pieces.len() - 1 && (#[trigger] pieces[i]) is Text ==> pieces[i + 1] is Sha
}

proof fn lemma_split_text(t: Seq<char>, rest: Seq<Piece>)
    requires
        well_split(rest),
    ensures
        well_split(with_text(t, rest)),
{
    let all = with_text(t, rest);
    if t.len() > 0 && rest.len() > 0 {
        match rest[0] {
            Piece::Text(u) => {
                assert forall|i: int| 0 <= i < all.len() implies (match #[trigger] all[i] {
                    Piece::Text(t) => t.len() > 0,
                    Piece::Sha(s) => sha_shaped(s),
                }) by {
                    if i > 0 {
                        assert(all[i] == rest[i]);
                    }
                }
                assert forall|i: int| 0 <= i < all.len() - 1 && (#[trigger] all[i]) is Text implies all[i + 1] is Sha by {
                    assert(all[i + 1] == rest[i + 1]);
                    assert(all[i] is Text == rest[i] is Text);
                }
            },
            Piece::Sha(_) => {
                assert forall|i: int| 0 <= i < all.len() implies (match #[trigger] all[i] {
                    Piece::Text(t) => t.len() > 0,
                    Piece::Sha(s) => sha_shaped(s),
                }) by {
                    if i > 0 {
                        assert(all[i] == rest[i - 1]);
                    }
                }
                assert forall|i: int| 0 <= i < all.len() - 1 && (#[trigger] all[i]) is Text implies all[i + 1] is Sha by {
                    assert(all[i + 1] == rest[i]);
                    if i > 0 {
                        assert(all[i] == rest[i - 1]);
                    }
                }
            },
        }
    }
}

/// A message is split into links that are shaped like a SHA-1 and the longest
/// texts between them.
pub proof fn messages_are_well_split(message: Seq<char>)
    ensures
        well_split(pieces(message)),
    decreases message.len(),
{
    lemma_word_is_front(message);
    let word = leading_word(message);
    if message.len() == 0 {
    } else if word.len() == 0 {
        messages_are_well_split(message.drop_first());
        lemma_split_text(message.take(1), pieces(message.drop_first()));
    } else {
        let rest = pieces(message.skip(word.len() as int));
        messages_are_well_split(message.skip(word.len() as int));
        if sha_shaped(word) {
            let all = seq![Piece::Sha(word)] + rest;
            assert forall|i: int| 0 <= i < all.len() implies (match #[trigger] all[i] {
                Piece::Text(t) => t.len() > 0,
                Piece::Sha(s) => sha_shaped(s),
            }) by {
                if i > 0 {
                    assert(all[i] == rest[i - 1]);
                }
            }
            assert forall|i: int| 0 <= i < all.len() - 1 && (#[trigger] all[i]) is Text implies all[i + 1] is Sha by {
                if i > 0 {
                    assert(all[i] == rest[i - 1]);
                    assert(all[i + 1] == rest[i]);
                }
            }
        } else {
            lemma_split_text(word, rest);
        }
    }
}

/// Two runs of pieces, one behind the other; text that meets text is one piece
/// with it.
pub open spec fn pieces_joined(a: Seq<Piece>, b: Seq<Piece>) -> Seq<Piece> {
    match (a.last(), b.first()) {
        (Piece::Text(t), Piece::Text(u)) if a.len() > 0 && b.len() > 0 => a.drop_last().push(
            Piece::Text(t + u),
        ) + b.drop_first(),
        _ => a + b,
    }
}

proof fn lemma_joined_behind_text(t: Seq<char>, a: Seq<Piece>, b: Seq<Piece>)
    ensures
        pieces_joined(with_text(t, a), b) == with_text(t, pieces_joined(a, b)),
{
    if t.len() > 0 {
        let front = with_text(t, a);
        let both = pieces_joined(a, b);
        if a.len() == 0 {
            assert(both =~= b);
            assert(front.last() == Piece::Text(t));
            if b.len() > 0 {
                match b[0] {
                    Piece::Text(u) => {
                        assert(front.drop_last() =~= Seq::empty());
                        assert(pieces_joined(front, b) =~= with_text(t, b));
                    },
                    Piece::Sha(_) => {
                        assert(pieces_joined(front, b) =~= with_text(t, b));
                    },
                }
            } else {
                assert(pieces_joined(front, b) =~= with_text(t, b));
            }
        } else {
            match a[0] {
                Piece::Text(u) => {
                    assert(front =~= seq![Piece::Text(t + u)] + a.drop_first());
                    if a.len() == 1 {
                        assert(front.last() == Piece::Text(t + u));
                        if b.len() > 0 && b[0] is Text {
                            let v = b[0]->Text_0;
                            assert(t + u + v =~= t + (u + v));
                            assert(both[0] == Piece::Text(u + v));
                            assert(pieces_joined(front, b) =~= with_text(t, both));
                        } else {
                            assert(both =~= a + b);
                            assert(pieces_joined(front, b) =~= with_text(t, both));
                        }
                    } else {
                        assert(front.last() == a.last());
                        assert(both[0] == a[0]);
                        assert(pieces_joined(front, b) =~= with_text(t, both));
                    }
                },
                Piece::Sha(_) => {
                    assert(front =~= seq![Piece::Text(t)] + a);
                    assert(front.last() == a.last());
                    assert(both[0] == a[0]);
                    assert(pieces_joined(front, b) =~= with_text(t, both));
                },
            }
        }
    }
}

proof fn lemma_pieces_joined(a: Seq<char>, b: Seq<char>)
    requires
        a.len() == 0 || b.len() == 0 || !word_char(a.last()) || !word_char(b[0]),
    ensures
        pieces(a + b) == pieces_joined(pieces(a), pieces(b)),
    decreases a.len(),
{
    lemma_word_is_front(a);
    let word = leading_word(a);
    if a.len() == 0 {
        assert(a + b =~= b);
        assert(pieces_joined(pieces(a), pieces(b)) =~= pieces(b));
    } else if word.len() == 0 {
        let rest = a.drop_first();
        if rest.len() > 0 {
            assert(rest.last() == a.last());
        }
        lemma_pieces_joined(rest, b);
        lemma_pieces_other(a[0], rest + b);
        lemma_pieces_other(a[0], rest);
        assert(seq![a[0]] + rest =~= a);
        assert(seq![a[0]] + (rest + b) =~= a + b);
        lemma_joined_behind_text(seq![a[0]], pieces(rest), pieces(b));
    } else {
        let rest = a.skip(word.len() as int);
        assert(word + rest =~= a);
        assert(word + (rest + b) =~= a + b);
        if rest.len() > 0 {
            assert(rest.last() == a.last());
            assert((rest + b)[0] == a[word.len() as int]);
        } else {
            assert(a.last() == word.last());
            assert(word_char(word[word.len() - 1]));
            assert(rest + b =~= b);
        }
        lemma_pieces_joined(rest, b);
        lemma_pieces_word(word, rest);
        lemma_pieces_word(word, rest + b);
        if sha_shaped(word) {
            let front = seq![Piece::Sha(word)] + pieces(rest);
            if pieces(rest).len() > 0 {
                assert(front.last() == pieces(rest).last());
            } else {
                assert(front.last() == Piece::Sha(word));
            }
            assert(pieces_joined(front, pieces(b)) =~= seq![Piece::Sha(word)] + pieces_joined(
                pieces(rest),
                pieces(b),
            ));
        } else {
            lemma_joined_behind_text(word, pieces(rest), pieces(b));
        }
    }
}

/// A message can be read in parts, wherever it is not cut inside a word: between
/// letters, digits and underscores.
pub proof fn messages_are_read_word_by_word(a: Seq<char>, b: Seq<char>)
    requires
        ({
            let c = a.last();
            let d = b[0];
            ||| a.len() == 0
            ||| b.len() == 0
            ||| !('0' <= c <= '9' || 'a' <= c <= 'z' || 'A' <= c <= 'Z' || c == '_')
            ||| !('0' <= d <= '9' || 'a' <= d <= 'z' || 'A' <= d <= 'Z' || d == '_')
        }),
    ensures
        pieces(a + b) == pieces_joined(pieces(a), pieces(b)),
{
    lemma_pieces_joined(a, b);
}

/// Seven to forty digits from `0` to `9` and from `a` to `f` are a link of their
/// own wherever they stand as a word.
pub proof fn hashes_are_links(a: Seq<char>, token: Seq<char>, b: Seq<char>)
    requires
        7 <= token.len() <= 40,
        forall|i: int|
            0 <= i < token.len() ==> '0' <= #[trigger] token[i] <= '9' || 'a' <= token[i] <= 'f',
        ({
            let c = a.last();
            a.len() == 0 || !('0' <= c <= '9' || 'a' <= c <= 'z' || 'A' <= c <= 'Z' || c == '_')
        }),
        ({
            let d = b[0];
            b.len() == 0 || !('0' <= d <= '9' || 'a' <= d <= 'z' || 'A' <= d <= 'Z' || d == '_')
        }),
    ensures
        pieces(a + token + b) == pieces(a).push(Piece::Sha(token)) + pieces(b),
        pieces(token) == seq![Piece::Sha(token)],
        sha_shaped(token),
{
    let none = Seq::<char>::empty();
    lemma_pieces_word(token, b);
    lemma_pieces_word(token, none);
    assert(token + none =~= token);
    assert(pieces(none) =~= Seq::empty());
    assert(pieces(token) =~= seq![Piece::Sha(token)]);
    lemma_pieces_joined(a, token + b);
    assert(a + (token + b) =~= a + token + b);
    let behind = seq![Piece::Sha(token)] + pieces(b);
    assert(behind[0] == Piece::Sha(token));
    assert(pieces(a + token + b) =~= pieces(a).push(Piece::Sha(token)) + pieces(b));
}

/// A word that is shorter or longer than a hash can be, or that holds another
/// letter, is text.
pub proof fn other_words_are_text(word: Seq<char>)
    requires
        word.len() > 0,
        forall|i: int|
            0 <= i < word.len() ==> '0' <= #[trigger] word[i] <= '9' || 'a' <= word[i] <= 'z'
                || 'A' <= word[i] <= 'Z' || word[i] == '_',
        ({
            ||| word.len() < 7
            ||| word.len() > 40
            ||| exists|i: int|
                0 <= i < word.len() && !('0' <= #[trigger] word[i] <= '9' || 'a' <= word[i] <= 'f')
        }),
    ensures
        pieces(word) == seq![Piece::Text(word)],
        !sha_shaped(word),
{
    let none = Seq::<char>::empty();
    if sha_shaped(word) {
        let i = choose|i: int|
            0 <= i < word.len() && !('0' <= #[trigger] word[i] <= '9' || 'a' <= word[i] <= 'f');
        assert(sha_char(word[i]));
    }
    lemma_pieces_word(word, none);
    assert(word + none =~= word);
    assert(pieces(none) =~= Seq::empty());
}

/// What is in no word is text.
pub proof fn other_characters_are_text(c: char)
    requires
        !('0' <= c <= '9' || 'a' <= c <= 'z' || 'A' <= c <= 'Z' || c == '_'),
    ensures
        pieces(seq![c]) == seq![Piece::Text(seq![c])],
{
    let none = Seq::<char>::empty();
    lemma_pieces_other(c, none);
    assert(seq![c] + none =~= seq![c]);
    assert(pieces(none) =~= Seq::empty());
}

} // verus!
