//! Text as sequences of characters: searching, splitting, joining, trimming.

use vstd::prelude::*;
use vstd::std_specs::iter::IteratorSpec;

verus! {

/// The position of the first `c` in `s`, or the length of `s` where there is
/// none.
pub open spec fn first_index(s: Seq<char>, c: char) -> int
    decreases s.len(),
{
    if s.len() == 0 || s[0] == c {
        0
    } else {
        1 + first_index(s.drop_first(), c)
    }
}

/// The position of the last `c` in `s`, or -1 where there is none.
pub open spec fn last_index(s: Seq<char>, c: char) -> int
    decreases s.len(),
{
    if s.len() == 0 {
        -1
    } else if s.last() == c {
        s.len() - 1
    } else {
        last_index(s.drop_last(), c)
    }
}

/// `s` up to the first `c`, or all of it where there is none.
pub open spec fn before(s: Seq<char>, c: char) -> Seq<char> {
    s.take(first_index(s, c))
}

/// What follows the first `c` in `s`, or nothing where there is none.
pub open spec fn after(s: Seq<char>, c: char) -> Seq<char> {
    if first_index(s, c) < s.len() {
        s.skip(first_index(s, c) + 1)
    } else {
        Seq::empty()
    }
}

/// The pieces of `s` between occurrences of `c`.
pub open spec fn split(s: Seq<char>, c: char) -> Seq<Seq<char>>
    decreases s.len(),
{
    if 0 <= first_index(s, c) < s.len() {
        seq![before(s, c)] + split(after(s, c), c)
    } else {
        seq![s]
    }
}

/// `parts` with `sep` between each two of them.
pub open spec fn join(parts: Seq<Seq<char>>, sep: Seq<char>) -> Seq<char>
    decreases parts.len(),
{
    if parts.len() == 0 {
        Seq::empty()
    } else if parts.len() == 1 {
        parts[0]
    } else {
        parts[0] + sep + join(parts.drop_first(), sep)
    }
}

/// `s` without `prefix` at its start, where it is there.
pub open spec fn strip_prefix(s: Seq<char>, prefix: Seq<char>) -> Option<Seq<char>> {
    if prefix.is_prefix_of(s) {
        Some(s.skip(prefix.len() as int))
    } else {
        None
    }
}

/// The position at which `pat` first stands in `s`.
pub open spec fn find(s: Seq<char>, pat: Seq<char>) -> Option<int>
    decreases s.len(),
{
    if pat.is_prefix_of(s) {
        Some(0int)
    } else if s.len() == 0 {
        None
    } else {
        match find(s.drop_first(), pat) {
            Some(i) => Some(i + 1),
            None => None,
        }
    }
}

/// `s` without the run of `c` it begins with.
pub open spec fn trim_start(s: Seq<char>, c: char) -> Seq<char>
    decreases s.len(),
{
    if s.len() > 0 && s[0] == c {
        trim_start(s.drop_first(), c)
    } else {
        s
    }
}

/// `s` without the run of `c` it ends with.
pub open spec fn trim_end(s: Seq<char>, c: char) -> Seq<char>
    decreases s.len(),
{
    if s.len() > 0 && s.last() == c {
        trim_end(s.drop_last(), c)
    } else {
        s
    }
}

/// The contents of a vector of strings.
pub open spec fn texts(v: Seq<String>) -> Seq<Seq<char>> {
    v.map_values(|s: String| s@)
}

/// `String::push` appends one character.
pub assume_specification[ String::push ](s: &mut String, c: char)
    ensures
        final(s)@ == old(s)@.push(c),
;

pub proof fn lemma_first_index(s: Seq<char>, c: char)
    ensures
        0 <= first_index(s, c) <= s.len(),
        first_index(s, c) < s.len() ==> s[first_index(s, c)] == c,
        forall|j: int| 0 <= j < first_index(s, c) ==> s[j] != c,
        first_index(s, c) < s.len() <==> s.contains(c),
    decreases s.len(),
{
    if s.len() > 0 && s[0] != c {
        let t = s.drop_first();
        lemma_first_index(t, c);
        assert forall|j: int| 0 <= j < first_index(s, c) implies s[j] != c by {
            if j > 0 {
                assert(t[j - 1] == s[j]);
            }
        }
        if s.contains(c) {
            let k = s.index_of(c);
            assert(t[k - 1] == c);
        }
        if t.contains(c) {
            let k = t.index_of(c);
            assert(s[k + 1] == c);
        }
    }
}

/// A position holding `c`, with no `c` before it, is the first.
pub proof fn lemma_first_index_is(s: Seq<char>, c: char, i: int)
    requires
        0 <= i <= s.len(),
        i < s.len() ==> s[i] == c,
        forall|j: int| 0 <= j < i ==> s[j] != c,
    ensures
        first_index(s, c) == i,
{
    lemma_first_index(s, c);
}

pub proof fn lemma_last_index(s: Seq<char>, c: char)
    ensures
        -1 <= last_index(s, c) < s.len(),
        last_index(s, c) >= 0 ==> s[last_index(s, c)] == c,
        forall|j: int| last_index(s, c) < j < s.len() ==> s[j] != c,
    decreases s.len(),
{
    if s.len() > 0 && s.last() != c {
        let t = s.drop_last();
        lemma_last_index(t, c);
        assert forall|j: int| last_index(s, c) < j < s.len() implies s[j] != c by {
            if j < s.len() - 1 {
                assert(t[j] == s[j]);
            }
        }
    }
}

/// The position of the first `c` in `s`.
pub fn find_char(s: &str, c: char) -> (r: Option<usize>)
    ensures
        match r {
            Some(i) => i == first_index(s@, c) && i < s@.len(),
            None => first_index(s@, c) == s@.len(),
        },
{
    let mut i: usize = 0;
    let n: usize = s.unicode_len();
    for x in it: s.chars()
        invariant
            i == it.index(),
            it.seq() == s@,
            n == s@.len(),
            forall|j: int| 0 <= j < it.index() ==> s@[j] != c,
    {
        if x == c {
            proof {
                lemma_first_index(s@, c);
            }
            return Some(i);
        }
        i = i + 1;
    }
    proof {
        lemma_first_index(s@, c);
    }
    None
}

/// Whether the two hold the same characters.
pub fn text_eq(a: &str, b: &str) -> (r: bool)
    ensures
        r == (a@ == b@),
{
    let mut x = a.chars();
    let mut y = b.chars();
    let ghost mut i: int = 0;
    loop
        invariant
            0 <= i <= a@.len(),
            i <= b@.len(),
            x.remaining() == a@.skip(i),
            y.remaining() == b@.skip(i),
            a@.take(i) == b@.take(i),
        decreases a@.len() - i,
    {
        match (x.next(), y.next()) {
            (None, None) => {
                assert(a@ == a@.take(i));
                assert(b@ == b@.take(i));
                return true;
            },
            (Some(c), Some(d)) => {
                if c != d {
                    assert(a@[i] == c && b@[i] == d);
                    return false;
                }
                proof {
                    assert(a@.skip(i).drop_first() =~= a@.skip(i + 1));
                    assert(b@.skip(i).drop_first() =~= b@.skip(i + 1));
                    assert(a@.take(i + 1) =~= a@.take(i).push(a@[i]));
                    assert(b@.take(i + 1) =~= b@.take(i).push(b@[i]));
                    i = i + 1;
                }
            },
            _ => {
                return false;
            },
        }
    }
}

/// The characters of `s`, in order.
pub fn chars_of(s: &str) -> (r: Vec<char>)
    ensures
        r@ == s@,
{
    let mut r: Vec<char> = Vec::new();
    for x in it: s.chars()
        invariant
            it.seq() == s@,
            r@ == s@.take(it.index()),
    {
        r.push(x);
        assert(s@.take(it.index() + 1) =~= s@.take(it.index()).push(x));
    }
    assert(s@.take(s@.len() as int) =~= s@);
    r
}

/// The string holding `v[from..to]`.
pub fn string_of(v: &Vec<char>, from: usize, to: usize) -> (r: String)
    requires
        from <= to <= v@.len(),
    ensures
        r@ == v@.subrange(from as int, to as int),
{
    let mut r: String = String::new();
    let mut i: usize = from;
    while i < to
        invariant
            from <= i <= to <= v@.len(),
            r@ == v@.subrange(from as int, i as int),
        decreases to - i,
    {
        r.push(v[i]);
        assert(v@.subrange(from as int, i + 1) =~= v@.subrange(from as int, i as int).push(
            v@[i as int],
        ));
        i = i + 1;
    }
    r
}

/// `a` followed by `b`.
pub fn concat(a: &str, b: &str) -> (r: String)
    ensures
        r@ == a@ + b@,
{
    let mut r: String = a.to_string();
    r.append(b);
    r
}

/// `a`, `b` and `c`, one after the other.
pub fn concat3(a: &str, b: &str, c: &str) -> (r: String)
    ensures
        r@ == a@ + b@ + c@,
{
    let mut r: String = a.to_string();
    r.append(b);
    r.append(c);
    r
}

/// The position of the last `c` in `s`.
pub fn rfind_char(s: &str, c: char) -> (r: Option<usize>)
    ensures
        match r {
            Some(i) => i == last_index(s@, c),
            None => last_index(s@, c) == -1,
        },
{
    let v = chars_of(s);
    let mut i: usize = v.len();
    while i > 0
        invariant
            v@ == s@,
            i <= v@.len(),
            forall|j: int| i <= j < v@.len() ==> v@[j] != c,
        decreases i,
    {
        if v[i - 1] == c {
            proof {
                lemma_last_index(s@, c);
            }
            return Some(i - 1);
        }
        i = i - 1;
    }
    proof {
        lemma_last_index(s@, c);
    }
    None
}

/// Whether `c` stands anywhere in `s`.
pub fn contains_char(s: &str, c: char) -> (r: bool)
    ensures
        r == s@.contains(c),
{
    proof {
        lemma_first_index(s@, c);
    }
    find_char(s, c).is_some()
}

/// Whether `s` begins with `p`.
pub fn has_prefix(s: &str, p: &str) -> (r: bool)
    ensures
        r == p@.is_prefix_of(s@),
{
    let mut x = s.chars();
    let mut y = p.chars();
    let ghost mut i: int = 0;
    loop
        invariant
            0 <= i <= s@.len(),
            i <= p@.len(),
            x.remaining() == s@.skip(i),
            y.remaining() == p@.skip(i),
            s@.take(i) == p@.take(i),
        decreases p@.len() - i,
    {
        match y.next() {
            None => {
                assert(p@ == p@.take(i));
                assert(s@.subrange(0, p@.len() as int) =~= s@.take(i));
                return true;
            },
            Some(d) => {
                match x.next() {
                    None => {
                        return false;
                    },
                    Some(c) => {
                        if c != d {
                            assert(s@[i] == c && p@[i] == d);
                            assert(i < p@.len() <= s@.len() ==> s@.subrange(0, p@.len() as int)[i]
                                != p@[i]);
                            return false;
                        }
                        proof {
                            assert(s@.skip(i).drop_first() =~= s@.skip(i + 1));
                            assert(p@.skip(i).drop_first() =~= p@.skip(i + 1));
                            assert(s@.take(i + 1) =~= s@.take(i).push(s@[i]));
                            assert(p@.take(i + 1) =~= p@.take(i).push(p@[i]));
                            i = i + 1;
                        }
                    },
                }
            },
        }
    }
}

/// `s` without `p` at its start, where it is there.
pub fn without_prefix<'a>(s: &'a str, p: &str) -> (r: Option<&'a str>)
    ensures
        match r {
            Some(rest) => strip_prefix(s@, p@) == Some(rest@),
            None => strip_prefix(s@, p@) is None,
        },
{
    if has_prefix(s, p) {
        let n: usize = p.unicode_len();
        let m: usize = s.unicode_len();
        Some(s.substring_char(n, m))
    } else {
        None
    }
}

/// Whether `s` ends with `p`.
pub fn has_suffix(s: &str, p: &str) -> (r: bool)
    ensures
        r == p@.is_suffix_of(s@),
{
    let n: usize = p.unicode_len();
    let m: usize = s.unicode_len();
    if m < n {
        return false;
    }
    text_eq(s.substring_char(m - n, m), p)
}

/// What `find` finds: the first position at which `pat` stands.
pub proof fn lemma_find(s: Seq<char>, pat: Seq<char>)
    ensures
        match find(s, pat) {
            Some(i) => {
                &&& 0 <= i <= s.len() - pat.len()
                &&& pat.is_prefix_of(s.skip(i))
                &&& forall|j: int| 0 <= j < i ==> !pat.is_prefix_of(#[trigger] s.skip(j))
            },
            None => forall|j: int| 0 <= j <= s.len() ==> !pat.is_prefix_of(#[trigger] s.skip(j)),
        },
    decreases s.len(),
{
    assert(s.skip(0) =~= s);
    if !pat.is_prefix_of(s) && s.len() > 0 {
        let t = s.drop_first();
        lemma_find(t, pat);
        assert forall|j: int| 0 < j <= s.len() implies #[trigger] s.skip(j) == t.skip(j - 1) by {
            assert(s.skip(j) =~= t.skip(j - 1));
        }
    }
}

/// The position at which `pat` first stands in `s`.
pub fn find_text(s: &str, pat: &str) -> (r: Option<usize>)
    ensures
        match r {
            Some(i) => find(s@, pat@) == Some(i as int),
            None => find(s@, pat@) is None,
        },
{
    let n: usize = s.unicode_len();
    let mut i: usize = 0;
    while i < n
        invariant
            n == s@.len(),
            i <= n,
            forall|j: int| 0 <= j < i ==> !pat@.is_prefix_of(#[trigger] s@.skip(j)),
        decreases n - i,
    {
        if has_prefix(s.substring_char(i, n), pat) {
            proof {
                lemma_find(s@, pat@);
                assert(s@.subrange(i as int, n as int) =~= s@.skip(i as int));
            }
            return Some(i);
        }
        proof {
            assert(s@.subrange(i as int, n as int) =~= s@.skip(i as int));
        }
        i = i + 1;
    }
    proof {
        lemma_find(s@, pat@);
        assert(s@.skip(n as int) =~= Seq::<char>::empty());
    }
    if pat.is_empty() {
        assert(pat@.is_prefix_of(s@.skip(n as int)));
        Some(n)
    } else {
        None
    }
}

/// The parts of `s` before and after its first `c`.
pub fn split_once<'a>(s: &'a str, c: char) -> (r: Option<(&'a str, &'a str)>)
    ensures
        match r {
            Some((a, b)) => s@.contains(c) && a@ == before(s@, c) && b@ == after(s@, c),
            None => !s@.contains(c) && before(s@, c) == s@,
        },
{
    proof {
        lemma_first_index(s@, c);
    }
    match find_char(s, c) {
        Some(i) => {
            let n: usize = s.unicode_len();
            Some((s.substring_char(0, i), s.substring_char(i + 1, n)))
        },
        None => {
            assert(s@.take(s@.len() as int) =~= s@);
            None
        },
    }
}

/// Appending one character to `s` ends its last piece or extends it.
pub proof fn lemma_split_push(s: Seq<char>, d: char, c: char)
    ensures
        split(s, c).len() >= 1,
        split(s.push(d), c) == if d == c {
            split(s, c).push(Seq::empty())
        } else {
            split(s, c).drop_last().push(split(s, c).last().push(d))
        },
    decreases s.len(),
{
    lemma_first_index(s, c);
    lemma_first_index(s.push(d), c);
    let i = first_index(s, c);
    if i < s.len() {
        lemma_first_index_is(s.push(d), c, i);
        assert(s.push(d).take(i) =~= s.take(i));
        assert(s.push(d).skip(i + 1) =~= s.skip(i + 1).push(d));
        lemma_split_push(after(s, c), d, c);
        assert(split(s.push(d), c) =~= if d == c {
            split(s, c).push(Seq::empty())
        } else {
            split(s, c).drop_last().push(split(s, c).last().push(d))
        });
    } else if d == c {
        assert(s.push(d)[s.len() as int] == c);
        lemma_first_index_is(s.push(d), c, s.len() as int);
        assert(s.push(d).take(s.len() as int) =~= s);
        assert(s.push(d).skip(s.len() as int + 1) =~= Seq::<char>::empty());
        assert(split(Seq::<char>::empty(), c) =~= seq![Seq::<char>::empty()]);
        assert(split(s.push(d), c) =~= split(s, c).push(Seq::empty()));
    } else {
        assert forall|j: int| 0 <= j < s.push(d).len() implies s.push(d)[j] != c by {
            if j < s.len() {
                assert(s.push(d)[j] == s[j]);
            }
        }
        lemma_first_index_is(s.push(d), c, s.push(d).len() as int);
        assert(split(s.push(d), c) =~= split(s, c).drop_last().push(split(s, c).last().push(d)));
    }
}

/// The pieces of `s` between occurrences of `c`.
pub fn split_on(s: &str, c: char) -> (r: Vec<String>)
    ensures
        texts(r@) == split(s@, c),
        r@.len() >= 1,
{
    let mut out: Vec<String> = Vec::new();
    let mut cur: String = String::new();
    proof {
        assert(s@.take(0) =~= Seq::<char>::empty());
        assert(texts(out@).push(cur@) =~= seq![Seq::<char>::empty()]);
        assert(split(s@.take(0), c) =~= seq![Seq::<char>::empty()]);
    }
    for x in it: s.chars()
        invariant
            it.seq() == s@,
            split(s@.take(it.index()), c) == texts(out@).push(cur@),
    {
        let ghost done = s@.take(it.index());
        proof {
            assert(s@.take(it.index() + 1) =~= done.push(x));
            lemma_split_push(done, x, c);
            assert(texts(out@).push(cur@).drop_last() =~= texts(out@));
        }
        if x == c {
            let ghost old_out = out@;
            let ghost old_cur = cur@;
            out.push(cur);
            assert(texts(out@) =~= texts(old_out).push(old_cur));
            cur = String::new();
        } else {
            cur.push(x);
        }
    }
    proof {
        assert(s@.take(s@.len() as int) =~= s@);
        assert(texts(out@.push(cur)) =~= texts(out@).push(cur@));
    }
    out.push(cur);
    out
}

/// Adding a part at the end of a non-empty list adds the separator and it.
pub proof fn lemma_join_push(parts: Seq<Seq<char>>, p: Seq<char>, sep: Seq<char>)
    requires
        parts.len() > 0,
    ensures
        join(parts.push(p), sep) == join(parts, sep) + sep + p,
    decreases parts.len(),
{
    let all = parts.push(p);
    assert(all.drop_first() =~= parts.drop_first().push(p));
    if parts.len() == 1 {
        assert(all.drop_first() =~= seq![p]);
        assert(join(seq![p], sep) == p);
        assert(join(all, sep) =~= parts[0] + sep + p);
    } else {
        lemma_join_push(parts.drop_first(), p, sep);
        assert(join(all, sep) =~= join(parts, sep) + sep + p);
    }
}

/// `parts` with `sep` between each two of them.
pub fn join_with(parts: &Vec<String>, sep: &str) -> (r: String)
    ensures
        r@ == join(texts(parts@), sep@),
{
    let mut r: String = String::new();
    let n: usize = parts.len();
    let mut i: usize = 0;
    while i < n
        invariant
            n == parts@.len(),
            i <= n,
            r@ == join(texts(parts@).take(i as int), sep@),
        decreases n - i,
    {
        proof {
            let all = texts(parts@);
            assert(all.take(i + 1) =~= all.take(i as int).push(all[i as int]));
            if i > 0 {
                lemma_join_push(all.take(i as int), all[i as int], sep@);
            } else {
                assert(all.take(1) =~= seq![all[0]]);
            }
        }
        if i > 0 {
            r.append(sep);
        }
        r.append(parts[i].as_str());
        i = i + 1;
    }
    assert(texts(parts@).take(n as int) =~= texts(parts@));
    r
}

/// `s` without the run of `c` it begins with.
pub fn trim_start_of<'a>(s: &'a str, c: char) -> (r: &'a str)
    ensures
        r@ == trim_start(s@, c),
{
    let v = chars_of(s);
    let n: usize = v.len();
    let mut i: usize = 0;
    proof {
        assert(s@.skip(0) =~= s@);
    }
    while i < n && v[i] == c
        invariant
            v@ == s@,
            n == v@.len(),
            i <= n,
            trim_start(s@, c) == trim_start(s@.skip(i as int), c),
        decreases n - i,
    {
        assert(s@.skip(i as int).drop_first() =~= s@.skip(i + 1));
        i = i + 1;
    }
    assert(s@.subrange(i as int, n as int) =~= s@.skip(i as int));
    s.substring_char(i, n)
}

/// `s` without the run of `c` it ends with.
pub fn trim_end_of<'a>(s: &'a str, c: char) -> (r: &'a str)
    ensures
        r@ == trim_end(s@, c),
{
    let v = chars_of(s);
    let mut i: usize = v.len();
    proof {
        assert(s@.take(s@.len() as int) =~= s@);
    }
    while i > 0 && v[i - 1] == c
        invariant
            v@ == s@,
            i <= v@.len(),
            trim_end(s@, c) == trim_end(s@.take(i as int), c),
        decreases i,
    {
        assert(s@.take(i as int).drop_last() =~= s@.take(i - 1));
        i = i - 1;
    }
    assert(s@.subrange(0, i as int) =~= s@.take(i as int));
    s.substring_char(0, i)
}

/// No piece of a split holds the separator.
pub proof fn lemma_split_pieces(s: Seq<char>, c: char)
    ensures
        split(s, c).len() >= 1,
        forall|i: int| 0 <= i < split(s, c).len() ==> !(#[trigger] split(s, c)[i]).contains(c),
    decreases s.len(),
{
    lemma_first_index(s, c);
    if first_index(s, c) < s.len() {
        lemma_split_pieces(after(s, c), c);
        let head = before(s, c);
        assert(!head.contains(c)) by {
            if head.contains(c) {
                let k = head.index_of(c);
                assert(s[k] == c);
            }
        }
        assert forall|i: int| 0 <= i < split(s, c).len() implies !(#[trigger] split(s, c)[i]).contains(
            c,
        ) by {
            if i > 0 {
                assert(split(s, c)[i] == split(after(s, c), c)[i - 1]);
            }
        }
    }
}

/// Splitting and joining again gives the text back.
pub proof fn joining_a_split_gives_the_text_back(s: Seq<char>, c: char)
    ensures
        join(split(s, c), seq![c]) == s,
    decreases s.len(),
{
    lemma_first_index(s, c);
    if first_index(s, c) < s.len() {
        joining_a_split_gives_the_text_back(after(s, c), c);
        lemma_split_pieces(after(s, c), c);
        let parts = split(s, c);
        assert(parts.drop_first() =~= split(after(s, c), c));
        assert(join(parts, seq![c]) =~= s);
    }
}

/// Joining pieces that do not hold the separator and splitting again gives the
/// pieces back.
pub proof fn splitting_a_join_gives_the_pieces_back(parts: Seq<Seq<char>>, c: char)
    requires
        parts.len() > 0,
        forall|i: int| 0 <= i < parts.len() ==> !(#[trigger] parts[i]).contains(c),
    ensures
        split(join(parts, seq![c]), c) == parts,
    decreases parts.len(),
{
    let whole = join(parts, seq![c]);
    lemma_first_index(whole, c);
    if parts.len() == 1 {
        assert(!parts[0].contains(c));
        assert(split(whole, c) =~= parts);
    } else {
        let rest = parts.drop_first();
        assert forall|i: int| 0 <= i < rest.len() implies !(#[trigger] rest[i]).contains(c) by {
            assert(rest[i] == parts[i + 1]);
        }
        splitting_a_join_gives_the_pieces_back(rest, c);
        let n = parts[0].len() as int;
        assert(whole[n] == c);
        assert forall|j: int| 0 <= j < n implies whole[j] != c by {
            assert(whole[j] == parts[0][j]);
            assert(!parts[0].contains(c));
        }
        lemma_first_index_is(whole, c, n);
        assert(before(whole, c) =~= parts[0]);
        assert(after(whole, c) =~= join(rest, seq![c]));
        assert(split(whole, c) =~= parts);
    }
}

/// What stands in no part and not in the separator stands nowhere in the join.
pub proof fn lemma_join_lacks(parts: Seq<Seq<char>>, sep: Seq<char>, c: char)
    requires
        forall|i: int| 0 <= i < parts.len() ==> !(#[trigger] parts[i]).contains(c),
        !sep.contains(c),
    ensures
        !join(parts, sep).contains(c),
    decreases parts.len(),
{
    if parts.len() > 1 {
        let rest = parts.drop_first();
        assert forall|i: int| 0 <= i < rest.len() implies !(#[trigger] rest[i]).contains(c) by {
            assert(rest[i] == parts[i + 1]);
        }
        lemma_join_lacks(rest, sep, c);
        let whole = join(parts, sep);
        if whole.contains(c) {
            let k = whole.index_of(c);
            let n = parts[0].len() as int;
            if k < n {
                assert(parts[0][k] == c);
            } else if k < n + sep.len() {
                assert(sep[k - n] == c);
            } else {
                assert(join(rest, sep)[k - n - sep.len()] == c);
            }
        }
    } else if parts.len() == 1 {
        assert(!parts[0].contains(c));
    }
}

/// `c` with an ASCII capital made small.
pub open spec fn lower_char(c: char) -> char {
    if 'A' <= c <= 'Z' {
        (c as u32 + 32) as char
    } else {
        c
    }
}

/// `s` with its ASCII capitals made small.
pub open spec fn lower(s: Seq<char>) -> Seq<char> {
    s.map_values(|c: char| lower_char(c))
}

/// `s` with its ASCII capitals made small.
pub fn lowercase(s: &str) -> (r: String)
    ensures
        r@ == lower(s@),
{
    let mut out: String = String::new();
    for c in it: s.chars()
        invariant
            it.seq() == s@,
            out@ == lower(s@.take(it.index())),
    {
        let ghost done = out@;
        if 'A' <= c && c <= 'Z' {
            let b: u8 = c as u8;
            out.push((b + 32) as char);
        } else {
            out.push(c);
        }
        proof {
            assert(out@ =~= done.push(lower_char(c)));
            assert(s@.take(it.index() + 1) =~= s@.take(it.index()).push(c));
            assert(out@ =~= lower(s@.take(it.index() + 1)));
        }
    }
    assert(s@.take(s@.len() as int) =~= s@);
    out
}

/// What follows the last `.` in a file's name.
pub open spec fn extension(name: Seq<char>) -> Option<Seq<char>> {
    if last_index(name, '.') >= 0 {
        Some(name.skip(last_index(name, '.') + 1))
    } else {
        None
    }
}

/// What follows the last `.` in a file's name, in small letters.
pub fn lower_extension(name: &str) -> (r: Option<String>)
    ensures
        match r {
            Some(e) => extension(name@) is Some && e@ == lower(extension(name@)->0),
            None => extension(name@) is None,
        },
{
    proof {
        lemma_last_index(name@, '.');
    }
    match rfind_char(name, '.') {
        Some(i) => {
            let n: usize = name.unicode_len();
            assert(name@.subrange(i + 1, n as int) =~= name@.skip(i + 1));
            Some(lowercase(name.substring_char(i + 1, n)))
        },
        None => None,
    }
}

/// The last component of a path.
pub open spec fn base_name(path: Seq<char>) -> Seq<char> {
    path.skip(last_index(path, '/') + 1)
}

/// The directory that a path's last component stands in; empty at the root.
pub open spec fn dir_name(path: Seq<char>) -> Seq<char> {
    if last_index(path, '/') >= 0 {
        path.take(last_index(path, '/'))
    } else {
        Seq::empty()
    }
}

/// The directory a path's last component stands in, and that component.
pub fn split_path<'a>(path: &'a str) -> (r: (&'a str, &'a str))
    ensures
        r.0@ == dir_name(path@),
        r.1@ == base_name(path@),
{
    proof {
        lemma_last_index(path@, '/');
    }
    let n: usize = path.unicode_len();
    match rfind_char(path, '/') {
        Some(i) => {
            assert(path@.subrange(0, i as int) =~= path@.take(i as int));
            assert(path@.subrange(i + 1, n as int) =~= path@.skip(i + 1));
            (path.substring_char(0, i), path.substring_char(i + 1, n))
        },
        None => {
            assert(path@.subrange(0, 0) =~= Seq::<char>::empty());
            assert(path@.skip(0) =~= path@);
            (path.substring_char(0, 0), path)
        },
    }
}

/// A whitespace character: one with the Unicode property White_Space.
pub open spec fn is_space(c: char) -> bool {
    let u = c as u32;
    (9 <= u <= 13) || u == 0x20 || u == 0x85 || u == 0xa0 || u == 0x1680 || (0x2000 <= u <= 0x200a)
        || u == 0x2028 || u == 0x2029 || u == 0x202f || u == 0x205f || u == 0x3000
}

/// `s` without the whitespace it begins with.
pub open spec fn trim_space_start(s: Seq<char>) -> Seq<char>
    decreases s.len(),
{
    if s.len() > 0 && is_space(s[0]) {
        trim_space_start(s.drop_first())
    } else {
        s
    }
}

/// `s` without the whitespace it ends with.
pub open spec fn trim_space_end(s: Seq<char>) -> Seq<char>
    decreases s.len(),
{
    if s.len() > 0 && is_space(s.last()) {
        trim_space_end(s.drop_last())
    } else {
        s
    }
}

/// `s` without the whitespace it begins and ends with.
pub open spec fn trim_space(s: Seq<char>) -> Seq<char> {
    trim_space_end(trim_space_start(s))
}

fn is_white(c: char) -> (r: bool)
    ensures
        r == is_space(c),
{
    let u: u32 = c as u32;
    (9 <= u && u <= 13) || u == 0x20 || u == 0x85 || u == 0xa0 || u == 0x1680 || (0x2000 <= u && u
        <= 0x200a) || u == 0x2028 || u == 0x2029 || u == 0x202f || u == 0x205f || u == 0x3000
}

/// `s` without the whitespace it begins and ends with.
pub fn trimmed<'a>(s: &'a str) -> (r: &'a str)
    ensures
        r@ == trim_space(s@),
{
    let v = chars_of(s);
    let n: usize = v.len();
    let mut i: usize = 0;
    proof {
        assert(s@.skip(0) =~= s@);
    }
    while i < n && is_white(v[i])
        invariant
            v@ == s@,
            n == v@.len(),
            i <= n,
            trim_space_start(s@) == trim_space_start(s@.skip(i as int)),
        decreases n - i,
    {
        assert(s@.skip(i as int).drop_first() =~= s@.skip(i + 1));
        i = i + 1;
    }
    let ghost t = s@.skip(i as int);
    assert(trim_space_start(s@) == t);
    let mut j: usize = n;
    assert(t.take(n - i) =~= t);
    while j > i && is_white(v[j - 1])
        invariant
            v@ == s@,
            n == v@.len(),
            i <= j <= n,
            t == s@.skip(i as int),
            trim_space_end(t) == trim_space_end(t.take(j - i)),
        decreases j,
    {
        assert(t.take(j - i).drop_last() =~= t.take(j - i - 1));
        assert(t.take(j - i).last() == v@[j - 1]);
        j = j - 1;
    }
    assert(j > i ==> t.take(j - i).last() == v@[j - 1]);
    assert(s@.subrange(i as int, j as int) =~= t.take(j - i));
    s.substring_char(i, j)
}

/// Whether `a` sorts before `b` or with it, by code point.
pub open spec fn sorts_up_to(a: Seq<char>, b: Seq<char>) -> bool
    decreases a.len(),
{
    if a.len() == 0 {
        true
    } else if b.len() == 0 {
        false
    } else if a[0] == b[0] {
        sorts_up_to(a.drop_first(), b.drop_first())
    } else {
        (a[0] as int) < (b[0] as int)
    }
}

/// Whether `a` sorts before `b` or with it, by code point.
pub fn text_le(a: &str, b: &str) -> (r: bool)
    ensures
        r == sorts_up_to(a@, b@),
{
    let x = chars_of(a);
    let y = chars_of(b);
    let n: usize = x.len();
    let m: usize = y.len();
    let mut i: usize = 0;
    assert(a@.skip(0) =~= a@);
    assert(b@.skip(0) =~= b@);
    loop
        invariant
            x@ == a@,
            y@ == b@,
            n == x@.len(),
            m == y@.len(),
            i <= n,
            i <= m,
            sorts_up_to(a@, b@) == sorts_up_to(a@.skip(i as int), b@.skip(i as int)),
        decreases n - i,
    {
        if i == n {
            return true;
        }
        if i == m {
            return false;
        }
        let c: char = x[i];
        let d: char = y[i];
        if c != d {
            return c < d;
        }
        assert(a@.skip(i as int).drop_first() =~= a@.skip(i + 1));
        assert(b@.skip(i as int).drop_first() =~= b@.skip(i + 1));
        i = i + 1;
    }
}

/// Any two texts sort one way or the other.
pub proof fn lemma_sorts_total(a: Seq<char>, b: Seq<char>)
    ensures
        sorts_up_to(a, b) || sorts_up_to(b, a),
    decreases a.len(),
{
    if a.len() > 0 && b.len() > 0 && a[0] == b[0] {
        lemma_sorts_total(a.drop_first(), b.drop_first());
    }
}

/// What sorts before what sorts before a third sorts before the third.
pub proof fn lemma_sorts_transitive(a: Seq<char>, b: Seq<char>, c: Seq<char>)
    requires
        sorts_up_to(a, b),
        sorts_up_to(b, c),
    ensures
        sorts_up_to(a, c),
    decreases a.len(),
{
    if a.len() > 0 && b.len() > 0 && c.len() > 0 && a[0] == b[0] && b[0] == c[0] {
        lemma_sorts_transitive(a.drop_first(), b.drop_first(), c.drop_first());
    }
}

/// `s` without the whitespace it ends with.
pub fn trimmed_end<'a>(s: &'a str) -> (r: &'a str)
    ensures
        r@ == trim_space_end(s@),
{
    let v = chars_of(s);
    let mut j: usize = v.len();
    assert(s@.take(s@.len() as int) =~= s@);
    while j > 0 && is_white(v[j - 1])
        invariant
            v@ == s@,
            j <= v@.len(),
            trim_space_end(s@) == trim_space_end(s@.take(j as int)),
        decreases j,
    {
        assert(s@.take(j as int).drop_last() =~= s@.take(j - 1));
        assert(s@.take(j as int).last() == v@[j - 1]);
        j = j - 1;
    }
    assert(j > 0 ==> s@.take(j as int).last() == v@[j - 1]);
    assert(s@.subrange(0, j as int) =~= s@.take(j as int));
    s.substring_char(0, j)
}

/// `s` without the `c`s at its ends.
pub open spec fn trim(s: Seq<char>, c: char) -> Seq<char> {
    trim_end(trim_start(s, c), c)
}

/// `s` without the `c`s at its ends.
pub fn trim_of<'a>(s: &'a str, c: char) -> (r: &'a str)
    ensures
        r@ == trim(s@, c),
{
    trim_end_of(trim_start_of(s, c), c)
}

/// Whether two runs of bytes are the same.
pub fn bytes_eq(a: &[u8], b: &[u8]) -> (r: bool)
    ensures
        r == (a@ == b@),
{
    if a.len() != b.len() {
        return false;
    }
    let mut i: usize = 0;
    while i < a.len()
        invariant
            i <= a@.len(),
            a@.len() == b@.len(),
            forall|j: int| 0 <= j < i ==> a@[j] == b@[j],
        decreases a@.len() - i,
    {
        if a[i] != b[i] {
            assert(a@[i as int] != b@[i as int]);
            return false;
        }
        i = i + 1;
    }
    assert(a@ =~= b@);
    true
}

/// What it is to begin with a text.
pub proof fn lemma_prefix(p: Seq<char>, s: Seq<char>)
    ensures
        p.is_prefix_of(s) <==> p.len() <= s.len() && forall|i: int|
            0 <= i < p.len() ==> s[i] == p[i],
{
    if p.is_prefix_of(s) {
        assert forall|i: int| 0 <= i < p.len() implies s[i] == p[i] by {
            assert(s.subrange(0, p.len() as int)[i] == s[i]);
        }
    }
    if p.len() <= s.len() && forall|i: int| 0 <= i < p.len() ==> s[i] == p[i] {
        assert(s.subrange(0, p.len() as int) =~= p);
    }
}

/// Trimming a character off the start takes a run of it and nothing else.
pub proof fn only_a_run_is_trimmed_off_the_start(s: Seq<char>, c: char)
    ensures
        ({
            let kept = trim_start(s, c);
            let n = s.len() - kept.len();
            &&& 0 <= n
            &&& kept == s.skip(n)
            &&& forall|i: int| 0 <= i < n ==> s[i] == c
            &&& kept.len() > 0 ==> kept[0] != c
        }),
    decreases s.len(),
{
    if s.len() > 0 && s[0] == c {
        let t = s.drop_first();
        only_a_run_is_trimmed_off_the_start(t, c);
        let n = s.len() - trim_start(s, c).len();
        assert(t.skip(n - 1) =~= s.skip(n));
        assert forall|i: int| 0 <= i < n implies s[i] == c by {
            if i > 0 {
                assert(t[i - 1] == s[i]);
            }
        }
    } else {
        assert(s.skip(0) =~= s);
    }
}

/// Trimming a character off the end takes a run of it and nothing else.
pub proof fn only_a_run_is_trimmed_off_the_end(s: Seq<char>, c: char)
    ensures
        ({
            let kept = trim_end(s, c);
            let n = kept.len() as int;
            &&& n <= s.len()
            &&& kept == s.take(n)
            &&& forall|i: int| n <= i < s.len() ==> s[i] == c
            &&& n > 0 ==> kept.last() != c
        }),
    decreases s.len(),
{
    if s.len() > 0 && s.last() == c {
        let t = s.drop_last();
        only_a_run_is_trimmed_off_the_end(t, c);
        let n = trim_end(s, c).len() as int;
        assert(t.take(n) =~= s.take(n));
        assert forall|i: int| n <= i < s.len() implies s[i] == c by {
            if i < s.len() - 1 {
                assert(t[i] == s[i]);
            }
        }
    } else {
        assert(s.take(s.len() as int) =~= s);
    }
}

/// The characters that text is trimmed of.
pub open spec fn is_blank(c: char) -> bool {
    c == '\t' || c == '\n' || c == '\u{b}' || c == '\u{c}' || c == '\r' || c == ' '
        || c == '\u{85}' || c == '\u{a0}' || c == '\u{1680}' || c == '\u{2000}' || c == '\u{2001}'
        || c == '\u{2002}' || c == '\u{2003}' || c == '\u{2004}' || c == '\u{2005}'
        || c == '\u{2006}' || c == '\u{2007}' || c == '\u{2008}' || c == '\u{2009}'
        || c == '\u{200a}' || c == '\u{2028}' || c == '\u{2029}' || c == '\u{202f}'
        || c == '\u{205f}' || c == '\u{3000}'
}

proof fn lemma_blank(c: char)
    ensures
        is_blank(c) == is_space(c),
{
    let u = c as u32;
    assert(c as int == u as int);
    if 9 <= u <= 13 {
        assert(u == 9 || u == 10 || u == 11 || u == 12 || u == 13);
    }
    if 0x2000 <= u <= 0x200a {
        assert(u == 0x2000 || u == 0x2001 || u == 0x2002 || u == 0x2003 || u == 0x2004 || u
            == 0x2005 || u == 0x2006 || u == 0x2007 || u == 0x2008 || u == 0x2009 || u == 0x200a);
    }
}

/// Trimming text takes the blanks off its ends and nothing else.
pub proof fn only_blanks_are_trimmed(s: Seq<char>)
    ensures
        ({
            let kept = trim_space_end(s);
            let n = kept.len() as int;
            &&& n <= s.len()
            &&& kept == s.take(n)
            &&& forall|i: int| n <= i < s.len() ==> is_blank(s[i])
            &&& n > 0 ==> !is_blank(kept.last())
        }),
        ({
            let kept = trim_space_start(s);
            let n = s.len() - kept.len();
            &&& 0 <= n
            &&& kept == s.skip(n)
            &&& forall|i: int| 0 <= i < n ==> is_blank(s[i])
            &&& kept.len() > 0 ==> !is_blank(kept[0])
        }),
        trim_space(s) == trim_space_end(trim_space_start(s)),
    decreases s.len(),
{
    if s.len() > 0 {
        lemma_blank(s.last());
        lemma_blank(s[0]);
    }
    if s.len() > 0 && is_space(s.last()) {
        let t = s.drop_last();
        only_blanks_are_trimmed(t);
        let n = trim_space_end(s).len() as int;
        assert(t.take(n) =~= s.take(n));
        assert forall|i: int| n <= i < s.len() implies is_blank(s[i]) by {
            if i < s.len() - 1 {
                assert(t[i] == s[i]);
            }
        }
    } else {
        assert(s.take(s.len() as int) =~= s);
    }
    if s.len() > 0 && is_space(s[0]) {
        let t = s.drop_first();
        only_blanks_are_trimmed(t);
        let n = s.len() - trim_space_start(s).len();
        assert(t.skip(n - 1) =~= s.skip(n));
        assert forall|i: int| 0 <= i < n implies is_blank(s[i]) by {
            if i > 0 {
                assert(t[i - 1] == s[i]);
            }
        }
    } else {
        assert(s.skip(0) =~= s);
    }
}

/// In small letters a text has the small letter for each of its capitals, and
/// is otherwise as it was.
pub proof fn only_capitals_are_made_small(s: Seq<char>, i: int)
    requires
        0 <= i < s.len(),
    ensures
        lower(s).len() == s.len(),
        'A' <= s[i] <= 'Z' ==> 'a' <= lower(s)[i] <= 'z' && lower(s)[i] as int - 'a' as int
            == s[i] as int - 'A' as int,
        !('A' <= s[i] <= 'Z') ==> lower(s)[i] == s[i],
{
}

/// A name's extension is what stands behind its last dot.
pub proof fn extensions_stand_behind_the_last_dot(stem: Seq<char>, ext: Seq<char>)
    requires
        !ext.contains('.'),
    ensures
        extension(stem + seq!['.'] + ext) == Some(ext),
        extension(ext) is None,
{
    let name = stem + seq!['.'] + ext;
    let n = stem.len() as int;
    lemma_last_index(name, '.');
    lemma_last_index(ext, '.');
    assert(name[n] == '.');
    let k = last_index(name, '.');
    if k > n {
        assert(name[k] == ext[k - n - 1]);
        assert(ext.contains(ext[k - n - 1]));
    }
    assert(name.skip(n + 1) =~= ext);
    if last_index(ext, '.') >= 0 {
        assert(ext.contains(ext[last_index(ext, '.')]));
    }
}

/// A path is its directory and, behind the last slash, its name.
pub proof fn paths_end_in_their_names(dir: Seq<char>, name: Seq<char>)
    requires
        !name.contains('/'),
    ensures
        base_name(dir + seq!['/'] + name) == name,
        dir_name(dir + seq!['/'] + name) == dir,
        base_name(name) == name,
        dir_name(name).len() == 0,
{
    let path = dir + seq!['/'] + name;
    let n = dir.len() as int;
    lemma_last_index(path, '/');
    lemma_last_index(name, '/');
    assert(path[n] == '/');
    let k = last_index(path, '/');
    if k > n {
        assert(path[k] == name[k - n - 1]);
        assert(name.contains(name[k - n - 1]));
    }
    assert(path.skip(n + 1) =~= name);
    assert(path.take(n) =~= dir);
    if last_index(name, '/') >= 0 {
        assert(name.contains(name[last_index(name, '/')]));
    }
    assert(name.skip(0) =~= name);
}

/// Texts sort by the first character in which they differ; one that the other
/// begins with sorts before it.
pub proof fn texts_sort_by_their_first_difference(
    common: Seq<char>,
    a: Seq<char>,
    b: Seq<char>,
)
    requires
        a.len() == 0 || b.len() == 0 || a[0] != b[0],
    ensures
        sorts_up_to(common + a, common + b) <==> a.len() == 0 || (b.len() > 0 && (a[0] as int) < (
        b[0] as int)),
    decreases common.len(),
{
    if common.len() == 0 {
        assert(common + a =~= a);
        assert(common + b =~= b);
    } else {
        assert((common + a).drop_first() =~= common.drop_first() + a);
        assert((common + b).drop_first() =~= common.drop_first() + b);
        texts_sort_by_their_first_difference(common.drop_first(), a, b);
    }
}

/// What it is to end with a text.
pub proof fn lemma_suffix(a: Seq<char>, p: Seq<char>, s: Seq<char>)
    ensures
        p.is_suffix_of(a + p),
        p.is_suffix_of(s) ==> s.len() >= p.len() && s == s.take(s.len() - p.len()) + p,
{
    let whole = a + p;
    assert(whole.subrange(whole.len() - p.len(), whole.len() as int) =~= p);
    if p.is_suffix_of(s) {
        assert(s =~= s.take(s.len() - p.len()) + s.subrange(s.len() - p.len(), s.len() as int));
    }
}

/// A run of a character behind a text that does not end in it is what is
/// trimmed off.
pub proof fn lemma_trim_run(s: Seq<char>, run: Seq<char>, c: char)
    requires
        s.len() > 0 ==> s.last() != c,
        forall|i: int| 0 <= i < run.len() ==> run[i] == c,
    ensures
        trim_end(s + run, c) == s,
    decreases run.len(),
{
    if run.len() == 0 {
        assert(s + run =~= s);
    } else {
        assert((s + run).drop_last() =~= s + run.drop_last());
        lemma_trim_run(s, run.drop_last(), c);
    }
}

/// A text that begins with another begins with its first character.
pub proof fn lemma_other_beginning(p: Seq<char>, s: Seq<char>)
    requires
        p.len() > 0,
        s.len() == 0 || s[0] != p[0],
    ensures
        !p.is_prefix_of(s),
{
    lemma_prefix(p, s);
}

} // verus!
