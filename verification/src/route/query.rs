//! The `key=value` parts of a query string.

use vstd::prelude::*;
use crate::text;
use crate::text::{text_eq, without_prefix};

verus! {

/// The value of the first part that begins with `key`.
pub open spec fn first_value(parts: Seq<Seq<char>>, key: Seq<char>) -> Option<Seq<char>>
    decreases parts.len(),
{
    if parts.len() == 0 {
        None
    } else {
        match text::strip_prefix(parts[0], key) {
            Some(v) => Some(v),
            None => first_value(parts.drop_first(), key),
        }
    }
}

/// The value of the last part that begins with `key`.
pub open spec fn last_value(parts: Seq<Seq<char>>, key: Seq<char>) -> Option<Seq<char>>
    decreases parts.len(),
{
    if parts.len() == 0 {
        None
    } else {
        match text::strip_prefix(parts.last(), key) {
            Some(v) => Some(v),
            None => last_value(parts.drop_last(), key),
        }
    }
}

/// The value of the last part that begins with `key` and goes on past it.
pub open spec fn last_filled_value(parts: Seq<Seq<char>>, key: Seq<char>) -> Option<Seq<char>>
    decreases parts.len(),
{
    if parts.len() == 0 {
        None
    } else {
        match text::strip_prefix(parts.last(), key) {
            Some(v) => if v.len() > 0 {
                Some(v)
            } else {
                last_filled_value(parts.drop_last(), key)
            },
            None => last_filled_value(parts.drop_last(), key),
        }
    }
}

/// The contents of an optional string.
pub open spec fn opt_text(o: Option<String>) -> Option<Seq<char>> {
    match o {
        Some(s) => Some(s@),
        None => None,
    }
}

/// The contents of an optional string slice.
pub open spec fn opt_str(o: Option<&str>) -> Option<Seq<char>> {
    match o {
        Some(s) => Some(s@),
        None => None,
    }
}

/// An optional string, borrowed.
pub fn as_opt_str(o: &Option<String>) -> (r: Option<&str>)
    ensures
        opt_str(r) == opt_text(*o),
{
    match o {
        Some(s) => Some(s.as_str()),
        None => None,
    }
}

/// The value of the first part that begins with `key`.
pub fn find_first_value<'a>(parts: &'a Vec<String>, key: &str) -> (r: Option<&'a str>)
    ensures
        opt_str(r) == first_value(text::texts(parts@), key@),
{
    let n: usize = parts.len();
    let mut i: usize = 0;
    let ghost all = text::texts(parts@);
    assert(all.skip(0) =~= all);
    while i < n
        invariant
            n == parts@.len(),
            i <= n,
            all == text::texts(parts@),
            first_value(all, key@) == first_value(all.skip(i as int), key@),
        decreases n - i,
    {
        assert(all.skip(i as int).drop_first() =~= all.skip(i + 1));
        match without_prefix(parts[i].as_str(), key) {
            Some(v) => {
                return Some(v);
            },
            None => {},
        }
        i = i + 1;
    }
    None
}

/// The value of the last part that begins with `key`.
pub fn find_last_value<'a>(parts: &'a Vec<String>, key: &str) -> (r: Option<&'a str>)
    ensures
        opt_str(r) == last_value(text::texts(parts@), key@),
{
    let mut i: usize = parts.len();
    let ghost all = text::texts(parts@);
    assert(all.take(all.len() as int) =~= all);
    while i > 0
        invariant
            i <= parts@.len(),
            all == text::texts(parts@),
            last_value(all, key@) == last_value(all.take(i as int), key@),
        decreases i,
    {
        assert(all.take(i as int).drop_last() =~= all.take(i - 1));
        match without_prefix(parts[i - 1].as_str(), key) {
            Some(v) => {
                return Some(v);
            },
            None => {},
        }
        i = i - 1;
    }
    None
}

/// The value of the last part that begins with `key` and goes on past it.
pub fn find_last_filled_value<'a>(parts: &'a Vec<String>, key: &str) -> (r: Option<&'a str>)
    ensures
        opt_str(r) == last_filled_value(text::texts(parts@), key@),
{
    let mut i: usize = parts.len();
    let ghost all = text::texts(parts@);
    assert(all.take(all.len() as int) =~= all);
    while i > 0
        invariant
            i <= parts@.len(),
            all == text::texts(parts@),
            last_filled_value(all, key@) == last_filled_value(all.take(i as int), key@),
        decreases i,
    {
        assert(all.take(i as int).drop_last() =~= all.take(i - 1));
        match without_prefix(parts[i - 1].as_str(), key) {
            Some(v) => {
                if !v.is_empty() {
                    return Some(v);
                }
            },
            None => {},
        }
        i = i - 1;
    }
    None
}

/// Whether one of the parts is exactly `flag`.
pub fn has_part(parts: &Vec<String>, flag: &str) -> (r: bool)
    ensures
        r == text::texts(parts@).contains(flag@),
{
    let n: usize = parts.len();
    let mut i: usize = 0;
    let ghost all = text::texts(parts@);
    while i < n
        invariant
            n == parts@.len(),
            i <= n,
            all == text::texts(parts@),
            forall|j: int| 0 <= j < i ==> all[j] != flag@,
        decreases n - i,
    {
        if text_eq(parts[i].as_str(), flag) {
            assert(all[i as int] == flag@);
            return true;
        }
        i = i + 1;
    }
    false
}

/// Of the parameters with a key the first is read, or the last, or the last that
/// is not empty, each by what follows the key; those with another key never are.
pub proof fn parameters_are_read_by_their_key(
    parts: Seq<Seq<char>>,
    key: Seq<char>,
    value: Seq<char>,
    i: int,
)
    requires
        0 <= i < parts.len(),
        parts[i] == key + value,
    ensures
        (forall|j: int| 0 <= j < i ==> !key.is_prefix_of(#[trigger] parts[j])) ==> first_value(
            parts,
            key,
        ) == Some(value),
        (forall|j: int| i < j < parts.len() ==> !key.is_prefix_of(#[trigger] parts[j]))
            ==> last_value(parts, key) == Some(value),
        value.len() > 0 && (forall|j: int|
            i < j < parts.len() ==> !key.is_prefix_of(#[trigger] parts[j]) || parts[j] == key)
            ==> last_filled_value(parts, key) == Some(value),
    decreases parts.len(),
{
    text::lemma_prefix(key, parts[i]);
    assert(parts[i].skip(key.len() as int) =~= value);
    if i > 0 {
        let rest = parts.drop_first();
        assert(rest[i - 1] == parts[i]);
        parameters_are_read_by_their_key(rest, key, value, i - 1);
        if forall|j: int| 0 <= j < i ==> !key.is_prefix_of(#[trigger] parts[j]) {
            assert(!key.is_prefix_of(parts[0]));
            assert forall|j: int| 0 <= j < i - 1 implies !key.is_prefix_of(#[trigger] rest[j]) by {
                assert(rest[j] == parts[j + 1]);
            }
        }
    }
    if i < parts.len() - 1 {
        let front = parts.drop_last();
        let last = parts[parts.len() - 1];
        assert(front[i] == parts[i]);
        parameters_are_read_by_their_key(front, key, value, i);
        if forall|j: int| i < j < parts.len() ==> !key.is_prefix_of(#[trigger] parts[j]) {
            assert(!key.is_prefix_of(last));
            assert forall|j: int| i < j < front.len() implies !key.is_prefix_of(
                #[trigger] front[j],
            ) by {
                assert(front[j] == parts[j]);
            }
        }
        if forall|j: int|
            i < j < parts.len() ==> !key.is_prefix_of(#[trigger] parts[j]) || parts[j] == key {
            assert(!key.is_prefix_of(last) || last == key);
            if last == key {
                assert(last.skip(key.len() as int).len() == 0);
            }
            assert forall|j: int| i < j < front.len() implies !key.is_prefix_of(
                #[trigger] front[j],
            ) || front[j] == key by {
                assert(front[j] == parts[j]);
            }
        }
    }
}

/// A key that no parameter has gives nothing.
pub proof fn missing_parameters_say_nothing(parts: Seq<Seq<char>>, key: Seq<char>)
    requires
        forall|j: int| 0 <= j < parts.len() ==> !key.is_prefix_of(#[trigger] parts[j]),
    ensures
        first_value(parts, key) is None,
        last_value(parts, key) is None,
        last_filled_value(parts, key) is None,
    decreases parts.len(),
{
    if parts.len() > 0 {
        let rest = parts.drop_first();
        let front = parts.drop_last();
        assert(!key.is_prefix_of(parts[0]));
        assert(!key.is_prefix_of(parts[parts.len() - 1]));
        assert forall|j: int| 0 <= j < rest.len() implies !key.is_prefix_of(#[trigger] rest[j]) by {
            assert(rest[j] == parts[j + 1]);
        }
        assert forall|j: int| 0 <= j < front.len() implies !key.is_prefix_of(
            #[trigger] front[j],
        ) by {
            assert(front[j] == parts[j]);
        }
        missing_parameters_say_nothing(rest, key);
        missing_parameters_say_nothing(front, key);
    }
}

} // verus!
