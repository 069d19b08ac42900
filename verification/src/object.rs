//! Git's objects: their names, their kinds, and the entries of trees.

use vstd::prelude::*;
use crate::fetch::copy_bytes;
use crate::route::encode;
use crate::route::encode::hex_nibble;
use crate::text;

verus! {

/// The name of a git object: a SHA-1, twenty bytes.
#[derive(Clone, Copy, PartialEq, Eq, PartialOrd, Ord, Hash, Debug)]
pub struct ObjectId {
    pub bytes: [u8; 20],
}

impl View for ObjectId {
    type V = Seq<u8>;

    open spec fn view(&self) -> Seq<u8> {
        self.bytes@
    }
}

/// The kind of a git object.
#[derive(Clone, Copy, PartialEq, Eq, Structural, Debug)]
pub enum ObjectType {
    Commit,
    Tree,
    Blob,
    Tag,
}

/// The kind of a tree's entry.
#[derive(Clone, Copy, PartialEq, Eq, Structural, Debug)]
pub enum TreeEntryType {
    Tree,
    File,
    Executable,
    Symlink,
    /// A submodule: a commit of another repository.
    Commit,
}

/// A tree's entry.
pub struct TreeEntry {
    pub name: Vec<u8>,
    pub entry_type: TreeEntryType,
    pub id: ObjectId,
}

/// An object as a pack stores it: its kind, and its content.
pub struct RawObject {
    pub object_type: ObjectType,
    pub body: Vec<u8>,
}

/// What a [`RawObject`] holds.
pub type RawModel = (ObjectType, Seq<u8>);

impl View for RawObject {
    type V = RawModel;

    open spec fn view(&self) -> RawModel {
        (self.object_type, self.body@)
    }
}

impl RawObject {
    /// The same object.
    pub fn copy(&self) -> (r: Self)
        ensures
            r@ == self@,
    {
        RawObject { object_type: self.object_type, body: copy_bytes(&self.body) }
    }
}

/// The lowercase hexadecimal digit for `n`.
pub open spec fn small_hex(n: int) -> char {
    if n < 10 {
        (48 + n) as char
    } else {
        (87 + n) as char
    }
}

/// Bytes in lowercase hexadecimal, two digits each.
pub open spec fn hex_text(bytes: Seq<u8>) -> Seq<char> {
    Seq::new(
        2 * bytes.len(),
        |i: int|
            if i % 2 == 0 {
                small_hex(bytes[i / 2] as int / 16)
            } else {
                small_hex(bytes[i / 2] as int % 16)
            },
    )
}

/// Whether all of `s` is hexadecimal digits.
pub open spec fn all_hex(s: Seq<u8>) -> bool {
    forall|i: int| 0 <= i < s.len() ==> encode::nibble(#[trigger] s[i]) is Some
}

/// The bytes that pairs of hexadecimal digits name.
pub open spec fn hex_bytes(s: Seq<u8>) -> Seq<u8> {
    Seq::new(
        s.len() / 2,
        |i: int| (16 * encode::nibble(s[2 * i])->0 + encode::nibble(s[2 * i + 1])->0) as u8,
    )
}

/// The object that forty hexadecimal digits name.
pub open spec fn named_object(s: Seq<u8>) -> Option<Seq<u8>> {
    if s.len() == 40 && all_hex(s) {
        Some(hex_bytes(s))
    } else {
        None
    }
}

fn push_hex(b: u8, out: &mut String)
    ensures
        final(out)@ == old(out)@.push(small_hex(b as int / 16)).push(small_hex(b as int % 16)),
{
    let hi: u8 = b / 16;
    let lo: u8 = b % 16;
    out.push(if hi < 10 { (48 + hi) as char } else { (87 + hi) as char });
    out.push(if lo < 10 { (48 + lo) as char } else { (87 + lo) as char });
}

fn is_all_hex(s: &[u8]) -> (r: bool)
    ensures
        r == all_hex(s@),
{
    let n: usize = s.len();
    let mut i: usize = 0;
    while i < n
        invariant
            n == s@.len(),
            i <= n,
            forall|j: int| 0 <= j < i ==> encode::nibble(#[trigger] s@[j]) is Some,
        decreases n - i,
    {
        if hex_nibble(s[i]).is_none() {
            assert(encode::nibble(s@[i as int]) is None);
            return false;
        }
        i = i + 1;
    }
    true
}

/// Whether one name sorts before another: at the first byte where they differ,
/// its is the smaller one.
pub open spec fn sorts_before(a: Seq<u8>, b: Seq<u8>) -> bool {
    exists|k: int|
        0 <= k < a.len() && k < b.len() && #[trigger] a[k] < b[k] && a.take(k) == b.take(k)
}

/// How one name stands to another.
#[derive(Clone, Copy, PartialEq, Eq, Structural, Debug)]
pub enum Standing {
    Before,
    Same,
    After,
}

/// What sorts before a name sorts before all that come behind it.
pub proof fn lemma_sorts_before(a: Seq<u8>, b: Seq<u8>, c: Seq<u8>)
    requires
        sorts_before(a, b),
        sorts_before(b, c),
    ensures
        sorts_before(a, c),
{
    let i = choose|k: int|
        0 <= k < a.len() && k < b.len() && #[trigger] a[k] < b[k] && a.take(k) == b.take(k);
    let j = choose|k: int|
        0 <= k < b.len() && k < c.len() && #[trigger] b[k] < c[k] && b.take(k) == c.take(k);
    let k = if i < j {
        i
    } else {
        j
    };
    assert forall|m: int| 0 <= m < k implies a[m] == c[m] by {
        assert(a.take(i)[m] == b.take(i)[m]);
        assert(b.take(j)[m] == c.take(j)[m]);
    }
    assert(a.take(k) =~= c.take(k));
    if i < j {
        assert(b.take(j)[i] == c.take(j)[i]);
    } else if j < i {
        assert(a.take(i)[j] == b.take(i)[j]);
    }
    assert(a[k] < c[k]);
}

/// No name sorts before itself.
pub proof fn lemma_never_before_itself(a: Seq<u8>)
    ensures
        !sorts_before(a, a),
{
}

impl ObjectId {
    /// The object with these bytes for a name.
    pub fn from_bytes(bytes: [u8; 20]) -> (r: Self)
        ensures
            r@ == bytes@,
    {
        ObjectId { bytes }
    }

    /// The object that forty hexadecimal digits name, in either case.
    pub fn from_hex(s: &[u8]) -> (r: Option<Self>)
        ensures
            match r {
                Some(id) => named_object(s@) == Some(id@),
                None => named_object(s@) is None,
            },
    {
        if s.len() != 40 || !is_all_hex(s) {
            return None;
        }
        let mut bytes: [u8; 20] = [0;20];
        let mut i: usize = 0;
        while i < 20
            invariant
                s@.len() == 40,
                all_hex(s@),
                i <= 20,
                bytes@.len() == 20,
                forall|j: int| 0 <= j < i ==> #[trigger] bytes@[j] == hex_bytes(s@)[j],
            decreases 20 - i,
        {
            assert(encode::nibble(s@[2 * i as int]) is Some);
            assert(encode::nibble(s@[2 * i as int + 1]) is Some);
            let hi = hex_nibble(s[2 * i]);
            let lo = hex_nibble(s[2 * i + 1]);
            let value: u8 = match (hi, lo) {
                (Some(hi), Some(lo)) => 16 * hi + lo,
                _ => 0,
            };
            bytes[i] = value;
            i = i + 1;
        }
        assert(bytes@ =~= hex_bytes(s@));
        Some(ObjectId { bytes })
    }

    /// The name in lowercase hexadecimal.
    pub fn to_hex(&self) -> (r: String)
        ensures
            r@ == hex_text(self@),
            r@.len() == 40,
    {
        let mut out: String = String::new();
        let mut i: usize = 0;
        while i < 20
            invariant
                i <= 20,
                out@ == hex_text(self@.take(i as int)),
                self@.len() == 20,
            decreases 20 - i,
        {
            let ghost before = out@;
            push_hex(self.bytes[i], &mut out);
            proof {
                let done = self@.take(i as int);
                let next = self@.take(i + 1);
                assert forall|j: int| 0 <= j < out@.len() implies out@[j] == hex_text(next)[j] by {
                    if j < 2 * i {
                        assert(before[j] == hex_text(done)[j]);
                        assert(done[j / 2] == next[j / 2]);
                    }
                }
                assert(out@ =~= hex_text(next));
            }
            i = i + 1;
        }
        assert(self@.take(20) =~= self@);
        out
    }

    /// How this name stands to another in the order of names.
    pub fn standing(&self, other: &ObjectId) -> (r: Standing)
        ensures
            match r {
                Standing::Before => sorts_before(self@, other@),
                Standing::Same => self@ == other@,
                Standing::After => sorts_before(other@, self@),
            },
    {
        let mut i: usize = 0;
        while i < 20
            invariant
                i <= 20,
                self@.len() == 20,
                other@.len() == 20,
                self@.take(i as int) == other@.take(i as int),
            decreases 20 - i,
        {
            if self.bytes[i] < other.bytes[i] {
                assert(self@[i as int] < other@[i as int]);
                return Standing::Before;
            }
            if other.bytes[i] < self.bytes[i] {
                assert(other@[i as int] < self@[i as int]);
                return Standing::After;
            }
            assert(self@.take(i + 1) =~= self@.take(i as int).push(self@[i as int]));
            assert(other@.take(i + 1) =~= other@.take(i as int).push(other@[i as int]));
            i = i + 1;
        }
        assert(self@.take(20) =~= self@);
        assert(other@.take(20) =~= other@);
        Standing::Same
    }

    /// Whether the two name the same object.
    pub fn same(&self, other: &ObjectId) -> (r: bool)
        ensures
            r == (self@ == other@),
    {
        let mut i: usize = 0;
        while i < 20
            invariant
                i <= 20,
                self@.len() == 20,
                other@.len() == 20,
                forall|j: int| 0 <= j < i ==> self@[j] == other@[j],
            decreases 20 - i,
        {
            if self.bytes[i] != other.bytes[i] {
                assert(self@[i as int] != other@[i as int]);
                return false;
            }
            i = i + 1;
        }
        assert(self@ =~= other@);
        true
    }

    /// The first eight digits of the name, as shown wherever all forty would
    /// crowd out what surrounds them.
    pub fn short(&self) -> (r: String)
        ensures
            r@ == hex_text(self@).take(8),
    {
        let hex = self.to_hex();
        assert(hex@.subrange(0, 8) =~= hex@.take(8));
        hex.as_str().substring_char(0, 8).to_string()
    }
}

/// Four to forty hexadecimal digits: an object's name, abbreviated or whole.
#[derive(Debug)]
pub struct ObjectIdPrefix {
    pub digits: Vec<u8>,
}

/// Whether `s` can abbreviate an object's name.
pub open spec fn abbreviates(s: Seq<u8>) -> bool {
    4 <= s.len() <= 40 && all_hex(s)
}

/// The digit at position `i` of an object's name.
pub open spec fn digit_of(id: Seq<u8>, i: int) -> u8 {
    if i % 2 == 0 {
        (id[i / 2] / 16) as u8
    } else {
        (id[i / 2] % 16) as u8
    }
}

/// Whether the name `id` begins with `digits`.
pub open spec fn begins_with(id: Seq<u8>, digits: Seq<u8>) -> bool {
    forall|i: int| 0 <= i < digits.len() ==> digit_of(id, i) == #[trigger] digits[i]
}

impl ObjectIdPrefix {
    /// Digits, four to forty of them.
    pub open spec fn wf(self) -> bool {
        &&& 4 <= self.digits@.len() <= 40
        &&& forall|i: int| 0 <= i < self.digits@.len() ==> #[trigger] self.digits@[i] < 16
    }

    /// Read four to forty hexadecimal digits.
    pub fn from_hex(s: &[u8]) -> (r: Option<Self>)
        ensures
            r is Some == abbreviates(s@),
            r matches Some(p) ==> p.wf() && p.digits@ == Seq::new(
                s@.len(),
                |i: int| encode::nibble(s@[i])->0,
            ),
    {
        if s.len() < 4 || s.len() > 40 || !is_all_hex(s) {
            return None;
        }
        let mut digits: Vec<u8> = Vec::new();
        let n: usize = s.len();
        let mut i: usize = 0;
        while i < n
            invariant
                n == s@.len(),
                i <= n,
                all_hex(s@),
                digits@.len() == i,
                forall|j: int|
                    0 <= j < i ==> #[trigger] digits@[j] == encode::nibble(s@[j])->0 && digits@[j]
                        < 16,
            decreases n - i,
        {
            assert(encode::nibble(s@[i as int]) is Some);
            match hex_nibble(s[i]) {
                Some(d) => {
                    digits.push(d);
                },
                None => {},
            }
            i = i + 1;
        }
        assert(digits@ =~= Seq::new(s@.len(), |i: int| encode::nibble(s@[i])->0));
        Some(ObjectIdPrefix { digits })
    }

    /// Whether the prefix abbreviates the name of `id`.
    pub fn covers(&self, id: &ObjectId) -> (r: bool)
        requires
            self.wf(),
        ensures
            r == begins_with(id@, self.digits@),
    {
        let n: usize = self.digits.len();
        let mut i: usize = 0;
        while i < n
            invariant
                n == self.digits@.len(),
                n <= 40,
                i <= n,
                id@.len() == 20,
                forall|j: int| 0 <= j < i ==> digit_of(id@, j) == #[trigger] self.digits@[j],
            decreases n - i,
        {
            let b: u8 = id.bytes[i / 2];
            let d: u8 = if i % 2 == 0 {
                b / 16
            } else {
                b % 16
            };
            assert(d == digit_of(id@, i as int));
            if d != self.digits[i] {
                assert(digit_of(id@, i as int) != self.digits@[i as int]);
                return false;
            }
            i = i + 1;
        }
        true
    }
}

/// What an abbreviation turned out to name.
#[derive(Clone, Copy, PartialEq, Eq, Debug)]
pub enum PrefixResolution {
    NotFound,
    Found(ObjectId),
    Ambiguous,
}

/// The bytes of a name's digits, as text is encoded.
pub open spec fn hex_chars_bytes(s: Seq<char>) -> Seq<u8> {
    Seq::new(s.len(), |i: int| s[i] as u8)
}

/// An object comes back out of its own name.
pub proof fn object_name_round_trips(id: Seq<u8>)
    requires
        id.len() == 20,
    ensures
        hex_text(id).len() == 40,
        vstd::utf8::encode_utf8(hex_text(id)) == hex_chars_bytes(hex_text(id)),
        named_object(hex_chars_bytes(hex_text(id))) == Some(id),
{
    let s = hex_text(id);
    assert(vstd::utf8::is_ascii_chars(s));
    vstd::utf8::is_ascii_chars_encode_utf8(s);
    let b = hex_chars_bytes(s);
    assert(vstd::utf8::encode_utf8(s) =~= b);
    assert forall|i: int| 0 <= i < b.len() implies encode::nibble(#[trigger] b[i]) == Some(
        digit_of(id, i),
    ) by {
        assert(s[i] == small_hex(digit_of(id, i) as int));
    }
    assert(hex_bytes(b) =~= id) by {
        assert forall|i: int| 0 <= i < 20 implies hex_bytes(b)[i] == id[i] by {
            assert(encode::nibble(b[2 * i]) == Some(digit_of(id, 2 * i)));
            assert(encode::nibble(b[2 * i + 1]) == Some(digit_of(id, 2 * i + 1)));
            assert((2 * i) / 2 == i && (2 * i + 1) / 2 == i);
        }
    }
}

/// Every leading run of an object's digits abbreviates it.
pub proof fn leading_digits_abbreviate(id: Seq<u8>, n: int)
    requires
        id.len() == 20,
        4 <= n <= 40,
    ensures
        ({
            let s = hex_chars_bytes(hex_text(id)).take(n);
            abbreviates(s) && begins_with(id, Seq::new(s.len(), |i: int| encode::nibble(s[i])->0))
        }),
{
    let full = hex_chars_bytes(hex_text(id));
    let s = full.take(n);
    assert forall|i: int| 0 <= i < s.len() implies encode::nibble(#[trigger] s[i]) == Some(
        digit_of(id, i),
    ) by {
        assert(hex_text(id)[i] == small_hex(digit_of(id, i) as int));
        assert(s[i] == full[i]);
    }
}

/// The first entry of that name.
pub open spec fn entry_named(entries: Seq<TreeEntry>, name: Seq<u8>) -> Option<TreeEntry>
    decreases entries.len(),
{
    if entries.len() == 0 {
        None
    } else if entries[0].name@ == name {
        Some(entries[0])
    } else {
        entry_named(entries.drop_first(), name)
    }
}

/// The first entry of that name.
pub fn find_entry<'a>(entries: &'a Vec<TreeEntry>, name: &[u8]) -> (r: Option<&'a TreeEntry>)
    ensures
        match r {
            Some(entry) => entry_named(entries@, name@) == Some(*entry),
            None => entry_named(entries@, name@) is None,
        },
{
    let mut i: usize = 0;
    proof {
        assert(entries@.skip(0) =~= entries@);
    }
    while i < entries.len()
        invariant
            i <= entries@.len(),
            entry_named(entries@, name@) == entry_named(entries@.skip(i as int), name@),
        decreases entries@.len() - i,
    {
        proof {
            assert(entries@.skip(i as int)[0] == entries@[i as int]);
            assert(entries@.skip(i as int).drop_first() =~= entries@.skip(i + 1));
        }
        if text::bytes_eq(entries[i].name.as_slice(), name) {
            return Some(&entries[i]);
        }
        i = i + 1;
    }
    None
}

/// The object of a regular file of that name, where the first entry of the name
/// is one.
pub open spec fn file_named(entries: Seq<TreeEntry>, name: Seq<u8>) -> Option<ObjectId> {
    match entry_named(entries, name) {
        Some(entry) => if entry.entry_type == TreeEntryType::File || entry.entry_type
            == TreeEntryType::Executable {
            Some(entry.id)
        } else {
            None
        },
        None => None,
    }
}

/// The object of a regular file of that name. An entry that isn't one (a
/// directory, a symlink, a submodule) is no match.
pub fn find_file(entries: &Vec<TreeEntry>, name: &[u8]) -> (r: Option<ObjectId>)
    ensures
        r == file_named(entries@, name@),
{
    match find_entry(entries, name) {
        Some(entry) => match entry.entry_type {
            TreeEntryType::File | TreeEntryType::Executable => Some(entry.id),
            _ => None,
        },
        None => None,
    }
}

/// The first entry of a name is the one it names; entries of other names, and
/// later ones of the same, are not.
pub proof fn names_name_their_first_entry(entries: Seq<TreeEntry>, name: Seq<u8>, i: int)
    requires
        0 <= i < entries.len(),
    ensures
        entries[i].name@ == name && (forall|j: int|
            0 <= j < i ==> (#[trigger] entries[j]).name@ != name) ==> entry_named(entries, name)
            == Some(entries[i]) && (file_named(entries, name) == (match entries[i].entry_type {
            TreeEntryType::File | TreeEntryType::Executable => Some(entries[i].id),
            TreeEntryType::Tree | TreeEntryType::Symlink | TreeEntryType::Commit => None,
        })),
        (forall|j: int| 0 <= j < entries.len() ==> (#[trigger] entries[j]).name@ != name)
            ==> entry_named(entries, name) is None && file_named(entries, name) is None,
    decreases entries.len(),
{
    let rest = entries.drop_first();
    if rest.len() == 0 {
        assert(entry_named(rest, name) is None);
    }
    if forall|j: int| 0 <= j < entries.len() ==> (#[trigger] entries[j]).name@ != name {
        assert(entries[0].name@ != name);
    }
    if entries[0].name@ != name && rest.len() > 0 {
        let k = if i > 0 {
            i - 1
        } else {
            0
        };
        names_name_their_first_entry(rest, name, k);
        if entries[i].name@ == name && (forall|j: int|
            0 <= j < i ==> (#[trigger] entries[j]).name@ != name) {
            assert(rest[k] == entries[i]);
            assert forall|j: int| 0 <= j < k implies (#[trigger] rest[j]).name@ != name by {
                assert(rest[j] == entries[j + 1]);
            }
        }
        if forall|j: int| 0 <= j < entries.len() ==> (#[trigger] entries[j]).name@ != name {
            assert forall|j: int| 0 <= j < rest.len() implies (#[trigger] rest[j]).name@ != name by {
                assert(rest[j] == entries[j + 1]);
            }
        }
    }
    if entries[0].name@ == name && i > 0 {
        assert(!(forall|j: int| 0 <= j < i ==> (#[trigger] entries[j]).name@ != name));
    }
}

/// An object's name is written in digits and small letters, the high half of
/// each byte first.
pub proof fn names_are_written_in_small_letters(id: Seq<u8>, i: int)
    requires
        0 <= i < id.len(),
    ensures
        hex_text(id).len() == 2 * id.len(),
        ({
            let high = hex_text(id)[2 * i];
            let low = hex_text(id)[2 * i + 1];
            let value = |c: char|
                if '0' <= c <= '9' {
                    c as int - '0' as int
                } else {
                    c as int - 'a' as int + 10
                };
            &&& '0' <= high <= '9' || 'a' <= high <= 'f'
            &&& '0' <= low <= '9' || 'a' <= low <= 'f'
            &&& 16 * value(high) + value(low) == id[i]
        }),
{
    let b = id[i] as int;
    assert((2 * i) / 2 == i && (2 * i + 1) / 2 == i);
    assert(0 <= b / 16 < 16 && 0 <= b % 16 < 16);
    assert(hex_text(id)[2 * i] == small_hex(b / 16));
    assert(hex_text(id)[2 * i + 1] == small_hex(b % 16));
}

/// Capitals name the same object as small letters, and every other character
/// names none.
pub proof fn names_are_read_in_either_case(s: Seq<u8>, t: Seq<u8>)
    requires
        s.len() == t.len(),
        forall|i: int|
            0 <= i < s.len() ==> #[trigger] t[i] == s[i] || (65 <= s[i] <= 70 && t[i] == s[i] + 32),
    ensures
        named_object(s) == named_object(t),
        abbreviates(s) == abbreviates(t),
        (exists|i: int|
            0 <= i < s.len() && !(48 <= #[trigger] s[i] <= 57 || 97 <= s[i] <= 102 || 65 <= s[i]
                <= 70)) ==> named_object(s) is None && !abbreviates(s),
        s.len() != 40 ==> named_object(s) is None,
        !(4 <= s.len() <= 40) ==> !abbreviates(s),
        (forall|i: int|
            0 <= i < s.len() ==> 48 <= #[trigger] s[i] <= 57 || 97 <= s[i] <= 102 || 65 <= s[i]
                <= 70) ==> {
            &&& s.len() == 40 ==> named_object(s) is Some
            &&& 4 <= s.len() <= 40 ==> abbreviates(s)
        },
{
    assert forall|i: int| 0 <= i < s.len() implies encode::nibble(#[trigger] s[i])
        == encode::nibble(t[i]) by {
        assert(t[i] == s[i] || (65 <= s[i] <= 70 && t[i] == s[i] + 32));
    }
    assert(all_hex(s) == all_hex(t)) by {
        if all_hex(s) {
            assert forall|i: int| 0 <= i < t.len() implies encode::nibble(#[trigger] t[i]) is Some by {
                assert(encode::nibble(s[i]) is Some);
            }
        }
        if all_hex(t) {
            assert forall|i: int| 0 <= i < s.len() implies encode::nibble(#[trigger] s[i]) is Some by {
                assert(encode::nibble(t[i]) is Some);
            }
        }
    }
    assert(hex_bytes(s) =~= hex_bytes(t)) by {
        assert forall|i: int| 0 <= i < s.len() / 2 implies hex_bytes(s)[i] == hex_bytes(t)[i] by {
            assert(encode::nibble(s[2 * i]) == encode::nibble(t[2 * i]));
            assert(encode::nibble(s[2 * i + 1]) == encode::nibble(t[2 * i + 1]));
        }
    }
    if exists|i: int|
        0 <= i < s.len() && !(48 <= #[trigger] s[i] <= 57 || 97 <= s[i] <= 102 || 65 <= s[i] <= 70) {
        let i = choose|i: int|
            0 <= i < s.len() && !(48 <= #[trigger] s[i] <= 57 || 97 <= s[i] <= 102 || 65 <= s[i]
                <= 70);
        assert(encode::nibble(s[i]) is None);
        assert(!all_hex(s));
    }
}

/// Digits abbreviate the objects whose names begin with them, and no others.
pub proof fn abbreviations_are_beginnings(id: Seq<u8>, digits: Seq<u8>)
    requires
        id.len() == 20,
        digits.len() <= 40,
        forall|i: int| 0 <= i < digits.len() ==> #[trigger] digits[i] < 16,
    ensures
        begins_with(id, digits) <==> Seq::new(
            digits.len(),
            |i: int|
                (if digits[i] < 10 {
                    '0' as int + digits[i]
                } else {
                    'a' as int + digits[i] - 10
                }) as char,
        ).is_prefix_of(hex_text(id)),
{
    let t = Seq::new(
        digits.len(),
        |i: int|
            (if digits[i] < 10 {
                '0' as int + digits[i]
            } else {
                'a' as int + digits[i] - 10
            }) as char,
    );
    text::lemma_prefix(t, hex_text(id));
    assert forall|i: int| 0 <= i < digits.len() implies (hex_text(id)[i] == t[i] <==> digit_of(
        id,
        i,
    ) == #[trigger] digits[i]) by {
        assert(digits[i] < 16);
        assert(digit_of(id, i) < 16);
        assert(hex_text(id)[i] == small_hex(digit_of(id, i) as int));
        assert(t[i] == small_hex(digits[i] as int));
    }
    if begins_with(id, digits) {
        assert forall|i: int| 0 <= i < t.len() implies hex_text(id)[i] == t[i] by {
            assert(digit_of(id, i) == digits[i]);
        }
    }
    if t.is_prefix_of(hex_text(id)) {
        assert forall|i: int| 0 <= i < digits.len() implies digit_of(id, i) == #[trigger] digits[i] by {
            assert(hex_text(id)[i] == t[i]);
        }
    }
}

} // verus!
