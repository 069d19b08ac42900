//! A repository's files as an HTTP server lists and serves them.

use vstd::prelude::*;
use vstd::utf8::*;
use crate::error::FetchError;
use crate::fetch;
use crate::text;
use crate::text::{
    concat3, contains_char, find_char, find_text, has_prefix, has_suffix, trim_end_of,
    trim_start_of, without_prefix,
};
use crate::utf8;
use crate::utf8::checked_text;

verus! {

/// A file, fetched whole when it was opened, so that one that is not there is
/// reported then.
pub struct HttpFile {
    pub url: String,
    pub data: Vec<u8>,
}

/// What a read of at most `len` bytes at `offset` brings.
pub open spec fn segment(data: Seq<u8>, offset: int, len: int) -> Seq<u8> {
    if offset >= data.len() {
        Seq::empty()
    } else if offset + len <= data.len() {
        data.subrange(offset, offset + len)
    } else {
        data.skip(offset)
    }
}

impl HttpFile {
    /// The whole file.
    pub fn read_all(&self) -> (r: Vec<u8>)
        ensures
            r@ == self.data@,
    {
        fetch::copy_bytes(&self.data)
    }

    /// Fill `dest` from `offset` on, as far as the file goes; the count says
    /// how far that was.
    pub fn read_segment(&self, offset: u64, dest: &mut Vec<u8>) -> (r: usize)
        ensures
            r == segment(self.data@, offset as int, old(dest)@.len() as int).len(),
            final(dest)@.len() == old(dest)@.len(),
            final(dest)@.take(r as int) == segment(
                self.data@,
                offset as int,
                old(dest)@.len() as int,
            ),
            final(dest)@.skip(r as int) == old(dest)@.skip(r as int),
    {
        let n: usize = self.data.len();
        if offset >= n as u64 {
            assert(dest@.take(0) =~= Seq::<u8>::empty());
            return 0;
        }
        let start: usize = offset as usize;
        let room: usize = dest.len();
        let count: usize = if room <= n - start {
            room
        } else {
            n - start
        };
        let mut i: usize = 0;
        while i < count
            invariant
                n == self.data@.len(),
                start < n,
                count <= n - start,
                count <= room,
                room == dest@.len(),
                room == old(dest)@.len(),
                i <= count,
                forall|j: int| 0 <= j < i ==> dest@[j] == self.data@[start + j],
                forall|j: int| i <= j < room ==> dest@[j] == old(dest)@[j],
            decreases count - i,
        {
            dest[i] = self.data[start + i];
            i = i + 1;
        }
        proof {
            assert(dest@.take(count as int) =~= segment(
                self.data@,
                offset as int,
                old(dest)@.len() as int,
            ));
            assert(dest@.skip(count as int) =~= old(dest)@.skip(count as int));
        }
        count
    }
}

/// A directory on the server.
pub struct HttpDirectory {
    pub base_url: String,
}

/// One entry of a listing, its name in bytes.
pub enum DirEntry {
    Directory(Vec<u8>),
    File(Vec<u8>),
}

/// What a [`DirEntry`] says.
pub enum EntryModel {
    Directory(Seq<u8>),
    File(Seq<u8>),
}

impl View for DirEntry {
    type V = EntryModel;

    open spec fn view(&self) -> EntryModel {
        match self {
            DirEntry::Directory(name) => EntryModel::Directory(name@),
            DirEntry::File(name) => EntryModel::File(name@),
        }
    }
}

/// The path that a base URL ends in: `/objects/pack` of
/// `http://host/objects/pack`.
pub open spec fn url_path(base: Seq<char>) -> Seq<char> {
    match text::find(base, "://"@) {
        Some(i) => {
            let host = base.skip(i + 3);
            if host.contains('/') {
                host.skip(text::first_index(host, '/'))
            } else {
                Seq::empty()
            }
        },
        None => Seq::empty(),
    }
}

/// `s` without the slashes at either end.
pub open spec fn unslashed(s: Seq<char>) -> Seq<char> {
    text::trim_end(text::trim_start(s, '/'), '/')
}

/// What follows a base and the slash behind it; none where `href` is not under
/// that base.
pub open spec fn under(base: Seq<char>, href: Seq<char>) -> Option<Seq<char>> {
    match text::strip_prefix(href, base) {
        Some(rest) => if "/"@.is_prefix_of(rest) {
            Some(unslashed(rest))
        } else {
            None
        },
        None => None,
    }
}

/// The name of what a link in a listing leads to, where it leads to an entry
/// of that directory: a relative link, or an absolute one under the same base.
/// A query (a link that sorts the listing), a parent link, an anchor and
/// another origin (`//host/` names one too) lead elsewhere.
pub open spec fn linked_name(base_url: Seq<char>, href: Seq<char>) -> Option<Seq<char>> {
    let base = text::trim_end(base_url, '/');
    let name = if href.contains('?') {
        None
    } else if "http://"@.is_prefix_of(href) || "https://"@.is_prefix_of(href) {
        under(base, href)
    } else if "//"@.is_prefix_of(href) {
        None
    } else if "/"@.is_prefix_of(href) {
        under(url_path(base), href)
    } else if "."@.is_prefix_of(href) || "#"@.is_prefix_of(href) || href.contains(':') {
        None
    } else {
        Some(text::trim_end(href, '/'))
    };
    match name {
        Some(name) => if name.len() > 0 {
            Some(name)
        } else {
            None
        },
        None => None,
    }
}

/// The entry that a link in a listing stands for: a directory where it ends in
/// a slash.
pub open spec fn linked_entry(base_url: Seq<char>, href: Seq<char>) -> Option<EntryModel> {
    match linked_name(base_url, href) {
        Some(name) => if "/"@.is_suffix_of(href) {
            Some(EntryModel::Directory(encode_utf8(name)))
        } else {
            Some(EntryModel::File(encode_utf8(name)))
        },
        None => None,
    }
}

/// The entries that the links of a listing stand for, in their order. A link
/// without a target stands for none.
pub open spec fn linked_entries(base_url: Seq<char>, hrefs: Seq<Option<String>>) -> Seq<EntryModel>
    decreases hrefs.len(),
{
    if hrefs.len() == 0 {
        Seq::empty()
    } else {
        let earlier = linked_entries(base_url, hrefs.drop_last());
        match hrefs.last() {
            Some(href) => match linked_entry(base_url, href@) {
                Some(entry) => earlier.push(entry),
                None => earlier,
            },
            None => earlier,
        }
    }
}

/// What the entries of a listing say.
pub open spec fn entries_view(entries: Seq<DirEntry>) -> Seq<EntryModel> {
    entries.map_values(|e: DirEntry| e@)
}

fn path_of_url<'a>(base: &'a str) -> (r: &'a str)
    ensures
        r@ == url_path(base@),
{
    let n: usize = base.unicode_len();
    let nothing = base.substring_char(n, n);
    assert(nothing@ =~= Seq::<char>::empty());
    match find_text(base, "://") {
        Some(i) => {
            proof {
                reveal_strlit("://");
                text::lemma_find(base@, "://"@);
                assert(base@.subrange(i + 3, n as int) =~= base@.skip(i + 3));
            }
            let host = base.substring_char(i + 3, n);
            proof {
                text::lemma_first_index(host@, '/');
            }
            match find_char(host, '/') {
                Some(j) => {
                    let m: usize = host.unicode_len();
                    assert(host@.subrange(j as int, m as int) =~= host@.skip(j as int));
                    host.substring_char(j, m)
                },
                None => nothing,
            }
        },
        None => nothing,
    }
}

fn unslash<'a>(s: &'a str) -> (r: &'a str)
    ensures
        r@ == unslashed(s@),
{
    trim_end_of(trim_start_of(s, '/'), '/')
}

fn below<'a>(base: &str, href: &'a str) -> (r: Option<&'a str>)
    ensures
        match r {
            Some(name) => under(base@, href@) == Some(name@),
            None => under(base@, href@) is None,
        },
{
    match without_prefix(href, base) {
        // A longer name that begins like the base is another place.
        Some(rest) if has_prefix(rest, "/") => Some(unslash(rest)),
        _ => None,
    }
}

impl HttpDirectory {
    pub fn new(base_url: String) -> (r: Self)
        ensures
            r.base_url@ == base_url@,
    {
        HttpDirectory { base_url }
    }

    /// The URL of an entry, whose name has to be text.
    pub fn entry_url(&self, name: Vec<u8>) -> (r: Result<String, FetchError>)
        ensures
            match r {
                Ok(url) => valid_utf8(name@) && url@ == self.base_url@ + "/"@ + decode_utf8(name@),
                Err(e) => !valid_utf8(name@) && e@ == crate::error::FetchFailure::Other(
                    utf8::utf8_error(name@),
                ),
            },
    {
        match checked_text(name) {
            Ok(name) => Ok(concat3(self.base_url.as_str(), "/", name.as_str())),
            Err(e) => Err(FetchError::Other(e)),
        }
    }

    /// The directory under this one, whose name has to be text.
    pub fn open_subdir(&self, name: Vec<u8>) -> (r: Result<HttpDirectory, FetchError>)
        ensures
            match r {
                Ok(dir) => valid_utf8(name@) && dir.base_url@ == self.base_url@ + "/"@
                    + decode_utf8(name@),
                Err(e) => !valid_utf8(name@) && e@ == crate::error::FetchFailure::Other(
                    utf8::utf8_error(name@),
                ),
            },
    {
        match self.entry_url(name) {
            Ok(base_url) => Ok(HttpDirectory { base_url }),
            Err(e) => Err(e),
        }
    }

    /// The entry that a link in this directory's listing stands for.
    pub fn linked(&self, href: &str) -> (r: Option<DirEntry>)
        ensures
            match r {
                Some(entry) => linked_entry(self.base_url@, href@) == Some(entry@),
                None => linked_entry(self.base_url@, href@) is None,
            },
    {
        let base = trim_end_of(self.base_url.as_str(), '/');
        // Reject query strings (e.g. "?C=N&O=D" sorting links).
        if contains_char(href, '?') {
            return None;
        }
        let name = if has_prefix(href, "http://") || has_prefix(href, "https://") {
            match below(base, href) {
                Some(name) => name,
                None => {
                    return None;
                },
            }
        } else if has_prefix(href, "//") {
            return None;
        } else if has_prefix(href, "/") {
            match below(path_of_url(base), href) {
                Some(name) => name,
                None => {
                    return None;
                },
            }
        } else if has_prefix(href, ".") || has_prefix(href, "#") || contains_char(href, ':') {
            return None;
        } else {
            trim_end_of(href, '/')
        };
        if name.is_empty() {
            return None;
        }
        let bytes = name.as_bytes_vec();
        if has_suffix(href, "/") {
            Some(DirEntry::Directory(bytes))
        } else {
            Some(DirEntry::File(bytes))
        }
    }

    /// The entries of this directory, from the links its listing holds.
    pub fn list_dir(&self, hrefs: &Vec<Option<String>>) -> (r: Vec<DirEntry>)
        ensures
            entries_view(r@) == linked_entries(self.base_url@, hrefs@),
    {
        let mut entries: Vec<DirEntry> = Vec::new();
        let n: usize = hrefs.len();
        let mut i: usize = 0;
        assert(hrefs@.take(0) =~= Seq::<Option<String>>::empty());
        assert(entries_view(entries@) =~= Seq::<EntryModel>::empty());
        while i < n
            invariant
                n == hrefs@.len(),
                i <= n,
                entries_view(entries@) == linked_entries(self.base_url@, hrefs@.take(i as int)),
            decreases n - i,
        {
            assert(hrefs@.take(i + 1).drop_last() =~= hrefs@.take(i as int));
            let ghost before = entries@;
            match &hrefs[i] {
                Some(href) => {
                    match self.linked(href.as_str()) {
                        Some(entry) => {
                            entries.push(entry);
                            assert(entries_view(entries@) =~= entries_view(before).push(entry@));
                        },
                        None => {},
                    }
                },
                None => {},
            }
            i = i + 1;
        }
        assert(hrefs@.take(n as int) =~= hrefs@);
        entries
    }
}

/// No entry of a listing is without a name.
pub proof fn listed_entries_have_names(base_url: Seq<char>, href: Seq<char>)
    ensures
        linked_name(base_url, href) matches Some(name) ==> name.len() > 0,
        linked_entry(base_url, href) is Some <==> linked_name(base_url, href) is Some,
{
}

/// A read brings the bytes from its offset on, as many as are asked for or as
/// there are.
pub proof fn reads_bring_the_bytes_asked_for(data: Seq<u8>, offset: int, len: int, i: int)
    requires
        0 <= offset,
        0 <= len,
    ensures
        ({
            let got = segment(data, offset, len);
            &&& got.len() <= len
            &&& got.len() == len || offset + got.len() == data.len() || (offset >= data.len()
                && got.len() == 0)
            &&& 0 <= i < got.len() ==> offset + i < data.len() && got[i] == data[offset + i]
        }),
{
}

/// A relative link to a plain name stands for an entry of that name: a directory
/// where a slash follows, and a file where none does.
pub proof fn relative_links_stand_for_entries(base_url: Seq<char>, name: Seq<char>)
    requires
        name.len() > 0,
        !name.contains('?'),
        !name.contains(':'),
        name[0] != '.',
        name[0] != '#',
        name[0] != '/',
        name.last() != '/',
    ensures
        linked_entry(base_url, name) == Some(EntryModel::File(encode_utf8(name))),
        linked_entry(base_url, name + seq!['/']) == Some(EntryModel::Directory(encode_utf8(name))),
{
    let slashed = name + seq!['/'];
    assert forall|c: char| (c == '?' || c == ':') implies !slashed.contains(c) by {
        if slashed.contains(c) {
            let k = slashed.index_of(c);
            assert(name[k] == c);
        }
    }
    assert(slashed[0] == name[0]);
    lemma_relative(name);
    lemma_relative(slashed);
    text::lemma_trim_run(name, Seq::empty(), '/');
    text::lemma_trim_run(name, seq!['/'], '/');
    assert(name + Seq::<char>::empty() =~= name);
    lemma_ends(name);
    lemma_ends(slashed);
}

proof fn lemma_relative(href: Seq<char>)
    requires
        href.len() > 0,
        !href.contains(':'),
        href[0] != '.',
        href[0] != '#',
        href[0] != '/',
    ensures
        !"http://"@.is_prefix_of(href),
        !"https://"@.is_prefix_of(href),
        !"//"@.is_prefix_of(href),
        !"/"@.is_prefix_of(href),
        !"."@.is_prefix_of(href),
        !"#"@.is_prefix_of(href),
{
    reveal_strlit("http://");
    reveal_strlit("https://");
    reveal_strlit("//");
    reveal_strlit("/");
    reveal_strlit(".");
    reveal_strlit("#");
    text::lemma_prefix("http://"@, href);
    text::lemma_prefix("https://"@, href);
    text::lemma_prefix("//"@, href);
    text::lemma_prefix("/"@, href);
    text::lemma_prefix("."@, href);
    text::lemma_prefix("#"@, href);
    assert("http://"@[4] == ':' && "https://"@[5] == ':');
    assert("//"@[0] == '/' && "/"@[0] == '/' && "."@[0] == '.' && "#"@[0] == '#');
    if "http://"@.is_prefix_of(href) {
        assert(href[4] == ':');
    }
    if "https://"@.is_prefix_of(href) {
        assert(href[5] == ':');
    }
}

proof fn lemma_ends(href: Seq<char>)
    requires
        href.len() > 0,
    ensures
        "/"@.is_suffix_of(href) <==> href.last() == '/',
{
    reveal_strlit("/");
    assert("/"@ =~= seq!['/']);
    text::lemma_suffix(href.drop_last(), "/"@, href);
    if href.last() == '/' {
        assert(href.drop_last() + "/"@ =~= href);
    }
}

/// An absolute link below the directory's own URL stands for the entry that is
/// left of it; one that only begins alike does not.
pub proof fn absolute_links_stand_for_entries_below(base: Seq<char>, name: Seq<char>, c: char)
    requires
        seq!['h', 't', 't', 'p', ':', '/', '/'].is_prefix_of(base) || seq![
            'h',
            't',
            't',
            'p',
            's',
            ':',
            '/',
            '/',
        ].is_prefix_of(base),
        base.last() != '/',
        !base.contains('?'),
        name.len() > 0,
        !name.contains('?'),
        name[0] != '/',
        name.last() != '/',
        c != '/',
    ensures
        linked_entry(base, base + seq!['/'] + name) == Some(EntryModel::File(encode_utf8(name))),
        linked_entry(base, base + seq!['/'] + name + seq!['/']) == Some(
            EntryModel::Directory(encode_utf8(name)),
        ),
        linked_entry(base, base + seq![c] + name) is None,
{
    reveal_strlit("http://");
    reveal_strlit("https://");
    assert("http://"@ =~= seq!['h', 't', 't', 'p', ':', '/', '/']);
    assert("https://"@ =~= seq!['h', 't', 't', 'p', 's', ':', '/', '/']);
    let file = base + seq!['/'] + name;
    let folder = file + seq!['/'];
    let other = base + seq![c] + name;
    assert(!file.contains('?')) by {
        if file.contains('?') {
            let k = file.index_of('?');
            if k < base.len() {
                assert(base[k] == '?');
            } else {
                assert(name[k - base.len() - 1] == '?');
            }
        }
    }
    assert(!folder.contains('?')) by {
        if folder.contains('?') {
            let k = folder.index_of('?');
            assert(file[k] == '?');
        }
    }
    assert(file =~= base + (seq!['/'] + name));
    assert(folder =~= base + (seq!['/'] + name + seq!['/']));
    assert(other =~= base + (seq![c] + name));
    lemma_under_base(base, seq!['/'] + name, file);
    lemma_under_base(base, seq!['/'] + name + seq!['/'], folder);
    lemma_under_base(base, seq![c] + name, other);
    lemma_unslashed(name);
    lemma_ends(file);
    lemma_ends(folder);
}

proof fn lemma_under_base(base: Seq<char>, rest: Seq<char>, href: Seq<char>)
    requires
        "http://"@.is_prefix_of(base) || "https://"@.is_prefix_of(base),
        base.last() != '/',
        rest.len() > 0,
        href == base + rest,
    ensures
        rest[0] != '/' ==> linked_name(base, href) is None,
        rest[0] == '/' && !href.contains('?') && unslashed(rest).len() > 0 ==> linked_name(
            base,
            href,
        ) == Some(unslashed(rest)),
{
    reveal_strlit("/");
    assert("/"@[0] == '/');
    text::lemma_trim_run(base, Seq::empty(), '/');
    assert(base + Seq::<char>::empty() =~= base);
    assert(href.take(base.len() as int) =~= base);
    lemma_begins_alike(base, href);
    assert(href.skip(base.len() as int) =~= rest);
    text::lemma_prefix("/"@, rest);
}

proof fn lemma_begins_alike(base: Seq<char>, href: Seq<char>)
    requires
        "http://"@.is_prefix_of(base) || "https://"@.is_prefix_of(base),
        href.len() >= base.len(),
        href.take(base.len() as int) == base,
    ensures
        "http://"@.is_prefix_of(href) || "https://"@.is_prefix_of(href),
        base.is_prefix_of(href),
{
    text::lemma_prefix("http://"@, base);
    text::lemma_prefix("https://"@, base);
    text::lemma_prefix("http://"@, href);
    text::lemma_prefix("https://"@, href);
    assert forall|i: int| 0 <= i < base.len() implies href[i] == base[i] by {
        assert(href.take(base.len() as int)[i] == href[i]);
    }
    text::lemma_prefix(base, href);
}

proof fn lemma_unslashed(name: Seq<char>)
    requires
        name.len() > 0,
        name[0] != '/',
        name.last() != '/',
    ensures
        unslashed(seq!['/'] + name) == name,
        unslashed(seq!['/'] + name + seq!['/']) == name,
{
    let a = seq!['/'] + name;
    let b = seq!['/'] + name + seq!['/'];
    assert(a.drop_first() =~= name);
    assert(b.drop_first() =~= name + seq!['/']);
    assert((name + seq!['/'])[0] == name[0]);
    assert(text::trim_start(a, '/') == text::trim_start(name, '/'));
    assert(text::trim_start(b, '/') == text::trim_start(name + seq!['/'], '/'));
    text::lemma_trim_run(name, seq!['/'], '/');
    text::lemma_trim_run(name, Seq::empty(), '/');
    assert(name + Seq::<char>::empty() =~= name);
}

/// A link with a query, to a parent or the directory itself, or to a place in
/// the page stands for no entry.
pub proof fn other_links_stand_for_nothing(base_url: Seq<char>, href: Seq<char>)
    requires
        href.len() == 0 || href.contains('?') || href[0] == '.' || href[0] == '#' || (href.len()
            >= 2 && href[0] == '/' && href[1] == '/'),
    ensures
        linked_entry(base_url, href) is None,
{
    if href.contains('?') {
    } else if href.len() == 0 {
        lemma_strange(href);
        assert(text::trim_end(href, '/') == href);
    } else if href[0] == '.' || href[0] == '#' {
        lemma_strange(href);
    } else {
        lemma_other_host(href);
    }
}

proof fn lemma_strange(href: Seq<char>)
    requires
        href.len() == 0 || href[0] == '.' || href[0] == '#',
    ensures
        !"http://"@.is_prefix_of(href),
        !"https://"@.is_prefix_of(href),
        !"//"@.is_prefix_of(href),
        !"/"@.is_prefix_of(href),
        href.len() > 0 ==> "."@.is_prefix_of(href) || "#"@.is_prefix_of(href),
{
    reveal_strlit("http://");
    reveal_strlit("https://");
    reveal_strlit("//");
    reveal_strlit("/");
    reveal_strlit(".");
    reveal_strlit("#");
    assert("http://"@[0] == 'h' && "https://"@[0] == 'h' && "//"@[0] == '/' && "/"@[0] == '/');
    text::lemma_other_beginning("http://"@, href);
    text::lemma_other_beginning("https://"@, href);
    text::lemma_other_beginning("//"@, href);
    text::lemma_other_beginning("/"@, href);
    if href.len() > 0 {
        assert(href.subrange(0, 1) =~= seq![href[0]]);
        assert("."@ =~= seq!['.']);
        assert("#"@ =~= seq!['#']);
    }
}

proof fn lemma_other_host(href: Seq<char>)
    requires
        href.len() >= 2,
        href[0] == '/',
        href[1] == '/',
    ensures
        !"http://"@.is_prefix_of(href),
        !"https://"@.is_prefix_of(href),
        "//"@.is_prefix_of(href),
{
    reveal_strlit("http://");
    reveal_strlit("https://");
    reveal_strlit("//");
    assert("http://"@[0] == 'h' && "https://"@[0] == 'h');
    text::lemma_other_beginning("http://"@, href);
    text::lemma_other_beginning("https://"@, href);
    assert(href.subrange(0, 2) =~= "//"@);
}

/// Every link of a listing is looked at, in its order.
pub proof fn every_link_is_looked_at(
    base_url: Seq<char>,
    a: Seq<Option<String>>,
    b: Seq<Option<String>>,
    one: Option<String>,
)
    ensures
        linked_entries(base_url, a + b) == linked_entries(base_url, a) + linked_entries(base_url, b),
        linked_entries(base_url, seq![one]) == (match one {
            Some(href) => match linked_entry(base_url, href@) {
                Some(entry) => seq![entry],
                None => Seq::<EntryModel>::empty(),
            },
            None => Seq::<EntryModel>::empty(),
        }),
    decreases b.len(),
{
    let single = seq![one];
    assert(single.drop_last() =~= Seq::empty());
    assert(linked_entries(base_url, Seq::<Option<String>>::empty()) =~= Seq::empty());
    assert(linked_entries(base_url, single) =~= (match one {
        Some(href) => match linked_entry(base_url, href@) {
            Some(entry) => seq![entry],
            None => Seq::<EntryModel>::empty(),
        },
        None => Seq::<EntryModel>::empty(),
    }));
    if b.len() == 0 {
        assert(a + b =~= a);
        assert(linked_entries(base_url, a) + linked_entries(base_url, b) =~= linked_entries(
            base_url,
            a,
        ));
    } else {
        assert((a + b).drop_last() =~= a + b.drop_last());
        every_link_is_looked_at(base_url, a, b.drop_last(), one);
        assert(linked_entries(base_url, a + b) =~= linked_entries(base_url, a) + linked_entries(
            base_url,
            b,
        ));
    }
}

/// A link from the root of the host stands for the entry that is left of it below
/// the path of the directory's URL.
pub proof fn rooted_links_stand_for_entries_below(
    host: Seq<char>,
    path: Seq<char>,
    name: Seq<char>,
)
    requires
        !host.contains('/'),
        path.len() > 0,
        path[0] == '/',
        path.len() > 1 ==> path[1] != '/',
        path.last() != '/',
        !path.contains('?'),
        name.len() > 0,
        !name.contains('?'),
        name[0] != '/',
        name.last() != '/',
    ensures
        ({
            let base = seq!['h', 't', 't', 'p', ':', '/', '/'] + host + path;
            &&& linked_entry(base, path + seq!['/'] + name) == Some(
                EntryModel::File(encode_utf8(name)),
            )
            &&& linked_entry(base, path + seq!['/'] + name + seq!['/']) == Some(
                EntryModel::Directory(encode_utf8(name)),
            )
        }),
{
    let base = seq!['h', 't', 't', 'p', ':', '/', '/'] + host + path;
    assert(base.last() == path.last());
    text::lemma_trim_run(base, Seq::empty(), '/');
    assert(base + Seq::<char>::empty() =~= base);
    lemma_path_of_url(host, path);
    let file = path + seq!['/'] + name;
    let folder = file + seq!['/'];
    assert(!file.contains('?')) by {
        if file.contains('?') {
            let k = file.index_of('?');
            if k < path.len() {
                assert(path[k] == '?');
            } else {
                assert(name[k - path.len() - 1] == '?');
            }
        }
    }
    assert(!folder.contains('?')) by {
        if folder.contains('?') {
            let k = folder.index_of('?');
            assert(file[k] == '?');
        }
    }
    assert(file =~= path + (seq!['/'] + name));
    assert(folder =~= path + (seq!['/'] + name + seq!['/']));
    lemma_rooted(path, seq!['/'] + name, file);
    lemma_rooted(path, seq!['/'] + name + seq!['/'], folder);
    lemma_unslashed(name);
    lemma_ends(file);
    lemma_ends(folder);
}

proof fn lemma_path_of_url(host: Seq<char>, path: Seq<char>)
    requires
        !host.contains('/'),
        path.len() > 0,
        path[0] == '/',
    ensures
        url_path(seq!['h', 't', 't', 'p', ':', '/', '/'] + host + path) == path,
{
    reveal_strlit("://");
    let mark = "://"@;
    let base = seq!['h', 't', 't', 'p', ':', '/', '/'] + host + path;
    assert(mark[0] == ':' && mark[1] == '/' && mark[2] == '/');
    text::lemma_find(base, mark);
    assert(base.skip(4)[0] == ':' && base.skip(4)[1] == '/' && base.skip(4)[2] == '/');
    text::lemma_prefix(mark, base.skip(4));
    assert forall|j: int| 0 <= j < 4 implies !mark.is_prefix_of(#[trigger] base.skip(j)) by {
        text::lemma_prefix(mark, base.skip(j));
        assert(base.skip(j)[0] == base[j]);
    }
    assert(text::find(base, mark) == Some(4int));
    let rest = host + path;
    assert(base.skip(7) =~= rest);
    assert(rest[host.len() as int] == '/');
    text::lemma_first_index(rest, '/');
    let k = text::first_index(rest, '/');
    if k < host.len() {
        assert(host[k] == '/');
    }
    assert(rest.skip(host.len() as int) =~= path);
}

proof fn lemma_rooted(path: Seq<char>, rest: Seq<char>, href: Seq<char>)
    requires
        path.len() > 1,
        path[0] == '/',
        path[1] != '/',
        rest.len() > 0,
        rest[0] == '/',
        href == path + rest,
    ensures
        !"http://"@.is_prefix_of(href),
        !"https://"@.is_prefix_of(href),
        !"//"@.is_prefix_of(href),
        "/"@.is_prefix_of(href),
        under(path, href) == Some(unslashed(rest)),
{
    reveal_strlit("http://");
    reveal_strlit("https://");
    reveal_strlit("//");
    reveal_strlit("/");
    assert("http://"@[0] == 'h' && "https://"@[0] == 'h' && "//"@[1] == '/' && "/"@[0] == '/');
    assert(href[0] == '/' && href[1] == path[1]);
    text::lemma_prefix("http://"@, href);
    text::lemma_prefix("https://"@, href);
    text::lemma_prefix("//"@, href);
    text::lemma_prefix("/"@, href);
    text::lemma_prefix(path, href);
    assert(href.skip(path.len() as int) =~= rest);
    text::lemma_prefix("/"@, rest);
}

} // verus!
