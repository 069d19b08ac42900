//! The tree view: a directory's entries.

use vstd::prelude::*;
use crate::object;
use crate::object::{ObjectId, TreeEntry, TreeEntryType};
use crate::paths;
use crate::paths::{filled_parts, walk};
use crate::render::commits_table::short_hash;
use crate::route;
use crate::route::encode;
use crate::route::encode::{encode_component, encode_path};
use crate::route::query;
use crate::text;
use crate::text::{concat, concat3, has_prefix, join_with, split_on};
use crate::utf8;
use crate::utf8::lossy_text;

verus! {

/// An entry's mode, as a listing writes it.
pub open spec fn mode_text(entry_type: TreeEntryType) -> Seq<char> {
    match entry_type {
        TreeEntryType::Tree => "d---------"@,
        TreeEntryType::File => "-rw-r--r--"@,
        TreeEntryType::Executable => "-rwxr-xr-x"@,
        TreeEntryType::Symlink => "l---------"@,
        TreeEntryType::Commit => "m---------"@,
    }
}

pub fn mode_string(entry_type: TreeEntryType) -> (r: &'static str)
    ensures
        r@ == mode_text(entry_type),
{
    match entry_type {
        TreeEntryType::Tree => "d---------",
        TreeEntryType::File => "-rw-r--r--",
        TreeEntryType::Executable => "-rwxr-xr-x",
        TreeEntryType::Symlink => "l---------",
        TreeEntryType::Commit => "m---------",
    }
}

/// A symlink's target: the text git stored, plus where that text lands in this
/// repository — when it lands in it at all.
pub struct SymlinkTarget {
    /// The blob's contents verbatim, which is what gets displayed. A symlink
    /// may point anywhere, so this is shown whether or not it resolves.
    pub text: String,
    /// The in-repo path `text` names, resolved against the directory the link
    /// sits in; `None` when it names something this view can't show.
    pub path: Option<String>,
}

pub enum RowKind {
    Dir,
    File,
    /// A symlink, and its target once that is known.
    Symlink(Option<SymlinkTarget>),
    Submodule(ObjectId),
}

/// A single row of the listing.
pub struct TreeEntryRow {
    pub mode: String,
    pub name: String,
    pub path: String,
    pub kind: RowKind,
}

/// The row kind of an entry. A symlink's target is a separate fetch, so it
/// isn't known yet.
pub fn row_kind(entry_type: TreeEntryType, id: ObjectId) -> (r: RowKind)
    ensures
        r == kind_of(entry_type, id),
{
    match entry_type {
        TreeEntryType::Tree => RowKind::Dir,
        TreeEntryType::File | TreeEntryType::Executable => RowKind::File,
        TreeEntryType::Symlink => RowKind::Symlink(None),
        TreeEntryType::Commit => RowKind::Submodule(id),
    }
}

/// The row kind of an entry.
pub open spec fn kind_of(entry_type: TreeEntryType, id: ObjectId) -> RowKind {
    match entry_type {
        TreeEntryType::Tree => RowKind::Dir,
        TreeEntryType::File => RowKind::File,
        TreeEntryType::Executable => RowKind::File,
        TreeEntryType::Symlink => RowKind::Symlink(None),
        TreeEntryType::Commit => RowKind::Submodule(id),
    }
}

/// The path of `name` in the directory `dir`.
pub open spec fn path_in(dir: Seq<char>, name: Seq<char>) -> Seq<char> {
    if dir.len() == 0 {
        name
    } else {
        dir + "/"@ + name
    }
}

/// What the row of an entry shows.
pub open spec fn row_shows(row: TreeEntryRow, entry: TreeEntry, dir: Seq<char>) -> bool {
    &&& row.mode@ == mode_text(entry.entry_type)
    &&& row.name@ == utf8::lossy(entry.name@)
    &&& row.path@ == path_in(dir, utf8::lossy(entry.name@))
    &&& row.kind == kind_of(entry.entry_type, entry.id)
}

/// The rows of a tree, one for each entry, in their order.
pub fn tree_rows(entries: &Vec<TreeEntry>, prefix: &str) -> (r: Vec<TreeEntryRow>)
    ensures
        r@.len() == entries@.len(),
        forall|i: int| 0 <= i < r@.len() ==> row_shows(#[trigger] r@[i], entries@[i], prefix@),
{
    let mut rows: Vec<TreeEntryRow> = Vec::new();
    let mut i: usize = 0;
    while i < entries.len()
        invariant
            i <= entries@.len(),
            rows@.len() == i,
            forall|j: int| 0 <= j < i ==> row_shows(#[trigger] rows@[j], entries@[j], prefix@),
        decreases entries@.len() - i,
    {
        let entry: &TreeEntry = &entries[i];
        let name = lossy_text(entry.name.as_slice());
        let path = if prefix.is_empty() {
            name.clone()
        } else {
            concat3(prefix, "/", name.as_str())
        };
        rows.push(
            TreeEntryRow {
                mode: mode_string(entry.entry_type).to_string(),
                kind: row_kind(entry.entry_type, entry.id),
                name,
                path,
            },
        );
        i = i + 1;
    }
    rows
}

/// The names on the way to a symlink's target, from the repository's root.
pub open spec fn target_names(dir: Seq<char>, target: Seq<char>) -> Seq<Seq<char>> {
    paths::walked(paths::filled(text::split(dir, '/')), text::split(target, '/'))
}

/// Where a symlink's target lands inside the repository. One that is absolute,
/// that climbs past the root, or that lands on the root itself is nothing this
/// view can show.
pub open spec fn symlink_path(dir: Seq<char>, target: Seq<char>) -> Option<Seq<char>> {
    if target.len() == 0 || "/"@.is_prefix_of(target) || paths::escapes(
        paths::filled(text::split(dir, '/')),
        text::split(target, '/'),
    ) || target_names(dir, target).len() == 0 {
        None
    } else {
        Some(text::join(target_names(dir, target), "/"@))
    }
}

/// Where a symlink's target lands inside the repository, given `dir` — the path
/// of the tree the link itself sits in — or `None` when it lands outside it.
pub fn resolve_symlink(dir: &str, target: &str) -> (r: Option<String>)
    ensures
        query::opt_text(r) == symlink_path(dir@, target@),
{
    if target.is_empty() || has_prefix(target, "/") {
        return None;
    }
    let mut at: Vec<String> = filled_parts(split_on(dir, '/'));
    let parts = split_on(target, '/');
    if walk(&mut at, &parts) {
        return None;
    }
    // A target that resolves to the repository root itself: there is a view for
    // it, but an arrow pointing at an empty name reads as breakage.
    if at.len() == 0 {
        return None;
    }
    Some(join_with(&at, "/"))
}

/// A directory, as its page shows it.
pub struct TreeProps {
    pub entries: Vec<TreeEntryRow>,
    /// Appended to every link so navigation stays pinned to the current ref.
    pub head_suffix: String,
}

/// The `?h=` that keeps a link on its ref; nothing where there is none.
pub open spec fn head_query(head: Option<Seq<char>>) -> Seq<char> {
    match head {
        Some(h) => "?h="@ + encode::encoded(h),
        None => Seq::empty(),
    }
}

/// The `?h=` that keeps a link on its ref; nothing where there is none.
pub fn head_suffix(head: Option<&str>) -> (r: String)
    ensures
        r@ == head_query(query::opt_str(head)),
{
    match head {
        Some(h) => concat("?h=", encode_component(h).as_str()),
        None => String::new(),
    }
}

/// The symlinks among `entries`.
pub open spec fn symlinks(entries: Seq<TreeEntry>) -> Seq<(usize, ObjectId)>
    decreases entries.len(),
{
    if entries.len() == 0 {
        Seq::empty()
    } else if entries.last().entry_type == TreeEntryType::Symlink {
        symlinks(entries.drop_last()).push(((entries.len() - 1) as usize, entries.last().id))
    } else {
        symlinks(entries.drop_last())
    }
}

/// The symlinks among `entries`: where they stand, and the blobs that hold
/// their targets.
pub fn find_symlinks(entries: &Vec<TreeEntry>) -> (r: Vec<(usize, ObjectId)>)
    ensures
        r@ == symlinks(entries@),
{
    let mut out: Vec<(usize, ObjectId)> = Vec::new();
    let mut i: usize = 0;
    while i < entries.len()
        invariant
            i <= entries@.len(),
            out@ == symlinks(entries@.take(i as int)),
        decreases entries@.len() - i,
    {
        proof {
            assert(entries@.take(i + 1).drop_last() =~= entries@.take(i as int));
            assert(entries@.take(i + 1).last() == entries@[i as int]);
        }
        if entries[i].entry_type == TreeEntryType::Symlink {
            out.push((i, entries[i].id));
        }
        i = i + 1;
    }
    proof {
        assert(entries@.take(i as int) =~= entries@);
    }
    out
}

/// A row with its symlink's target, which `blob` holds; all else of it is as it
/// was.
pub open spec fn leads_to(
    was: TreeEntryRow,
    now: TreeEntryRow,
    prefix: Seq<char>,
    blob: Seq<u8>,
) -> bool {
    &&& now.mode == was.mode
    &&& now.name == was.name
    &&& now.path == was.path
    &&& now.kind matches RowKind::Symlink(Some(target)) && target.text@ == utf8::lossy(blob)
        && query::opt_text(target.path) == symlink_path(prefix, utf8::lossy(blob))
}

impl TreeProps {
    /// The listing, before any symlink's target is known.
    pub fn build(entries: &Vec<TreeEntry>, prefix: &str, head: Option<&str>) -> (r: Self)
        ensures
            r.entries@.len() == entries@.len(),
            forall|i: int|
                0 <= i < entries@.len() ==> row_shows(
                    #[trigger] r.entries@[i],
                    entries@[i],
                    prefix@,
                ),
            r.head_suffix@ == head_query(query::opt_str(head)),
    {
        TreeProps { entries: tree_rows(entries, prefix), head_suffix: head_suffix(head) }
    }

    /// The target of the symlink in row `i` has been read.
    pub fn fill_symlink(&mut self, i: usize, prefix: &str, blob: &[u8])
        requires
            i < old(self).entries@.len(),
        ensures
            final(self).head_suffix == old(self).head_suffix,
            final(self).entries@.len() == old(self).entries@.len(),
            forall|j: int|
                0 <= j < final(self).entries@.len() && j != i ==> final(self).entries@[j] == old(
                    self,
                ).entries@[j],
            leads_to(
                old(self).entries@[i as int],
                final(self).entries@[i as int],
                prefix@,
                blob@,
            ),
    {
        let text = lossy_text(blob);
        let path = resolve_symlink(prefix, text.as_str());
        self.entries[i].kind = RowKind::Symlink(Some(SymlinkTarget { text, path }));
    }

    /// The symlinks have been looked at: each row with what was read for it, if
    /// anything was. A target that could not be read leaves its row as it was.
    pub fn fill_symlinks(&mut self, prefix: &str, targets: &Vec<(usize, Option<Vec<u8>>)>)
        requires
            forall|k: int|
                0 <= k < targets@.len() ==> (#[trigger] targets@[k]).0 < old(self).entries@.len(),
            forall|k: int, l: int|
                0 <= k < l < targets@.len() ==> (#[trigger] targets@[k]).0 != (
                #[trigger] targets@[l]).0,
        ensures
            final(self).head_suffix == old(self).head_suffix,
            final(self).entries@.len() == old(self).entries@.len(),
            forall|k: int|
                0 <= k < targets@.len() ==> (match (#[trigger] targets@[k]).1 {
                    Some(blob) => leads_to(
                        old(self).entries@[targets@[k].0 as int],
                        final(self).entries@[targets@[k].0 as int],
                        prefix@,
                        blob@,
                    ),
                    None => final(self).entries@[targets@[k].0 as int] == old(
                        self,
                    ).entries@[targets@[k].0 as int],
                }),
            forall|j: int|
                0 <= j < final(self).entries@.len() && (forall|k: int|
                    0 <= k < targets@.len() ==> (#[trigger] targets@[k]).0 != j)
                    ==> #[trigger] final(self).entries@[j] == old(self).entries@[j],
    {
        let mut n: usize = 0;
        while n < targets.len()
            invariant
                n <= targets@.len(),
                self.head_suffix == old(self).head_suffix,
                self.entries@.len() == old(self).entries@.len(),
                forall|k: int|
                    0 <= k < targets@.len() ==> (#[trigger] targets@[k]).0 < self.entries@.len(),
                forall|k: int, l: int|
                    0 <= k < l < targets@.len() ==> (#[trigger] targets@[k]).0 != (
                    #[trigger] targets@[l]).0,
                forall|k: int|
                    0 <= k < n ==> (match (#[trigger] targets@[k]).1 {
                        Some(blob) => leads_to(
                            old(self).entries@[targets@[k].0 as int],
                            self.entries@[targets@[k].0 as int],
                            prefix@,
                            blob@,
                        ),
                        None => self.entries@[targets@[k].0 as int] == old(
                            self,
                        ).entries@[targets@[k].0 as int],
                    }),
                forall|j: int|
                    0 <= j < self.entries@.len() && (forall|k: int|
                        0 <= k < n ==> (#[trigger] targets@[k]).0 != j)
                        ==> #[trigger] self.entries@[j] == old(self).entries@[j],
            decreases targets@.len() - n,
        {
            let at: usize = targets[n].0;
            assert(forall|k: int| 0 <= k < n ==> (#[trigger] targets@[k]).0 != targets@[n as int].0);
            assert(self.entries@[at as int] == old(self).entries@[at as int]);
            if let Some(blob) = &targets[n].1 {
                self.fill_symlink(at, prefix, blob.as_slice());
            }
            assert(targets@[n as int].0 == at);
            n = n + 1;
        }
    }
}

/// Where a path leads, on the listing's ref.
pub open spec fn href_of(path: Seq<char>, suffix: Seq<char>) -> Seq<char> {
    "#!/tree/"@ + encode::encoded_path(path) + suffix
}

/// Where a path leads, on the listing's ref.
pub fn path_href(path: &str, suffix: &str) -> (r: String)
    ensures
        r@ == href_of(path@, suffix@),
{
    concat3("#!/tree/", encode_path(path).as_str(), suffix)
}

impl TreeEntryRow {
    /// Where the row leads.
    pub fn href(&self, suffix: &str) -> (r: String)
        ensures
            r@ == href_of(self.path@, suffix@),
    {
        path_href(self.path.as_str(), suffix)
    }
}

impl SymlinkTarget {
    /// Where the target leads; nowhere, for one that this view can't show.
    pub fn href(&self, suffix: &str) -> (r: Option<String>)
        ensures
            match self.path {
                Some(path) => r matches Some(url) && url@ == href_of(path@, suffix@),
                None => r is None,
            },
    {
        match &self.path {
            Some(path) => Some(path_href(path.as_str(), suffix)),
            None => None,
        }
    }
}

/// The commit that a submodule's row shows behind the name.
pub fn submodule_label(id: ObjectId) -> (r: String)
    ensures
        r@ == " @ "@ + object::hex_text(id@).take(8),
{
    concat(" @ ", short_hash(id).as_str())
}

/// A symlink that resolves stays inside the repository: its path is made of
/// names that tree entries can have, in a directory that is.
pub proof fn symlinks_stay_inside(dir: Seq<char>, target: Seq<char>)
    requires
        paths::proper_names(paths::filled(text::split(dir, '/'))),
        symlink_path(dir, target) is Some,
    ensures
        paths::proper_names(target_names(dir, target)),
        symlink_path(dir, target) == Some(text::join(target_names(dir, target), "/"@)),
        symlink_path(dir, target)->0.len() > 0,
        symlink_path(dir, target)->0[0] != '/',
{
    text::lemma_split_pieces(target, '/');
    paths::walking_keeps_proper_names(
        paths::filled(text::split(dir, '/')),
        text::split(target, '/'),
    );
    paths::lemma_joined_names(target_names(dir, target));
}

/// A row's link is the URL of the tree view at the row's path.
pub proof fn row_links_name_their_paths(path: Seq<char>, head: Option<Seq<char>>)
    requires
        path.len() > 0,
    ensures
        href_of(path, head_query(head)) == route::tree_hash(path, head, false),
{
    reveal_strlit("?h=");
    reveal_strlit("?");
    reveal_strlit("h=");
    reveal_strlit("#!/tree/");
    reveal_strlit("#!/tree");
    reveal_strlit("/");
    assert("#!/tree/"@ =~= "#!/tree"@ + "/"@);
    let parts = route::head_part(head) + route::diff_view::when(false, "render=1"@);
    match head {
        Some(h) => {
            assert(parts =~= seq!["h="@ + encode::encoded(h)]);
            assert(text::join(parts, "&"@) == parts[0]);
            assert("?h="@ + encode::encoded(h) =~= "?"@ + ("h="@ + encode::encoded(h)));
        },
        None => {
            assert(parts =~= Seq::empty());
        },
    }
    assert(href_of(path, head_query(head)) =~= route::tree_hash(path, head, false));
}

/// The names along a path.
pub open spec fn names_along(path: Seq<char>) -> Seq<Seq<char>> {
    paths::filled(text::split(path, '/'))
}

/// A row's path goes through all the names of the listed directory, and then to
/// the entry.
pub proof fn row_paths_lead_to_their_entries(
    row: TreeEntryRow,
    entry: TreeEntry,
    dir: Seq<char>,
    name: Seq<char>,
)
    requires
        row_shows(row, entry, dir),
        entry.name@ == vstd::utf8::encode_utf8(name),
        paths::proper_name(name),
    ensures
        row.name@ == name,
        text::split(row.path@, '/') == (if dir.len() == 0 {
            seq![name]
        } else {
            text::split(dir, '/').push(name)
        }),
        names_along(row.path@) == names_along(dir).push(name),
        text::base_name(row.path@) == name,
        text::dir_name(row.path@) == dir,
{
    utf8::lossy_reads_back_encoded_text(name);
    text::lemma_split_pieces(dir, '/');
    reveal_strlit("/");
    assert("/"@ =~= seq!['/']);
    let path = row.path@;
    let parts = text::split(dir, '/');
    text::lemma_first_index(name, '/');
    text::lemma_last_index(path, '/');
    if dir.len() == 0 {
        assert(text::split(path, '/') =~= seq![name]);
        assert(text::split(dir, '/') =~= seq![dir]);
        assert(seq![dir].drop_last() =~= Seq::empty());
        assert(paths::filled(Seq::<Seq<char>>::empty()) =~= Seq::empty());
        assert(names_along(dir) =~= Seq::empty());
        assert(seq![name].drop_last() =~= Seq::empty());
        assert(names_along(path) =~= seq![name]);
        if text::last_index(path, '/') >= 0 {
            assert(name.contains(name[text::last_index(path, '/')]));
        }
        assert(text::base_name(path) =~= name);
        assert(text::dir_name(path) =~= dir);
    } else {
        let all = parts.push(name);
        assert forall|i: int| 0 <= i < all.len() implies !(#[trigger] all[i]).contains('/') by {
            if i < parts.len() {
                assert(all[i] == parts[i]);
            }
        }
        text::lemma_join_push(parts, name, seq!['/']);
        text::joining_a_split_gives_the_text_back(dir, '/');
        text::splitting_a_join_gives_the_pieces_back(all, '/');
        assert(text::join(all, seq!['/']) == path);
        assert(all.drop_last() =~= parts);
        let n = dir.len() as int;
        assert(path[n] == '/');
        let k = text::last_index(path, '/');
        if k > n {
            assert(path[k] == name[k - n - 1]);
            assert(name.contains(name[k - n - 1]));
        }
        assert(k == n);
        assert(text::base_name(path) =~= name);
        assert(text::dir_name(path) =~= dir);
    }
}

/// The symlinks are the entries that are one, all of them, in the listing's
/// order.
pub proof fn all_symlinks_are_found(entries: Seq<TreeEntry>, i: int)
    requires
        0 <= i < entries.len(),
        entries.len() <= usize::MAX,
    ensures
        symlinks(entries).contains((i as usize, entries[i].id)) <==> entries[i].entry_type
            == TreeEntryType::Symlink,
        forall|k: int|
            0 <= k < symlinks(entries).len() ==> (#[trigger] symlinks(entries)[k]).0 < entries.len()
                && symlinks(entries)[k].1 == entries[symlinks(entries)[k].0 as int].id,
        forall|k: int, l: int|
            0 <= k < l < symlinks(entries).len() ==> (#[trigger] symlinks(entries)[k]).0 < (
            #[trigger] symlinks(entries)[l]).0,
    decreases entries.len(),
{
    let rest = entries.drop_last();
    let all = symlinks(entries);
    let earlier = symlinks(rest);
    if rest.len() > 0 {
        let j = if i < rest.len() {
            i
        } else {
            0
        };
        all_symlinks_are_found(rest, j);
        assert(i < rest.len() ==> rest[i] == entries[i]);
    }
    assert forall|k: int| 0 <= k < all.len() implies (#[trigger] all[k]).0 < entries.len()
        && all[k].1 == entries[all[k].0 as int].id by {
        if k < earlier.len() {
            assert(all[k] == earlier[k]);
            assert(rest[earlier[k].0 as int] == entries[earlier[k].0 as int]);
        }
    }
    assert forall|k: int, l: int| 0 <= k < l < all.len() implies (#[trigger] all[k]).0 < (
    #[trigger] all[l]).0 by {
        assert(all[k] == earlier[k]);
        if l < earlier.len() {
            assert(all[l] == earlier[l]);
        }
    }
    let it = (i as usize, entries[i].id);
    if i == entries.len() - 1 {
        if entries[i].entry_type == TreeEntryType::Symlink {
            assert(all[all.len() - 1] == it);
        } else if all.contains(it) {
            let k = all.index_of(it);
            assert(earlier[k] == it);
        }
    } else {
        if earlier.contains(it) {
            let k = earlier.index_of(it);
            assert(all[k] == it);
        }
        if all.contains(it) {
            let k = all.index_of(it);
            assert(k < earlier.len());
            assert(earlier[k] == it);
        }
    }
}

/// A symlink leads to where its target does when it is walked from the
/// directory that it stands in; nowhere, where that is above the root or the
/// root itself, or where the target begins with a slash or is empty.
pub proof fn symlinks_are_walked_from_their_directory(dir: Seq<char>, target: Seq<char>)
    requires
        paths::proper_names(names_along(dir)),
    ensures
        target.len() == 0 || target[0] == '/' ==> symlink_path(dir, target) is None,
        target.len() > 0 && target[0] != '/' ==> {
            let there = paths::walked(names_along(dir), text::split(target, '/'));
            &&& symlink_path(dir, target) is None <==> paths::escapes(
                names_along(dir),
                text::split(target, '/'),
            ) || there.len() == 0
            &&& symlink_path(dir, target) matches Some(path) ==> names_along(path) == there
        },
{
    reveal_strlit("/");
    assert("/"@ =~= seq!['/']);
    text::lemma_prefix("/"@, target);
    assert("/"@[0] == '/');
    let there = target_names(dir, target);
    if symlink_path(dir, target) is Some {
        text::lemma_split_pieces(target, '/');
        paths::walking_keeps_proper_names(names_along(dir), text::split(target, '/'));
        assert forall|i: int| 0 <= i < there.len() implies !(#[trigger] there[i]).contains('/') by {
            assert(paths::proper_name(there[i]));
        }
        text::splitting_a_join_gives_the_pieces_back(there, '/');
        paths::lemma_filled_names(there);
    }
}

/// A target that has been read changes nothing of its row but that it is shown,
/// as it is written.
pub proof fn targets_change_nothing_else(
    was: TreeEntryRow,
    now: TreeEntryRow,
    dir: Seq<char>,
    target: Seq<char>,
)
    requires
        leads_to(was, now, dir, vstd::utf8::encode_utf8(target)),
    ensures
        now == (TreeEntryRow { kind: now.kind, ..was }),
        now.kind matches RowKind::Symlink(Some(shown)) && shown.text@ == target && query::opt_text(
            shown.path,
        ) == symlink_path(dir, target),
{
    utf8::lossy_reads_back_encoded_text(target);
}

/// A mode begins with the letter of its kind; only files can be read, and only
/// programs run.
pub proof fn modes_tell_kinds(entry_type: TreeEntryType, id: ObjectId)
    ensures
        ({
            let mode = mode_text(entry_type);
            let file = entry_type is File || entry_type is Executable;
            &&& mode.len() == 10
            &&& (mode[0] == 'd') == (entry_type is Tree)
            &&& (mode[0] == 'l') == (entry_type is Symlink)
            &&& (mode[0] == 'm') == (entry_type is Commit)
            &&& (mode[0] == '-') == file
            &&& forall|i: int| (i == 1 || i == 4 || i == 7) ==> (#[trigger] mode[i] == 'r') == file
            &&& (mode[2] == 'w') == file
            &&& forall|i: int|
                (i == 3 || i == 6 || i == 9) ==> (#[trigger] mode[i] == 'x') == (entry_type
                    is Executable)
            &&& mode[5] == '-' && mode[8] == '-'
        }),
        kind_of(entry_type, id) is Dir <==> entry_type is Tree,
        kind_of(entry_type, id) is File <==> entry_type is File || entry_type is Executable,
        entry_type is Symlink ==> kind_of(entry_type, id) == RowKind::Symlink(None),
        entry_type is Commit ==> kind_of(entry_type, id) == RowKind::Submodule(id),
{
    reveal_strlit("d---------");
    reveal_strlit("-rw-r--r--");
    reveal_strlit("-rwxr-xr-x");
    reveal_strlit("l---------");
    reveal_strlit("m---------");
}

} // verus!
