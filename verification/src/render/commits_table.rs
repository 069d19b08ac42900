//! The commit table shared by the log, the summary and the ref pages: one row
//! per commit, with the ref decorations that point at it.

use vstd::prelude::*;
use crate::object;
use crate::object::ObjectId;
use crate::render::time::Age;
use crate::route;
use crate::route::{log_url, tag_url};
use crate::text::concat;

verus! {

/// A commit, as a row of a table.
pub struct CommitRow {
    pub id: ObjectId,
    pub short_hash: String,
    pub message: String,
    /// Everything after the subject line, shown under the row when the log is
    /// expanded (`?showmsg=1`); empty for a single-line commit message.
    pub body: String,
    pub author: String,
    pub age: Age,
    pub refs: Vec<RefLabel>,
}

/// The log's Expand/Collapse control, as rendered in the "Message" header.
#[derive(PartialEq, Debug)]
pub struct ExpandMsg {
    pub expanded: bool,
    pub toggle_url: String,
}

impl ExpandMsg {
    pub fn new(expanded: bool, toggle_url: String) -> (r: Self)
        ensures
            r.expanded == expanded,
            r.toggle_url@ == toggle_url@,
    {
        ExpandMsg { expanded, toggle_url }
    }

    /// The link's label: what following it does.
    pub fn label(&self) -> (r: &'static str)
        ensures
            r@ == (if self.expanded {
                "Collapse"@
            } else {
                "Expand"@
            }),
    {
        if self.expanded {
            "Collapse"
        } else {
            "Expand"
        }
    }
}

/// A branch or tag decoration shown next to a commit.
#[derive(PartialEq, Debug)]
pub struct RefLabel {
    pub name: String,
    pub kind: RefLabelKind,
}

#[derive(PartialEq, Eq, Structural, Clone, Copy, Debug)]
pub enum RefLabelKind {
    Branch,
    Tag,
}

/// What a [`RefLabel`] says.
pub open spec fn label_view(label: RefLabel) -> (Seq<char>, RefLabelKind) {
    (label.name@, label.kind)
}

/// What a list of labels says.
pub open spec fn labels_view(labels: Seq<RefLabel>) -> Seq<(Seq<char>, RefLabelKind)> {
    labels.map_values(|l: RefLabel| label_view(l))
}

impl RefLabel {
    /// Where the label leads: a tag's page, or a branch's log.
    pub fn href(&self) -> (r: String)
        ensures
            r@ == (match self.kind {
                RefLabelKind::Tag => route::tag_hash(self.name@),
                RefLabelKind::Branch => route::log_hash(
                    Seq::empty(),
                    0,
                    Some(self.name@),
                    false,
                ),
            }),
    {
        match self.kind {
            RefLabelKind::Tag => tag_url(self.name.as_str()),
            RefLabelKind::Branch => {
                proof {
                    reveal_strlit("");
                    assert(""@ =~= Seq::<char>::empty());
                }
                log_url("", 0, Some(self.name.as_str()), false)
            },
        }
    }

    pub fn class(&self) -> (r: &'static str)
        ensures
            r@ == (match self.kind {
                RefLabelKind::Tag => "ref-label tag"@,
                RefLabelKind::Branch => "ref-label branch"@,
            }),
    {
        match self.kind {
            RefLabelKind::Tag => "ref-label tag",
            RefLabelKind::Branch => "ref-label branch",
        }
    }

    /// The same label.
    pub fn copy(&self) -> (r: Self)
        ensures
            label_view(r) == label_view(*self),
    {
        RefLabel { name: self.name.clone(), kind: self.kind }
    }
}

/// The URL of a commit, from its id.
pub open spec fn commit_page(id: Seq<u8>) -> Seq<char> {
    "#!/commit/"@ + object::hex_text(id)
}

/// The URL of a commit, from its id.
pub fn commit_page_url(id: &ObjectId) -> (r: String)
    ensures
        r@ == commit_page(id@),
{
    concat("#!/commit/", id.to_hex().as_str())
}

impl CommitRow {
    /// Where the row's hash leads.
    pub fn href(&self) -> (r: String)
        ensures
            r@ == commit_page(self.id@),
    {
        commit_page_url(&self.id)
    }

    /// Whether the row is followed by the rest of its message.
    pub fn shows_body(&self, expanded: bool) -> (r: bool)
        ensures
            r == (expanded && self.body@.len() > 0),
    {
        expanded && !self.body.as_str().is_empty()
    }
}

/// The classes of the table.
pub fn table_class(expand: Option<&ExpandMsg>) -> (r: &'static str)
    ensures
        r@ == (match expand {
            Some(e) => if e.expanded {
                "summary-table log-expanded"@
            } else {
                "summary-table"@
            },
            None => "summary-table"@,
        }),
{
    match expand {
        Some(e) => if e.expanded {
            "summary-table log-expanded"
        } else {
            "summary-table"
        },
        None => "summary-table",
    }
}

/// The 8-character abbreviation of `id` displayed in commit tables.
pub fn short_hash(id: ObjectId) -> (r: String)
    ensures
        r@ == object::hex_text(id@).take(8),
{
    id.short()
}

/// A commit's link leads to the commit's page, as git shows a diff.
pub proof fn commit_links_lead_to_their_commits(id: Seq<u8>)
    requires
        id.len() == 20,
    ensures
        route::route_of(commit_page(id)) == route::RouteModel::Commit(
            object::hex_text(id),
            route::diff_view::default_view(),
        ),
{
    let hex = object::hex_text(id);
    assert(hex.len() == 40);
    assert forall|i: int| 0 <= i < hex.len() implies {
        let c = #[trigger] hex[i];
        &&& c != '%' && c != '#' && c != '?' && c != '&' && c != '/' && c != ' '
        &&& (c as int) >= 0x20
        &&& !(0x7f <= c as int <= 0x9f)
    } by {
        object::names_are_written_in_small_letters(id, i / 2);
        if i % 2 == 0 {
            assert(i == 2 * (i / 2));
        } else {
            assert(i == 2 * (i / 2) + 1);
        }
    }
    route::encode::plain_text_is_written_as_it_is(hex);
    let view = route::diff_view::default_view();
    assert(route::diff_view::query_parts(view) =~= Seq::empty());
    assert(route::commit_hash(hex, view) =~= commit_page(id));
    route::round_trip::diff_settings_come_back(hex, view);
}

} // verus!
