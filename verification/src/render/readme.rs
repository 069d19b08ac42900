//! The readme page: the README at the root of HEAD's tree.

use vstd::prelude::*;
use crate::object;
use crate::object::{find_file, ObjectId, TreeEntry};
use crate::render::markdown;
use crate::render::markdown::{markdown_to_html, LinkBase};
use crate::text;
use crate::text::has_suffix;
use crate::utf8;
use crate::utf8::lossy_text;

verus! {

/// The README file names looked for, in the order they're preferred. Only
/// `.md` is treated as markdown.
pub open spec fn readme_names() -> Seq<Seq<char>> {
    seq!["README.md"@, "README"@, "README.txt"@, "README.rst"@]
}

/// The README file names looked for, in the order they're preferred.
pub fn names() -> (r: Vec<&'static str>)
    ensures
        r@.map_values(|s: &'static str| s@) == readme_names(),
{
    let r: Vec<&'static str> = vec!["README.md", "README", "README.txt", "README.rst"];
    assert(r@.map_values(|s: &'static str| s@) =~= readme_names());
    r
}

/// A README's content, in the form it should be displayed.
#[derive(PartialEq, Debug)]
pub enum ReadmeContent {
    /// Markdown already rendered to HTML, to be shown in the sandboxed frame.
    Markdown(String),
    /// A non-markdown README, shown as-is.
    Plain(String),
}

/// The files to try to read, in the order they're preferred, each with its
/// name.
pub open spec fn candidates(entries: Seq<TreeEntry>, names: Seq<Seq<char>>) -> Seq<
    (Seq<char>, ObjectId),
>
    decreases names.len(),
{
    if names.len() == 0 {
        Seq::empty()
    } else {
        let earlier = candidates(entries, names.drop_last());
        match object::file_named(entries, vstd::utf8::encode_utf8(names.last())) {
            Some(id) => earlier.push((names.last(), id)),
            None => earlier,
        }
    }
}

/// The files to try to read, in the order they're preferred: the first that
/// can be read is the README. Entries that aren't a regular file (a directory
/// named `README`, a symlink, a submodule) are skipped.
pub fn readme_candidates(entries: &Vec<TreeEntry>) -> (r: Vec<(&'static str, ObjectId)>)
    ensures
        candidates_view(r@) == candidates(entries@, readme_names()),
{
    let wanted = names();
    let ghost all = wanted@.map_values(|s: &'static str| s@);
    let mut out: Vec<(&'static str, ObjectId)> = Vec::new();
    let mut i: usize = 0;
    proof {
        assert(out@.map_values(|p: (&'static str, ObjectId)| (p.0@, p.1)) =~= candidates(
            entries@,
            all.take(0),
        ));
    }
    while i < wanted.len()
        invariant
            i <= wanted@.len(),
            all == wanted@.map_values(|s: &'static str| s@),
            out@.map_values(|p: (&'static str, ObjectId)| (p.0@, p.1)) == candidates(
                entries@,
                all.take(i as int),
            ),
        decreases wanted@.len() - i,
    {
        let ghost was = out@.map_values(|p: (&'static str, ObjectId)| (p.0@, p.1));
        let name: &'static str = wanted[i];
        proof {
            assert(all.take(i + 1).drop_last() =~= all.take(i as int));
            assert(all.take(i + 1).last() == name@);
        }
        if let Some(id) = find_file(entries, name.as_bytes()) {
            out.push((name, id));
            assert(out@.map_values(|p: (&'static str, ObjectId)| (p.0@, p.1)) =~= was.push(
                (name@, id),
            ));
        }
        i = i + 1;
    }
    proof {
        assert(all.take(i as int) =~= all);
    }
    out
}

/// Where the README's own links resolve from: the repository root, and back to
/// the readme page for a bare fragment.
pub fn link_base() -> (r: LinkBase)
    ensures
        r.dir@.len() == 0,
        r.self_url@ == "#!/readme"@,
{
    LinkBase { dir: String::new(), self_url: "#!/readme".to_string() }
}

/// Whether this is what a README of this name and these bytes is shown as.
pub open spec fn shown_as(content: ReadmeContent, name: Seq<char>, data: Seq<u8>) -> bool {
    match content {
        ReadmeContent::Markdown(html) => ".md"@.is_suffix_of(name) && html@
            == markdown::document_html(utf8::lossy(data), Seq::empty(), "#!/readme"@),
        ReadmeContent::Plain(t) => !".md"@.is_suffix_of(name) && t@ == utf8::lossy(data),
    }
}

/// The README as it is shown, from its name and its bytes.
pub fn readme_content(name: &str, data: &[u8]) -> (r: ReadmeContent)
    ensures
        shown_as(r, name@, data@),
{
    let t = lossy_text(data);
    if has_suffix(name, ".md") {
        let base = link_base();
        proof {
            assert(base.dir@ =~= Seq::empty());
        }
        ReadmeContent::Markdown(markdown_to_html(t.as_str(), &base))
    } else {
        ReadmeContent::Plain(t)
    }
}

/// What the names and ids of the files to try say.
pub open spec fn candidates_view(v: Seq<(&'static str, ObjectId)>) -> Seq<(Seq<char>, ObjectId)> {
    v.map_values(|p: (&'static str, ObjectId)| (p.0@, p.1))
}

/// Looking for the README: the files to try, and which of them is tried.
pub struct ReadmeSearch {
    pub candidates: Vec<(&'static str, ObjectId)>,
    pub at: usize,
}

impl ReadmeSearch {
    pub open spec fn wf(self) -> bool {
        self.at <= self.candidates@.len()
    }

    /// Begin with the file that is preferred.
    pub fn start(entries: &Vec<TreeEntry>) -> (r: Self)
        ensures
            candidates_view(r.candidates@) == candidates(entries@, readme_names()),
            r.at == 0,
            r.wf(),
    {
        ReadmeSearch { candidates: readme_candidates(entries), at: 0 }
    }

    /// The file to read next; `None` where all have been tried, and the
    /// repository has no README.
    pub fn ask(&self) -> (r: Option<ObjectId>)
        requires
            self.wf(),
        ensures
            r == (if self.at < self.candidates@.len() {
                Some(self.candidates@[self.at as int].1)
            } else {
                None
            }),
    {
        if self.at < self.candidates.len() {
            Some(self.candidates[self.at].1)
        } else {
            None
        }
    }

    /// Take what reading the file brought. One that could be read is the
    /// README; otherwise the next is tried.
    pub fn step(&mut self, read: Option<&[u8]>) -> (r: Option<ReadmeContent>)
        requires
            old(self).wf(),
            old(self).at < old(self).candidates@.len(),
        ensures
            final(self).wf(),
            final(self).candidates == old(self).candidates,
            match read {
                Some(data) => {
                    &&& r matches Some(content)
                    &&& shown_as(content, old(self).candidates@[old(self).at as int].0@, data@)
                    &&& final(self).at == old(self).at
                },
                None => r is None && final(self).at == old(self).at + 1,
            },
    {
        match read {
            Some(data) => Some(readme_content(self.candidates[self.at].0, data)),
            None => {
                assert(self.at < self.candidates.len());
                self.at = self.at + 1;
                None
            },
        }
    }
}

/// The file that a search which tries the one at `at` comes to: a step that
/// reads ends it, and one that does not goes on with the next.
pub open spec fn comes_to(
    files: Seq<(Seq<char>, ObjectId)>,
    reads: spec_fn(ObjectId) -> bool,
    at: int,
) -> Option<int>
    decreases files.len() - at,
{
    if at < 0 || at >= files.len() {
        None
    } else if reads(files[at].1) {
        Some(at)
    } else {
        comes_to(files, reads, at + 1)
    }
}

/// The README is the first of the files that can be read; there is none where
/// none of them can.
pub proof fn first_that_reads_is_the_readme(
    files: Seq<(Seq<char>, ObjectId)>,
    reads: spec_fn(ObjectId) -> bool,
    at: int,
)
    requires
        0 <= at <= files.len(),
    ensures
        match comes_to(files, reads, at) {
            Some(i) => {
                &&& at <= i < files.len()
                &&& reads(files[i].1)
                &&& forall|j: int| at <= j < i ==> !reads((#[trigger] files[j]).1)
            },
            None => forall|j: int| at <= j < files.len() ==> !reads((#[trigger] files[j]).1),
        },
    decreases files.len() - at,
{
    if at < files.len() && !reads(files[at].1) {
        first_that_reads_is_the_readme(files, reads, at + 1);
    }
}

/// The files to try are those that the names name, in the names' order; a name
/// that is no regular file's is passed over.
pub proof fn every_readme_file_is_tried(
    entries: Seq<TreeEntry>,
    a: Seq<Seq<char>>,
    b: Seq<Seq<char>>,
    name: Seq<char>,
)
    ensures
        candidates(entries, a + b) == candidates(entries, a) + candidates(entries, b),
        candidates(entries, seq![name]) == (match object::file_named(
            entries,
            vstd::utf8::encode_utf8(name),
        ) {
            Some(id) => seq![(name, id)],
            None => Seq::<(Seq<char>, ObjectId)>::empty(),
        }),
    decreases b.len(),
{
    let one = seq![name];
    assert(one.drop_last() =~= Seq::empty());
    assert(candidates(entries, Seq::<Seq<char>>::empty()) =~= Seq::empty());
    assert(candidates(entries, one) =~= (match object::file_named(
        entries,
        vstd::utf8::encode_utf8(name),
    ) {
        Some(id) => seq![(name, id)],
        None => Seq::<(Seq<char>, ObjectId)>::empty(),
    }));
    if b.len() == 0 {
        assert(a + b =~= a);
        assert(candidates(entries, a) + candidates(entries, b) =~= candidates(entries, a));
    } else {
        assert((a + b).drop_last() =~= a + b.drop_last());
        every_readme_file_is_tried(entries, a, b.drop_last(), name);
        assert(candidates(entries, a + b) =~= candidates(entries, a) + candidates(entries, b));
    }
}

/// The README is looked for under four names: markdown first, then the bare
/// name, then text, then reStructuredText.
pub proof fn readmes_have_four_names(entries: Seq<TreeEntry>)
    ensures
        candidates(entries, readme_names()) == candidates(entries, seq!["README.md"@])
            + candidates(entries, seq!["README"@]) + candidates(entries, seq!["README.txt"@])
            + candidates(entries, seq!["README.rst"@]),
{
    let a = seq!["README.md"@];
    let b = seq!["README"@];
    let c = seq!["README.txt"@];
    let d = seq!["README.rst"@];
    every_readme_file_is_tried(entries, a + b + c, d, "README"@);
    every_readme_file_is_tried(entries, a + b, c, "README"@);
    every_readme_file_is_tried(entries, a, b, "README"@);
    assert(a + b + c + d =~= readme_names());
}

/// A README that is not markdown is shown as it is written, and one that is, is
/// rendered, from the root of the repository.
pub proof fn plain_readmes_are_shown_as_they_are(
    content: ReadmeContent,
    name: Seq<char>,
    s: Seq<char>,
)
    requires
        shown_as(content, name, vstd::utf8::encode_utf8(s)),
    ensures
        name.len() >= 3 && name[name.len() - 3] == '.' && name[name.len() - 2] == 'm'
            && name[name.len() - 1] == 'd' ==> (content matches ReadmeContent::Markdown(html)
            && html@ == markdown::document_html(s, Seq::empty(), "#!/readme"@)),
        !(name.len() >= 3 && name[name.len() - 3] == '.' && name[name.len() - 2] == 'm'
            && name[name.len() - 1] == 'd') ==> (content matches ReadmeContent::Plain(t) && t@ == s),
{
    utf8::lossy_reads_back_encoded_text(s);
    reveal_strlit(".md");
    let md = seq!['.', 'm', 'd'];
    assert(".md"@ =~= md);
    text::lemma_suffix(name, md, name);
    let n = name.len() as int;
    if n >= 3 && name[n - 3] == '.' && name[n - 2] == 'm' && name[n - 1] == 'd' {
        assert(name.subrange(n - 3, n) =~= md);
    } else if md.is_suffix_of(name) {
        let whole = name.take(n - 3) + md;
        assert(whole[n - 3] == '.' && whole[n - 2] == 'm' && whole[n - 1] == 'd');
    }
}

} // verus!
