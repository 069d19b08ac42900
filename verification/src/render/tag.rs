//! A tag's page.

use vstd::prelude::*;
use crate::object;
use crate::object::ObjectId;
use crate::render::commits_table;
use crate::render::commits_table::commit_page_url;
use crate::render::time;
use crate::render::time::{format_datetime, Moment};
use crate::route;
use crate::route::{log_url, tree_url};
use crate::text::concat;
use crate::utf8;
use crate::utf8::lossy_text;

verus! {

/// What a tag object says; an annotated or signed tag points at one.
pub struct TagInfo {
    pub date: Option<Moment>,
    pub tagger_name: Option<Vec<u8>>,
    pub message: Vec<u8>,
}

/// A tag, as its page shows it.
pub struct TagProps {
    pub name: String,
    pub date: String,
    pub tagger_name: Option<String>,
    pub commit: ObjectId,
    pub contents: Option<String>,
}

/// Why a tag has no page.
pub enum TagError {
    /// There is no tag of this name.
    NotFound,
    /// The tag comes down to no commit.
    NoCommit,
    /// The tag object has no date.
    NoDate,
    /// The tag object has no tagger.
    NoTagger,
}

/// What is said of a tag that has no page.
pub fn tag_error(e: &TagError, tag: &str) -> (r: String)
    ensures
        r@ == (match e {
            TagError::NotFound => "tag not found: "@,
            TagError::NoCommit => "no commit for "@,
            TagError::NoDate => "no date on tag "@,
            TagError::NoTagger => "no tagger on "@,
        }) + tag@,
{
    match e {
        TagError::NotFound => concat("tag not found: ", tag),
        TagError::NoCommit => concat("no commit for ", tag),
        TagError::NoDate => concat("no date on tag ", tag),
        TagError::NoTagger => concat("no tagger on ", tag),
    }
}

/// The name of a tag's ref, below `refs/`.
pub fn tag_ref(tag: &str) -> (r: String)
    ensures
        r@ == "tags/"@ + tag@,
{
    concat("tags/", tag)
}

/// What a failed lookup of the tag's object is put down to.
pub fn lookup_context(tag: &str) -> (r: String)
    ensures
        r@ == "lookup tag object "@ + tag@,
{
    concat("lookup tag object ", tag)
}

/// What a failed peeling of the tag is put down to.
pub fn peel_context(tag: &str) -> (r: String)
    ensures
        r@ == "peel ref for "@ + tag@,
{
    concat("peel ref for ", tag)
}

/// A tag's page. Annotated tags point at a tag object that carries its own
/// tagger and message; a lightweight tag points straight at the commit and has
/// neither, so its date is the commit's.
pub fn build_tag(
    tag: &str,
    commit: ObjectId,
    commit_date: &Moment,
    object: Option<&TagInfo>,
) -> (r: Result<TagProps, TagError>)
    requires
        commit_date.wf(),
        object matches Some(o) ==> (o.date matches Some(d) ==> d.wf()),
    ensures
        match object {
            Some(o) => match (o.date, o.tagger_name) {
                (None, _) => r matches Err(e) && e is NoDate,
                (Some(_), None) => r matches Err(e) && e is NoTagger,
                (Some(date), Some(tagger)) => r matches Ok(p) && {
                    &&& p.name@ == tag@
                    &&& p.date@ == time::moment_text(date)
                    &&& p.tagger_name matches Some(n) && n@ == utf8::lossy(tagger@)
                    &&& p.commit == commit
                    &&& p.contents matches Some(c) && c@ == utf8::lossy(o.message@)
                },
            },
            None => r matches Ok(p) && {
                &&& p.name@ == tag@
                &&& p.date@ == time::moment_text(*commit_date)
                &&& p.tagger_name is None
                &&& p.commit == commit
                &&& p.contents is None
            },
        },
{
    match object {
        Some(o) => match (&o.date, &o.tagger_name) {
            (None, _) => Err(TagError::NoDate),
            (Some(_), None) => Err(TagError::NoTagger),
            (Some(date), Some(tagger)) => Ok(
                TagProps {
                    name: tag.to_string(),
                    date: format_datetime(date),
                    tagger_name: Some(lossy_text(tagger.as_slice())),
                    commit,
                    contents: Some(lossy_text(o.message.as_slice())),
                },
            ),
        },
        None => Ok(
            TagProps {
                name: tag.to_string(),
                date: format_datetime(commit_date),
                tagger_name: None,
                commit,
                contents: None,
            },
        ),
    }
}

impl TagProps {
    /// The commit's page.
    pub fn commit_href(&self) -> (r: String)
        ensures
            r@ == commits_table::commit_page(self.commit@),
    {
        commit_page_url(&self.commit)
    }

    /// The commit's name.
    pub fn commit_name(&self) -> (r: String)
        ensures
            r@ == object::hex_text(self.commit@),
    {
        self.commit.to_hex()
    }

    /// The tag's tree.
    pub fn tree_href(&self) -> (r: String)
        ensures
            r@ == route::tree_hash(Seq::empty(), Some(self.name@), false),
    {
        proof {
            reveal_strlit("");
            assert(""@ =~= Seq::<char>::empty());
        }
        tree_url("", Some(self.name.as_str()), false)
    }

    /// The tag's log.
    pub fn log_href(&self) -> (r: String)
        ensures
            r@ == route::log_hash(Seq::empty(), 0, Some(self.name@), false),
    {
        proof {
            reveal_strlit("");
            assert(""@ =~= Seq::<char>::empty());
        }
        log_url("", 0, Some(self.name.as_str()), false)
    }
}

} // verus!
