//! The object cache: what is answered from the browser's database, what from
//! the network, and what is written back.
//!
//! The pieces live alongside: [`idb`] plans the database's migrations,
//! [`codec`] converts records, [`graph`] holds the commit-graph accelerators,
//! and [`keys`] the key computations.

use vstd::prelude::*;
use crate::object::{ObjectId, ObjectIdPrefix, ObjectType, PrefixResolution};
use crate::cache::graph::GraphRecord;
use crate::cache::keys::resolve_prefix_in_map;

pub mod codec;
pub mod graph;
pub mod idb;
pub mod keys;

verus! {

/// Where a lookup goes next.
#[derive(Clone, Copy, PartialEq, Eq, Structural, Debug)]
pub enum LookupStep {
    /// The cache holds the object: count the hit and hand it over.
    Hit,
    /// It does not: ask the network.
    Fetch,
}

/// How a lookup that asked the network ends.
#[derive(Clone, Copy, PartialEq, Eq, Structural, Debug)]
pub enum FetchedStep {
    /// There is no such object.
    Missing,
    /// The bytes are not those of the object that was asked for.
    Corrupt,
    /// Queue the write to the cache and hand the object over.
    StoreAndReturn,
}

/// The lookup's first step: the cache answers, or the network is asked.
pub fn lookup_object(cached: bool) -> (r: LookupStep)
    ensures
        r == (if cached {
            LookupStep::Hit
        } else {
            LookupStep::Fetch
        }),
{
    if cached {
        LookupStep::Hit
    } else {
        LookupStep::Fetch
    }
}

/// The lookup's second step. The bytes are checked against the name that was
/// asked for before anything else sees them; a cache hit needs no check of its
/// own, because nothing that failed here was ever written to the cache.
pub fn fetched_object(found: bool, verified: bool) -> (r: FetchedStep)
    ensures
        r == FetchedStep::StoreAndReturn <==> found && verified,
        r == FetchedStep::Missing <==> !found,
        r == FetchedStep::Corrupt <==> found && !verified,
{
    if !found {
        FetchedStep::Missing
    } else if verified {
        FetchedStep::StoreAndReturn
    } else {
        FetchedStep::Corrupt
    }
}

/// Where peeling an object to a commit goes next.
#[derive(Clone, Copy, PartialEq, Eq, Structural, Debug)]
pub enum PeelStep {
    /// It is a commit.
    Commit,
    /// It is a tag: go on with its target.
    Follow,
    /// It is neither, and names no commit.
    NotACommit,
}

/// Where peeling an object of this kind to a commit goes next.
pub fn peel_step(kind: ObjectType) -> (r: PeelStep)
    ensures
        r == (match kind {
            ObjectType::Commit => PeelStep::Commit,
            ObjectType::Tag => PeelStep::Follow,
            _ => PeelStep::NotACommit,
        }),
{
    match kind {
        ObjectType::Commit => PeelStep::Commit,
        ObjectType::Tag => PeelStep::Follow,
        ObjectType::Tree | ObjectType::Blob => PeelStep::NotACommit,
    }
}

/// Expand an abbreviated SHA against the commits of the graph held in memory;
/// `None` asks the pack indexes.
///
/// A hit in the graph wins even though some other object might share the
/// abbreviation: the only thing the caller can do with the answer is render a
/// commit. Ambiguity between commits is still reported, and a miss is not
/// authoritative.
pub fn resolve_prefix(
    graph: &Vec<(ObjectId, GraphRecord)>,
    prefix: &ObjectIdPrefix,
) -> (r: Option<PrefixResolution>)
    requires
        prefix.wf(),
    ensures
        match r {
            Some(resolved) => resolved !is NotFound && keys::resolves(
                graph@,
                prefix.digits@,
                resolved,
            ),
            None => keys::resolves(graph@, prefix.digits@, PrefixResolution::NotFound),
        },
{
    match resolve_prefix_in_map(graph, prefix) {
        PrefixResolution::NotFound => None,
        resolved => Some(resolved),
    }
}

} // verus!
