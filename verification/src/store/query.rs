//! Queries: what is asked of the store.

use crate::store::record::{Path, Record, RecordView};
use crate::tags::{TagSet, TagView};
use vstd::prelude::*;

verus! {

/// A condition on the tags of a record, against a set of tags `ts`.
#[derive(Debug)]
pub enum SetQuery {
    /// The record carries every tag of `ts`.
    Subset(TagSet),
    /// The record carries at least one tag of `ts`.
    Intersect(TagSet),
    /// The record carries the tags of `ts` and no other.
    Equality(TagSet),
    /// The record carries no tag of `ts`.
    Not(TagSet),
}

/// What is asked of the store: the record under a path, or the records
/// whose tags meet a condition.
#[derive(Debug)]
pub enum Query {
    Path(Path),
    Tag(SetQuery),
}

/// What a `SetQuery` is to a contract.
pub enum SetQueryView {
    Subset(Set<TagView>),
    Intersect(Set<TagView>),
    Equality(Set<TagView>),
    Not(Set<TagView>),
}

/// What a `Query` is to a contract.
pub enum QueryView {
    Path(Seq<char>),
    Tag(SetQueryView),
}

impl View for SetQuery {
    type V = SetQueryView;

    open spec fn view(&self) -> SetQueryView {
        match self {
            SetQuery::Subset(ts) => SetQueryView::Subset(ts@),
            SetQuery::Intersect(ts) => SetQueryView::Intersect(ts@),
            SetQuery::Equality(ts) => SetQueryView::Equality(ts@),
            SetQuery::Not(ts) => SetQueryView::Not(ts@),
        }
    }
}

impl View for Query {
    type V = QueryView;

    open spec fn view(&self) -> QueryView {
        match self {
            Query::Path(p) => QueryView::Path(p@),
            Query::Tag(q) => QueryView::Tag(q@),
        }
    }
}

/// Whether a set of tags meets a condition.
pub open spec fn tags_match(q: SetQueryView, tags: Set<TagView>) -> bool {
    match q {
        SetQueryView::Subset(ts) => ts.subset_of(tags),
        SetQueryView::Intersect(ts) => exists|t: TagView| tags.contains(t) && ts.contains(t),
        SetQueryView::Equality(ts) => tags == ts,
        SetQueryView::Not(ts) => tags.disjoint(ts),
    }
}

/// Whether a record is among those that a query asks for.
pub open spec fn selects(q: QueryView, rec: RecordView) -> bool {
    match q {
        QueryView::Path(p) => rec.path == p,
        QueryView::Tag(sq) => tags_match(sq, rec.tags),
    }
}

impl Clone for SetQuery {
    fn clone(&self) -> (r: Self)
        ensures
            r@ == self@,
    {
        match self {
            SetQuery::Subset(ts) => SetQuery::Subset(ts.clone()),
            SetQuery::Intersect(ts) => SetQuery::Intersect(ts.clone()),
            SetQuery::Equality(ts) => SetQuery::Equality(ts.clone()),
            SetQuery::Not(ts) => SetQuery::Not(ts.clone()),
        }
    }
}

impl Clone for Query {
    fn clone(&self) -> (r: Self)
        ensures
            r@ == self@,
    {
        match self {
            Query::Path(p) => Query::Path(p.clone()),
            Query::Tag(q) => Query::Tag(q.clone()),
        }
    }
}

/// Where a query over tags is begun: one of its methods names the
/// condition.
#[derive(Debug, Clone, Copy)]
pub struct TagQuery {}

impl TagQuery {
    /// Records that carry every tag of `ts`.
    pub fn subset(self, ts: TagSet) -> (r: Query)
        ensures
            r@ == QueryView::Tag(SetQueryView::Subset(ts@)),
    {
        Query::Tag(SetQuery::Subset(ts))
    }

    /// Records that carry at least one tag of `ts`.
    pub fn intersect(self, ts: TagSet) -> (r: Query)
        ensures
            r@ == QueryView::Tag(SetQueryView::Intersect(ts@)),
    {
        Query::Tag(SetQuery::Intersect(ts))
    }

    /// Records that carry exactly the tags of `ts`.
    pub fn equality(self, ts: TagSet) -> (r: Query)
        ensures
            r@ == QueryView::Tag(SetQueryView::Equality(ts@)),
    {
        Query::Tag(SetQuery::Equality(ts))
    }

    /// Records that carry no tag of `ts`.
    pub fn not(self, ts: TagSet) -> (r: Query)
        ensures
            r@ == QueryView::Tag(SetQueryView::Not(ts@)),
    {
        Query::Tag(SetQuery::Not(ts))
    }
}

impl Query {
    /// The record under `path`.
    pub fn path(path: Path) -> (r: Query)
        ensures
            r@ == QueryView::Path(path@),
    {
        Query::Path(path)
    }

    /// Begins a query over tags.
    pub fn tags() -> TagQuery {
        TagQuery {  }
    }

    /// Whether `rec` is among the records that the query asks for.
    pub fn admits(&self, rec: &Record) -> (r: bool)
        ensures
            r == selects(self@, rec@),
    {
        match self {
            Query::Path(p) => rec.path().same(p),
            Query::Tag(SetQuery::Subset(ts)) => rec.tags().subset(ts),
            Query::Tag(SetQuery::Intersect(ts)) => rec.tags().intersect(ts),
            Query::Tag(SetQuery::Equality(ts)) => rec.tags().equality(ts),
            Query::Tag(SetQuery::Not(ts)) => rec.tags().not(ts),
        }
    }
}

} // verus!
