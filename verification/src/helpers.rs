//! What the services read out of the store: records turned into the
//! types that they stand for.

use crate::error::Error;
use crate::store::library::{fetched, Key, Library, QueryIterator};
use crate::store::record::{Record, RecordView};
use crate::tags::Tag;
use std::marker::PhantomData;
use vstd::prelude::*;

verus! {

/// A type whose values are kept in the store as records.
pub trait FromRecord: View + Sized {
    /// The value that a record stands for, if it stands for one.
    spec fn of_record(rec: RecordView) -> Option<Self::V>;

    /// Reads a value out of a record.
    fn from_rec(rec: &Record) -> (r: Option<Self>)
        ensures
            match r {
                Some(t) => Self::of_record(rec@) == Some(t@),
                None => Self::of_record(rec@) is None,
            },
    ;
}

/// A type whose records all carry one tag that tells them from others.
pub trait Tagged {
    /// The tag that every record of this type carries.
    fn tag() -> Tag;
}

/// What the next read of a result set gives: the value of the next
/// record. No record, a record that has gone, and one that stands for no
/// value are all no data.
pub open spec fn read_next<T: FromRecord>(records: Map<Key, RecordView>, upcoming: Seq<Key>) -> Option<
    T::V,
> {
    match fetched(records, upcoming) {
        Ok(Some(rec)) => T::of_record(rec),
        _ => None,
    }
}

/// The values of all records of `upcoming` that can be read, in order.
pub open spec fn resolved<T: FromRecord>(records: Map<Key, RecordView>, upcoming: Seq<Key>) -> Seq<
    T::V,
>
    decreases upcoming.len(),
{
    if upcoming.len() == 0 {
        Seq::empty()
    } else {
        let rest = resolved::<T>(records, upcoming.drop_first());
        match read_next::<T>(records, upcoming) {
            Some(v) => seq![v] + rest,
            None => rest,
        }
    }
}

/// How many records can be read from the front of `upcoming` without a
/// miss, counted up to `limit`.
pub open spec fn run_len<T: FromRecord>(
    records: Map<Key, RecordView>,
    upcoming: Seq<Key>,
    limit: nat,
) -> nat
    decreases upcoming.len(),
{
    if limit == 0 || upcoming.len() == 0 || read_next::<T>(records, upcoming) is None {
        0
    } else {
        1 + run_len::<T>(records, upcoming.drop_first(), (limit - 1) as nat)
    }
}

/// A run of reads never passes the end, so any limit beyond the end is
/// as good as another.
pub proof fn lemma_run_len_cap<T: FromRecord>(
    records: Map<Key, RecordView>,
    upcoming: Seq<Key>,
    a: nat,
    b: nat,
)
    requires
        a >= upcoming.len(),
        b >= upcoming.len(),
    ensures
        run_len::<T>(records, upcoming, a) == run_len::<T>(records, upcoming, b),
        run_len::<T>(records, upcoming, a) <= upcoming.len(),
        run_used(run_len::<T>(records, upcoming, a), upcoming, a) == run_used(
            run_len::<T>(records, upcoming, b),
            upcoming,
            b,
        ),
    decreases upcoming.len(),
{
    if upcoming.len() > 0 && read_next::<T>(records, upcoming) is Some {
        lemma_run_len_cap::<T>(records, upcoming.drop_first(), (a - 1) as nat, (b - 1) as nat);
    }
}

/// How many keys a run of reads uses up: those that were read, and the
/// one that was missed, if the run ended on a miss.
pub open spec fn run_used(run: nat, upcoming: Seq<Key>, limit: nat) -> nat {
    if run < limit && run < upcoming.len() {
        run + 1
    } else {
        run
    }
}

/// The resulting set of a query operation
pub struct QueryResult<T: FromRecord> {
    inner: QueryIterator,
    _type: PhantomData<T>,
}

impl<T: FromRecord> QueryResult<T> {
    /// The keys of the records that are still to come, next one first.
    pub closed spec fn upcoming(&self) -> Seq<Key> {
        self.inner.upcoming()
    }

    /// Whether the result set holds the records against removal.
    pub closed spec fn holds_lock(&self) -> bool {
        self.inner.holds_lock()
    }

    /// Wraps what a query has found.
    pub fn new(inner: QueryIterator) -> (r: Self)
        ensures
            r.upcoming() == inner.upcoming(),
            r.holds_lock() == inner.holds_lock(),
    {
        Self { inner, _type: PhantomData }
    }

    /// Hands the iterator back, for it to be released.
    pub fn into_inner(self) -> (r: QueryIterator)
        ensures
            r.upcoming() == self.upcoming(),
            r.holds_lock() == self.holds_lock(),
    {
        self.inner
    }

    /// How many records are still to come.
    pub fn remaining(&self) -> (r: usize)
        ensures
            r == self.upcoming().len(),
    {
        self.inner.remaining()
    }

    /// Lock the garbage collection on iteratable items
    ///
    /// By default items that are contained in this result set can be
    /// deleted by other tasks, resulting in errors when accessing data
    /// via this type. While the set is locked, deleted items stay until
    /// the last locked set is released.
    pub fn lock(&mut self, lib: &mut Library)
        ensures
            final(self).upcoming() == old(self).upcoming(),
            if !old(self).holds_lock() && old(lib)@.locks < usize::MAX {
                &&& final(self).holds_lock()
                &&& final(lib)@ == (crate::store::library::LibraryView {
                    locks: old(lib)@.locks + 1,
                    ..old(lib)@
                })
            } else {
                &&& final(self).holds_lock() == old(self).holds_lock()
                &&& final(lib)@ == old(lib)@
            },
    {
        lib.lock(&mut self.inner);
    }

    /// Skip a certain number of items in the result set
    pub fn skip(&mut self, num: usize)
        ensures
            final(self).holds_lock() == old(self).holds_lock(),
            final(self).upcoming() == if num <= old(self).upcoming().len() {
                old(self).upcoming().skip(num as int)
            } else {
                Seq::<Key>::empty()
            },
    {
        self.inner.skip(num);
    }

    /// Try to get a single element from the query iterator
    pub fn next(&mut self, lib: &Library) -> (r: Result<T, Error>)
        ensures
            final(self).holds_lock() == old(self).holds_lock(),
            final(self).upcoming() == if old(self).upcoming().len() == 0 {
                old(self).upcoming()
            } else {
                old(self).upcoming().drop_first()
            },
            match r {
                Ok(t) => read_next::<T>(lib@.records, old(self).upcoming()) == Some(t@),
                Err(e) => e == Error::NoData && read_next::<T>(lib@.records, old(self).upcoming())
                    is None,
            },
    {
        match lib.next(&mut self.inner) {
            Ok(Some(rec)) => match T::from_rec(&rec) {
                Some(t) => Ok(t),
                None => Err(Error::NoData),
            },
            _ => Err(Error::NoData),
        }
    }

    /// Take all elements from the iterator and drop invalid reads
    ///
    /// Read errors are dropped: a record that has gone since the query,
    /// or one that cannot be read, is passed over. If every read fails,
    /// the resolved set is empty.
    pub fn resolve(&mut self, lib: &Library) -> (r: Vec<T>)
        ensures
            final(self).holds_lock() == old(self).holds_lock(),
            final(self).upcoming().len() == 0,
            r@.map_values(|t: T| t@) == resolved::<T>(lib@.records, old(self).upcoming()),
    {
        let ghost start = self.upcoming();
        let mut vec: Vec<T> = Vec::new();
        assert(vec@.map_values(|t: T| t@) + resolved::<T>(lib@.records, start) =~= resolved::<T>(
            lib@.records,
            start,
        ));
        while self.inner.remaining() > 0
            invariant
                self.holds_lock() == old(self).holds_lock(),
                resolved::<T>(lib@.records, start) == vec@.map_values(|t: T| t@) + resolved::<T>(
                    lib@.records,
                    self.upcoming(),
                ),
            decreases self.upcoming().len(),
        {
            let ghost before = vec@.map_values(|t: T| t@);
            let ghost rest = resolved::<T>(lib@.records, self.upcoming().drop_first());
            match self.next(lib) {
                Ok(t) => {
                    vec.push(t);
                    assert(vec@.map_values(|t: T| t@) =~= before.push(t@));
                    assert(before + (seq![t@] + rest) =~= before.push(t@) + rest);
                },
                Err(_) => {},
            }
        }
        assert(vec@.map_values(|t: T| t@) + Seq::<T::V>::empty() =~= vec@.map_values(|t: T| t@));
        vec
    }

    fn read_run(&mut self, lib: &Library, limit: usize) -> (r: Vec<T>)
        ensures
            final(self).holds_lock() == old(self).holds_lock(),
            r.len() == run_len::<T>(lib@.records, old(self).upcoming(), limit as nat),
            forall|i: int|
                0 <= i < r.len() ==> read_next::<T>(lib@.records, old(self).upcoming().skip(i))
                    == Some(#[trigger] r@[i]@),
            final(self).upcoming() == old(self).upcoming().skip(
                run_used(r.len() as nat, old(self).upcoming(), limit as nat) as int,
            ),
    {
        let ghost start = self.upcoming();
        let mut vec: Vec<T> = Vec::new();
        assert(start.skip(0) =~= start);
        let mut missed = false;
        while vec.len() < limit && self.inner.remaining() > 0 && !missed
            invariant
                self.holds_lock() == old(self).holds_lock(),
                start == old(self).upcoming(),
                vec.len() <= limit,
                vec.len() + (if missed { 1int } else { 0int }) <= start.len(),
                self.upcoming() == start.skip(vec.len() + (if missed { 1int } else { 0int })),
                missed ==> vec.len() < limit && read_next::<T>(
                    lib@.records,
                    start.skip(vec.len() as int),
                ) is None,
                run_len::<T>(lib@.records, start, limit as nat) == vec.len() + run_len::<T>(
                    lib@.records,
                    start.skip(vec.len() as int),
                    (limit - vec.len()) as nat,
                ),
                forall|i: int|
                    0 <= i < vec.len() ==> read_next::<T>(lib@.records, start.skip(i)) == Some(
                        #[trigger] vec@[i]@,
                    ),
            decreases self.upcoming().len(), (if missed { 0int } else { 1int }),
        {
            let ghost n = vec.len() as int;
            assert(start.skip(n).drop_first() =~= start.skip(n + 1));
            match self.next(lib) {
                Ok(t) => {
                    vec.push(t);
                },
                Err(_) => {
                    missed = true;
                },
            }
        }
        vec
    }

    /// Take a number of items from the iterator to advance
    ///
    /// If no more items are present, this function will return `Err()`.
    /// Reading goes on until `num` records have been passed, so that up
    /// to `num + 1` come back, and it ends early at the first record
    /// that cannot be read.
    pub fn take(&mut self, lib: &Library, num: usize) -> (r: Result<Vec<T>, Error>)
        ensures
            final(self).holds_lock() == old(self).holds_lock(),
            match r {
                Err(e) => {
                    &&& e == Error::NoData
                    &&& old(self).upcoming().len() == 0
                    &&& final(self).upcoming() == old(self).upcoming()
                },
                Ok(v) => {
                    &&& old(self).upcoming().len() > 0
                    &&& v.len() == run_len::<T>(
                        lib@.records,
                        old(self).upcoming(),
                        (num + 1) as nat,
                    )
                    &&& forall|i: int|
                        0 <= i < v.len() ==> read_next::<T>(
                            lib@.records,
                            old(self).upcoming().skip(i),
                        ) == Some(#[trigger] v@[i]@)
                    &&& final(self).upcoming() == old(self).upcoming().skip(
                        run_used(v.len() as nat, old(self).upcoming(), (num + 1) as nat) as int,
                    )
                },
            },
    {
        let left = self.inner.remaining();
        if left == 0 {
            return Err(Error::NoData);
        }
        let limit = if num < usize::MAX {
            num + 1
        } else {
            proof {
                lemma_run_len_cap::<T>(
                    lib@.records,
                    self.upcoming(),
                    usize::MAX as nat,
                    (num + 1) as nat,
                );
            }
            usize::MAX
        };
        Ok(self.read_run(lib, limit))
    }

    /// Take elements from the iterator until a read fails
    ///
    /// Once a read fails that does't mean that there's no more data
    /// left, just that a read was unsuccessful. If you want to quietly
    /// drop errors, use `resolve()` instead!
    pub fn all(&mut self, lib: &Library) -> (r: Result<Vec<T>, Error>)
        ensures
            final(self).holds_lock() == old(self).holds_lock(),
            r matches Ok(v) && {
                &&& v.len() == run_len::<T>(
                    lib@.records,
                    old(self).upcoming(),
                    old(self).upcoming().len(),
                )
                &&& forall|i: int|
                    0 <= i < v.len() ==> read_next::<T>(lib@.records, old(self).upcoming().skip(i))
                        == Some(#[trigger] v@[i]@)
                &&& final(self).upcoming() == old(self).upcoming().skip(
                    run_used(v.len() as nat, old(self).upcoming(), old(self).upcoming().len()) as int,
                )
            },
    {
        let limit = self.inner.remaining();
        Ok(self.read_run(lib, limit))
    }
}

} // verus!
