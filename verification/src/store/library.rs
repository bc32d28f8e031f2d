//! The store itself: records by namespace and path, the users whose
//! namespaces are open, and those who wait for changes.

use crate::error::Error;
use crate::identity::Identity;
use crate::order::{lemma_lex_asymmetric, lemma_lex_total, lemma_lex_transitive, lex_lt};
use crate::store::query::{selects, Query, QueryView};
use crate::store::record::{
    apply_all, apply_change, apply_diff, bumped, diff_views, path_lt, rooted, Change, Content, Diff, DiffView,
    Kv, KvView, Path, Record, RecordView, Session, ValueView,
};
use crate::tags::{TagSet, TagView};
use crate::text::lemma_utf8_injective;
use vstd::prelude::*;
use vstd::utf8::encode_utf8;

verus! {

/// What names a record: its namespace and its path.
pub type Key = (Session, Seq<char>);

/// The key under which a record is stored.
pub open spec fn key_of(r: RecordView) -> Key {
    (r.session, r.path)
}

/// One who waits for changes, as a contract sees it.
#[verifier::ext_equal]
pub struct SubView {
    pub id: usize,
    pub session: Session,
    pub query: QueryView,
    /// The paths of the records that have changed and were not yet
    /// handed out, oldest first.
    pub queue: Seq<Seq<char>>,
}

/// What the store is to a contract.
#[verifier::ext_equal]
pub struct LibraryView {
    /// The users whose namespaces are open.
    pub users: Set<Identity>,
    /// The records by namespace and path.
    pub records: Map<Key, RecordView>,
    /// How many readers hold the records against removal.
    pub locks: nat,
    /// The records that are to go once no reader holds them.
    pub pending: Set<Key>,
    /// Those who wait for changes, in the order in which they came.
    pub subs: Seq<SubView>,
    /// The id of the next one to come.
    pub next_sub: nat,
}

/// Whether a session may work on its namespace: the global one is open
/// to all, a user's when the store knows the user.
pub open spec fn allowed(v: LibraryView, session: Session) -> bool {
    match session {
        Session::Global => true,
        Session::Id(u) => v.users.contains(u),
    }
}

/// The record that a batch leaves under its path, or why the batch is
/// refused: the tags are united with those that the record has, then the
/// diffs are applied in their order.
pub open spec fn batch_record(
    v: LibraryView,
    session: Session,
    path: Seq<char>,
    tags: Set<TagView>,
    diffs: Seq<DiffView>,
) -> Result<RecordView, Error> {
    if !rooted(path) {
        Err(Error::InvalidQuery)
    } else if !allowed(v, session) {
        Err(Error::NotAuthorised)
    } else {
        let before = if v.records.contains_key((session, path)) {
            v.records[(session, path)]
        } else {
            RecordView { session, path, tags: Set::empty(), version: 0, kv: Map::empty() }
        };
        match apply_all(Content { kv: before.kv, tags: before.tags.union(tags) }, diffs) {
            Err(e) => Err(e),
            Ok(c) => Ok(
                RecordView { tags: c.tags, kv: c.kv, version: bumped(before.version), ..before },
            ),
        }
    }
}

/// Those who wait, after `rec` was written: whoever asked, in the
/// namespace of `rec`, for records like it has its path at the end of
/// the queue.
pub open spec fn notified(subs: Seq<SubView>, rec: RecordView) -> Seq<SubView> {
    subs.map_values(
        |s: SubView|
            if s.session == rec.session && selects(s.query, rec) {
                SubView { queue: s.queue.push(rec.path), ..s }
            } else {
                s
            },
    )
}

/// The store after a batch, or why the batch is refused.
pub open spec fn batched(
    v: LibraryView,
    session: Session,
    path: Seq<char>,
    tags: Set<TagView>,
    diffs: Seq<DiffView>,
) -> Result<LibraryView, Error> {
    match batch_record(v, session, path, tags, diffs) {
        Err(e) => Err(e),
        Ok(rec) => Ok(
            LibraryView {
                records: v.records.insert((session, path), rec),
                subs: notified(v.subs, rec),
                ..v
            },
        ),
    }
}

/// The views of records, in the same order.
pub open spec fn rec_views(s: Seq<Record>) -> Seq<RecordView> {
    s.map_values(|r: Record| r@)
}

spec fn has_key_at(s: Seq<RecordView>, k: Key, i: int) -> bool {
    0 <= i < s.len() && key_of(s[i]) == k
}

spec fn map_of_records(s: Seq<RecordView>) -> Map<Key, RecordView> {
    Map::new(
        |k: Key| exists|i: int| has_key_at(s, k, i),
        |k: Key| s[choose|i: int| has_key_at(s, k, i)],
    )
}

spec fn stored_ok(s: Seq<RecordView>) -> bool {
    &&& forall|i: int, j: int|
        #![trigger s[i], s[j]]
        0 <= i < j < s.len() ==> key_of(s[i]) != key_of(s[j])
    &&& forall|i: int, j: int|
        #![trigger s[i], s[j]]
        0 <= i < j < s.len() ==> !path_lt(s[j].path, s[i].path)
}

proof fn lemma_map_at(s: Seq<RecordView>, i: int)
    requires
        stored_ok(s),
        0 <= i < s.len(),
    ensures
        map_of_records(s).contains_key(key_of(s[i])),
        map_of_records(s)[key_of(s[i])] == s[i],
{
    let k = key_of(s[i]);
    assert(has_key_at(s, k, i));
    let j = choose|j: int| has_key_at(s, k, j);
    if j < i {
        assert(key_of(s[j]) != key_of(s[i]));
    } else if i < j {
        assert(key_of(s[i]) != key_of(s[j]));
    }
}

proof fn lemma_put_update(s: Seq<RecordView>, i: int, r: RecordView)
    requires
        stored_ok(s),
        0 <= i < s.len(),
        key_of(r) == key_of(s[i]),
    ensures
        stored_ok(s.update(i, r)),
        map_of_records(s.update(i, r)) == map_of_records(s).insert(key_of(r), r),
{
    let n = s.update(i, r);
    assert forall|x: int, y: int| #![trigger n[x], n[y]] 0 <= x < y < n.len() implies key_of(n[x])
        != key_of(n[y]) && !path_lt(n[y].path, n[x].path) by {
        assert(key_of(s[x]) != key_of(s[y]));
        assert(!path_lt(s[y].path, s[x].path));
    }
    assert forall|k: Key| #[trigger]
        map_of_records(n).contains_key(k) <==> map_of_records(s).insert(key_of(r), r).contains_key(
            k,
        ) by {
        if exists|j: int| has_key_at(n, k, j) {
            let j = choose|j: int| has_key_at(n, k, j);
            assert(has_key_at(s, k, j));
        }
        if exists|j: int| has_key_at(s, k, j) {
            let j = choose|j: int| has_key_at(s, k, j);
            assert(has_key_at(n, k, j));
        }
        if k == key_of(r) {
            assert(has_key_at(n, k, i));
        }
    }
    assert forall|k: Key| #[trigger] map_of_records(n).contains_key(k) implies map_of_records(n)[k]
        == map_of_records(s).insert(key_of(r), r)[k] by {
        let j = choose|j: int| has_key_at(n, k, j);
        lemma_map_at(n, j);
        if j != i {
            assert(key_of(s[j]) == k);
            lemma_map_at(s, j);
            if j < i {
                assert(key_of(s[j]) != key_of(s[i]));
            } else {
                assert(key_of(s[i]) != key_of(s[j]));
            }
        }
    }
    assert(map_of_records(n) =~= map_of_records(s).insert(key_of(r), r));
}

proof fn lemma_put_insert(s: Seq<RecordView>, p: int, r: RecordView)
    requires
        stored_ok(s),
        0 <= p <= s.len(),
        !map_of_records(s).contains_key(key_of(r)),
        forall|j: int| 0 <= j < p ==> !path_lt(r.path, (#[trigger] s[j]).path),
        forall|j: int| p <= j < s.len() ==> path_lt(r.path, (#[trigger] s[j]).path),
    ensures
        stored_ok(s.insert(p, r)),
        map_of_records(s.insert(p, r)) == map_of_records(s).insert(key_of(r), r),
{
    let n = s.insert(p, r);
    assert forall|x: int, y: int| #![trigger n[x], n[y]] 0 <= x < y < n.len() implies key_of(n[x])
        != key_of(n[y]) && !path_lt(n[y].path, n[x].path) by {
        let x0 = if x < p { x } else { x - 1 };
        let y0 = if y < p { y } else { y - 1 };
        if x != p && y != p {
            assert(n[x] == s[x0] && n[y] == s[y0]);
            assert(key_of(s[x0]) != key_of(s[y0]));
            assert(!path_lt(s[y0].path, s[x0].path));
        } else if y == p {
            assert(n[x] == s[x]);
            assert(!path_lt(r.path, s[x].path));
            if key_of(s[x]) == key_of(r) {
                assert(has_key_at(s, key_of(r), x));
            }
        } else {
            assert(n[y] == s[y0]);
            assert(path_lt(r.path, s[y0].path));
            lemma_lex_asymmetric(encode_utf8(r.path), encode_utf8(s[y0].path));
            if key_of(s[y0]) == key_of(r) {
                assert(has_key_at(s, key_of(r), y0));
            }
        }
    }
    assert forall|k: Key| #[trigger]
        map_of_records(n).contains_key(k) <==> map_of_records(s).insert(key_of(r), r).contains_key(
            k,
        ) by {
        if exists|j: int| has_key_at(n, k, j) {
            let j = choose|j: int| has_key_at(n, k, j);
            if j < p {
                assert(has_key_at(s, k, j));
            } else if j > p {
                assert(has_key_at(s, k, j - 1));
            }
        }
        if exists|j: int| has_key_at(s, k, j) {
            let j = choose|j: int| has_key_at(s, k, j);
            if j < p {
                assert(has_key_at(n, k, j));
            } else {
                assert(has_key_at(n, k, j + 1));
            }
        }
        if k == key_of(r) {
            assert(has_key_at(n, k, p));
        }
    }
    assert forall|k: Key| #[trigger] map_of_records(n).contains_key(k) implies map_of_records(n)[k]
        == map_of_records(s).insert(key_of(r), r)[k] by {
        let j = choose|j: int| has_key_at(n, k, j);
        lemma_map_at(n, j);
        if j < p {
            assert(has_key_at(s, k, j));
            lemma_map_at(s, j);
        } else if j > p {
            assert(has_key_at(s, k, j - 1));
            lemma_map_at(s, j - 1);
        }
    }
    assert(map_of_records(n) =~= map_of_records(s).insert(key_of(r), r));
}

proof fn lemma_take_out(s: Seq<RecordView>, i: int)
    requires
        stored_ok(s),
        0 <= i < s.len(),
    ensures
        stored_ok(s.remove(i)),
        map_of_records(s.remove(i)) == map_of_records(s).remove(key_of(s[i])),
{
    let n = s.remove(i);
    assert forall|x: int, y: int| #![trigger n[x], n[y]] 0 <= x < y < n.len() implies key_of(n[x])
        != key_of(n[y]) && !path_lt(n[y].path, n[x].path) by {
        let x0 = if x < i { x } else { x + 1 };
        let y0 = if y < i { y } else { y + 1 };
        assert(n[x] == s[x0] && n[y] == s[y0]);
        assert(key_of(s[x0]) != key_of(s[y0]));
        assert(!path_lt(s[y0].path, s[x0].path));
    }
    assert forall|k: Key| #[trigger]
        map_of_records(n).contains_key(k) <==> map_of_records(s).remove(key_of(s[i])).contains_key(
            k,
        ) by {
        if exists|j: int| has_key_at(n, k, j) {
            let j = choose|j: int| has_key_at(n, k, j);
            let j0 = if j < i { j } else { j + 1 };
            assert(has_key_at(s, k, j0));
            if j0 < i {
                assert(key_of(s[j0]) != key_of(s[i]));
            } else {
                assert(key_of(s[i]) != key_of(s[j0]));
            }
        }
        if k != key_of(s[i]) && exists|j: int| has_key_at(s, k, j) {
            let j = choose|j: int| has_key_at(s, k, j);
            if j < i {
                assert(has_key_at(n, k, j));
            } else {
                assert(has_key_at(n, k, j - 1));
            }
        }
    }
    assert forall|k: Key| #[trigger] map_of_records(n).contains_key(k) implies map_of_records(n)[k]
        == map_of_records(s).remove(key_of(s[i]))[k] by {
        let j = choose|j: int| has_key_at(n, k, j);
        lemma_map_at(n, j);
        let j0 = if j < i { j } else { j + 1 };
        assert(has_key_at(s, k, j0));
        lemma_map_at(s, j0);
    }
    assert(map_of_records(n) =~= map_of_records(s).remove(key_of(s[i])));
}

/// One who waits for changes.
#[derive(Debug)]
struct Sub {
    id: usize,
    session: Session,
    query: Query,
    queue: Vec<Path>,
}

impl View for Sub {
    type V = SubView;

    closed spec fn view(&self) -> SubView {
        SubView {
            id: self.id,
            session: self.session,
            query: self.query@,
            queue: self.queue@.map_values(|p: Path| p@),
        }
    }
}

/// Those who wait stand in the order of their ids, and every id is below
/// the next one to be given out: an id names at most one of them.
pub open spec fn subs_ok(subs: Seq<SubView>, next: int) -> bool {
    &&& forall|i: int, j: int|
        #![trigger subs[i], subs[j]]
        0 <= i < j < subs.len() ==> subs[i].id < subs[j].id
    &&& forall|i: int| 0 <= i < subs.len() ==> (#[trigger] subs[i]).id < next
}

/// Where among those who wait the one with the given id stands.
pub open spec fn sub_position(subs: Seq<SubView>, id: usize) -> Option<int> {
    if exists|i: int| 0 <= i < subs.len() && (#[trigger] subs[i]).id == id {
        Some(choose|i: int| 0 <= i < subs.len() && (#[trigger] subs[i]).id == id)
    } else {
        None
    }
}

/// The id of one who waits finds exactly that one.
pub proof fn lemma_sub_position(subs: Seq<SubView>, next: int, i: int)
    requires
        subs_ok(subs, next),
        0 <= i < subs.len(),
    ensures
        sub_position(subs, subs[i].id) == Some(i),
{
    let j = choose|j: int| 0 <= j < subs.len() && (#[trigger] subs[j]).id == subs[i].id;
    if j < i {
        assert(subs[j].id < subs[i].id);
    } else if i < j {
        assert(subs[i].id < subs[j].id);
    }
}

spec fn sub_views(s: Seq<Sub>) -> Seq<SubView> {
    s.map_values(|x: Sub| x@)
}

spec fn key_views(s: Seq<(Session, Path)>) -> Seq<Key> {
    s.map_values(|k: (Session, Path)| (k.0, k.1@))
}

/// The record store.
#[derive(Debug)]
pub struct Library {
    users: Vec<Identity>,
    records: Vec<Record>,
    locks: usize,
    pending: Vec<(Session, Path)>,
    subs: Vec<Sub>,
    next_sub: usize,
}

impl View for Library {
    type V = LibraryView;

    closed spec fn view(&self) -> LibraryView {
        LibraryView {
            users: self.users@.to_set(),
            records: map_of_records(rec_views(self.records@)),
            locks: self.locks as nat,
            pending: key_views(self.pending@).to_set(),
            subs: sub_views(self.subs@),
            next_sub: self.next_sub as nat,
        }
    }
}

impl Library {
    /// What holds of every store that a program holds.
    #[verifier::type_invariant]
    pub closed spec fn well_formed(&self) -> bool {
        &&& stored_ok(rec_views(self.records@))
        &&& subs_ok(sub_views(self.subs@), self.next_sub as int)
    }

    /// Every store is valid: its records stand under their own keys,
    /// and the ids of those who wait are distinct and below the next.
    pub proof fn lemma_valid(&self)
        requires
            self.well_formed(),
        ensures
            valid(self@),
    {
        self.lemma_consistent();
    }

    /// A store without records, users or readers.
    pub fn new() -> (r: Self)
        ensures
            r@ == (LibraryView {
                users: Set::empty(),
                records: Map::empty(),
                locks: 0,
                pending: Set::empty(),
                subs: Seq::empty(),
                next_sub: 0,
            }),
    {
        let r = Library {
            users: Vec::new(),
            records: Vec::new(),
            locks: 0,
            pending: Vec::new(),
            subs: Vec::new(),
            next_sub: 0,
        };
        proof {
            assert(r.users@.to_set() =~= Set::<Identity>::empty());
            assert(map_of_records(rec_views(r.records@)) =~= Map::<Key, RecordView>::empty());
            assert(key_views(r.pending@).to_set() =~= Set::<Key>::empty());
            assert(sub_views(r.subs@) =~= Seq::<SubView>::empty());
        }
        r
    }

    /// Every record of the store stands under its own namespace and path.
    pub proof fn lemma_consistent(&self)
        ensures
            consistent(self@),
    {
        let s = rec_views(self.records@);
        assert forall|k: Key| self@.records.contains_key(k) implies key_of(
            #[trigger] self@.records[k],
        ) == k by {
            let i = choose|i: int| has_key_at(s, k, i);
        }
    }

    /// Whether the namespace of `user` is open.
    pub fn has_user(&self, user: &Identity) -> (r: bool)
        ensures
            r == self@.users.contains(*user),
    {
        let mut i: usize = 0;
        while i < self.users.len()
            invariant
                i <= self.users.len(),
                forall|j: int| 0 <= j < i ==> self.users@[j] != *user,
            decreases self.users.len() - i,
        {
            proof {
                self.users@[i as int].lemma_view(*user);
            }
            if self.users[i] == *user {
                assert(self.users@.contains(self.users@[i as int]));
                return true;
            }
            i += 1;
        }
        false
    }

    /// Opens the namespace of `user`.
    pub fn add_user(&mut self, user: Identity)
        ensures
            final(self)@ == (LibraryView { users: old(self)@.users.insert(user), ..old(self)@ }),
    {
        proof {
            use_type_invariant(&*self);
        }
        if !self.has_user(&user) {
            let ghost before = self.users@;
            let mut users: Vec<Identity> = Vec::new();
            std::mem::swap(&mut self.users, &mut users);
            users.push(user);
            proof {
                assert(users@.to_set() =~= before.to_set().insert(user)) by {
                    assert forall|x: Identity| users@.to_set().contains(x) <==> before.to_set().insert(
                        user,
                    ).contains(x) by {
                        if users@.contains(x) {
                            let i = choose|i: int| 0 <= i < users@.len() && users@[i] == x;
                            if i < before.len() {
                                assert(before[i] == x);
                            }
                        }
                        if before.contains(x) {
                            let i = choose|i: int| 0 <= i < before.len() && before[i] == x;
                            assert(users@[i] == x);
                        }
                        if x == user {
                            assert(users@[before.len() as int] == x);
                        }
                    }
                }
            }
            self.users = users;
        } else {
            assert(self@.users.insert(user) =~= self@.users);
        }
    }

    /// Whether `session` may work on its namespace.
    pub fn allows(&self, session: &Session) -> (r: bool)
        ensures
            r == allowed(self@, *session),
    {
        match session {
            Session::Global => true,
            Session::Id(u) => self.has_user(u),
        }
    }

    fn find(&self, session: &Session, path: &Path) -> (r: Option<usize>)
        ensures
            match r {
                Some(i) => {
                    &&& i < self.records.len()
                    &&& key_of(self.records[i as int]@) == (*session, path@)
                    &&& self@.records.contains_key((*session, path@))
                    &&& self@.records[(*session, path@)] == self.records[i as int]@
                },
                None => !self@.records.contains_key((*session, path@)),
            },
    {
        proof {
            use_type_invariant(self);
        }
        let ghost views = rec_views(self.records@);
        let mut i: usize = 0;
        while i < self.records.len()
            invariant
                i <= self.records.len(),
                views == rec_views(self.records@),
                stored_ok(views),
                forall|j: int| 0 <= j < i ==> !has_key_at(views, (*session, path@), j),
            decreases self.records.len() - i,
        {
            let rec = &self.records[i];
            assert(views[i as int] == rec@);
            if rec.session() == *session && rec.path().same(path) {
                proof {
                    lemma_map_at(views, i as int);
                }
                return Some(i);
            }
            i += 1;
        }
        None
    }

    fn slot(&self, path: &Path) -> (r: usize)
        ensures
            r <= self.records.len(),
            forall|j: int| 0 <= j < r ==> !path_lt(path@, (#[trigger] self.records[j])@.path),
            forall|j: int|
                r <= j < self.records.len() ==> path_lt(path@, (#[trigger] self.records[j])@.path),
    {
        proof {
            use_type_invariant(self);
        }
        let ghost views = rec_views(self.records@);
        let mut i: usize = 0;
        while i < self.records.len() && !path.before(self.records[i].path())
            invariant
                i <= self.records.len(),
                views == rec_views(self.records@),
                forall|j: int| 0 <= j < i ==> !path_lt(path@, (#[trigger] self.records[j])@.path),
            decreases self.records.len() - i,
        {
            i += 1;
        }
        proof {
            assert forall|j: int| i <= j < self.records.len() implies path_lt(
                path@,
                (#[trigger] self.records[j])@.path,
            ) by {
                if i < j {
                    let a = encode_utf8(path@);
                    let b = encode_utf8(self.records[i as int]@.path);
                    let c = encode_utf8(self.records[j]@.path);
                    assert(views[i as int] == self.records[i as int]@);
                    assert(views[j] == self.records[j]@);
                    assert(!path_lt(views[j].path, views[i as int].path));
                    lemma_lex_total(a, c);
                    if a == c {
                    } else if lex_lt(c, a) {
                        lemma_lex_transitive(c, a, b);
                    }
                }
            }
        }
        i
    }

    /// Whether a record stands under `path` in the namespace of
    /// `session`.
    pub fn path_exists(&self, session: Session, path: &Path) -> (r: Result<bool, Error>)
        ensures
            r == if !rooted(path@) {
                Err::<bool, Error>(Error::InvalidQuery)
            } else if !allowed(self@, session) {
                Err::<bool, Error>(Error::NotAuthorised)
            } else {
                Ok::<bool, Error>(self@.records.contains_key((session, path@)))
            },
    {
        if !path.is_rooted() {
            Err(Error::InvalidQuery)
        } else if !self.allows(&session) {
            Err(Error::NotAuthorised)
        } else {
            Ok(self.find(&session, path).is_some())
        }
    }

    /// The record under `path` in the namespace of `session`.
    pub fn get(&self, session: Session, path: &Path) -> (r: Option<Record>)
        ensures
            match r {
                Some(rec) => self@.records.contains_key((session, path@)) && rec@
                    == self@.records[(session, path@)],
                None => !self@.records.contains_key((session, path@)),
            },
    {
        match self.find(&session, path) {
            Some(i) => Some(self.records[i].clone()),
            None => None,
        }
    }
}

proof fn lemma_apply_all_prefix(c: Content, diffs: Seq<DiffView>, n: int)
    requires
        0 <= n <= diffs.len(),
        apply_all(c, diffs.take(n)) is Err,
    ensures
        apply_all(c, diffs) == apply_all(c, diffs.take(n)),
    decreases diffs.len() - n,
{
    if n == diffs.len() {
        assert(diffs.take(n) =~= diffs);
    } else {
        assert(diffs.drop_last().take(n) =~= diffs.take(n));
        lemma_apply_all_prefix(c, diffs.drop_last(), n);
    }
}

impl Library {
    fn notify(&mut self, rec: &Record)
        ensures
            final(self)@ == (LibraryView { subs: notified(old(self)@.subs, rec@), ..old(self)@ }),
    {
        proof {
            use_type_invariant(&*self);
        }
        let mut waiting: Vec<Sub> = Vec::new();
        std::mem::swap(&mut self.subs, &mut waiting);
        let ghost all = sub_views(waiting@);
        let ghost target = notified(all, rec@);
        let mut done: Vec<Sub> = Vec::new();
        while waiting.len() > 0
            invariant
                all.len() == done.len() + waiting.len(),
                target == notified(all, rec@),
                forall|j: int| 0 <= j < done.len() ==> (#[trigger] done@[j])@ == target[j],
                forall|j: int|
                    0 <= j < waiting.len() ==> (#[trigger] waiting@[j])@ == all[done.len() + j],
            decreases waiting.len(),
        {
            let ghost before = waiting@;
            let mut s = waiting.remove(0);
            assert(s@ == all[done.len() as int]);
            assert forall|j: int| 0 <= j < waiting.len() implies (#[trigger] waiting@[j])@
                == all[done.len() + 1 + j] by {
                assert(waiting@[j] == before[j + 1]);
            }
            if s.session == rec.session() && s.query.admits(rec) {
                let ghost q = s.queue@;
                s.queue.push(rec.path().clone());
                assert(s.queue@.map_values(|p: Path| p@) =~= q.map_values(|p: Path| p@).push(
                    rec@.path,
                ));
            }
            done.push(s);
        }
        proof {
            assert(sub_views(done@) =~= target);
            assert forall|j: int| 0 <= j < target.len() implies (#[trigger] target[j]).id
                == all[j].id by {}
            assert(subs_ok(target, self.next_sub as int)) by {
                assert forall|x: int, y: int|
                    #![trigger target[x], target[y]]
                    0 <= x < y < target.len() implies target[x].id < target[y].id by {
                    assert(all[x].id < all[y].id);
                }
                assert forall|x: int| 0 <= x < target.len() implies (#[trigger] target[x]).id
                    < self.next_sub by {
                    assert(all[x].id < self.next_sub);
                }
            }
        }
        self.subs = done;
    }

    /// Applies a batch of changes to the record under `path`, which is
    /// made if there is none yet: its tags are united with `tags`, then
    /// the diffs are applied in their order. Either all of it happens,
    /// or, if the batch is refused, nothing.
    #[verifier::loop_isolation(false)]
    pub fn batch(&mut self, session: Session, path: Path, tags: TagSet, diffs: Vec<Diff>) -> (r:
        Result<(), Error>)
        ensures
            match r {
                Ok(()) => batched(old(self)@, session, path@, tags@, diff_views(diffs@)) == Ok::<
                    LibraryView,
                    Error,
                >(final(self)@),
                Err(e) => batched(old(self)@, session, path@, tags@, diff_views(diffs@)) == Err::<
                    LibraryView,
                    Error,
                >(e) && final(self)@ == old(self)@,
            },
    {
        proof {
            use_type_invariant(&*self);
        }
        if !path.is_rooted() {
            return Err(Error::InvalidQuery);
        }
        if !self.allows(&session) {
            return Err(Error::NotAuthorised);
        }
        let at = self.find(&session, &path);
        let (mut kv, mut all, version) = match at {
            Some(i) => (
                self.records[i].kv().duplicate(),
                self.records[i].tags().clone().merge(tags),
                self.records[i].version(),
            ),
            None => (Kv::new(), TagSet::empty().merge(tags), 0u64),
        };
        let ghost c0 = Content { kv: kv@, tags: all@ };
        let ghost dv = diff_views(diffs@);
        proof {
            if at is None {
                assert(all@ =~= Set::<TagView>::empty().union(tags@));
            }
        }
        let mut i: usize = 0;
        while i < diffs.len()
            invariant
                i <= diffs.len(),
                dv == diff_views(diffs@),
                apply_all(c0, dv.take(i as int)) == Ok::<Content, Error>(
                    Content { kv: kv@, tags: all@ },
                ),
            decreases diffs.len() - i,
        {
            proof {
                assert(dv.take(i + 1).drop_last() =~= dv.take(i as int));
                assert(dv.take(i + 1).last() == diffs@[i as int]@);
            }
            let step = match &diffs[i] {
                Diff::Insert(k, v) => apply_change(&mut kv, k.clone(), Change::Insert(v.clone())),
                Diff::Update(k, v) => apply_change(&mut kv, k.clone(), Change::Update(v.clone())),
                Diff::Delete(k) => apply_change(&mut kv, k.clone(), Change::Delete),
                Diff::TagAdd(t) => {
                    all.insert(t.clone());
                    Ok(())
                },
                Diff::TagRemove(t) => {
                    all.remove(t);
                    Ok(())
                },
            };
            match step {
                Err(e) => {
                    proof {
                        lemma_apply_all_prefix(c0, dv, i + 1);
                    }
                    return Err(e);
                },
                Ok(()) => {},
            }
            i += 1;
        }
        assert(dv.take(i as int) =~= dv);
        let next = if version < u64::MAX {
            version + 1
        } else {
            version
        };
        let rec = Record::assemble(session, path, all, next, kv);
        let note = rec.clone();
        let ghost views = rec_views(self.records@);
        let ghost before = self@;
        match at {
            Some(i) => {
                proof {
                    lemma_put_update(views, i as int, rec@);
                    assert(rec_views(self.records@.update(i as int, rec)) =~= views.update(
                        i as int,
                        rec@,
                    ));
                }
                let mut records: Vec<Record> = Vec::new();
                std::mem::swap(&mut self.records, &mut records);
                records.set(i, rec);
                self.records = records;
            },
            None => {
                let p = self.slot(rec.path());
                proof {
                    assert forall|j: int| 0 <= j < views.len() implies (#[trigger] views[j])
                        == self.records[j]@ by {}
                    lemma_put_insert(views, p as int, rec@);
                    assert(rec_views(self.records@.insert(p as int, rec)) =~= views.insert(
                        p as int,
                        rec@,
                    ));
                }
                let mut records: Vec<Record> = Vec::new();
                std::mem::swap(&mut self.records, &mut records);
                records.insert(p, rec);
                self.records = records;
            },
        }
        assert(self@ == (LibraryView {
            records: before.records.insert((session, note@.path), note@),
            ..before
        }));
        self.notify(&note);
        Ok(())
    }
}

/// The keys stand in the strict order of their paths.
pub open spec fn ascending_keys(items: Seq<Key>) -> bool {
    forall|i: int, j: int|
        #![trigger items[i], items[j]]
        0 <= i < j < items.len() ==> path_lt(items[i].1, items[j].1)
}

/// `items` is the answer to a query in the namespace of `session`: the
/// keys of exactly the records there that the query asks for, each once,
/// in the order of their paths.
pub open spec fn answers(
    records: Map<Key, RecordView>,
    session: Session,
    q: QueryView,
    items: Seq<Key>,
) -> bool {
    &&& ascending_keys(items)
    &&& forall|i: int|
        0 <= i < items.len() ==> {
            let k = #[trigger] items[i];
            k.0 == session && records.contains_key(k) && selects(q, records[k])
        }
    &&& forall|k: Key|
        k.0 == session && #[trigger] records.contains_key(k) && selects(q, records[k])
            ==> items.contains(k)
}

/// Two lists of keys made into one: the smaller path goes first, and of
/// two equal paths the one of `a`.
pub open spec fn merged(a: Seq<Key>, b: Seq<Key>) -> Seq<Key>
    decreases a.len() + b.len(),
{
    if a.len() == 0 {
        b
    } else if b.len() == 0 {
        a
    } else if path_lt(b[0].1, a[0].1) {
        seq![b[0]] + merged(a, b.drop_first())
    } else {
        seq![a[0]] + merged(a.drop_first(), b)
    }
}

/// The records that a query has found, to be read one by one.
///
/// The iterator holds the keys of the records, not the records: one
/// that was removed since the query is missed when its turn comes.
#[derive(Debug)]
pub struct QueryIterator {
    items: Vec<(Session, Path)>,
    pos: usize,
    locked: bool,
}

impl QueryIterator {
    #[verifier::type_invariant]
    spec fn well_formed(&self) -> bool {
        self.pos <= self.items.len()
    }

    /// The keys that are still to come, next one first.
    pub closed spec fn upcoming(&self) -> Seq<Key> {
        key_views(self.items@).skip(self.pos as int)
    }

    /// Whether the iterator holds the store's records against removal.
    pub closed spec fn holds_lock(&self) -> bool {
        self.locked
    }

    /// How many records are still to come.
    pub fn remaining(&self) -> (r: usize)
        ensures
            r == self.upcoming().len(),
    {
        proof {
            use_type_invariant(self);
        }
        self.items.len() - self.pos
    }

    /// Whether the iterator holds the store's records against removal.
    pub fn is_locked(&self) -> (r: bool)
        ensures
            r == self.holds_lock(),
    {
        self.locked
    }

    /// Passes over the next `num` records, or over all that are left if
    /// they are fewer.
    pub fn skip(&mut self, num: usize)
        ensures
            final(self).holds_lock() == old(self).holds_lock(),
            final(self).upcoming() == if num <= old(self).upcoming().len() {
                old(self).upcoming().skip(num as int)
            } else {
                Seq::<Key>::empty()
            },
    {
        proof {
            use_type_invariant(&*self);
        }
        let left = self.items.len() - self.pos;
        if num <= left {
            assert(key_views(self.items@).skip(self.pos as int).skip(num as int) =~= key_views(
                self.items@,
            ).skip(self.pos + num));
            self.pos = self.pos + num;
        } else {
            assert(key_views(self.items@).skip(self.items.len() as int) =~= Seq::<Key>::empty());
            self.pos = self.items.len();
        }
    }

    /// Takes in what `other` still has to come. Both keep the order of
    /// their paths, so the whole does if each did. An iterator that
    /// holds a lock is not taken in: it has to be released first.
    pub fn merge(&mut self, other: QueryIterator) -> (r: Result<(), Error>)
        ensures
            final(self).holds_lock() == old(self).holds_lock(),
            match r {
                Ok(()) => !other.holds_lock() && final(self).upcoming() == merged(
                    old(self).upcoming(),
                    other.upcoming(),
                ),
                Err(e) => e == Error::InvalidQuery && other.holds_lock() && final(self).upcoming()
                    == old(self).upcoming(),
            },
    {
        proof {
            use_type_invariant(&*self);
            use_type_invariant(&other);
        }
        if other.locked {
            return Err(Error::InvalidQuery);
        }
        let ghost a = self.upcoming();
        let ghost b = other.upcoming();
        let mut out: Vec<(Session, Path)> = Vec::new();
        let mut i: usize = self.pos;
        let mut j: usize = other.pos;
        assert(a.skip(0) =~= a && b.skip(0) =~= b);
        while i < self.items.len() || j < other.items.len()
            invariant
                self.pos <= i <= self.items.len(),
                other.pos <= j <= other.items.len(),
                a == key_views(self.items@).skip(self.pos as int),
                b == key_views(other.items@).skip(other.pos as int),
                merged(a, b) == key_views(out@) + merged(
                    a.skip(i - self.pos),
                    b.skip(j - other.pos),
                ),
            decreases (self.items.len() - i) + (other.items.len() - j),
        {
            let ghost ra = a.skip(i - self.pos);
            let ghost rb = b.skip(j - other.pos);
            let ghost done = key_views(out@);
            let from_other = if i == self.items.len() {
                true
            } else if j == other.items.len() {
                false
            } else {
                assert(ra[0] == (self.items@[i as int].0, self.items@[i as int].1@));
                assert(rb[0] == (other.items@[j as int].0, other.items@[j as int].1@));
                other.items[j].1.before(&self.items[i].1)
            };
            if from_other {
                assert(rb[0] == (other.items@[j as int].0, other.items@[j as int].1@));
                out.push((other.items[j].0, other.items[j].1.clone()));
                proof {
                    assert(rb.drop_first() =~= b.skip(j + 1 - other.pos));
                    if ra.len() == 0 {
                        assert(merged(ra, rb) == rb);
                        assert(merged(ra, rb.drop_first()) == rb.drop_first());
                        assert(rb =~= seq![rb[0]] + rb.drop_first());
                    }
                    assert(key_views(out@) =~= done + seq![rb[0]]);
                    assert(done + (seq![rb[0]] + merged(ra, rb.drop_first())) =~= (done
                        + seq![rb[0]]) + merged(ra, rb.drop_first()));
                }
                j += 1;
            } else {
                assert(ra[0] == (self.items@[i as int].0, self.items@[i as int].1@));
                out.push((self.items[i].0, self.items[i].1.clone()));
                proof {
                    assert(ra.drop_first() =~= a.skip(i + 1 - self.pos));
                    if rb.len() == 0 {
                        assert(merged(ra, rb) == ra);
                        assert(merged(ra.drop_first(), rb) == if ra.drop_first().len() == 0 {
                            rb
                        } else {
                            ra.drop_first()
                        });
                        assert(ra =~= seq![ra[0]] + ra.drop_first());
                        assert(merged(ra.drop_first(), rb) =~= ra.drop_first());
                    }
                    assert(key_views(out@) =~= done + seq![ra[0]]);
                    assert(done + (seq![ra[0]] + merged(ra.drop_first(), rb)) =~= (done
                        + seq![ra[0]]) + merged(ra.drop_first(), rb));
                }
                i += 1;
            }
        }
        proof {
            assert(a.skip(i - self.pos).len() == 0 && b.skip(j - other.pos).len() == 0);
            assert(key_views(out@) + Seq::<Key>::empty() =~= key_views(out@));
            assert(key_views(out@).skip(0) =~= key_views(out@));
        }
        self.pos = 0;
        self.items = out;
        Ok(())
    }
}

/// What reading the next record gives: nothing where none is to come,
/// the record under the next key where the store holds one, and where
/// it holds none, that there is no data.
pub open spec fn fetched(records: Map<Key, RecordView>, upcoming: Seq<Key>) -> Result<
    Option<RecordView>,
    Error,
> {
    if upcoming.len() == 0 {
        Ok(None)
    } else if records.contains_key(upcoming[0]) {
        Ok(Some(records[upcoming[0]]))
    } else {
        Err(Error::NoData)
    }
}

/// Every record stands under its own namespace and path.
pub open spec fn consistent(v: LibraryView) -> bool {
    forall|k: Key| v.records.contains_key(k) ==> key_of(#[trigger] v.records[k]) == k
}

/// What holds of the view of every store: the records stand under
/// their own keys, and an id names at most one of those who wait.
pub open spec fn valid(v: LibraryView) -> bool {
    consistent(v) && subs_ok(v.subs, v.next_sub as int)
}

/// A record that was written is what a query for its path reads next:
/// it carries the tags it had together with those of the batch, and its
/// keys and values are what the diffs made of those it had.
pub proof fn lemma_batch_then_query(
    v: LibraryView,
    session: Session,
    path: Seq<char>,
    tags: Set<TagView>,
    diffs: Seq<DiffView>,
    items: Seq<Key>,
)
    requires
        consistent(v),
        batched(v, session, path, tags, diffs) is Ok,
        answers(
            batched(v, session, path, tags, diffs)->Ok_0.records,
            session,
            QueryView::Path(path),
            items,
        ),
    ensures
        ({
            let after = batched(v, session, path, tags, diffs)->Ok_0;
            let before = if v.records.contains_key((session, path)) {
                Content { kv: v.records[(session, path)].kv, tags: v.records[(session, path)].tags }
            } else {
                Content { kv: Map::empty(), tags: Set::empty() }
            };
            &&& consistent(after)
            &&& items == seq![(session, path)]
            &&& fetched(after.records, items) matches Ok(Some(rec))
            &&& rec.session == session
            &&& rec.path == path
            &&& apply_all(Content { kv: before.kv, tags: before.tags.union(tags) }, diffs) == Ok::<
                Content,
                Error,
            >(Content { kv: rec.kv, tags: rec.tags })
        }),
{
    let after = batched(v, session, path, tags, diffs)->Ok_0;
    let k = (session, path);
    assert(after.records.contains_key(k));
    assert forall|key: Key| after.records.contains_key(key) implies key_of(
        #[trigger] after.records[key],
    ) == key by {
        if key != k {
            assert(v.records.contains_key(key));
        }
    }
    assert(items.contains(k));
    assert forall|j: int| 0 <= j < items.len() implies #[trigger] items[j] == k by {
        let kj = items[j];
        assert(after.records.contains_key(kj));
        assert(key_of(after.records[kj]) == kj);
    }
    if items.len() >= 2 {
        assert(path_lt(items[0].1, items[1].1));
        lemma_lex_asymmetric(encode_utf8(items[0].1), encode_utf8(items[1].1));
    }
    assert(items =~= seq![k]);
}

impl Library {
    /// The records in the namespace of `session` that `query` asks for,
    /// in the order of their paths. A path that does not begin with a
    /// slash is no query, and a user's namespace has to be open.
    pub fn query(&self, session: Session, query: &Query) -> (r: Result<QueryIterator, Error>)
        ensures
            match r {
                Ok(it) => {
                    &&& answers(self@.records, session, query@, it.upcoming())
                    &&& !it.holds_lock()
                    &&& !(query@ matches QueryView::Path(p) && !rooted(p))
                    &&& allowed(self@, session)
                },
                Err(e) => if query@ matches QueryView::Path(p) && !rooted(p) {
                    e == Error::InvalidQuery
                } else {
                    e == Error::NotAuthorised && !allowed(self@, session)
                },
            },
    {
        proof {
            use_type_invariant(self);
        }
        match query {
            Query::Path(p) => {
                if !p.is_rooted() {
                    return Err(Error::InvalidQuery);
                }
            },
            _ => {},
        }
        if !self.allows(&session) {
            return Err(Error::NotAuthorised);
        }
        let ghost views = rec_views(self.records@);
        let ghost mut idx: Seq<int> = Seq::empty();
        let mut items: Vec<(Session, Path)> = Vec::new();
        let mut i: usize = 0;
        while i < self.records.len()
            invariant
                i <= self.records.len(),
                views == rec_views(self.records@),
                stored_ok(views),
                idx.len() == items.len(),
                forall|k: int|
                    0 <= k < idx.len() ==> {
                        &&& 0 <= #[trigger] idx[k] < i
                        &&& key_views(items@)[k] == key_of(views[idx[k]])
                        &&& views[idx[k]].session == session
                        &&& selects(query@, views[idx[k]])
                    },
                forall|a: int, b: int|
                    #![trigger idx[a], idx[b]]
                    0 <= a < b < idx.len() ==> idx[a] < idx[b],
                forall|j: int|
                    0 <= j < i && (#[trigger] views[j]).session == session && selects(
                        query@,
                        views[j],
                    ) ==> exists|k: int| 0 <= k < idx.len() && #[trigger] idx[k] == j,
            decreases self.records.len() - i,
        {
            let rec = &self.records[i];
            assert(views[i as int] == rec@);
            if rec.session() == session && query.admits(rec) {
                let ghost before = items@;
                let ghost old_idx = idx;
                items.push((session, rec.path().clone()));
                proof {
                    idx = idx.push(i as int);
                    assert forall|k: int| 0 <= k < idx.len() implies {
                        &&& 0 <= #[trigger] idx[k] < i + 1
                        &&& key_views(items@)[k] == key_of(views[idx[k]])
                        &&& views[idx[k]].session == session
                        &&& selects(query@, views[idx[k]])
                    } by {
                        if k < old_idx.len() {
                            assert(idx[k] == old_idx[k]);
                            assert(key_views(items@)[k] == key_views(before)[k]);
                        }
                    }
                    assert forall|j: int|
                        0 <= j < i + 1 && (#[trigger] views[j]).session == session && selects(
                            query@,
                            views[j],
                        ) implies exists|k: int| 0 <= k < idx.len() && #[trigger] idx[k] == j by {
                        if j < i {
                            let k = choose|k: int| 0 <= k < old_idx.len() && #[trigger] old_idx[k] == j;
                            assert(idx[k] == j);
                        } else {
                            assert(idx[old_idx.len() as int] == j);
                        }
                    }
                }
            }
            i += 1;
        }
        let it = QueryIterator { items, pos: 0, locked: false };
        proof {
            let keys = it.upcoming();
            assert(keys =~= key_views(items@));
            assert forall|a: int, b: int| #![trigger keys[a], keys[b]] 0 <= a < b < keys.len() implies path_lt(
                keys[a].1,
                keys[b].1,
            ) by {
                let x = idx[a];
                let y = idx[b];
                assert(x < y);
                assert(key_of(views[x]) != key_of(views[y]));
                assert(!path_lt(views[y].path, views[x].path));
                lemma_lex_total(encode_utf8(views[x].path), encode_utf8(views[y].path));
                if encode_utf8(views[x].path) == encode_utf8(views[y].path) {
                    lemma_utf8_injective(views[x].path, views[y].path);
                }
            }
            assert forall|k: int| 0 <= k < keys.len() implies ({
                let key = #[trigger] keys[k];
                key.0 == session && self@.records.contains_key(key) && selects(
                    query@,
                    self@.records[key],
                )
            }) by {
                lemma_map_at(views, idx[k]);
            }
            assert forall|key: Key|
                key.0 == session && #[trigger] self@.records.contains_key(key) && selects(
                    query@,
                    self@.records[key],
                ) implies keys.contains(key) by {
                let j = choose|j: int| has_key_at(views, key, j);
                lemma_map_at(views, j);
                let k = choose|k: int| 0 <= k < idx.len() && #[trigger] idx[k] == j;
                assert(keys[k] == key);
            }
        }
        Ok(it)
    }

    /// Reads the record that is next in `it`, and moves on.
    pub fn next(&self, it: &mut QueryIterator) -> (r: Result<Option<Record>, Error>)
        ensures
            final(it).holds_lock() == old(it).holds_lock(),
            final(it).upcoming() == if old(it).upcoming().len() == 0 {
                old(it).upcoming()
            } else {
                old(it).upcoming().drop_first()
            },
            match r {
                Ok(Some(rec)) => fetched(self@.records, old(it).upcoming()) == Ok::<
                    Option<RecordView>,
                    Error,
                >(Some(rec@)),
                Ok(None) => fetched(self@.records, old(it).upcoming()) == Ok::<
                    Option<RecordView>,
                    Error,
                >(None),
                Err(e) => fetched(self@.records, old(it).upcoming()) == Err::<
                    Option<RecordView>,
                    Error,
                >(e),
            },
    {
        proof {
            use_type_invariant(&*it);
        }
        if it.pos == it.items.len() {
            return Ok(None);
        }
        let at = it.pos;
        assert(it.upcoming()[0] == (it.items@[at as int].0, it.items@[at as int].1@));
        assert(it.upcoming().drop_first() =~= key_views(it.items@).skip(at + 1));
        let found = self.find(&it.items[at].0, &it.items[at].1);
        it.pos = at + 1;
        match found {
            Some(i) => Ok(Some(self.records[i].clone())),
            None => Err(Error::NoData),
        }
    }
}

/// The store after a request to remove a record, or why the request is
/// refused. While a reader holds the records the request waits.
pub open spec fn deleted(v: LibraryView, session: Session, path: Seq<char>) -> Result<
    LibraryView,
    Error,
> {
    if !rooted(path) {
        Err(Error::InvalidQuery)
    } else if !allowed(v, session) {
        Err(Error::NotAuthorised)
    } else if !v.records.contains_key((session, path)) {
        Err(Error::NoData)
    } else if v.locks > 0 {
        Ok(LibraryView { pending: v.pending.insert((session, path)), ..v })
    } else {
        Ok(LibraryView { records: v.records.remove((session, path)), ..v })
    }
}

/// The store after a reader has let go: with the last one, everything
/// that waited to be removed goes at once.
pub open spec fn released(v: LibraryView) -> LibraryView {
    if v.locks == 0 {
        v
    } else if v.locks == 1 {
        LibraryView {
            locks: 0,
            records: v.records.remove_keys(v.pending),
            pending: Set::empty(),
            ..v
        }
    } else {
        LibraryView { locks: (v.locks - 1) as nat, ..v }
    }
}

/// The store after one more came to wait, or why it is refused.
pub open spec fn subscribed(v: LibraryView, session: Session, q: QueryView) -> Result<
    LibraryView,
    Error,
> {
    if q matches QueryView::Path(p) && !rooted(p) {
        Err(Error::InvalidQuery)
    } else if !allowed(v, session) {
        Err(Error::NotAuthorised)
    } else if v.next_sub >= usize::MAX {
        Err(Error::CommFault)
    } else {
        Ok(
            LibraryView {
                subs: v.subs.push(
                    SubView { id: v.next_sub as usize, session, query: q, queue: Seq::empty() },
                ),
                next_sub: v.next_sub + 1,
                ..v
            },
        )
    }
}

/// Those who wait, after the one at place `i` was handed the oldest path
/// of its queue.
pub open spec fn handed(subs: Seq<SubView>, i: int) -> Seq<SubView> {
    subs.update(i, SubView { queue: subs[i].queue.drop_first(), ..subs[i] })
}

/// What asking for the next change gives to the one with the given id,
/// and the store after it: the oldest path of its queue, which is then
/// taken off; nothing, where the queue is empty; and for an id that
/// names nobody who waits, that there is no data.
pub open spec fn polled(v: LibraryView, id: usize) -> (Result<Option<Seq<char>>, Error>, LibraryView) {
    match sub_position(v.subs, id) {
        None => (Err(Error::NoData), v),
        Some(i) => if v.subs[i].queue.len() == 0 {
            (Ok(None), v)
        } else {
            (Ok(Some(v.subs[i].queue[0])), LibraryView { subs: handed(v.subs, i), ..v })
        },
    }
}

/// One who waits for changes holds this to ask for them.
#[derive(Debug, Clone, Copy, PartialEq, Eq, Structural)]
pub struct Subscription {
    pub id: usize,
}

/// Who waits for records like the one that a batch leaves finds the path
/// of that record at the end of its queue.
pub proof fn lemma_batch_reaches_subscription(
    v: LibraryView,
    session: Session,
    path: Seq<char>,
    tags: Set<TagView>,
    diffs: Seq<DiffView>,
    i: int,
)
    requires
        consistent(v),
        0 <= i < v.subs.len(),
        v.subs[i].session == session,
        batch_record(v, session, path, tags, diffs) matches Ok(rec) && selects(v.subs[i].query, rec),
    ensures
        batched(v, session, path, tags, diffs) matches Ok(after) && after.subs.len()
            == v.subs.len() && after.subs[i].id == v.subs[i].id && after.subs[i].queue
            == v.subs[i].queue.push(path),
{
    let rec = batch_record(v, session, path, tags, diffs)->Ok_0;
    if v.records.contains_key((session, path)) {
        assert(key_of(v.records[(session, path)]) == (session, path));
    }
    assert(rec.session == session && rec.path == path);
}

/// One who came to wait before a batch, for records like the one that
/// the batch leaves, is handed the path of that record when it next
/// asks: its id finds its own queue, and the path stands in it. The
/// paths of later batches queue up behind, in the order of the batches.
pub proof fn lemma_subscription_liveness(
    v: LibraryView,
    session: Session,
    q: QueryView,
    path: Seq<char>,
    tags: Set<TagView>,
    diffs: Seq<DiffView>,
)
    requires
        valid(v),
        subscribed(v, session, q) matches Ok(waiting) && batch_record(
            waiting,
            session,
            path,
            tags,
            diffs,
        ) matches Ok(rec) && selects(q, rec),
    ensures
        ({
            let waiting = subscribed(v, session, q)->Ok_0;
            let id = v.next_sub as usize;
            &&& valid(waiting)
            &&& sub_position(waiting.subs, id) == Some(v.subs.len() as int)
            &&& polled(waiting, id).0 == Ok::<Option<Seq<char>>, Error>(None)
            &&& batched(waiting, session, path, tags, diffs) matches Ok(after)
            &&& valid(after)
            &&& sub_position(after.subs, id) == Some(v.subs.len() as int)
            &&& polled(after, id).0 == Ok::<Option<Seq<char>>, Error>(Some(path))
            &&& polled(polled(after, id).1, id).0 == Ok::<Option<Seq<char>>, Error>(None)
        }),
{
    let waiting = subscribed(v, session, q)->Ok_0;
    let id = v.next_sub as usize;
    let n = v.subs.len() as int;
    assert(waiting.subs[n].id == id);
    assert(subs_ok(waiting.subs, waiting.next_sub as int)) by {
        assert forall|x: int, y: int|
            #![trigger waiting.subs[x], waiting.subs[y]]
            0 <= x < y < waiting.subs.len() implies waiting.subs[x].id < waiting.subs[y].id by {
            if y < n {
                assert(v.subs[x].id < v.subs[y].id);
            } else {
                assert(v.subs[x].id < v.next_sub);
            }
        }
        assert forall|x: int| 0 <= x < waiting.subs.len() implies (#[trigger] waiting.subs[x]).id
            < waiting.next_sub by {
            if x < n {
                assert(v.subs[x].id < v.next_sub);
            }
        }
    }
    lemma_sub_position(waiting.subs, waiting.next_sub as int, n);
    let rec = batch_record(waiting, session, path, tags, diffs)->Ok_0;
    if waiting.records.contains_key((session, path)) {
        assert(key_of(waiting.records[(session, path)]) == (session, path));
    }
    assert(rec.session == session && rec.path == path);
    let after = batched(waiting, session, path, tags, diffs)->Ok_0;
    assert forall|k: Key| after.records.contains_key(k) implies key_of(#[trigger] after.records[k])
        == k by {
        if k != (session, path) {
            assert(waiting.records.contains_key(k));
        }
    }
    assert(subs_ok(after.subs, after.next_sub as int)) by {
        assert forall|x: int| 0 <= x < after.subs.len() implies (#[trigger] after.subs[x]).id
            == waiting.subs[x].id by {}
        assert forall|x: int, y: int|
            #![trigger after.subs[x], after.subs[y]]
            0 <= x < y < after.subs.len() implies after.subs[x].id < after.subs[y].id by {
            assert(waiting.subs[x].id < waiting.subs[y].id);
        }
        assert forall|x: int| 0 <= x < after.subs.len() implies (#[trigger] after.subs[x]).id
            < after.next_sub by {
            assert(waiting.subs[x].id < waiting.next_sub);
        }
    }
    assert(after.subs[n].id == id);
    lemma_sub_position(after.subs, after.next_sub as int, n);
    assert(after.subs[n].queue =~= seq![path]);
    let then = polled(after, id).1;
    assert(then.subs[n].queue =~= Seq::<Seq<char>>::empty());
    assert(subs_ok(then.subs, then.next_sub as int)) by {
        assert forall|x: int| 0 <= x < then.subs.len() implies (#[trigger] then.subs[x]).id
            == after.subs[x].id by {}
        assert forall|x: int, y: int|
            #![trigger then.subs[x], then.subs[y]]
            0 <= x < y < then.subs.len() implies then.subs[x].id < then.subs[y].id by {
            assert(after.subs[x].id < after.subs[y].id);
        }
        assert forall|x: int| 0 <= x < then.subs.len() implies (#[trigger] then.subs[x]).id
            < then.next_sub by {
            assert(after.subs[x].id < after.next_sub);
        }
    }
    assert(then.subs[n].id == id);
    lemma_sub_position(then.subs, then.next_sub as int, n);
}

impl Library {
    /// Holds the records of the store against removal until `it` is
    /// released. An iterator holds at most one lock.
    pub fn lock(&mut self, it: &mut QueryIterator)
        ensures
            final(it).upcoming() == old(it).upcoming(),
            if !old(it).holds_lock() && old(self)@.locks < usize::MAX {
                &&& final(it).holds_lock()
                &&& final(self)@ == (LibraryView {
                    locks: old(self)@.locks + 1,
                    ..old(self)@
                })
            } else {
                &&& final(it).holds_lock() == old(it).holds_lock()
                &&& final(self)@ == old(self)@
            },
    {
        proof {
            use_type_invariant(&*self);
            use_type_invariant(&*it);
        }
        if !it.locked && self.locks < usize::MAX {
            self.locks = self.locks + 1;
            it.locked = true;
        }
    }

    /// Takes the records that wait to be removed out of the store.
    fn purge(&mut self)
        ensures
            final(self)@ == (LibraryView {
                records: old(self)@.records.remove_keys(old(self)@.pending),
                pending: Set::empty(),
                ..old(self)@
            }),
    {
        proof {
            use_type_invariant(&*self);
        }
        let ghost start = self@;
        let mut waiting: Vec<(Session, Path)> = Vec::new();
        std::mem::swap(&mut self.pending, &mut waiting);
        let ghost keys = key_views(waiting@);
        assert(key_views(self.pending@).to_set() =~= Set::<Key>::empty());
        assert(keys.take(0).to_set() =~= Set::<Key>::empty());
        assert(start.records.remove_keys(Set::<Key>::empty()) =~= start.records);
        let mut i: usize = 0;
        while i < waiting.len()
            invariant
                i <= waiting.len(),
                keys == key_views(waiting@),
                start.pending == keys.to_set(),
                self@ == (LibraryView {
                    records: start.records.remove_keys(keys.take(i as int).to_set()),
                    pending: Set::empty(),
                    ..start
                }),
            decreases waiting.len() - i,
        {
            let ghost before = self@;
            let ghost k = keys[i as int];
            assert(k == (waiting@[i as int].0, waiting@[i as int].1@));
            proof {
                use_type_invariant(&*self);
            }
            match self.find(&waiting[i].0, &waiting[i].1) {
                Some(at) => {
                    let ghost views = rec_views(self.records@);
                    proof {
                        lemma_take_out(views, at as int);
                        assert(rec_views(self.records@.remove(at as int)) =~= views.remove(
                            at as int,
                        ));
                    }
                    let mut records: Vec<Record> = Vec::new();
                    std::mem::swap(&mut self.records, &mut records);
                    let _ = records.remove(at);
                    self.records = records;
                },
                None => {
                    assert(before.records.remove(k) =~= before.records);
                },
            }
            proof {
                assert(keys.take(i + 1).to_set() =~= keys.take(i as int).to_set().insert(k)) by {
                    assert(keys.take(i + 1) =~= keys.take(i as int).push(k));
                    assert forall|x: Key|
                        keys.take(i + 1).to_set().contains(x) <==> keys.take(
                            i as int,
                        ).to_set().insert(k).contains(x) by {
                        let a = keys.take(i + 1);
                        let b = keys.take(i as int);
                        if a.contains(x) {
                            let j = choose|j: int| 0 <= j < a.len() && a[j] == x;
                            if j < i {
                                assert(b[j] == x);
                            }
                        }
                        if b.contains(x) {
                            let j = choose|j: int| 0 <= j < b.len() && b[j] == x;
                            assert(a[j] == x);
                        }
                        if x == k {
                            assert(a[i as int] == x);
                        }
                    }
                }
                assert(start.records.remove_keys(keys.take(i as int).to_set().insert(k))
                    =~= start.records.remove_keys(keys.take(i as int).to_set()).remove(k));
            }
            i += 1;
        }
        assert(keys.take(i as int) =~= keys);
    }

    /// Lets go of the lock that `it` may hold. With the last lock, the
    /// records that were to be removed meanwhile go.
    pub fn release(&mut self, it: QueryIterator)
        ensures
            final(self)@ == if it.holds_lock() {
                released(old(self)@)
            } else {
                old(self)@
            },
    {
        proof {
            use_type_invariant(&*self);
        }
        if it.locked && self.locks > 0 {
            self.locks = self.locks - 1;
            if self.locks == 0 {
                self.purge();
            }
        }
    }

    /// Removes the record under `path`. While a reader holds the records
    /// of the store, the record stays until the last reader lets go.
    pub fn delete(&mut self, session: Session, path: &Path) -> (r: Result<(), Error>)
        ensures
            match r {
                Ok(()) => deleted(old(self)@, session, path@) == Ok::<LibraryView, Error>(
                    final(self)@,
                ),
                Err(e) => deleted(old(self)@, session, path@) == Err::<LibraryView, Error>(e)
                    && final(self)@ == old(self)@,
            },
    {
        proof {
            use_type_invariant(&*self);
        }
        if !path.is_rooted() {
            return Err(Error::InvalidQuery);
        }
        if !self.allows(&session) {
            return Err(Error::NotAuthorised);
        }
        match self.find(&session, path) {
            None => Err(Error::NoData),
            Some(at) => {
                if self.locks > 0 {
                    let ghost before = key_views(self.pending@);
                    let mut waiting: Vec<(Session, Path)> = Vec::new();
                    std::mem::swap(&mut self.pending, &mut waiting);
                    waiting.push((session, path.clone()));
                    proof {
                        let after = key_views(waiting@);
                        let k = (session, path@);
                        assert(after =~= before.push(k));
                        assert forall|x: Key|
                            after.to_set().contains(x) <==> before.to_set().insert(k).contains(
                                x,
                            ) by {
                            if after.contains(x) {
                                let j = choose|j: int| 0 <= j < after.len() && after[j] == x;
                                if j < before.len() {
                                    assert(before[j] == x);
                                }
                            }
                            if before.contains(x) {
                                let j = choose|j: int| 0 <= j < before.len() && before[j] == x;
                                assert(after[j] == x);
                            }
                            if x == k {
                                assert(after[before.len() as int] == x);
                            }
                        }
                        assert(after.to_set() =~= before.to_set().insert(k));
                    }
                    self.pending = waiting;
                } else {
                    let ghost views = rec_views(self.records@);
                    proof {
                        lemma_take_out(views, at as int);
                        assert(rec_views(self.records@.remove(at as int)) =~= views.remove(
                            at as int,
                        ));
                    }
                    let mut records: Vec<Record> = Vec::new();
                    std::mem::swap(&mut self.records, &mut records);
                    let _ = records.remove(at);
                    self.records = records;
                }
                Ok(())
            },
        }
    }

    fn find_sub(&self, id: usize) -> (r: Option<usize>)
        ensures
            match r {
                Some(i) => i < self.subs.len() && sub_position(self@.subs, id) == Some(i as int),
                None => sub_position(self@.subs, id) is None,
            },
    {
        proof {
            use_type_invariant(self);
        }
        let ghost views = sub_views(self.subs@);
        let mut i: usize = 0;
        while i < self.subs.len()
            invariant
                i <= self.subs.len(),
                views == sub_views(self.subs@),
                subs_ok(views, self.next_sub as int),
                forall|j: int| 0 <= j < i ==> (#[trigger] views[j]).id != id,
            decreases self.subs.len() - i,
        {
            assert(views[i as int] == self.subs@[i as int]@);
            if self.subs[i].id == id {
                proof {
                    lemma_sub_position(views, self.next_sub as int, i as int);
                }
                return Some(i);
            }
            i += 1;
        }
        None
    }

    /// Registers one who waits for the records in the namespace of
    /// `session` that `query` asks for: from now on the path of each
    /// such record is queued for it when the record is written.
    pub fn subscribe(&mut self, session: Session, query: Query) -> (r: Result<Subscription, Error>)
        ensures
            match r {
                Ok(sub) => subscribed(old(self)@, session, query@) == Ok::<LibraryView, Error>(
                    final(self)@,
                ) && sub.id == old(self)@.next_sub,
                Err(e) => subscribed(old(self)@, session, query@) == Err::<LibraryView, Error>(e)
                    && final(self)@ == old(self)@,
            },
    {
        proof {
            use_type_invariant(&*self);
        }
        match &query {
            Query::Path(p) => {
                if !p.is_rooted() {
                    return Err(Error::InvalidQuery);
                }
            },
            _ => {},
        }
        if !self.allows(&session) {
            return Err(Error::NotAuthorised);
        }
        if self.next_sub == usize::MAX {
            return Err(Error::CommFault);
        }
        let id = self.next_sub;
        let ghost before = sub_views(self.subs@);
        let mut subs: Vec<Sub> = Vec::new();
        std::mem::swap(&mut self.subs, &mut subs);
        self.next_sub = id + 1;
        let sub = Sub { id, session, query, queue: Vec::new() };
        proof {
            assert(sub@.queue =~= Seq::<Seq<char>>::empty());
        }
        subs.push(sub);
        proof {
            let after = sub_views(subs@);
            assert(after =~= before.push(
                SubView { id, session, query: query@, queue: Seq::empty() },
            ));
            assert forall|x: int, y: int| #![trigger after[x], after[y]] 0 <= x < y < after.len() implies after[x].id < after[y].id by {
                if y < before.len() {
                    assert(before[x].id < before[y].id);
                } else {
                    assert(before[x].id < id);
                }
            }
            assert forall|x: int| 0 <= x < after.len() implies (#[trigger] after[x]).id < id + 1 by {
                if x < before.len() {
                    assert(before[x].id < id);
                }
            }
        }
        self.subs = subs;
        Ok(Subscription { id })
    }

    /// Hands out the oldest path that is queued for `sub`, if there is
    /// one. For one who does not wait any more there is no data.
    pub fn poll(&mut self, sub: &Subscription) -> (r: Result<Option<Path>, Error>)
        ensures
            final(self)@ == polled(old(self)@, sub.id).1,
            match r {
                Ok(Some(p)) => polled(old(self)@, sub.id).0 == Ok::<Option<Seq<char>>, Error>(
                    Some(p@),
                ),
                Ok(None) => polled(old(self)@, sub.id).0 == Ok::<Option<Seq<char>>, Error>(None),
                Err(e) => polled(old(self)@, sub.id).0 == Err::<Option<Seq<char>>, Error>(e),
            },
    {
        proof {
            use_type_invariant(&*self);
        }
        match self.find_sub(sub.id) {
            None => Err(Error::NoData),
            Some(i) => {
                if self.subs[i].queue.len() == 0 {
                    assert(self@.subs[i as int] == self.subs@[i as int]@);
                    return Ok(None);
                }
                let ghost before = sub_views(self.subs@);
                assert(before[i as int] == self.subs@[i as int]@);
                let mut subs: Vec<Sub> = Vec::new();
                std::mem::swap(&mut self.subs, &mut subs);
                let ghost all = subs@;
                let mut s = subs.remove(i);
                let ghost q = s.queue@;
                let p = s.queue.remove(0);
                proof {
                    assert(s.queue@.map_values(|p: Path| p@) =~= q.map_values(
                        |p: Path| p@,
                    ).drop_first());
                }
                subs.insert(i, s);
                proof {
                    let after = sub_views(subs@);
                    assert(after =~= handed(before, i as int)) by {
                        assert forall|j: int| 0 <= j < after.len() implies after[j] == handed(
                            before,
                            i as int,
                        )[j] by {
                            if j < i {
                                assert(subs@[j] == all[j]);
                            } else if j > i {
                                assert(subs@[j] == all[j]);
                            }
                        }
                    }
                    assert forall|x: int, y: int|
                        #![trigger after[x], after[y]]
                        0 <= x < y < after.len() implies after[x].id < after[y].id by {
                        assert(before[x].id < before[y].id);
                    }
                    assert forall|x: int| 0 <= x < after.len() implies (#[trigger] after[x]).id
                        < self.next_sub by {
                        assert(before[x].id < self.next_sub);
                    }
                }
                self.subs = subs;
                Ok(Some(p))
            },
        }
    }

    /// Takes `sub` off the list of those who wait.
    pub fn unsubscribe(&mut self, sub: Subscription)
        ensures
            final(self)@ == (LibraryView {
                subs: match sub_position(old(self)@.subs, sub.id) {
                    Some(i) => old(self)@.subs.remove(i),
                    None => old(self)@.subs,
                },
                ..old(self)@
            }),
    {
        proof {
            use_type_invariant(&*self);
        }
        match self.find_sub(sub.id) {
            None => {},
            Some(i) => {
                let ghost before = sub_views(self.subs@);
                let mut subs: Vec<Sub> = Vec::new();
                std::mem::swap(&mut self.subs, &mut subs);
                let _ = subs.remove(i);
                proof {
                    let after = sub_views(subs@);
                    assert(after =~= before.remove(i as int));
                    assert forall|x: int, y: int|
                        #![trigger after[x], after[y]]
                        0 <= x < y < after.len() implies after[x].id < after[y].id by {
                        let x0 = if x < i { x } else { x + 1 };
                        let y0 = if y < i { y } else { y + 1 };
                        assert(after[x] == before[x0] && after[y] == before[y0]);
                        assert(before[x0].id < before[y0].id);
                    }
                    assert forall|x: int| 0 <= x < after.len() implies (#[trigger] after[x]).id
                        < self.next_sub by {
                        let x0 = if x < i { x } else { x + 1 };
                        assert(after[x] == before[x0]);
                    }
                }
                self.subs = subs;
            },
        }
    }
}

} // verus!
