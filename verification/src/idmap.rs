//! Values under identities.
//!
//! A map from identities to values, which holds each identity at most
//! once. To a contract an identity is its bytes.

use crate::assoc::Duplicate;
use crate::identity::Identity;
use vstd::prelude::*;

verus! {

/// The map that a list of entries with different identities stands for.
pub open spec fn map_of<V: View>(entries: Seq<(Identity, V)>) -> Map<Seq<u8>, V::V>
    decreases entries.len(),
{
    if entries.len() == 0 {
        Map::empty()
    } else {
        map_of(entries.drop_last()).insert(entries.last().0@, entries.last().1@)
    }
}

/// No two entries have the same key.
pub open spec fn distinct_keys<V>(entries: Seq<(Identity, V)>) -> bool {
    forall|i: int, j: int|
        #![trigger entries[i], entries[j]]
        0 <= i < j < entries.len() ==> entries[i].0@ != entries[j].0@
}

proof fn lemma_map_of_keys<V: View>(entries: Seq<(Identity, V)>, k: Seq<u8>)
    ensures
        map_of(entries).contains_key(k) <==> exists|i: int|
            0 <= i < entries.len() && (#[trigger] entries[i]).0@ == k,
        map_of(entries).dom().finite(),
    decreases entries.len(),
{
    if entries.len() > 0 {
        let head = entries.drop_last();
        lemma_map_of_keys(head, k);
        if exists|i: int| 0 <= i < head.len() && (#[trigger] head[i]).0@ == k {
            let i = choose|i: int| 0 <= i < head.len() && (#[trigger] head[i]).0@ == k;
            assert(entries[i].0@ == k);
        }
        if exists|i: int| 0 <= i < entries.len() && (#[trigger] entries[i]).0@ == k {
            let i = choose|i: int| 0 <= i < entries.len() && (#[trigger] entries[i]).0@ == k;
            if i < head.len() {
                assert(head[i].0@ == k);
            }
        }
    }
}

proof fn lemma_map_of_at<V: View>(entries: Seq<(Identity, V)>, i: int)
    requires
        distinct_keys(entries),
        0 <= i < entries.len(),
    ensures
        map_of(entries).contains_key(entries[i].0@),
        map_of(entries)[entries[i].0@] == entries[i].1@,
    decreases entries.len(),
{
    let head = entries.drop_last();
    if i < entries.len() - 1 {
        assert(head[i] == entries[i]);
        assert(entries[i].0@ != entries[entries.len() - 1].0@);
        assert forall|x: int, y: int| #![trigger head[x], head[y]] 0 <= x < y < head.len() implies head[x].0@ != head[y].0@ by {
            assert(entries[x].0@ != entries[y].0@);
        }
        lemma_map_of_at(head, i);
    }
}

proof fn lemma_map_of_update<V: View>(entries: Seq<(Identity, V)>, i: int, e: (Identity, V))
    requires
        distinct_keys(entries),
        0 <= i < entries.len(),
        e.0@ == entries[i].0@,
    ensures
        distinct_keys(entries.update(i, e)),
        map_of(entries.update(i, e)) == map_of(entries).insert(e.0@, e.1@),
    decreases entries.len(),
{
    let after = entries.update(i, e);
    assert forall|x: int, y: int| #![trigger after[x], after[y]] 0 <= x < y < after.len() implies after[x].0@ != after[y].0@ by {
        assert(entries[x].0@ != entries[y].0@);
    }
    let head = entries.drop_last();
    if i == entries.len() - 1 {
        assert(after.drop_last() =~= head);
        assert(map_of(after) =~= map_of(entries).insert(e.0@, e.1@));
    } else {
        assert forall|x: int, y: int| #![trigger head[x], head[y]] 0 <= x < y < head.len() implies head[x].0@ != head[y].0@ by {
            assert(entries[x].0@ != entries[y].0@);
        }
        lemma_map_of_update(head, i, e);
        assert(after.drop_last() =~= head.update(i, e));
        assert(entries[i].0@ != entries[entries.len() - 1].0@);
        assert(map_of(after) =~= map_of(entries).insert(e.0@, e.1@));
    }
}

proof fn lemma_map_of_remove<V: View>(entries: Seq<(Identity, V)>, i: int)
    requires
        distinct_keys(entries),
        0 <= i < entries.len(),
    ensures
        distinct_keys(entries.remove(i)),
        map_of(entries.remove(i)) == map_of(entries).remove(entries[i].0@),
    decreases entries.len(),
{
    let after = entries.remove(i);
    assert forall|x: int, y: int| #![trigger after[x], after[y]] 0 <= x < y < after.len() implies after[x].0@ != after[y].0@ by {
        let x0 = if x < i { x } else { x + 1 };
        let y0 = if y < i { y } else { y + 1 };
        assert(after[x] == entries[x0] && after[y] == entries[y0]);
        assert(entries[x0].0@ != entries[y0].0@);
    }
    let head = entries.drop_last();
    let k = entries[i].0@;
    if i == entries.len() - 1 {
        assert(after =~= head);
        lemma_map_of_keys(head, k);
        if map_of(head).contains_key(k) {
            let j = choose|j: int| 0 <= j < head.len() && (#[trigger] head[j]).0@ == k;
            assert(entries[j].0@ != entries[i].0@);
        }
        assert(map_of(after) =~= map_of(entries).remove(k));
    } else {
        assert forall|x: int, y: int| #![trigger head[x], head[y]] 0 <= x < y < head.len() implies head[x].0@ != head[y].0@ by {
            assert(entries[x].0@ != entries[y].0@);
        }
        lemma_map_of_remove(head, i);
        assert(after.drop_last() =~= head.remove(i));
        assert(after.last() == entries.last());
        assert(entries[i].0@ != entries[entries.len() - 1].0@);
        assert(head[i] == entries[i]);
        assert(map_of(after) =~= map_of(entries).remove(k));
    }
}

/// Values under identities, each identity at most once.
#[derive(Debug)]
pub struct IdMap<V: View> {
    entries: Vec<(Identity, V)>,
}

impl<V: View> View for IdMap<V> {
    type V = Map<Seq<u8>, V::V>;

    closed spec fn view(&self) -> Map<Seq<u8>, V::V> {
        map_of(self.entries@)
    }
}

impl<V: View> IdMap<V> {
    /// No identity stands twice.
    #[verifier::type_invariant]
    pub closed spec fn well_formed(&self) -> bool {
        distinct_keys(self.entries@)
    }

    /// The identities in the order in which the map holds them.
    pub closed spec fn keys(&self) -> Seq<Seq<u8>> {
        self.entries@.map_values(|e: (Identity, V)| e.0@)
    }

    /// The map holds exactly the identities of `keys`, each once.
    pub proof fn lemma_keys(&self)
        requires
            self.well_formed(),
        ensures
            self.keys().no_duplicates(),
            self.keys().to_set() == self@.dom(),
            self@.dom().finite(),
            self@.dom().len() == self.keys().len(),
    {
        let keys = self.keys();
        assert forall|i: int, j: int| 0 <= i < keys.len() && 0 <= j < keys.len() && i != j implies keys[i]
            != keys[j] by {
            if i < j {
                assert(self.entries@[i].0@ != self.entries@[j].0@);
            } else {
                assert(self.entries@[j].0@ != self.entries@[i].0@);
            }
        }
        assert forall|k: Seq<u8>| keys.to_set().contains(k) <==> self@.dom().contains(k) by {
            lemma_map_of_keys(self.entries@, k);
            if keys.contains(k) {
                let i = choose|i: int| 0 <= i < keys.len() && keys[i] == k;
                assert(self.entries@[i].0@ == k);
            }
            if exists|i: int| 0 <= i < self.entries@.len() && (#[trigger] self.entries@[i]).0@ == k {
                let i = choose|i: int|
                    0 <= i < self.entries@.len() && (#[trigger] self.entries@[i]).0@ == k;
                assert(keys[i] == k);
            }
        }
        assert(keys.to_set() =~= self@.dom());
        lemma_map_of_len(self.entries@);
    }

    /// No keys.
    pub fn new() -> (r: Self)
        ensures
            r@ == Map::<Seq<u8>, V::V>::empty(),
            r.keys() == Seq::<Seq<u8>>::empty(),
    {
        IdMap { entries: Vec::new() }
    }

    fn find(&self, key: &Identity) -> (r: Option<usize>)
        ensures
            match r {
                Some(i) => i < self.entries.len() && self.entries[i as int].0@ == key@
                    && self@.contains_key(key@) && self@[key@] == self.entries[i as int].1@,
                None => !self@.contains_key(key@),
            },
    {
        proof {
            use_type_invariant(self);
            lemma_map_of_keys(self.entries@, key@);
        }
        let mut i: usize = 0;
        while i < self.entries.len()
            invariant
                i <= self.entries.len(),
                distinct_keys(self.entries@),
                forall|j: int| 0 <= j < i ==> (#[trigger] self.entries@[j]).0@ != key@,
            decreases self.entries.len() - i,
        {
            if self.entries[i].0 == *key {
                proof {
                    lemma_map_of_at(self.entries@, i as int);
                }
                return Some(i);
            }
            i += 1;
        }
        None
    }

    /// The value under `key`.
    pub fn get(&self, key: &Identity) -> (r: Option<&V>)
        ensures
            match r {
                Some(v) => self@.contains_key(key@) && self@[key@] == v@,
                None => !self@.contains_key(key@),
            },
    {
        match self.find(key) {
            Some(i) => Some(&self.entries[i].1),
            None => None,
        }
    }

    /// Whether there is a value under `key`.
    pub fn contains_key(&self, key: &Identity) -> (r: bool)
        ensures
            r == self@.contains_key(key@),
    {
        self.find(key).is_some()
    }

    /// How many keys there are.
    pub fn len(&self) -> (r: usize)
        ensures
            self@.dom().finite(),
            r == self@.dom().len(),
            r == self.keys().len(),
            self.well_formed(),
    {
        proof {
            use_type_invariant(self);
            lemma_map_of_len(self.entries@);
        }
        self.entries.len()
    }

    /// The key and the value at place `i` of the `len()` entries.
    pub fn entry(&self, i: usize) -> (r: (&Identity, &V))
        requires
            i < self.keys().len(),
        ensures
            r.0@ == self.keys()[i as int],
            self@.contains_key(r.0@),
            self@[r.0@] == r.1@,
    {
        proof {
            use_type_invariant(self);
            lemma_map_of_len(self.entries@);
            lemma_map_of_at(self.entries@, i as int);
        }
        (&self.entries[i].0, &self.entries[i].1)
    }

    /// Puts `value` under `key`, in place of what stood there.
    pub fn set(&mut self, key: Identity, value: V)
        ensures
            final(self)@ == old(self)@.insert(key@, value@),
    {
        proof {
            use_type_invariant(&*self);
        }
        let at = self.find(&key);
        let mut entries: Vec<(Identity, V)> = Vec::new();
        match at {
            None => {
                proof {
                    lemma_map_of_keys(self.entries@, key@);
                    let after = self.entries@.push((key, value));
                    assert(after.drop_last() =~= self.entries@);
                    assert forall|x: int, y: int|
                        #![trigger after[x], after[y]]
                        0 <= x < y < after.len() implies after[x].0@ != after[y].0@ by {
                        if y < self.entries@.len() {
                            assert(self.entries@[x].0@ != self.entries@[y].0@);
                        } else {
                            assert(self.entries@[x].0@ != key@);
                        }
                    }
                }
                std::mem::swap(&mut self.entries, &mut entries);
                entries.push((key, value));
                self.entries = entries;
            },
            Some(i) => {
                proof {
                    lemma_map_of_update(self.entries@, i as int, (key, value));
                }
                std::mem::swap(&mut self.entries, &mut entries);
                entries.set(i, (key, value));
                self.entries = entries;
            },
        }
    }

    /// Takes `key` out, and hands back what stood under it.
    pub fn remove(&mut self, key: &Identity) -> (r: Option<V>)
        ensures
            match r {
                Some(v) => old(self)@.contains_key(key@) && old(self)@[key@] == v@,
                None => !old(self)@.contains_key(key@),
            },
            final(self)@ == old(self)@.remove(key@),
    {
        proof {
            use_type_invariant(&*self);
        }
        match self.find(key) {
            None => {
                assert(self@.remove(key@) =~= self@);
                None
            },
            Some(i) => {
                proof {
                    lemma_map_of_remove(self.entries@, i as int);
                }
                let mut entries: Vec<(Identity, V)> = Vec::new();
                std::mem::swap(&mut self.entries, &mut entries);
                let gone = entries.remove(i);
                self.entries = entries;
                Some(gone.1)
            },
        }
    }
}

impl<V: Duplicate> IdMap<V> {
    /// A copy of the keys and values.
    pub fn duplicate(&self) -> (r: Self)
        ensures
            r@ == self@,
    {
        proof {
            use_type_invariant(self);
        }
        let mut entries: Vec<(Identity, V)> = Vec::new();
        let mut i: usize = 0;
        while i < self.entries.len()
            invariant
                i <= self.entries.len(),
                entries.len() == i,
                distinct_keys(self.entries@),
                forall|j: int|
                    0 <= j < i ==> (#[trigger] entries@[j]).0@ == self.entries@[j].0@
                        && entries@[j].1@ == self.entries@[j].1@,
            decreases self.entries.len() - i,
        {
            entries.push((self.entries[i].0, self.entries[i].1.duplicate()));
            i += 1;
        }
        proof {
            lemma_same_map(entries@, self.entries@);
        }
        IdMap { entries }
    }
}

proof fn lemma_map_of_len<V: View>(entries: Seq<(Identity, V)>)
    requires
        distinct_keys(entries),
    ensures
        map_of(entries).dom().finite(),
        map_of(entries).dom().len() == entries.len(),
    decreases entries.len(),
{
    if entries.len() > 0 {
        let head = entries.drop_last();
        assert forall|x: int, y: int| #![trigger head[x], head[y]] 0 <= x < y < head.len() implies head[x].0@ != head[y].0@ by {
            assert(entries[x].0@ != entries[y].0@);
        }
        lemma_map_of_len(head);
        let k = entries.last().0@;
        lemma_map_of_keys(head, k);
        if map_of(head).contains_key(k) {
            let j = choose|j: int| 0 <= j < head.len() && (#[trigger] head[j]).0@ == k;
            assert(entries[j].0@ != entries[entries.len() - 1].0@);
        }
        assert(map_of(entries).dom() =~= map_of(head).dom().insert(k));
    } else {
        assert(map_of(entries).dom() =~= Set::<Seq<u8>>::empty());
    }
}

proof fn lemma_same_map<V: View>(a: Seq<(Identity, V)>, b: Seq<(Identity, V)>)
    requires
        a.len() == b.len(),
        distinct_keys(b),
        forall|j: int| 0 <= j < a.len() ==> (#[trigger] a[j]).0@ == b[j].0@ && a[j].1@ == b[j].1@,
    ensures
        distinct_keys(a),
        map_of(a) == map_of(b),
    decreases a.len(),
{
    assert forall|x: int, y: int| #![trigger a[x], a[y]] 0 <= x < y < a.len() implies a[x].0@ != a[y].0@ by {
        assert(b[x].0@ != b[y].0@);
    }
    if a.len() > 0 {
        let ha = a.drop_last();
        let hb = b.drop_last();
        assert forall|x: int, y: int| #![trigger hb[x], hb[y]] 0 <= x < y < hb.len() implies hb[x].0@ != hb[y].0@ by {
            assert(b[x].0@ != b[y].0@);
        }
        assert forall|j: int| 0 <= j < ha.len() implies (#[trigger] ha[j]).0@ == hb[j].0@ && ha[j].1@ == hb[j].1@ by {
            assert(a[j].0@ == b[j].0@);
        }
        lemma_same_map(ha, hb);
        assert(a.last().0@ == b.last().0@ && a.last().1@ == b.last().1@) by {
            assert(a[a.len() - 1].0@ == b[a.len() - 1].0@);
        }
    }
}

/// Those of `keys` that `keep` holds of, in their order.
pub open spec fn chosen(keys: Seq<Seq<u8>>, keep: spec_fn(Seq<u8>) -> bool) -> Seq<Seq<u8>>
    decreases keys.len(),
{
    if keys.len() == 0 {
        Seq::empty()
    } else if keep(keys.last()) {
        chosen(keys.drop_last(), keep).push(keys.last())
    } else {
        chosen(keys.drop_last(), keep)
    }
}

/// Choosing from keys without a double gives keys without a double:
/// exactly those of which `keep` holds.
pub proof fn lemma_chosen(keys: Seq<Seq<u8>>, keep: spec_fn(Seq<u8>) -> bool)
    requires
        keys.no_duplicates(),
    ensures
        chosen(keys, keep).no_duplicates(),
        forall|k: Seq<u8>| #[trigger]
            chosen(keys, keep).contains(k) <==> keys.contains(k) && keep(k),
    decreases keys.len(),
{
    if keys.len() > 0 {
        let head = keys.drop_last();
        let last = keys.last();
        lemma_chosen(head, keep);
        let c = chosen(keys, keep);
        let ch = chosen(head, keep);
        assert forall|k: Seq<u8>| #[trigger] c.contains(k) <==> keys.contains(k) && keep(k) by {
            if c.contains(k) {
                let i = choose|i: int| 0 <= i < c.len() && c[i] == k;
                if keep(last) && i == c.len() - 1 {
                    assert(keys[keys.len() - 1] == k);
                } else {
                    assert(ch[i] == k);
                    assert(ch.contains(k));
                    let j = choose|j: int| 0 <= j < head.len() && head[j] == k;
                    assert(keys[j] == k);
                }
            }
            if keys.contains(k) && keep(k) {
                let j = choose|j: int| 0 <= j < keys.len() && keys[j] == k;
                if j < head.len() {
                    assert(head[j] == k);
                    assert(head.contains(k));
                    assert(ch.contains(k));
                    let i = choose|i: int| 0 <= i < ch.len() && ch[i] == k;
                    assert(c[i] == k);
                } else {
                    assert(c[c.len() - 1] == k);
                }
            }
        }
        if keep(last) {
            assert forall|i: int, j: int| 0 <= i < c.len() && 0 <= j < c.len() && i != j implies c[i]
                != c[j] by {
                if i < ch.len() && j < ch.len() {
                    assert(ch[i] != ch[j]);
                } else {
                    let x = if i < ch.len() { i } else { j };
                    assert(ch[x] == c[x]);
                    assert(ch.contains(ch[x]));
                    assert(head.contains(ch[x]));
                    let y = choose|y: int| 0 <= y < head.len() && head[y] == ch[x];
                    assert(keys[y] != keys[keys.len() - 1]);
                }
            }
        }
    }
}

impl<V: View> IdMap<V> {
    /// The identities of the map, in the order in which it holds them.
    pub fn ids(&self) -> (r: Vec<Identity>)
        ensures
            r@.map_values(|i: Identity| i@) == self.keys(),
            self.well_formed(),
    {
        proof {
            use_type_invariant(self);
        }
        let mut out: Vec<Identity> = Vec::new();
        let mut i: usize = 0;
        while i < self.entries.len()
            invariant
                i <= self.entries.len(),
                out@.map_values(|i: Identity| i@) == self.keys().take(i as int),
            decreases self.entries.len() - i,
        {
            out.push(self.entries[i].0);
            assert(out@.map_values(|i: Identity| i@) =~= self.keys().take(i as int).push(
                self.keys()[i as int],
            ));
            assert(self.keys().take(i + 1) =~= self.keys().take(i as int).push(
                self.keys()[i as int],
            ));
            i += 1;
        }
        assert(self.keys().take(i as int) =~= self.keys());
        out
    }
}

} // verus!
