//! Tags: searchable metadata on records.
//!
//! A record's body cannot be searched, so every record carries tags, and
//! queries are made over those. A tag is a key with a binary value; a tag
//! set holds each tag at most once and keeps its tags in order.

use crate::order::{bytes_lt, lemma_lex_asymmetric, lemma_lex_total, lemma_lex_transitive, lex_lt};
use vstd::prelude::*;
use vstd::std_specs::cmp::PartialEqSpec;
use crate::text::lemma_utf8_injective;
use vstd::utf8::encode_utf8;

verus! {

/// A generic metadata tag.
#[derive(Debug, Hash, Eq, PartialOrd, Ord)]
pub struct Tag {
    /// A string key for a tag
    pub key: String,
    /// Some binary data that is up to a service to interpret
    pub val: Vec<u8>,
}

/// What a tag is to a contract: its key as characters and its value as
/// bytes.
pub struct TagView {
    pub key: Seq<char>,
    pub val: Seq<u8>,
}

impl View for Tag {
    type V = TagView;

    open spec fn view(&self) -> TagView {
        TagView { key: self.key@, val: self.val@ }
    }
}

/// Tags are ordered by key, then by value, each as a byte string (a key
/// by its UTF-8 encoding).
pub open spec fn tag_lt(x: TagView, y: TagView) -> bool {
    lex_lt(encode_utf8(x.key), encode_utf8(y.key)) || (x.key == y.key && lex_lt(x.val, y.val))
}

/// Of two tags at most one comes before the other, and none before itself.
pub proof fn lemma_tag_lt_asymmetric(x: TagView, y: TagView)
    requires
        tag_lt(x, y),
    ensures
        !tag_lt(y, x),
        x != y,
{
    if lex_lt(encode_utf8(x.key), encode_utf8(y.key)) {
        lemma_lex_asymmetric(encode_utf8(x.key), encode_utf8(y.key));
    } else {
        lemma_lex_asymmetric(x.val, y.val);
        if lex_lt(encode_utf8(y.key), encode_utf8(x.key)) {
            lemma_lex_asymmetric(encode_utf8(y.key), encode_utf8(x.key));
        }
    }
}

/// The order on tags is transitive.
pub proof fn lemma_tag_lt_transitive(x: TagView, y: TagView, z: TagView)
    requires
        tag_lt(x, y),
        tag_lt(y, z),
    ensures
        tag_lt(x, z),
{
    let (kx, ky, kz) = (encode_utf8(x.key), encode_utf8(y.key), encode_utf8(z.key));
    if lex_lt(kx, ky) && lex_lt(ky, kz) {
        lemma_lex_transitive(kx, ky, kz);
    } else if !lex_lt(kx, ky) && !lex_lt(ky, kz) {
        lemma_lex_transitive(x.val, y.val, z.val);
    }
}

/// Two different tags are ordered one way or the other.
pub proof fn lemma_tag_lt_total(x: TagView, y: TagView)
    ensures
        x == y || tag_lt(x, y) || tag_lt(y, x),
{
    lemma_lex_total(encode_utf8(x.key), encode_utf8(y.key));
    if encode_utf8(x.key) == encode_utf8(y.key) {
        lemma_utf8_injective(x.key, y.key);
        lemma_lex_total(x.val, y.val);
    }
}

impl Clone for Tag {
    fn clone(&self) -> (r: Self)
        ensures
            r@ == self@,
    {
        let r = Tag { key: self.key.clone(), val: self.val.clone() };
        assert(r.val@ =~= self.val@);
        r
    }
}

impl PartialEq for Tag {
    fn eq(&self, other: &Self) -> (r: bool) {
        let r = self.key == other.key && self.val == other.val;
        proof {
            assert((self.val@ == other.val@) <==> self.val.eq_spec(&other.val)) by {
                if self.val.eq_spec(&other.val) {
                    assert(self.val@ =~= other.val@);
                }
            }
        }
        r
    }
}

impl vstd::std_specs::cmp::PartialEqSpecImpl for Tag {
    open spec fn obeys_eq_spec() -> bool {
        true
    }

    open spec fn eq_spec(&self, other: &Self) -> bool {
        self@ == other@
    }
}

impl Tag {
    /// Create a new tag with key and value
    pub fn new(key: &str, val: Vec<u8>) -> (r: Self)
        ensures
            r@ == (TagView { key: key@, val: val@ }),
    {
        Tag { key: key.to_owned(), val }
    }

    /// Create a tag that consists of only a key, with no value
    pub fn empty(key: &str) -> (r: Self)
        ensures
            r@ == (TagView { key: key@, val: Seq::<u8>::empty() }),
    {
        Tag::new(key, Vec::new())
    }

    /// Whether this tag comes strictly before `other` in the order of
    /// tags.
    pub fn precedes(&self, other: &Tag) -> (r: bool)
        ensures
            r == tag_lt(self@, other@),
    {
        let ka = self.key.as_str().as_bytes();
        let kb = other.key.as_str().as_bytes();
        if bytes_lt(ka, kb) {
            true
        } else if bytes_lt(kb, ka) {
            proof {
                lemma_lex_asymmetric(kb@, ka@);
            }
            false
        } else {
            proof {
                lemma_lex_total(ka@, kb@);
                lemma_utf8_injective(self.key@, other.key@);
            }
            bytes_lt(self.val.as_slice(), other.val.as_slice())
        }
    }
}

/// The tags of `s` as contracts see them, in the same order.
pub open spec fn views(s: Seq<Tag>) -> Seq<TagView> {
    s.map_values(|t: Tag| t@)
}

/// Every tag of `s` comes strictly before each one after it.
pub open spec fn ascending(s: Seq<Tag>) -> bool {
    forall|i: int, j: int| 0 <= i < j < s.len() ==> tag_lt(#[trigger] s[i]@, #[trigger] s[j]@)
}

proof fn lemma_views_contains(s: Seq<Tag>, x: TagView)
    ensures
        views(s).to_set().contains(x) <==> exists|i: int| 0 <= i < s.len() && #[trigger] s[i]@ == x,
{
    if views(s).to_set().contains(x) {
        let i = choose|i: int| 0 <= i < views(s).len() && views(s)[i] == x;
        assert(s[i]@ == x);
    }
    if exists|i: int| 0 <= i < s.len() && #[trigger] s[i]@ == x {
        let i = choose|i: int| 0 <= i < s.len() && #[trigger] s[i]@ == x;
        assert(views(s)[i] == x);
    }
}

proof fn lemma_ascending_distinct(s: Seq<Tag>)
    requires
        ascending(s),
    ensures
        views(s).no_duplicates(),
        views(s).to_set().finite(),
        views(s).to_set().len() == s.len(),
{
    assert forall|i: int, j: int| 0 <= i < views(s).len() && 0 <= j < views(s).len() && i != j implies views(s)[i] != views(s)[j] by {
        if i < j {
            lemma_tag_lt_asymmetric(s[i]@, s[j]@);
        } else {
            lemma_tag_lt_asymmetric(s[j]@, s[i]@);
        }
    }
    views(s).unique_seq_to_set();
}

proof fn lemma_insert_at(s: Seq<Tag>, p: int, t: Tag)
    requires
        ascending(s),
        0 <= p <= s.len(),
        forall|j: int| 0 <= j < p ==> tag_lt(#[trigger] s[j]@, t@),
        forall|j: int| p <= j < s.len() ==> tag_lt(t@, #[trigger] s[j]@),
    ensures
        ascending(s.insert(p, t)),
        views(s.insert(p, t)).to_set() == views(s).to_set().insert(t@),
{
    let n = s.insert(p, t);
    assert forall|i: int, j: int| 0 <= i < j < n.len() implies tag_lt(#[trigger] n[i]@, #[trigger] n[j]@) by {
        if j < p {
            assert(n[i] == s[i] && n[j] == s[j]);
        } else if j == p {
            assert(n[i] == s[i]);
        } else if i < p {
            assert(n[i] == s[i] && n[j] == s[j - 1]);
            lemma_tag_lt_transitive(s[i]@, t@, s[j - 1]@);
        } else if i == p {
            assert(n[j] == s[j - 1]);
        } else {
            assert(n[i] == s[i - 1] && n[j] == s[j - 1]);
        }
    }
    assert forall|x: TagView| views(n).to_set().contains(x) <==> views(s).to_set().insert(t@).contains(x) by {
        lemma_views_contains(n, x);
        lemma_views_contains(s, x);
        if exists|i: int| 0 <= i < n.len() && #[trigger] n[i]@ == x {
            let i = choose|i: int| 0 <= i < n.len() && #[trigger] n[i]@ == x;
            if i < p {
                assert(s[i]@ == x);
            } else if i > p {
                assert(s[i - 1]@ == x);
            }
        }
        if exists|i: int| 0 <= i < s.len() && #[trigger] s[i]@ == x {
            let i = choose|i: int| 0 <= i < s.len() && #[trigger] s[i]@ == x;
            if i < p {
                assert(n[i]@ == x);
            } else {
                assert(n[i + 1]@ == x);
            }
        }
        if x == t@ {
            assert(n[p]@ == x);
        }
    }
    assert(views(n).to_set() =~= views(s).to_set().insert(t@));
}

proof fn lemma_remove_at(s: Seq<Tag>, p: int)
    requires
        ascending(s),
        0 <= p < s.len(),
    ensures
        ascending(s.remove(p)),
        views(s.remove(p)).to_set() == views(s).to_set().remove(s[p]@),
{
    let n = s.remove(p);
    assert forall|i: int, j: int| 0 <= i < j < n.len() implies tag_lt(#[trigger] n[i]@, #[trigger] n[j]@) by {
        let i0 = if i < p { i } else { i + 1 };
        let j0 = if j < p { j } else { j + 1 };
        assert(n[i] == s[i0] && n[j] == s[j0]);
    }
    assert forall|x: TagView| views(n).to_set().contains(x) <==> views(s).to_set().remove(s[p]@).contains(x) by {
        lemma_views_contains(n, x);
        lemma_views_contains(s, x);
        if exists|i: int| 0 <= i < n.len() && #[trigger] n[i]@ == x {
            let i = choose|i: int| 0 <= i < n.len() && #[trigger] n[i]@ == x;
            let i0 = if i < p { i } else { i + 1 };
            assert(s[i0]@ == x);
            if i0 < p {
                lemma_tag_lt_asymmetric(s[i0]@, s[p]@);
            } else {
                lemma_tag_lt_asymmetric(s[p]@, s[i0]@);
            }
        }
        if x != s[p]@ && exists|i: int| 0 <= i < s.len() && #[trigger] s[i]@ == x {
            let i = choose|i: int| 0 <= i < s.len() && #[trigger] s[i]@ == x;
            if i < p {
                assert(n[i]@ == x);
            } else {
                assert(n[i - 1]@ == x);
            }
        }
    }
    assert(views(n).to_set() =~= views(s).to_set().remove(s[p]@));
}

/// A set of tags where every tag is unique.
///
/// The tags are kept in ascending order, so two sets with the same tags
/// hold them in the same sequence.
#[derive(Debug, Eq, Hash)]
pub struct TagSet {
    tags: Vec<Tag>,
}

impl View for TagSet {
    type V = Set<TagView>;

    closed spec fn view(&self) -> Set<TagView> {
        views(self.tags@).to_set()
    }
}

impl TagSet {
    #[verifier::type_invariant]
    spec fn well_formed(&self) -> bool {
        ascending(self.tags@)
    }

    /// The tags of the set in ascending order.
    pub closed spec fn ordered(&self) -> Seq<Tag> {
        self.tags@
    }

    /// The ordered tags are exactly the members, each once, smallest
    /// first.
    pub proof fn lemma_ordered(&self)
        requires
            ascending(self.ordered()),
        ensures
            self@ == views(self.ordered()).to_set(),
            self@.finite(),
            self@.len() == self.ordered().len(),
            views(self.ordered()).no_duplicates(),
    {
        lemma_ascending_distinct(self.tags@);
    }

    /// Where `t` stands in the set, or where it would have to go.
    fn position(&self, t: &Tag) -> (r: (usize, bool))
        ensures
            r.0 <= self.tags.len(),
            forall|j: int| 0 <= j < r.0 ==> tag_lt(#[trigger] self.tags[j]@, t@),
            forall|j: int| r.0 < j < self.tags.len() ==> tag_lt(t@, #[trigger] self.tags[j]@),
            r.1 ==> r.0 < self.tags.len() && self.tags[r.0 as int]@ == t@,
            !r.1 ==> (r.0 < self.tags.len() ==> tag_lt(t@, self.tags[r.0 as int]@)),
            r.1 == self@.contains(t@),
    {
        proof {
            use_type_invariant(self);
            lemma_views_contains(self.tags@, t@);
        }
        let mut lo: usize = 0;
        let mut hi: usize = self.tags.len();
        while lo < hi
            invariant
                lo <= hi <= self.tags.len(),
                ascending(self.tags@),
                forall|j: int| 0 <= j < lo ==> tag_lt(#[trigger] self.tags[j]@, t@),
                forall|j: int| hi <= j < self.tags.len() ==> tag_lt(t@, #[trigger] self.tags[j]@),
            decreases hi - lo,
        {
            let mid: usize = lo + (hi - lo) / 2;
            if self.tags[mid].precedes(t) {
                proof {
                    assert forall|j: int| 0 <= j < mid + 1 implies tag_lt(#[trigger] self.tags[j]@, t@) by {
                        if j < mid {
                            lemma_tag_lt_transitive(self.tags[j]@, self.tags[mid as int]@, t@);
                        }
                    }
                }
                lo = mid + 1;
            } else if t.precedes(&self.tags[mid]) {
                proof {
                    assert forall|j: int| mid <= j < self.tags.len() implies tag_lt(t@, #[trigger] self.tags[j]@) by {
                        if mid < j {
                            lemma_tag_lt_transitive(t@, self.tags[mid as int]@, self.tags[j]@);
                        }
                    }
                }
                hi = mid;
            } else {
                proof {
                    lemma_tag_lt_total(self.tags[mid as int]@, t@);
                    lemma_views_contains(self.tags@, t@);
                }
                return (mid, true);
            }
        }
        proof {
            assert forall|j: int| 0 <= j < self.tags.len() implies #[trigger] self.tags[j]@ != t@ by {
                if j < lo {
                    lemma_tag_lt_asymmetric(self.tags[j]@, t@);
                } else {
                    lemma_tag_lt_asymmetric(t@, self.tags[j]@);
                }
            }
        }
        (lo, false)
    }

    /// A set without tags.
    pub fn empty() -> (r: Self)
        ensures
            r@ == Set::<TagView>::empty(),
            r.ordered().len() == 0,
    {
        let r = TagSet { tags: Vec::new() };
        assert(r@ =~= Set::<TagView>::empty());
        r
    }

    /// Adds `t` to the set; a tag that is already there stays as it is.
    pub fn insert(&mut self, t: Tag)
        ensures
            final(self)@ == old(self)@.insert(t@),
    {
        proof {
            use_type_invariant(&*self);
        }
        let (p, found) = self.position(&t);
        if found {
            assert(self@.insert(t@) =~= self@);
        } else {
            proof {
                lemma_insert_at(self.tags@, p as int, t);
            }
            let mut tags: Vec<Tag> = Vec::new();
            std::mem::swap(&mut self.tags, &mut tags);
            tags.insert(p, t);
            self.tags = tags;
        }
    }

    /// Merge this and another tagset together into one
    pub fn merge(self, tags: TagSet) -> (r: Self)
        ensures
            r@ == self@.union(tags@),
    {
        self.merge_vec(tags.tags)
    }

    /// Takes `t` out of the set, if it is there.
    pub fn remove(&mut self, t: &Tag)
        ensures
            final(self)@ == old(self)@.remove(t@),
    {
        proof {
            use_type_invariant(&*self);
        }
        let (p, found) = self.position(t);
        if found {
            proof {
                lemma_remove_at(self.tags@, p as int);
            }
            let mut tags: Vec<Tag> = Vec::new();
            std::mem::swap(&mut self.tags, &mut tags);
            let _ = tags.remove(p);
            self.tags = tags;
        } else {
            assert(self@.remove(t@) =~= self@);
        }
    }

    /// Whether `t` is in the set.
    pub fn contains(&self, t: &Tag) -> (r: bool)
        ensures
            r == self@.contains(t@),
    {
        let (_, found) = self.position(t);
        found
    }

    /// The number of tags in the set.
    pub fn len(&self) -> (r: usize)
        ensures
            self@.finite(),
            r == self@.len(),
    {
        proof {
            use_type_invariant(self);
            lemma_ascending_distinct(self.tags@);
        }
        self.tags.len()
    }

    /// The place of the first tag of `o` that is in `self` (`want`) or
    /// that is not (`!want`): the loop that the predicates below share.
    fn first_split(&self, o: &TagSet, want: bool) -> (r: Option<usize>)
        ensures
            match r {
                Some(i) => i < o.tags.len() && self@.contains(o.tags[i as int]@) == want,
                None => forall|j: int| 0 <= j < o.tags.len() ==> self@.contains(#[trigger] o.tags[j]@) != want,
            },
    {
        let mut i: usize = 0;
        while i < o.tags.len()
            invariant
                i <= o.tags.len(),
                forall|j: int| 0 <= j < i ==> self@.contains(#[trigger] o.tags[j]@) != want,
            decreases o.tags.len() - i,
        {
            if self.contains(&o.tags[i]) == want {
                return Some(i);
            }
            i += 1;
        }
        None
    }

    /// Any overlap between `self` and `o`
    pub fn intersect(&self, o: &TagSet) -> (r: bool)
        ensures
            r == exists|t: TagView| self@.contains(t) && o@.contains(t),
            r == !(self@.intersect(o@) == Set::<TagView>::empty()),
    {
        let hit = self.first_split(o, true);
        proof {
            match hit {
                Some(i) => {
                    lemma_views_contains(o.tags@, o.tags[i as int]@);
                    assert(self@.intersect(o@).contains(o.tags[i as int]@));
                },
                None => {
                    assert forall|t: TagView| !(self@.contains(t) && o@.contains(t)) by {
                        lemma_views_contains(o.tags@, t);
                    }
                    assert(self@.intersect(o@) =~= Set::<TagView>::empty());
                },
            }
        }
        hit.is_some()
    }

    /// A subset where `o` needs to be contained entirely in `self`
    pub fn subset(&self, o: &TagSet) -> (r: bool)
        ensures
            r == o@.subset_of(self@),
    {
        let miss = self.first_split(o, false);
        proof {
            match miss {
                Some(i) => {
                    lemma_views_contains(o.tags@, o.tags[i as int]@);
                },
                None => {
                    assert forall|t: TagView| o@.contains(t) implies self@.contains(t) by {
                        lemma_views_contains(o.tags@, t);
                    }
                },
            }
        }
        miss.is_none()
    }

    /// An equality set where `o` and `self` are the same
    pub fn equality(&self, o: &TagSet) -> (r: bool)
        ensures
            r == (self@ == o@),
    {
        let r = self.subset(o) && o.subset(self);
        proof {
            if r {
                assert(self@ =~= o@);
            }
        }
        r
    }

    /// No overlay between `self` and `o`
    pub fn not(&self, o: &TagSet) -> (r: bool)
        ensures
            r == self@.disjoint(o@),
            r == (self@.intersect(o@) == Set::<TagView>::empty()),
    {
        let r = !self.intersect(o);
        proof {
            if r {
                assert(self@.intersect(o@) =~= Set::<TagView>::empty());
            } else {
                let t = choose|t: TagView| self@.contains(t) && o@.contains(t);
                assert(self@.intersect(o@).contains(t));
            }
        }
        r
    }

    /// Return an iterator over the inner collection
    pub fn iter(&self) -> (it: std::slice::Iter<'_, Tag>)
        ensures
            vstd::std_specs::slice::into_iter_elts(it) == self.ordered(),
            ascending(self.ordered()),
    {
        proof {
            use_type_invariant(self);
        }
        let all = self.tags.as_slice();
        let it = all.iter();
        proof {
            vstd::std_specs::slice::axiom_spec_slice_iter(all);
        }
        it
    }
}

impl TagSet {
    /// The set of the tags in `vec`; a tag that stands there more than
    /// once is taken once.
    pub fn from_vec(vec: Vec<Tag>) -> (r: Self)
        ensures
            r@ == views(vec@).to_set(),
    {
        TagSet::empty().merge_vec(vec)
    }

    /// Adds every tag of `vec` to the set.
    fn merge_vec(self, vec: Vec<Tag>) -> (r: Self)
        ensures
            r@ == self@.union(views(vec@).to_set()),
    {
        let ghost target = self@.union(views(vec@).to_set());
        let mut acc = self;
        let mut rest = vec;
        while rest.len() > 0
            invariant
                acc@.union(views(rest@).to_set()) == target,
            decreases rest.len(),
        {
            let ghost before = rest@;
            let ghost acc_before = acc@;
            let t = rest.pop().unwrap();
            acc.insert(t);
            proof {
                assert forall|x: TagView|
                    acc_before.union(views(before).to_set()).contains(x) <==> acc@.union(
                        views(rest@).to_set(),
                    ).contains(x) by {
                    lemma_views_contains(before, x);
                    lemma_views_contains(rest@, x);
                    if exists|i: int| 0 <= i < before.len() && #[trigger] before[i]@ == x {
                        let i = choose|i: int| 0 <= i < before.len() && #[trigger] before[i]@ == x;
                        if i < rest@.len() {
                            assert(rest@[i]@ == x);
                        }
                    }
                    if exists|i: int| 0 <= i < rest@.len() && #[trigger] rest@[i]@ == x {
                        let i = choose|i: int| 0 <= i < rest@.len() && #[trigger] rest@[i]@ == x;
                        assert(before[i]@ == x);
                    }
                    if x == t@ {
                        assert(before[before.len() - 1]@ == x);
                    }
                }
                assert(acc@.union(views(rest@).to_set()) =~= acc_before.union(
                    views(before).to_set(),
                ));
            }
        }
        proof {
            assert(views(rest@).to_set() =~= Set::<TagView>::empty());
            assert(acc@.union(Set::<TagView>::empty()) =~= acc@);
        }
        acc
    }

    /// The tags of the set, smallest first.
    pub fn to_vec(&self) -> (r: Vec<Tag>)
        ensures
            views(r@) == views(self.ordered()),
            ascending(r@),
            self@ == views(r@).to_set(),
    {
        proof {
            use_type_invariant(self);
        }
        let mut tags: Vec<Tag> = Vec::new();
        let mut i: usize = 0;
        while i < self.tags.len()
            invariant
                i <= self.tags.len(),
                tags.len() == i,
                forall|j: int| 0 <= j < i ==> (#[trigger] tags[j])@ == self.tags[j]@,
            decreases self.tags.len() - i,
        {
            tags.push(self.tags[i].clone());
            i += 1;
        }
        proof {
            assert(views(tags@) =~= views(self.tags@));
            assert forall|i: int, j: int| 0 <= i < j < tags.len() implies tag_lt(
                #[trigger] tags@[i]@,
                #[trigger] tags@[j]@,
            ) by {
                assert(tag_lt(self.tags[i]@, self.tags[j]@));
            }
        }
        tags
    }
}

impl Clone for TagSet {
    fn clone(&self) -> (r: Self)
        ensures
            r@ == self@,
            views(r.ordered()) == views(self.ordered()),
    {
        TagSet { tags: self.to_vec() }
    }
}

impl Default for TagSet {
    fn default() -> (r: Self)
        ensures
            r@ == Set::<TagView>::empty(),
    {
        TagSet::empty()
    }
}

impl PartialEq for TagSet {
    fn eq(&self, other: &Self) -> (r: bool) {
        self.equality(other)
    }
}

impl vstd::std_specs::cmp::PartialEqSpecImpl for TagSet {
    open spec fn obeys_eq_spec() -> bool {
        true
    }

    open spec fn eq_spec(&self, other: &Self) -> bool {
        self@ == other@
    }
}

impl From<Vec<Tag>> for TagSet {
    fn from(vec: Vec<Tag>) -> (r: Self)
        ensures
            r@ == views(vec@).to_set(),
    {
        TagSet::from_vec(vec)
    }
}

impl vstd::std_specs::convert::FromSpecImpl<Vec<Tag>> for TagSet {
    open spec fn obeys_from_spec() -> bool {
        false
    }

    open spec fn from_spec(v: Vec<Tag>) -> Self {
        arbitrary()
    }
}

impl From<Tag> for TagSet {
    fn from(t: Tag) -> (r: Self)
        ensures
            r@ == Set::<TagView>::empty().insert(t@),
    {
        let mut r = TagSet::empty();
        r.insert(t);
        r
    }
}

impl vstd::std_specs::convert::FromSpecImpl<Tag> for TagSet {
    open spec fn obeys_from_spec() -> bool {
        false
    }

    open spec fn from_spec(v: Tag) -> Self {
        arbitrary()
    }
}

impl<'tag> From<&'tag Tag> for TagSet {
    fn from(t: &'tag Tag) -> (r: Self)
        ensures
            r@ == Set::<TagView>::empty().insert(t@),
    {
        let mut r = TagSet::empty();
        r.insert(t.clone());
        r
    }
}

impl<'tag> vstd::std_specs::convert::FromSpecImpl<&'tag Tag> for TagSet {
    open spec fn obeys_from_spec() -> bool {
        false
    }

    open spec fn from_spec(v: &'tag Tag) -> Self {
        arbitrary()
    }
}

impl<'tag> From<&'tag Vec<Tag>> for TagSet {
    fn from(vec: &'tag Vec<Tag>) -> (r: Self)
        ensures
            r@ == views(vec@).to_set(),
    {
        let mut copy: Vec<Tag> = Vec::new();
        let mut i: usize = 0;
        while i < vec.len()
            invariant
                i <= vec.len(),
                views(copy@) == views(vec@).take(i as int),
            decreases vec.len() - i,
        {
            copy.push(vec[i].clone());
            assert(views(copy@) =~= views(vec@).take(i as int).push(vec@[i as int]@));
            assert(views(vec@).take(i + 1) =~= views(vec@).take(i as int).push(vec@[i as int]@));
            i += 1;
        }
        assert(views(vec@).take(i as int) =~= views(vec@));
        TagSet::from_vec(copy)
    }
}

impl<'tag> vstd::std_specs::convert::FromSpecImpl<&'tag Vec<Tag>> for TagSet {
    open spec fn obeys_from_spec() -> bool {
        false
    }

    open spec fn from_spec(v: &'tag Vec<Tag>) -> Self {
        arbitrary()
    }
}

/// Merging does not ask which set comes first, and merging a set with
/// itself gives the set.
pub proof fn lemma_merge_laws(a: Set<TagView>, b: Set<TagView>)
    ensures
        a.union(b) == b.union(a),
        a.union(a) == a,
{
    assert(a.union(b) =~= b.union(a));
    assert(a.union(a) =~= a);
}

} // verus!
