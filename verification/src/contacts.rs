//! The contact book: what a user notes about the others.

use crate::assoc::Duplicate;
use crate::text::{has_substring, str_contains};
use crate::users::text_view;
use vstd::prelude::*;

verus! {

/// What a user has noted about somebody.
#[derive(Debug)]
pub struct ContactEntry {
    /// The name by which the user calls them
    pub nick: Option<String>,
    /// How far the user trusts them, from -128 to 127
    pub trust: i8,
    /// Whether the user has met them
    pub met: bool,
    /// Where they are
    pub location: Option<String>,
    /// Whatever else there is to say
    pub notes: Option<String>,
}

/// What a contact entry is to a contract.
pub struct ContactEntryView {
    pub nick: Option<Seq<char>>,
    pub trust: i8,
    pub met: bool,
    pub location: Option<Seq<char>>,
    pub notes: Option<Seq<char>>,
}

impl View for ContactEntry {
    type V = ContactEntryView;

    open spec fn view(&self) -> ContactEntryView {
        ContactEntryView {
            nick: text_view(self.nick),
            trust: self.trust,
            met: self.met,
            location: text_view(self.location),
            notes: text_view(self.notes),
        }
    }
}

/// The entry of somebody about whom nothing is noted yet.
pub open spec fn blank_entry() -> ContactEntryView {
    ContactEntryView { nick: None, trust: 0, met: false, location: None, notes: None }
}

impl Clone for ContactEntry {
    fn clone(&self) -> (r: Self)
        ensures
            r@ == self@,
    {
        ContactEntry {
            nick: self.nick.clone(),
            trust: self.trust,
            met: self.met,
            location: self.location.clone(),
            notes: self.notes.clone(),
        }
    }
}

impl Duplicate for ContactEntry {
    fn duplicate(&self) -> (r: Self) {
        self.clone()
    }
}

impl Default for ContactEntry {
    fn default() -> (r: Self)
        ensures
            r@ == blank_entry(),
    {
        ContactEntry { nick: None, trust: 0, met: false, location: None, notes: None }
    }
}

/// A change to a contact entry.
#[derive(Debug)]
pub enum ContactUpdate {
    Nick(Option<String>),
    Trust(i8),
    Met(bool),
    Location(Option<String>),
    Notes(Option<String>),
}

/// What a `ContactUpdate` is to a contract.
pub enum ContactUpdateView {
    Nick(Option<Seq<char>>),
    Trust(i8),
    Met(bool),
    Location(Option<Seq<char>>),
    Notes(Option<Seq<char>>),
}

impl View for ContactUpdate {
    type V = ContactUpdateView;

    open spec fn view(&self) -> ContactUpdateView {
        match self {
            ContactUpdate::Nick(v) => ContactUpdateView::Nick(text_view(*v)),
            ContactUpdate::Trust(v) => ContactUpdateView::Trust(*v),
            ContactUpdate::Met(v) => ContactUpdateView::Met(*v),
            ContactUpdate::Location(v) => ContactUpdateView::Location(text_view(*v)),
            ContactUpdate::Notes(v) => ContactUpdateView::Notes(text_view(*v)),
        }
    }
}

/// The entry after a change.
pub open spec fn noted(e: ContactEntryView, u: ContactUpdateView) -> ContactEntryView {
    match u {
        ContactUpdateView::Nick(v) => ContactEntryView { nick: v, ..e },
        ContactUpdateView::Trust(v) => ContactEntryView { trust: v, ..e },
        ContactUpdateView::Met(v) => ContactEntryView { met: v, ..e },
        ContactUpdateView::Location(v) => ContactEntryView { location: v, ..e },
        ContactUpdateView::Notes(v) => ContactEntryView { notes: v, ..e },
    }
}

/// The entry after a list of changes, applied in their order.
pub open spec fn noted_all(e: ContactEntryView, us: Seq<ContactUpdateView>) -> ContactEntryView
    decreases us.len(),
{
    if us.len() == 0 {
        e
    } else {
        noted(noted_all(e, us.drop_last()), us.last())
    }
}

/// What is asked of a contact book.
#[derive(Debug)]
pub enum ContactQuery {
    /// Those with exactly this nick
    Nick(String),
    /// Those whose trust is no further from `val` than `fuz`
    Trust { val: i8, fuz: i8 },
    /// Those that the user has met, or those that they have not
    Met(bool),
    /// Those at exactly this location
    Location(String),
    /// Those whose notes hold this text
    Notes(String),
}

/// What a `ContactQuery` is to a contract.
pub enum ContactQueryView {
    Nick(Seq<char>),
    Trust { val: i8, fuz: i8 },
    Met(bool),
    Location(Seq<char>),
    Notes(Seq<char>),
}

impl View for ContactQuery {
    type V = ContactQueryView;

    open spec fn view(&self) -> ContactQueryView {
        match self {
            ContactQuery::Nick(v) => ContactQueryView::Nick(v@),
            ContactQuery::Trust { val, fuz } => ContactQueryView::Trust { val: *val, fuz: *fuz },
            ContactQuery::Met(v) => ContactQueryView::Met(*v),
            ContactQuery::Location(v) => ContactQueryView::Location(v@),
            ContactQuery::Notes(v) => ContactQueryView::Notes(v@),
        }
    }
}

/// Whether an entry is among those that a query asks for.
pub open spec fn asked_for(q: ContactQueryView, e: ContactEntryView) -> bool {
    match q {
        ContactQueryView::Nick(v) => e.nick == Some(v),
        ContactQueryView::Trust { val, fuz } => e.trust - val <= fuz && val - e.trust <= fuz,
        ContactQueryView::Met(v) => e.met == v,
        ContactQueryView::Location(v) => e.location == Some(v),
        ContactQueryView::Notes(v) => e.notes matches Some(n) && has_substring(n, v),
    }
}

fn text_is(have: &Option<String>, want: &String) -> (r: bool)
    ensures
        r == (text_view(*have) == Some(want@)),
{
    match have {
        Some(h) => *h == *want,
        None => false,
    }
}

impl ContactEntry {
    /// Makes one change to the entry.
    pub fn apply(&mut self, update: ContactUpdate)
        ensures
            final(self)@ == noted(old(self)@, update@),
    {
        match update {
            ContactUpdate::Nick(v) => {
                self.nick = v;
            },
            ContactUpdate::Trust(v) => {
                self.trust = v;
            },
            ContactUpdate::Met(v) => {
                self.met = v;
            },
            ContactUpdate::Location(v) => {
                self.location = v;
            },
            ContactUpdate::Notes(v) => {
                self.notes = v;
            },
        }
    }

    /// Makes a list of changes to the entry, in their order.
    pub fn apply_all(&mut self, updates: Vec<ContactUpdate>)
        ensures
            final(self)@ == noted_all(old(self)@, updates@.map_values(|u: ContactUpdate| u@)),
    {
        let ghost all = updates@.map_values(|u: ContactUpdate| u@);
        let ghost start = self@;
        let mut rest = updates;
        let mut done: usize = 0;
        let total = rest.len();
        assert(all.take(0) =~= Seq::<ContactUpdateView>::empty());
        while rest.len() > 0
            invariant
                done + rest.len() == total,
                total == all.len(),
                rest@.map_values(|u: ContactUpdate| u@) == all.skip(done as int),
                self@ == noted_all(start, all.take(done as int)),
            decreases rest.len(),
        {
            let ghost before = rest@.map_values(|u: ContactUpdate| u@);
            let ghost held = rest@;
            let u = rest.remove(0);
            proof {
                assert(u@ == before[0]);
                let after = rest@.map_values(|u: ContactUpdate| u@);
                assert forall|j: int| 0 <= j < after.len() implies #[trigger] after[j] == all.skip(
                    done + 1,
                )[j] by {
                    assert(rest@[j] == held[j + 1]);
                    assert(before[j + 1] == held[j + 1]@);
                }
                assert(all.take(done + 1).drop_last() =~= all.take(done as int));
                assert(all.take(done + 1).last() == u@);
                assert(rest@.map_values(|u: ContactUpdate| u@) =~= all.skip(done + 1));
            }
            self.apply(u);
            done += 1;
        }
        assert(all.take(done as int) =~= all);
    }

    /// Whether the entry is among those that the query asks for.
    pub fn answers(&self, query: &ContactQuery) -> (r: bool)
        ensures
            r == asked_for(query@, self@),
    {
        match query {
            ContactQuery::Nick(v) => text_is(&self.nick, v),
            ContactQuery::Trust { val, fuz } => {
                let have = self.trust as i16;
                let want = *val as i16;
                let far = *fuz as i16;
                have - want <= far && want - have <= far
            },
            ContactQuery::Met(v) => self.met == *v,
            ContactQuery::Location(v) => text_is(&self.location, v),
            ContactQuery::Notes(v) => match &self.notes {
                Some(n) => str_contains(n.as_str(), v.as_str()),
                None => false,
            },
        }
    }
}

} // verus!
