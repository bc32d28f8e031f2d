//! Network user and session management
//!
//! The library is an abstraction over a distributed network of users.
//! When connecting to other applications on the network, this is always
//! done between *users*.

use crate::assoc::Assoc;
use crate::identity::Identity;
use crate::text::{has_substring, str_contains};
use vstd::prelude::*;

verus! {

/// A random authentication token
pub type Token = String;

/// Wrapper to encode `User` authentication state
///
/// This structure can be aquired by challenging an authentication
/// endpoint to yield a token. If a session for this `Identity` already
/// exists, it will be re-used.
#[derive(Debug)]
pub struct UserAuth(pub Identity, pub Token);

impl Clone for UserAuth {
    fn clone(&self) -> (r: Self)
        ensures
            r.0 == self.0,
            r.1@ == self.1@,
    {
        UserAuth(self.0, self.1.clone())
    }
}

/// A complete user profile with ID and metadata
#[derive(Debug)]
pub struct UserProfile {
    /// A user's network (node) ID
    pub id: Identity,
    /// A human readable display-name (like @foobar)
    pub display_name: Option<String>,
    /// A human's preferred call-sign ("Friends call me foo")
    pub real_name: Option<String>,
    /// A key-value list of things the user deems interesting about
    /// themselves.
    pub bio: Assoc<String>,
    /// The set of services this user runs (should never be empty!)
    pub services: Assoc<()>,
    /// A users profile picture (some people like selfies)
    pub avatar: Option<Vec<u8>>,
}

/// What a text that may be missing is to a contract.
pub open spec fn text_view(t: Option<String>) -> Option<Seq<char>> {
    match t {
        Some(s) => Some(s@),
        None => None,
    }
}

/// What bytes that may be missing are to a contract.
pub open spec fn bytes_view(b: Option<Vec<u8>>) -> Option<Seq<u8>> {
    match b {
        Some(v) => Some(v@),
        None => None,
    }
}

/// What a user profile is to a contract.
#[verifier::ext_equal]
pub struct UserProfileView {
    pub id: Seq<u8>,
    pub display_name: Option<Seq<char>>,
    pub real_name: Option<Seq<char>>,
    pub bio: Map<Seq<char>, Seq<char>>,
    pub services: Set<Seq<char>>,
    pub avatar: Option<Seq<u8>>,
}

impl View for UserProfile {
    type V = UserProfileView;

    open spec fn view(&self) -> UserProfileView {
        UserProfileView {
            id: self.id@,
            display_name: text_view(self.display_name),
            real_name: text_view(self.real_name),
            bio: self.bio@,
            services: self.services@.dom(),
            avatar: bytes_view(self.avatar),
        }
    }
}

impl Clone for UserProfile {
    fn clone(&self) -> (r: Self)
        ensures
            r@ == self@,
    {
        let avatar = match &self.avatar {
            Some(a) => {
                let c = a.clone();
                assert(c@ =~= a@);
                Some(c)
            },
            None => None,
        };
        UserProfile {
            id: self.id,
            display_name: match &self.display_name {
                Some(n) => Some(n.clone()),
                None => None,
            },
            real_name: match &self.real_name {
                Some(n) => Some(n.clone()),
                None => None,
            },
            bio: self.bio.duplicate(),
            services: self.services.duplicate(),
            avatar,
        }
    }
}

/// A sevice user's external/public representation
#[derive(Debug)]
pub struct User {
    /// An easy to read user handle
    pub name: Option<String>,
    /// An even more human readable name
    pub clear_name: String,
    /// Some generic user metadata
    pub bio: String,
    /// An avatar or profile picture
    pub avatar: Vec<u8>,
}

/// All the ways a UserData can change, as individual events.
#[derive(Debug)]
pub enum UserUpdate {
    /// Set or blank the User's display name.
    DisplayName(Option<String>),
    /// Set or blank the User's real name.
    RealName(Option<String>),
    /// Add or update a biography line with the given key to the given value.
    SetBioLine(String, String),
    /// Remove a biography line with the given key, or do nothing if it does not exist.
    RemoveBioLine(String),
    /// Add a service with the given name.
    AddService(String),
    /// Remove the service with the given name, or do nothing if it does not exist.
    RemoveService(String),
    /// Set or blank the User's avatar.
    AvatarData(Option<Vec<u8>>),
}

/// What a `UserUpdate` is to a contract.
pub enum UserUpdateView {
    DisplayName(Option<Seq<char>>),
    RealName(Option<Seq<char>>),
    SetBioLine(Seq<char>, Seq<char>),
    RemoveBioLine(Seq<char>),
    AddService(Seq<char>),
    RemoveService(Seq<char>),
    AvatarData(Option<Seq<u8>>),
}

impl View for UserUpdate {
    type V = UserUpdateView;

    open spec fn view(&self) -> UserUpdateView {
        match self {
            UserUpdate::DisplayName(v) => UserUpdateView::DisplayName(text_view(*v)),
            UserUpdate::RealName(v) => UserUpdateView::RealName(text_view(*v)),
            UserUpdate::SetBioLine(k, v) => UserUpdateView::SetBioLine(k@, v@),
            UserUpdate::RemoveBioLine(k) => UserUpdateView::RemoveBioLine(k@),
            UserUpdate::AddService(k) => UserUpdateView::AddService(k@),
            UserUpdate::RemoveService(k) => UserUpdateView::RemoveService(k@),
            UserUpdate::AvatarData(v) => UserUpdateView::AvatarData(bytes_view(*v)),
        }
    }
}

/// The profile after an update.
pub open spec fn updated(p: UserProfileView, u: UserUpdateView) -> UserProfileView {
    match u {
        UserUpdateView::DisplayName(v) => UserProfileView { display_name: v, ..p },
        UserUpdateView::RealName(v) => UserProfileView { real_name: v, ..p },
        UserUpdateView::SetBioLine(k, v) => UserProfileView { bio: p.bio.insert(k, v), ..p },
        UserUpdateView::RemoveBioLine(k) => UserProfileView { bio: p.bio.remove(k), ..p },
        UserUpdateView::AddService(k) => UserProfileView { services: p.services.insert(k), ..p },
        UserUpdateView::RemoveService(k) => UserProfileView { services: p.services.remove(k), ..p },
        UserUpdateView::AvatarData(v) => UserProfileView { avatar: v, ..p },
    }
}

/// The profile after a list of updates, applied in their order.
pub open spec fn updated_all(p: UserProfileView, us: Seq<UserUpdateView>) -> UserProfileView
    decreases us.len(),
{
    if us.len() == 0 {
        p
    } else {
        updated(updated_all(p, us.drop_last()), us.last())
    }
}

/// What has to be done to a name that was `old` for it to be `new`:
/// nothing, or setting it to what `new` holds.
pub open spec fn name_change(old: Option<Seq<char>>, new: Option<Seq<char>>) -> Option<
    Option<Seq<char>>,
> {
    if old == new {
        None
    } else {
        Some(new)
    }
}

/// The updates that turn the names of `old` into those of `new`: first
/// the real name, then the display name, each only if it differs.
pub open spec fn name_updates(old: UserProfileView, new: UserProfileView) -> Seq<UserUpdateView> {
    let first = match name_change(old.real_name, new.real_name) {
        Some(v) => seq![UserUpdateView::RealName(v)],
        None => Seq::empty(),
    };
    let second = match name_change(old.display_name, new.display_name) {
        Some(v) => seq![UserUpdateView::DisplayName(v)],
        None => Seq::empty(),
    };
    first + second
}

/// Applying the updates that were generated for two profiles gives the
/// first one the names of the second, and changes nothing else.
pub proof fn lemma_name_updates(old: UserProfileView, new: UserProfileView)
    ensures
        updated_all(old, name_updates(old, new)) == (UserProfileView {
            real_name: new.real_name,
            display_name: new.display_name,
            ..old
        }),
{
    let us = name_updates(old, new);
    reveal_with_fuel(updated_all, 3);
    if us.len() == 2 {
        assert(us.drop_last().drop_last().len() == 0);
        assert(us.drop_last().last() == us[0]);
    } else if us.len() == 1 {
        assert(us.drop_last().len() == 0);
    }
}

impl UserProfile {
    /// Create a new user profile for a user ID
    pub fn new(id: Identity) -> (r: Self)
        ensures
            r@ == (UserProfileView {
                id: id@,
                display_name: None,
                real_name: None,
                bio: Map::empty(),
                services: Set::empty(),
                avatar: None,
            }),
    {
        let r = Self {
            id,
            display_name: None,
            real_name: None,
            bio: Assoc::new(),
            services: Assoc::new(),
            avatar: None,
        };
        assert(r.services@.dom() =~= Set::<Seq<char>>::empty());
        r
    }

    /// Apply the given UserUpdate to this UserUpdate in-place
    pub fn apply(self, update: UserUpdate) -> (r: Self)
        ensures
            r@ == updated(self@, update@),
    {
        let mut new = self;
        update.apply_to(&mut new);
        new
    }

    /// Do a contains-query on names to facilitate searching
    ///
    /// This means that the query string needs to be contained in it's
    /// entirety in the display or real name strings to return a match.
    pub fn contains_query(&self, query: &str) -> (r: bool)
        ensures
            r == ((self@.display_name matches Some(v) && has_substring(v, query@)) || (
            self@.real_name matches Some(v) && has_substring(v, query@))),
    {
        (match &self.display_name {
            None => false,
            Some(v) => str_contains(v.as_str(), query),
        }) || (match &self.real_name {
            None => false,
            Some(v) => str_contains(v.as_str(), query),
        })
    }

    /// The updates that give this profile the names of `new`.
    pub fn generate_updates(&self, new: Self) -> (r: Vec<UserUpdate>)
        ensures
            r@.map_values(|u: UserUpdate| u@) == name_updates(self@, new@),
    {
        let mut updates: Vec<UserUpdate> = Vec::new();
        let UserProfile { real_name, display_name, .. } = new;
        let ghost new_real = text_view(real_name);
        let ghost new_display = text_view(display_name);
        let real_differs = match (&self.real_name, &real_name) {
            (Some(n), Some(m)) => !(*n == *m),
            (None, None) => false,
            _ => true,
        };
        if real_differs {
            updates.push(UserUpdate::RealName(real_name));
        }
        let ghost first = updates@.map_values(|u: UserUpdate| u@);
        let display_differs = match (&self.display_name, &display_name) {
            (Some(n), Some(m)) => !(*n == *m),
            (None, None) => false,
            _ => true,
        };
        if display_differs {
            updates.push(UserUpdate::DisplayName(display_name));
        }
        proof {
            let got = updates@.map_values(|u: UserUpdate| u@);
            let want = name_updates(self@, new@);
            assert(got.len() == want.len());
            assert(got =~= want);
        }
        updates
    }
}

impl UserUpdate {
    /// Change the given UserProfile based on the instruction given by this UserUpdate.
    pub fn apply_to(self, data: &mut UserProfile)
        ensures
            final(data)@ == updated(old(data)@, self@),
    {
        match self {
            UserUpdate::DisplayName(v) => {
                data.display_name = v;
            },
            UserUpdate::RealName(v) => {
                data.real_name = v;
            },
            UserUpdate::SetBioLine(k, v) => {
                data.bio.set(k, v);
            },
            UserUpdate::RemoveBioLine(k) => {
                let _ = data.bio.remove(k.as_str());
            },
            UserUpdate::AddService(k) => {
                data.services.set(k, ());
                assert(data@.services =~= old(data)@.services.insert(k@));
            },
            UserUpdate::RemoveService(k) => {
                let _ = data.services.remove(k.as_str());
                assert(data@.services =~= old(data)@.services.remove(k@));
            },
            UserUpdate::AvatarData(v) => {
                data.avatar = v;
            },
        }
    }
}

} // verus!
