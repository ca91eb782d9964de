//! The user store: a plain keyed collection of user credentials, keyed by
//! user identifier. It supplies signup and login only; the reservation
//! subsystem never consults it.

use vstd::prelude::*;

verus! {

/// A user record: identifier, password and display name.
pub struct User {
    pub id: String,
    pub password: String,
    pub name: String,
}

impl Clone for User {
    fn clone(&self) -> (r: Self)
        ensures
            r == *self,
    {
        User { id: self.id.clone(), password: self.password.clone(), name: self.name.clone() }
    }
}

/// Is some user with identifier `id` present?
pub open spec fn spec_contains_id(users: Seq<User>, id: Seq<char>) -> bool {
    exists|i: int| 0 <= i < users.len() && (#[trigger] users[i]).id@ == id
}

/// The user store, keyed by `User::id`.
pub struct UserStore {
    users: Vec<User>,
}

impl UserStore {
    /// The stored users, in insertion order.
    pub closed spec fn users(self) -> Seq<User> {
        self.users@
    }

    /// Consistency of the store: user identifiers are unique.
    pub open spec fn wf(self) -> bool {
        forall|i: int, j: int| #![trigger self.users()[i], self.users()[j]]
            0 <= i < self.users().len() && 0 <= j < self.users().len() && i != j
                ==> self.users()[i].id@ != self.users()[j].id@
    }

    /// An empty store.
    pub fn new() -> (s: Self)
        ensures
            s.wf(),
            s.users() == Seq::<User>::empty(),
    {
        let s = UserStore { users: Vec::new() };
        proof {
            assert(s.users() =~= Seq::<User>::empty());
        }
        s
    }

    /// Register a user. Succeeds, storing the record, iff no user with that
    /// identifier is present yet; otherwise the store is unchanged.
    pub fn signup(&mut self, user: User) -> (r: bool)
        requires
            old(self).wf(),
        ensures
            final(self).wf(),
            r == !spec_contains_id(old(self).users(), user.id@),
            r ==> final(self).users() == old(self).users().push(user),
            !r ==> *final(self) == *old(self),
    {
        let n = self.users.len();
        let mut i: usize = 0;
        while i < n
            invariant
                0 <= i <= n,
                n == self.users().len(),
                *self == *old(self),
                old(self).wf(),
                forall|k: int| 0 <= k < i ==> (#[trigger] self.users()[k]).id@ != user.id@,
            decreases n - i,
        {
            if self.users[i].id == user.id {
                return false;
            }
            i = i + 1;
        }
        self.users.push(user);
        true
    }

    /// Check a credential pair: true iff the user with identifier `id` is
    /// present and `password` is that user's stored password.
    pub fn login(&self, id: String, password: String) -> (r: bool)
        requires
            self.wf(),
        ensures
            r == exists|i: int|
                0 <= i < self.users().len() && (#[trigger] self.users()[i]).id@ == id@
                    && self.users()[i].password@ == password@,
    {
        let n = self.users.len();
        let mut i: usize = 0;
        while i < n
            invariant
                0 <= i <= n,
                n == self.users().len(),
                self.wf(),
                forall|k: int| 0 <= k < i ==> (#[trigger] self.users()[k]).id@ != id@,
            decreases n - i,
        {
            if self.users[i].id == id {
                let matched = self.users[i].password == password;
                proof {
                    assert forall|k: int|
                        0 <= k < self.users().len() && (#[trigger] self.users()[k]).id@ == id@
                            implies k == i as int by {
                        if k != i as int {
                            assert(self.users()[k].id@ != self.users()[i as int].id@);
                        }
                    }
                }
                return matched;
            }
            i = i + 1;
        }
        false
    }
}

} // verus!
