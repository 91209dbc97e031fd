//! The user-record store the authentication flows run against.
//!
//! The store is an interface: a sequence of user records with unique ids
//! and unique emails, offering lookup by email or id, creation with a
//! store-assigned id, and update.  An in-memory implementation, verified
//! against the interface, backs the tests and any deployment that keeps
//! its records in the process.

use vstd::prelude::*;

use crate::errors::AuthError;
use crate::user::{User, UserV};

verus! {

use vstd::string::StrSliceExecFns;

/// The store's integrity: ids are positive and pairwise distinct, emails
/// are pairwise distinct.
pub open spec fn repo_inv(s: Seq<UserV>) -> bool {
    &&& forall|i: int| 0 <= i < s.len() ==> 1 <= #[trigger] s[i].id <= 0x7fff_ffff_ffff_ffff
    &&& forall|i: int, j: int|
        0 <= i < j < s.len() ==> #[trigger] s[i].id != #[trigger] s[j].id
    &&& forall|i: int, j: int|
        0 <= i < j < s.len() ==> #[trigger] s[i].email != #[trigger] s[j].email
}

/// Whether two strings spell the same characters.
pub fn str_eq(a: &str, b: &str) -> (r: bool)
    ensures
        r == (a@ == b@),
{
    let av = a.as_bytes_vec();
    let bv = b.as_bytes_vec();
    let e = crate::jwt::ct_bytes_eq(&av, &bv);
    proof {
        if e {
            vstd::utf8::encode_utf8_decode_utf8(a@);
            vstd::utf8::encode_utf8_decode_utf8(b@);
        }
    }
    e
}

/// A store of user records.  Every operation preserves the store's
/// integrity; creation refuses an email an existing record already holds.
pub trait UserRepository: Sized {
    /// The records the store holds, in insertion order.
    spec fn records(&self) -> Seq<UserV>;

    /// The record holding this email, if any.
    fn find_by_email(&self, email: &str) -> (r: Option<User>)
        requires
            repo_inv(self.records()),
        ensures
            r matches Some(u) ==> u@.email == email@ && exists|i: int|
                0 <= i < self.records().len() && #[trigger] self.records()[i] == u@,
            r is None ==> forall|i: int|
                0 <= i < self.records().len() ==> #[trigger] self.records()[i].email != email@,
    ;

    /// The record holding this id, if any.
    fn find_by_id(&self, id: i64) -> (r: Option<User>)
        requires
            repo_inv(self.records()),
        ensures
            r matches Some(u) ==> u@.id == id as int && exists|i: int|
                0 <= i < self.records().len() && #[trigger] self.records()[i] == u@,
            r is None ==> forall|i: int|
                0 <= i < self.records().len() ==> #[trigger] self.records()[i].id != id as int,
    ;

    /// Persists a new record, assigning it a fresh id; every other field
    /// is taken from `user`.  An email an existing record holds is
    /// refused as `DuplicateEmail`, leaving the store unchanged; any
    /// failure leaves the store unchanged.
    fn create(&mut self, user: &User) -> (r: Result<User, AuthError>)
        requires
            repo_inv(old(self).records()),
        ensures
            repo_inv(final(self).records()),
            r matches Ok(u) ==> {
                &&& final(self).records() == old(self).records().push(u@)
                &&& forall|i: int|
                    0 <= i < old(self).records().len() ==> #[trigger] old(self).records()[i].id
                        != u@.id
                &&& u@.email == user@.email
                &&& u@.password_hash == user@.password_hash
                &&& u@.nickname == user@.nickname
                &&& u@.avatar_url == user@.avatar_url
                &&& u@.group_id == user@.group_id
                &&& u@.default_currency == user@.default_currency
                &&& u@.created_at == user@.created_at
            },
            r is Err ==> final(self).records() == old(self).records(),
            (exists|i: int|
                0 <= i < old(self).records().len() && #[trigger] old(self).records()[i].email
                    == user@.email) ==> r == Err::<User, AuthError>(AuthError::DuplicateEmail),
            r == Err::<User, AuthError>(AuthError::DuplicateEmail) ==> exists|i: int|
                0 <= i < old(self).records().len() && #[trigger] old(self).records()[i].email
                    == user@.email,
    ;

    /// Replaces the record whose id matches `user`'s; absent ids and
    /// emails that would collide with another record are refused, leaving
    /// the store unchanged.
    fn update(&mut self, user: &User) -> (r: Result<User, AuthError>)
        requires
            repo_inv(old(self).records()),
        ensures
            repo_inv(final(self).records()),
            r matches Ok(u) ==> u@ == user@ && exists|i: int|
                0 <= i < old(self).records().len() && #[trigger] old(self).records()[i].id
                    == user@.id && final(self).records() == old(self).records().update(i, user@),
            r is Err ==> final(self).records() == old(self).records(),
    ;

    /// How many records the store holds.
    fn count(&self) -> (r: usize)
        ensures
            r as int == self.records().len(),
    ;
}

/// An in-process store: a vector of records.  A created record's id is
/// one more than the largest id stored so far.
pub struct MemoryUserRepository {
    users: Vec<User>,
}

impl MemoryUserRepository {
    /// An empty store.
    pub fn new() -> (r: Self)
        ensures
            r.records() == Seq::<UserV>::empty(),
            repo_inv(r.records()),
    {
        let r = MemoryUserRepository { users: Vec::new() };
        proof {
            assert(r.records() =~= Seq::<UserV>::empty());
        }
        r
    }
}

impl UserRepository for MemoryUserRepository {
    closed spec fn records(&self) -> Seq<UserV> {
        self.users@.map(|_i: int, u: User| u@)
    }

    fn find_by_email(&self, email: &str) -> (r: Option<User>) {
        let n = self.users.len();
        let mut i: usize = 0;
        while i < n
            invariant
                i <= n,
                n == self.users@.len(),
                forall|j: int| 0 <= j < i ==> #[trigger] self.records()[j].email != email@,
            decreases n - i,
        {
            if str_eq(self.users[i].email.as_str(), email) {
                let u = self.users[i].clone();
                proof {
                    assert(self.records()[i as int] == u@);
                }
                return Some(u);
            }
            i = i + 1;
        }
        None
    }

    fn find_by_id(&self, id: i64) -> (r: Option<User>) {
        let n = self.users.len();
        let mut i: usize = 0;
        while i < n
            invariant
                i <= n,
                n == self.users@.len(),
                forall|j: int| 0 <= j < i ==> #[trigger] self.records()[j].id != id as int,
            decreases n - i,
        {
            if self.users[i].id == id {
                let u = self.users[i].clone();
                proof {
                    assert(self.records()[i as int] == u@);
                }
                return Some(u);
            }
            i = i + 1;
        }
        None
    }

    fn create(&mut self, user: &User) -> (r: Result<User, AuthError>) {
        let n = self.users.len();
        let mut i: usize = 0;
        while i < n
            invariant
                i <= n,
                n == self.users@.len(),
                self.users@ == old(self).users@,
                repo_inv(self.records()),
                forall|j: int| 0 <= j < i ==> #[trigger] self.records()[j].email != user@.email,
            decreases n - i,
        {
            if str_eq(self.users[i].email.as_str(), user.email.as_str()) {
                proof {
                    assert(self.records()[i as int].email == user@.email);
                }
                return Err(AuthError::DuplicateEmail);
            }
            i = i + 1;
        }
        let mut max_id: i64 = 0;
        let mut k: usize = 0;
        while k < n
            invariant
                k <= n,
                n == self.users@.len(),
                self.users@ == old(self).users@,
                0 <= max_id,
                forall|j: int| 0 <= j < k ==> #[trigger] self.records()[j].id <= max_id as int,
            decreases n - k,
        {
            if self.users[k].id > max_id {
                max_id = self.users[k].id;
            }
            k = k + 1;
        }
        if max_id == i64::MAX {
            return Err(AuthError::StorageError);
        }
        let id = max_id + 1;
        let mut stored = user.clone();
        stored.id = id;
        let copy = stored.clone();
        let ghost old_records = self.records();
        self.users.push(stored);
        proof {
            assert(self.records() =~= old_records.push(copy@));
            assert forall|a: int, b: int|
                0 <= a < b < self.records().len() implies #[trigger] self.records()[a].email
                != #[trigger] self.records()[b].email by {
                if b < self.records().len() - 1 {
                    assert(old_records[a].email != old_records[b].email);
                }
            }
        }
        Ok(copy)
    }

    fn update(&mut self, user: &User) -> (r: Result<User, AuthError>) {
        let n = self.users.len();
        let mut idx: usize = 0;
        while idx < n && self.users[idx].id != user.id
            invariant
                idx <= n,
                n == self.users@.len(),
                self.users@ == old(self).users@,
                forall|j: int| 0 <= j < idx ==> #[trigger] self.records()[j].id != user@.id,
            decreases n - idx,
        {
            idx = idx + 1;
        }
        if idx == n {
            return Err(AuthError::UserNotFound);
        }
        let mut k: usize = 0;
        while k < n
            invariant
                k <= n,
                idx < n,
                n == self.users@.len(),
                self.users@ == old(self).users@,
                repo_inv(self.records()),
                forall|j: int|
                    0 <= j < k && j != idx ==> #[trigger] self.records()[j].email != user@.email,
            decreases n - k,
        {
            if k != idx && str_eq(self.users[k].email.as_str(), user.email.as_str()) {
                proof {
                    assert(self.records()[k as int].email == user@.email);
                }
                return Err(AuthError::DuplicateEmail);
            }
            k = k + 1;
        }
        let stored = user.clone();
        let copy = user.clone();
        let ghost old_records = self.records();
        self.users.set(idx, stored);
        proof {
            assert(self.records() =~= old_records.update(idx as int, user@));
            assert(old_records[idx as int].id == user@.id);
            assert forall|a: int, b: int|
                0 <= a < b < self.records().len() implies #[trigger] self.records()[a].id
                != #[trigger] self.records()[b].id by {
                assert(old_records[a].id != old_records[b].id);
                assert(self.records()[a].id == old_records[a].id);
                assert(self.records()[b].id == old_records[b].id);
            }
            assert forall|a: int, b: int|
                0 <= a < b < self.records().len() implies #[trigger] self.records()[a].email
                != #[trigger] self.records()[b].email by {
                if a != idx && b != idx {
                    assert(old_records[a].email != old_records[b].email);
                }
            }
        }
        Ok(copy)
    }

    fn count(&self) -> (r: usize) {
        self.users.len()
    }
}

} // verus!
