//! The user record the authentication core reads and creates.

use vstd::prelude::*;

verus! {

/// A stored user identity.  The id is assigned by the store at creation;
/// the email is unique across all records; `created_at` is in seconds
/// since the Unix epoch.
#[derive(Debug)]
pub struct User {
    pub id: i64,
    pub email: String,
    pub password_hash: String,
    pub nickname: String,
    pub avatar_url: Option<String>,
    pub group_id: Option<i64>,
    pub default_currency: Option<String>,
    pub created_at: i64,
}

/// The mathematical value of a `User`.
pub struct UserV {
    pub id: int,
    pub email: Seq<char>,
    pub password_hash: Seq<char>,
    pub nickname: Seq<char>,
    pub avatar_url: Option<Seq<char>>,
    pub group_id: Option<int>,
    pub default_currency: Option<Seq<char>>,
    pub created_at: int,
}

impl View for User {
    type V = UserV;

    open spec fn view(&self) -> UserV {
        UserV {
            id: self.id as int,
            email: self.email@,
            password_hash: self.password_hash@,
            nickname: self.nickname@,
            avatar_url: match self.avatar_url {
                Some(ref s) => Some(s@),
                None => None,
            },
            group_id: match self.group_id {
                Some(g) => Some(g as int),
                None => None,
            },
            default_currency: match self.default_currency {
                Some(ref s) => Some(s@),
                None => None,
            },
            created_at: self.created_at as int,
        }
    }
}

impl Clone for User {
    /// A copy carrying the same value.
    fn clone(&self) -> (r: Self)
        ensures
            r@ == self@,
    {
        User {
            id: self.id,
            email: self.email.clone(),
            password_hash: self.password_hash.clone(),
            nickname: self.nickname.clone(),
            avatar_url: match &self.avatar_url {
                Some(s) => Some(s.clone()),
                None => None,
            },
            group_id: self.group_id,
            default_currency: match &self.default_currency {
                Some(s) => Some(s.clone()),
                None => None,
            },
            created_at: self.created_at,
        }
    }
}

} // verus!
