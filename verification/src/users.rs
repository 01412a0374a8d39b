//! Registered users and their public profiles.

use crate::item::clone_string;
use crate::principal::PrincipalId;
use vstd::prelude::*;

verus! {

/// The ghost model of a registered user.
#[verifier::ext_equal]
pub ghost struct UserModel {
    pub username: Seq<char>,
    pub public_key: Seq<u8>,
}

/// A registered user: a username and a public key.
#[derive(Debug, Eq)]
pub struct User {
    pub username: String,
    pub public_key: Vec<u8>,
}

impl View for User {
    type V = UserModel;

    open spec fn view(&self) -> UserModel {
        UserModel { username: self.username@, public_key: self.public_key@ }
    }
}

impl Clone for User {
    fn clone(&self) -> (r: User)
        ensures
            r@ == self@,
    {
        let r = User {
            username: clone_string(&self.username),
            public_key: crate::principal::clone_byte_vec(&self.public_key),
        };
        proof {
            assert(r@ =~= self@);
        }
        r
    }
}

impl PartialEq for User {
    fn eq(&self, other: &User) -> (r: bool) {
        let r = self.username == other.username && crate::principal::byte_vecs_eq(
            &self.public_key,
            &other.public_key,
        );
        proof {
            if r {
                assert(self@ =~= other@);
            }
        }
        r
    }
}

impl vstd::std_specs::cmp::PartialEqSpecImpl for User {
    open spec fn obeys_eq_spec() -> bool {
        true
    }

    open spec fn eq_spec(&self, other: &User) -> bool {
        self@ == other@
    }
}

/// The ghost model of a public user profile.
#[verifier::ext_equal]
pub ghost struct PublicUserModel {
    pub username: Seq<char>,
    pub public_key: Seq<u8>,
    pub ic_principal: Seq<u8>,
}

/// A user profile as shown to other callers.
#[derive(Debug, Eq)]
pub struct PublicUser {
    pub username: String,
    pub public_key: Vec<u8>,
    pub ic_principal: PrincipalId,
}

impl View for PublicUser {
    type V = PublicUserModel;

    open spec fn view(&self) -> PublicUserModel {
        PublicUserModel {
            username: self.username@,
            public_key: self.public_key@,
            ic_principal: self.ic_principal@,
        }
    }
}

impl Clone for PublicUser {
    fn clone(&self) -> (r: PublicUser)
        ensures
            r@ == self@,
    {
        let r = PublicUser {
            username: clone_string(&self.username),
            public_key: crate::principal::clone_byte_vec(&self.public_key),
            ic_principal: self.ic_principal.clone(),
        };
        proof {
            assert(r@ =~= self@);
        }
        r
    }
}

impl PartialEq for PublicUser {
    fn eq(&self, other: &PublicUser) -> (r: bool) {
        let r = self.username == other.username && crate::principal::byte_vecs_eq(
            &self.public_key,
            &other.public_key,
        ) && self.ic_principal == other.ic_principal;
        proof {
            if r {
                assert(self@ =~= other@);
            }
        }
        r
    }
}

impl vstd::std_specs::cmp::PartialEqSpecImpl for PublicUser {
    open spec fn obeys_eq_spec() -> bool {
        true
    }

    open spec fn eq_spec(&self, other: &PublicUser) -> bool {
        self@ == other@
    }
}

} // verus!
