//! Access tokens and what they permit.
use vstd::prelude::*;
use crate::text::{views, string_of, push_chars, chars_of};
use crate::order::sorted_keys;
use crate::id_service::IdService;

verus! {

/// A bearer token as sent by a client.
#[derive(Debug)]
pub struct Token(pub String);

/// An access token issued to an application for a user.
#[derive(Clone, Debug)]
pub struct AccessToken {
    pub id: String,
    pub user_id: String,
    /// The permissions granted, sorted.
    pub permission: Vec<String>,
}

/// A user whose own (master) token was presented.
#[derive(Clone, Debug)]
pub struct MasterUser {
    pub id: String,
}

/// What a presented token permits: an application token's permissions, all of
/// a user's rights, or nothing (a guest).
pub enum TokenPermission {
    Token(AccessToken),
    Master(MasterUser),
    Guest,
}

/// A permission an application may be granted.
#[derive(Clone, Copy, Debug, PartialEq, Eq, Structural)]
pub enum PermissionKind {
    WriteDrive,
    ReadDrive,
}

/// The permission's name as JSON text, quotes included (`"write:drive"`).
pub open spec fn permission_json(k: PermissionKind) -> Seq<char> {
    match k {
        PermissionKind::WriteDrive => seq!['"', 'w', 'r', 'i', 't', 'e', ':', 'd', 'r', 'i', 'v', 'e', '"'],
        PermissionKind::ReadDrive => seq!['"', 'r', 'e', 'a', 'd', ':', 'd', 'r', 'i', 'v', 'e', '"'],
    }
}

impl PermissionKind {
    /// The permission's name as JSON text (see `permission_json`).
    pub fn to_json(&self) -> (r: String)
        ensures
            r@ == permission_json(*self),
    {
        match self {
            PermissionKind::WriteDrive => string_of(&vec!['"', 'w', 'r', 'i', 't', 'e', ':', 'd', 'r', 'i', 'v', 'e', '"']),
            PermissionKind::ReadDrive => string_of(&vec!['"', 'r', 'e', 'a', 'd', ':', 'd', 'r', 'i', 'v', 'e', '"']),
        }
    }
}

/// `slice::binary_search` on a list of strings: whether it finds `s`.
///
/// Trusted: a hit means `s` is in the list, and on a list sorted in `str`
/// order (which is the order `sorted_keys` states) every member is found, as
/// the documentation of `binary_search` says; on an unsorted list a miss is
/// not stated to mean anything.
#[verifier::external_body]
fn binary_search_found(v: &Vec<String>, s: &String) -> (r: bool)
    ensures
        r ==> views(v@).contains(s@),
        sorted_keys(views(v@), true) && views(v@).contains(s@) ==> r,
{
    v.binary_search(s).is_ok()
}

impl TokenPermission {
    /// Whether the token permits `key`: a user's own token permits everything,
    /// a guest nothing, and an application token what its permissions hold
    /// under the permission's JSON text.
    pub fn is_allow(&self, key: PermissionKind) -> (r: bool)
        ensures
            match self {
                TokenPermission::Token(t) => (r ==> views(t.permission@).contains(permission_json(key)))
                    && (sorted_keys(views(t.permission@), true) ==> (r == views(t.permission@).contains(permission_json(key)))),
                TokenPermission::Master(_) => r,
                TokenPermission::Guest => !r,
            },
    {
        let s = key.to_json();
        match self {
            TokenPermission::Token(t) => binary_search_found(&t.permission, &s),
            TokenPermission::Master(_) => true,
            TokenPermission::Guest => false,
        }
    }

    /// The user the token acts for, if any.
    pub fn as_user_id(&self) -> (r: Option<&String>)
        ensures
            match self {
                TokenPermission::Token(t) => r == Some(&t.user_id),
                TokenPermission::Master(u) => r == Some(&u.id),
                TokenPermission::Guest => r is None,
            },
    {
        match self {
            TokenPermission::Token(t) => Some(&t.user_id),
            TokenPermission::Master(u) => Some(&u.id),
            TokenPermission::Guest => None,
        }
    }
}

/// Resolves tokens.
pub struct TokenService {
    pub id_service: IdService,
}

impl TokenService {
    pub fn new(id_service: IdService) -> (r: Self)
        ensures
            r.id_service == id_service,
    {
        TokenService { id_service }
    }
}

/// What a token resolves to, given what the database held: the access token
/// with that id if there is one, else the user whose own token it is, else
/// nothing.
pub fn resolve_permission(token: Option<AccessToken>, user: Option<MasterUser>) -> (r: TokenPermission)
    ensures
        match token {
            Some(t) => r == TokenPermission::Token(t),
            None => match user {
                Some(u) => r == TokenPermission::Master(u),
                None => r is Guest,
            },
        },
{
    match token {
        Some(t) => TokenPermission::Token(t),
        None => match user {
            Some(u) => TokenPermission::Master(u),
            None => TokenPermission::Guest,
        },
    }
}

} // verus!
