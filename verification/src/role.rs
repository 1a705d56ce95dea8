//! Roles: who moderates, which assignments are in force, which roles a user
//! has, and the policies that result.
use vstd::prelude::*;
use crate::text::{views, strings_contain};

verus! {

/// A policy value as a role sets it: whether it falls back to the default, its
/// priority, and its value as JSON text.
#[derive(Clone, Debug)]
pub struct Policy {
    pub use_default: bool,
    pub priority: i32,
    pub value: String,
}

/// The parts of a role that decide rights and policies.
#[derive(Clone, Debug)]
pub struct Role {
    pub id: String,
    pub is_moderator: bool,
    pub is_administrator: bool,
    /// The role's policies by name, each name once.
    pub policies: Vec<(String, Policy)>,
}

/// A role assigned to a user, until a time (milliseconds) or for good.
#[derive(Clone, Debug)]
pub struct RoleAssignment {
    pub role_id: String,
    pub expires_at: Option<i64>,
}

/// A role that makes its holder a moderator (administrators are moderators).
pub open spec fn grants_moderation(r: Role) -> bool {
    r.is_moderator || r.is_administrator
}

/// A role that makes its holder an administrator.
pub open spec fn grants_administration(r: Role) -> bool {
    r.is_administrator
}

/// Some role makes the user a moderator.
pub open spec fn moderates(roles: Seq<Role>) -> bool {
    exists|i: int| 0 <= i < roles.len() && #[trigger] grants_moderation(roles[i])
}

/// Some role makes the user an administrator.
pub open spec fn administers(roles: Seq<Role>) -> bool {
    exists|i: int| 0 <= i < roles.len() && #[trigger] grants_administration(roles[i])
}

/// A user is a moderator exactly when one of its roles is a moderator or an
/// administrator role.
pub proof fn lemma_moderates(roles: Seq<Role>)
    ensures
        moderates(roles) <==> exists|i: int| 0 <= i < roles.len() && ((#[trigger] roles[i]).is_moderator || roles[i].is_administrator),
{
    if exists|i: int| 0 <= i < roles.len() && ((#[trigger] roles[i]).is_moderator || roles[i].is_administrator) {
        let i = choose|i: int| 0 <= i < roles.len() && ((#[trigger] roles[i]).is_moderator || roles[i].is_administrator);
        assert(grants_moderation(roles[i]));
    }
}

/// A user is an administrator exactly when one of its roles is an
/// administrator role.
pub proof fn lemma_administers(roles: Seq<Role>)
    ensures
        administers(roles) <==> exists|i: int| 0 <= i < roles.len() && (#[trigger] roles[i]).is_administrator,
{
    if exists|i: int| 0 <= i < roles.len() && (#[trigger] roles[i]).is_administrator {
        let i = choose|i: int| 0 <= i < roles.len() && (#[trigger] roles[i]).is_administrator;
        assert(grants_administration(roles[i]));
    }
}

/// Whether the user's roles make it a moderator; `false` when its roles could
/// not be read.
#[verifier::loop_isolation(false)]
pub fn is_moderator(roles: Option<&Vec<Role>>) -> (r: bool)
    ensures
        r == (roles matches Some(rs) && moderates(rs@)),
        r == (roles matches Some(rs)
            && exists|i: int| 0 <= i < rs@.len() && ((#[trigger] rs@[i]).is_moderator || rs@[i].is_administrator)),
{
    proof {
        if let Some(rs) = roles {
            lemma_moderates(rs@);
        }
    }
    let rs = match roles {
        Some(v) => v,
        None => return false,
    };
    let mut i: usize = 0;
    while i < rs.len()
        invariant
            i <= rs@.len(),
            forall|j: int| 0 <= j < i ==> !#[trigger] grants_moderation(rs@[j]),
        decreases rs@.len() - i,
    {
        assert(grants_moderation(rs@[i as int]) == (rs[i as int].is_moderator || rs[i as int].is_administrator));
        if rs[i].is_moderator || rs[i].is_administrator {
            assert(grants_moderation(rs@[i as int]));
            return true;
        }
        i = i + 1;
    }
    false
}

/// Whether the user's roles make it an administrator; `false` when its roles
/// could not be read.
#[verifier::loop_isolation(false)]
pub fn is_administrator(roles: Option<&Vec<Role>>) -> (r: bool)
    ensures
        r == (roles matches Some(rs) && administers(rs@)),
        r == (roles matches Some(rs) && exists|i: int| 0 <= i < rs@.len() && (#[trigger] rs@[i]).is_administrator),
{
    proof {
        if let Some(rs) = roles {
            lemma_administers(rs@);
        }
    }
    let rs = match roles {
        Some(v) => v,
        None => return false,
    };
    let mut i: usize = 0;
    while i < rs.len()
        invariant
            i <= rs@.len(),
            forall|j: int| 0 <= j < i ==> !#[trigger] grants_administration(rs@[j]),
        decreases rs@.len() - i,
    {
        if rs[i].is_administrator {
            assert(grants_administration(rs@[i as int]));
            return true;
        }
        i = i + 1;
    }
    false
}

/// An assignment in force at `now`: without an end, or ending later.
pub open spec fn in_force(a: RoleAssignment, now: i64) -> bool {
    match a.expires_at {
        Some(e) => e > now,
        None => true,
    }
}

/// The assignments in force at `now`, in order.
pub fn active_assignments(assigns: Vec<RoleAssignment>, now: i64) -> (r: Vec<RoleAssignment>)
    ensures
        r@ == assigns@.filter(|a: RoleAssignment| in_force(a, now)),
        forall|k: int| 0 <= k < r@.len()
            ==> (#[trigger] r@[k]).expires_at is None || now < r@[k].expires_at->0,
        forall|i: int| 0 <= i < assigns@.len()
            ==> (r@.contains(#[trigger] assigns@[i]) <==> (assigns@[i].expires_at is None || now < assigns@[i].expires_at->0)),
{
    proof {
        let p = |a: RoleAssignment| in_force(a, now);
        assigns@.filter_lemma(p);
        assert forall|i: int| 0 <= i < assigns@.len()
            && assigns@.filter(p).contains(#[trigger] assigns@[i]) implies in_force(assigns@[i], now) by {
            let k = choose|k: int| 0 <= k < assigns@.filter(p).len() && assigns@.filter(p)[k] == assigns@[i];
        }
    }
    let mut r: Vec<RoleAssignment> = Vec::new();
    let mut src = assigns;
    let ghost orig = src@;
    let ghost mut done: Seq<RoleAssignment> = Seq::empty();
    while src.len() > 0
        invariant
            orig == done + src@,
            r@ == done.filter(|a: RoleAssignment| in_force(a, now)),
        decreases src@.len(),
    {
        let ghost src0 = src@;
        let x = src.remove(0);
        proof {
            assert(src0 =~= seq![x] + src@);
            assert(orig =~= done.push(x) + src@);
            assert(done.push(x).drop_last() =~= done);
            reveal(Seq::filter);
        }
        let keep = match x.expires_at {
            Some(e) => e > now,
            None => true,
        };
        proof {
            done = done.push(x);
        }
        if keep {
            r.push(x);
        }
    }
    assert(done =~= orig);
    r
}

/// A role the user holds: one of the assigned role ids (none when the
/// assignments could not be read).
pub open spec fn held(r: Role, assigned: Option<Seq<Seq<char>>>) -> bool {
    assigned matches Some(ids) && ids.contains(r.id@)
}

/// The view of the assigned role ids.
pub open spec fn ids_view(assigned_ids: Option<&Vec<String>>) -> Option<Seq<Seq<char>>> {
    match assigned_ids {
        Some(v) => Some(views(v@)),
        None => None,
    }
}

/// The roles of `roles` that the user holds, in order.
pub open spec fn held_roles(roles: Seq<Role>, assigned_ids: Option<&Vec<String>>) -> Seq<Role> {
    roles.filter(|x: Role| held(x, ids_view(assigned_ids)))
}

/// A role is held exactly when its id is among the assigned ids.
proof fn lemma_assigned_roles(roles: Seq<Role>, assigned_ids: Option<&Vec<String>>)
    ensures
        forall|k: int|
            0 <= k < held_roles(roles, assigned_ids).len() ==> (assigned_ids is Some
            && views(assigned_ids->0@).contains(held_roles(roles, assigned_ids)[k].id@)),
        forall|i: int| 0 <= i < roles.len() ==> (held_roles(roles, assigned_ids).contains(#[trigger] roles[i])
            <==> (assigned_ids is Some && views(assigned_ids->0@).contains(roles[i].id@))),
        held_roles(roles, assigned_ids).len() > 0 ==> assigned_ids is Some,
{
    let p = |x: Role| held(x, ids_view(assigned_ids));
    assert(roles.filter(p) == held_roles(roles, assigned_ids));
    roles.filter_lemma(p);
    assert forall|k: int| 0 <= k < held_roles(roles, assigned_ids).len()
        implies assigned_ids is Some && views(assigned_ids->0@).contains(#[trigger] held_roles(roles, assigned_ids)[k].id@) by {
        let x = held_roles(roles, assigned_ids)[k];
        assert(p(x));
        assert(held(x, ids_view(assigned_ids)));
        assert(assigned_ids is Some);
        assert(views(assigned_ids->0@).contains(x.id@));
    }
    if held_roles(roles, assigned_ids).len() > 0 {
        assert(views(assigned_ids->0@).contains(held_roles(roles, assigned_ids)[0].id@));
    }
    assert forall|i: int| 0 <= i < roles.len() implies (held_roles(roles, assigned_ids).contains(#[trigger] roles[i])
        <==> (assigned_ids is Some && views(assigned_ids->0@).contains(roles[i].id@))) by {
        if held_roles(roles, assigned_ids).contains(roles[i]) {
            let k = choose|k: int| 0 <= k < held_roles(roles, assigned_ids).len() && held_roles(roles, assigned_ids)[k] == roles[i];
            assert(p(held_roles(roles, assigned_ids)[k]));
        }
    }
}

/// The roles the user holds, in the order of `roles`.
pub fn assigned_roles(roles: Vec<Role>, assigned_ids: Option<&Vec<String>>) -> (r: Vec<Role>)
    ensures
        r@ == roles@.filter(|x: Role| held(x, ids_view(assigned_ids))),
        forall|k: int| #![trigger r@[k]] 0 <= k < r@.len() ==> (assigned_ids is Some
            && views(assigned_ids->0@).contains(r@[k].id@)),
        forall|i: int| 0 <= i < roles@.len() ==> (r@.contains(#[trigger] roles@[i]) <==> (assigned_ids is Some
            && views(assigned_ids->0@).contains(roles@[i].id@))),
{
    proof {
        lemma_assigned_roles(roles@, assigned_ids);
    }
    let ghost a = ids_view(assigned_ids);
    let mut r: Vec<Role> = Vec::new();
    let mut src = roles;
    let ghost orig = src@;
    let ghost mut done: Seq<Role> = Seq::empty();
    while src.len() > 0
        invariant
            orig == done + src@,
            a == ids_view(assigned_ids),
            r@ == done.filter(|x: Role| held(x, ids_view(assigned_ids))),
        decreases src@.len(),
    {
        let ghost src0 = src@;
        let x = src.remove(0);
        proof {
            assert(src0 =~= seq![x] + src@);
            assert(orig =~= done.push(x) + src@);
            assert(done.push(x).drop_last() =~= done);
            reveal(Seq::filter);
        }
        let keep = match assigned_ids {
            Some(ids) => strings_contain(ids, x.id.as_str()),
            None => false,
        };
        proof {
            done = done.push(x);
        }
        if keep {
            r.push(x);
        }
    }
    assert(done =~= orig);
    r
}

/// The first policy of `entries` with the given name.
pub open spec fn policy_named(entries: Seq<(String, Policy)>, k: Seq<char>) -> Option<Policy>
    decreases entries.len(),
{
    if entries.len() == 0 {
        None
    } else if entries[0].0@ == k {
        Some(entries[0].1)
    } else {
        policy_named(entries.drop_first(), k)
    }
}

/// The first value of `entries` with the given name.
pub open spec fn value_named(entries: Seq<(String, String)>, k: Seq<char>) -> Option<Seq<char>>
    decreases entries.len(),
{
    if entries.len() == 0 {
        None
    } else if entries[0].0@ == k {
        Some(entries[0].1@)
    } else {
        value_named(entries.drop_first(), k)
    }
}

/// The value of a policy after the user's roles, taken in order: each role
/// whose own entry for the policy has a priority above -1 (the priority every
/// base policy keeps) sets it, to the base value when that entry falls back to
/// the default; the last such role wins.
pub open spec fn policy_after(roles: Seq<Role>, k: Seq<char>, base: Seq<char>) -> Seq<char>
    decreases roles.len(),
{
    if roles.len() == 0 {
        base
    } else {
        let prev = policy_after(roles.drop_last(), k, base);
        match policy_named(roles.last().policies@, k) {
            Some(p) => if -1 < p.priority {
                if p.use_default {
                    base
                } else {
                    p.value@
                }
            } else {
                prev
            },
            None => prev,
        }
    }
}

fn find_policy(entries: &Vec<(String, Policy)>, k: &str) -> (r: Option<usize>)
    ensures
        match r {
            Some(i) => i < entries@.len() && policy_named(entries@, k@) == Some(entries@[i as int].1),
            None => policy_named(entries@, k@) is None,
        },
{
    let target = k.to_owned();
    let mut i: usize = 0;
    assert(entries@.skip(0) =~= entries@);
    while i < entries.len()
        invariant
            i <= entries@.len(),
            target@ == k@,
            policy_named(entries@, k@) == policy_named(entries@.skip(i as int), k@),
        decreases entries@.len() - i,
    {
        proof {
            assert(entries@.skip(i as int)[0] == entries@[i as int]);
            assert(entries@.skip(i as int).drop_first() =~= entries@.skip(i + 1));
        }
        if entries[i].0 == target {
            return Some(i);
        }
        i = i + 1;
    }
    None
}

fn find_value(entries: &Vec<(String, String)>, k: &str) -> (r: Option<usize>)
    ensures
        match r {
            Some(i) => i < entries@.len() && value_named(entries@, k@) == Some(entries@[i as int].1@),
            None => value_named(entries@, k@) is None,
        },
{
    let target = k.to_owned();
    let mut i: usize = 0;
    assert(entries@.skip(0) =~= entries@);
    while i < entries.len()
        invariant
            i <= entries@.len(),
            target@ == k@,
            value_named(entries@, k@) == value_named(entries@.skip(i as int), k@),
        decreases entries@.len() - i,
    {
        proof {
            assert(entries@.skip(i as int)[0] == entries@[i as int]);
            assert(entries@.skip(i as int).drop_first() =~= entries@.skip(i + 1));
        }
        if entries[i].0 == target {
            return Some(i);
        }
        i = i + 1;
    }
    None
}

fn value_after(roles: &Vec<Role>, k: &str, base: &String) -> (r: String)
    ensures
        r@ == policy_after(roles@, k@, base@),
{
    let mut v = base.clone();
    let mut i: usize = 0;
    while i < roles.len()
        invariant
            i <= roles@.len(),
            v@ == policy_after(roles@.take(i as int), k@, base@),
        decreases roles@.len() - i,
    {
        proof {
            assert(roles@.take(i + 1).drop_last() =~= roles@.take(i as int));
            assert(roles@.take(i + 1).last() == roles@[i as int]);
        }
        match find_policy(&roles[i].policies, k) {
            Some(j) => {
                let p = &roles[i].policies[j].1;
                if -1 < p.priority {
                    if p.use_default {
                        v = base.clone();
                    } else {
                        v = p.value.clone();
                    }
                }
            },
            None => {},
        }
        i = i + 1;
    }
    assert(roles@.take(roles@.len() as int) =~= roles@);
    v
}

/// The base policies: each default, replaced by the server's setting where it
/// has one for that name.
pub open spec fn base_value(defaults: (String, String), meta: Option<Seq<(String, String)>>) -> Seq<char> {
    match meta {
        Some(m) => match value_named(m, defaults.0@) {
            Some(v) => v,
            None => defaults.1@,
        },
        None => defaults.1@,
    }
}

/// The value a policy resolves to (see `user_policies`).
pub open spec fn resolved_policy(d: (String, String), meta: Option<Seq<(String, String)>>, roles: Option<Seq<Role>>) -> Seq<char> {
    let base = base_value(d, meta);
    match roles {
        Some(rs) => policy_after(rs, d.0@, base),
        None => base,
    }
}

/// An entry of the result names the same policy as the default and holds its
/// resolved value.
pub open spec fn entry_resolved(e: (String, String), d: (String, String), meta: Option<Seq<(String, String)>>, roles: Option<Seq<Role>>) -> bool {
    e.0@ == d.0@ && e.1@ == resolved_policy(d, meta, roles)
}

pub open spec fn meta_view(meta: Option<&Vec<(String, String)>>) -> Option<Seq<(String, String)>> {
    match meta {
        Some(m) => Some(m@),
        None => None,
    }
}

pub open spec fn roles_view(roles: Option<&Vec<Role>>) -> Option<Seq<Role>> {
    match roles {
        Some(rs) => Some(rs@),
        None => None,
    }
}

/// A user's policies, by name in the order of the defaults: the base value
/// (see `base_value`) for a guest; for a user, that value after its roles (see
/// `policy_after`).
pub fn user_policies(
    defaults: &Vec<(String, String)>,
    meta: Option<&Vec<(String, String)>>,
    roles: Option<&Vec<Role>>,
) -> (r: Vec<(String, String)>)
    ensures
        r@.len() == defaults@.len(),
        forall|i: int| 0 <= i < r@.len() ==> #[trigger] entry_resolved(r@[i], defaults@[i], meta_view(meta), roles_view(roles)),
{
    let ghost mv = meta_view(meta);
    let ghost rv = roles_view(roles);
    let mut r: Vec<(String, String)> = Vec::new();
    let mut i: usize = 0;
    while i < defaults.len()
        invariant
            i <= defaults@.len(),
            r@.len() == i,
            mv == meta_view(meta),
            rv == roles_view(roles),
            forall|j: int| 0 <= j < i ==> #[trigger] entry_resolved(r@[j], defaults@[j], mv, rv),
        decreases defaults@.len() - i,
    {
        let k = &defaults[i].0;
        let base: String = match meta {
            Some(m) => match find_value(m, k.as_str()) {
                Some(j) => m[j].1.clone(),
                None => defaults[i].1.clone(),
            },
            None => defaults[i].1.clone(),
        };
        assert(base@ == base_value(defaults@[i as int], mv));
        let v = match roles {
            Some(rs) => value_after(rs, k.as_str(), &base),
            None => base,
        };
        let ghost old_r = r@;
        r.push((k.clone(), v));
        proof {
            assert(entry_resolved(r@[i as int], defaults@[i as int], mv, rv));
            assert forall|j: int| 0 <= j < i + 1 implies #[trigger] entry_resolved(r@[j], defaults@[j], mv, rv) by {
                if j < i {
                    assert(r@[j] == old_r[j]);
                    assert(entry_resolved(old_r[j], defaults@[j], mv, rv));
                }
            }
        }
        i = i + 1;
    }
    r
}

} // verus!

verus! {

/// An administrator is a moderator: any roles that make a user an
/// administrator also make it a moderator.
pub proof fn lemma_administrator_is_moderator(roles: Seq<Role>)
    ensures
        administers(roles) ==> moderates(roles),
{
    if administers(roles) {
        let i = choose|i: int| 0 <= i < roles.len() && #[trigger] grants_administration(roles[i]);
        assert(grants_moderation(roles[i]));
    }
}

/// Roles set a policy only by their own entries: when no role has an entry
/// above priority -1 for a policy, the user keeps the base value.
pub proof fn lemma_policy_without_overrides(roles: Seq<Role>, k: Seq<char>, base: Seq<char>)
    requires
        forall|i: int| 0 <= i < roles.len() ==> !(#[trigger] policy_named(roles[i].policies@, k) matches Some(p) && -1 < p.priority),
    ensures
        policy_after(roles, k, base) == base,
    decreases roles.len(),
{
    if roles.len() > 0 {
        let r = roles.drop_last();
        assert forall|i: int| 0 <= i < r.len() implies !(#[trigger] policy_named(r[i].policies@, k) matches Some(p) && -1 < p.priority) by {
            assert(r[i] == roles[i]);
        }
        lemma_policy_without_overrides(r, k, base);
        assert(roles.last() == roles[roles.len() - 1]);
    }
}

} // verus!

verus! {

/// The last role that sets a policy decides it: when role `i` has an entry for
/// the policy above priority -1 and no later role has one, the user gets that
/// entry's value, or the base value where the entry falls back to the default.
pub proof fn lemma_policy_last_setter(roles: Seq<Role>, k: Seq<char>, base: Seq<char>, i: int, p: Policy)
    requires
        0 <= i < roles.len(),
        policy_named(roles[i].policies@, k) == Some(p),
        -1 < p.priority,
        forall|j: int| i < j < roles.len() ==> !(#[trigger] policy_named(roles[j].policies@, k) matches Some(q) && -1 < q.priority),
    ensures
        policy_after(roles, k, base) == (if p.use_default { base } else { p.value@ }),
    decreases roles.len(),
{
    if i < roles.len() - 1 {
        let r = roles.drop_last();
        assert forall|j: int| i < j < r.len() implies !(#[trigger] policy_named(r[j].policies@, k) matches Some(q) && -1 < q.priority) by {
            assert(r[j] == roles[j]);
        }
        assert(r[i] == roles[i]);
        lemma_policy_last_setter(r, k, base, i, p);
        assert(roles.last() == roles[roles.len() - 1]);
    } else {
        assert(roles.last() == roles[i]);
    }
}

} // verus!
