//! What league administrators may do to players.
//!
//! An administrator acts within their own league; a super administrator
//! (one who may create leagues) acts in every league. Nobody deletes their
//! own account, a league never loses its last administrator, and nobody
//! revokes their own administrator rights.

use vstd::prelude::*;

use crate::users::{admin_count, find_id, lemma_admin_count_update, lemma_find_id_facts, update_first, UserView};

verus! {

/// Why an administrator action was refused.
#[derive(Debug, Clone, Copy, PartialEq, Eq, Structural)]
pub enum AdminRefusal {
    CrossLeagueForbidden,
    CannotDeleteSelf,
    AtLeastOneAdmin,
    CannotRevokeOwnAdmin,
}

/// Translation key of a refusal.
pub open spec fn refusal_key_of(r: AdminRefusal) -> Seq<char> {
    match r {
        AdminRefusal::CrossLeagueForbidden => "error-cross-league-forbidden"@,
        AdminRefusal::CannotDeleteSelf => "error-cannot-delete-self"@,
        AdminRefusal::AtLeastOneAdmin => "error-at-least-one-admin"@,
        AdminRefusal::CannotRevokeOwnAdmin => "error-cannot-revoke-own-admin"@,
    }
}

impl AdminRefusal {
    pub fn key(&self) -> (k: &'static str)
        ensures
            k@ == refusal_key_of(*self),
    {
        match self {
            AdminRefusal::CrossLeagueForbidden => "error-cross-league-forbidden",
            AdminRefusal::CannotDeleteSelf => "error-cannot-delete-self",
            AdminRefusal::AtLeastOneAdmin => "error-at-least-one-admin",
            AdminRefusal::CannotRevokeOwnAdmin => "error-cannot-revoke-own-admin",
        }
    }
}

/// The acting administrator.
#[derive(Debug, Clone, Copy)]
pub struct Actor {
    pub id: u128,
    pub league_id: u128,
    pub can_create_league: bool,
}

/// The actor may manage league `league_id`.
pub open spec fn may_manage(actor: Actor, league_id: u128) -> bool {
    actor.league_id == league_id || actor.can_create_league
}

/// Whether the actor may manage a league.
pub fn ensure_league_access(actor: &Actor, league_id: u128) -> (r: Result<(), AdminRefusal>)
    ensures
        r == if may_manage(*actor, league_id) {
            Ok::<(), AdminRefusal>(())
        } else {
            Err::<(), AdminRefusal>(AdminRefusal::CrossLeagueForbidden)
        },
{
    if actor.league_id == league_id || actor.can_create_league {
        Ok(())
    } else {
        Err(AdminRefusal::CrossLeagueForbidden)
    }
}

/// Whether the actor may delete a player of league `target_league`: never
/// themselves, only in a league they manage.
pub open spec fn delete_check(actor: Actor, target_id: u128, target_league: u128) -> Result<(), AdminRefusal> {
    if target_id == actor.id {
        Err(AdminRefusal::CannotDeleteSelf)
    } else if !may_manage(actor, target_league) {
        Err(AdminRefusal::CrossLeagueForbidden)
    } else {
        Ok(())
    }
}

pub fn check_delete(actor: &Actor, target_id: u128, target_league: u128) -> (r: Result<(), AdminRefusal>)
    ensures
        r == delete_check(*actor, target_id, target_league),
{
    if target_id == actor.id {
        return Err(AdminRefusal::CannotDeleteSelf);
    }
    ensure_league_access(actor, target_league)
}

/// The administrator flag a toggle gives a player, given how many
/// administrators there are: only in a league the actor manages; revoking
/// needs another administrator to remain and is never done to oneself.
pub open spec fn toggle_result(actor: Actor, target_id: u128, target_league: u128, target_is_admin: bool, admin_count: i64) -> Result<bool, AdminRefusal> {
    if !may_manage(actor, target_league) {
        Err(AdminRefusal::CrossLeagueForbidden)
    } else if target_is_admin && admin_count <= 1 {
        Err(AdminRefusal::AtLeastOneAdmin)
    } else if target_is_admin && target_id == actor.id {
        Err(AdminRefusal::CannotRevokeOwnAdmin)
    } else {
        Ok(!target_is_admin)
    }
}

pub fn toggle_admin(actor: &Actor, target_id: u128, target_league: u128, target_is_admin: bool, admin_count: i64) -> (r: Result<bool, AdminRefusal>)
    ensures
        r == toggle_result(*actor, target_id, target_league, target_is_admin, admin_count),
{
    if !(actor.league_id == target_league || actor.can_create_league) {
        return Err(AdminRefusal::CrossLeagueForbidden);
    }
    let new_admin = !target_is_admin;
    if !new_admin {
        if admin_count <= 1 {
            return Err(AdminRefusal::AtLeastOneAdmin);
        }
        if target_id == actor.id {
            return Err(AdminRefusal::CannotRevokeOwnAdmin);
        }
    }
    Ok(new_admin)
}

// ─── Laws ─────────────────────────────────────────────────────────────────────

/// A granted revocation leaves at least one other administrator, and never
/// concerns the actor.
pub proof fn lemma_revocation_keeps_an_admin(actor: Actor, target_id: u128, target_league: u128, target_is_admin: bool, admin_count: i64)
    ensures
        toggle_result(actor, target_id, target_league, target_is_admin, admin_count) == Ok::<bool, AdminRefusal>(false)
            ==> admin_count >= 2 && target_id != actor.id && target_is_admin,
{
}

/// Whatever an administrator may do to a player happens in a league they
/// manage.
pub proof fn lemma_actions_stay_in_managed_leagues(actor: Actor, target_id: u128, target_league: u128, target_is_admin: bool, admin_count: i64)
    ensures
        delete_check(actor, target_id, target_league) is Ok ==> may_manage(actor, target_league),
        toggle_result(actor, target_id, target_league, target_is_admin, admin_count) is Ok ==> may_manage(actor, target_league),
{
}

/// A toggle the rules grant, applied to the store, leaves at least one
/// administrator.
pub proof fn lemma_toggle_keeps_an_admin(actor: Actor, us: Seq<UserView>, id: u128, flag: bool)
    requires
        admin_count(us) >= 1,
        admin_count(us) <= i64::MAX,
        find_id(us, id) is Some,
        toggle_result(actor, id, us[find_id(us, id).unwrap()].league_id, us[find_id(us, id).unwrap()].is_admin,
            admin_count(us) as i64) == Ok::<bool, AdminRefusal>(flag),
    ensures
        admin_count(update_first(us, id, |u: UserView| UserView { is_admin: flag, ..u })) >= 1,
{
    let k = find_id(us, id).unwrap();
    lemma_find_id_facts(us, id);
    lemma_admin_count_update(us, k, UserView { is_admin: flag, ..us[k] });
}

} // verus!
