use pila::admin::{check_delete, ensure_league_access, toggle_admin, Actor, AdminRefusal};
use pila::users::{MemoryUserRepo, UserFull};

const LEAGUE: u128 = 10;
const OTHER: u128 = 20;

fn admin(id: u128) -> Actor {
    Actor { id, league_id: LEAGUE, can_create_league: false }
}

fn super_admin(id: u128) -> Actor {
    Actor { id, league_id: LEAGUE, can_create_league: true }
}

#[test]
fn league_admin_stays_in_own_league() {
    assert_eq!(ensure_league_access(&admin(1), LEAGUE), Ok(()));
    assert_eq!(ensure_league_access(&admin(1), OTHER), Err(AdminRefusal::CrossLeagueForbidden));
    assert_eq!(ensure_league_access(&super_admin(1), OTHER), Ok(()));
}

#[test]
fn delete_refuses_self_and_foreign_leagues() {
    assert_eq!(check_delete(&admin(1), 1, LEAGUE), Err(AdminRefusal::CannotDeleteSelf));
    assert_eq!(check_delete(&admin(1), 2, OTHER), Err(AdminRefusal::CrossLeagueForbidden));
    assert_eq!(check_delete(&admin(1), 2, LEAGUE), Ok(()));
    assert_eq!(check_delete(&super_admin(1), 2, OTHER), Ok(()));
    // Deleting oneself is refused first, even across leagues.
    assert_eq!(check_delete(&super_admin(1), 1, OTHER), Err(AdminRefusal::CannotDeleteSelf));
}

#[test]
fn toggle_grants_and_revokes() {
    assert_eq!(toggle_admin(&admin(1), 2, LEAGUE, false, 1), Ok(true));
    assert_eq!(toggle_admin(&admin(1), 2, LEAGUE, true, 2), Ok(false));
    assert_eq!(toggle_admin(&admin(1), 2, LEAGUE, true, 1), Err(AdminRefusal::AtLeastOneAdmin));
    assert_eq!(toggle_admin(&admin(1), 1, LEAGUE, true, 3), Err(AdminRefusal::CannotRevokeOwnAdmin));
    assert_eq!(toggle_admin(&admin(1), 2, OTHER, false, 1), Err(AdminRefusal::CrossLeagueForbidden));
    // Granting oneself is allowed (it changes nothing for an admin).
    assert_eq!(toggle_admin(&admin(1), 1, LEAGUE, false, 1), Ok(true));
}

#[test]
fn refusal_keys() {
    assert_eq!(AdminRefusal::CrossLeagueForbidden.key(), "error-cross-league-forbidden");
    assert_eq!(AdminRefusal::CannotDeleteSelf.key(), "error-cannot-delete-self");
    assert_eq!(AdminRefusal::AtLeastOneAdmin.key(), "error-at-least-one-admin");
    assert_eq!(AdminRefusal::CannotRevokeOwnAdmin.key(), "error-cannot-revoke-own-admin");
}

fn member(id: u128, name: &str, is_admin: bool) -> UserFull {
    UserFull {
        id,
        name: name.to_string(),
        real_name: name.to_string(),
        token: format!("t{}", id),
        phone_number: None,
        email: None,
        is_admin,
        can_create_league: false,
        league_id: LEAGUE,
        language: "de".to_string(),
    }
}

/// Applies a toggle to the store as the administrators' page does.
fn toggle_in_store(repo: &mut MemoryUserRepo, actor: &Actor, id: u128) -> Result<bool, AdminRefusal> {
    let target = repo.find_full_by_id(id).unwrap();
    let r = toggle_admin(actor, id, target.league_id, target.is_admin, repo.count_admins());
    if let Ok(flag) = r {
        repo.set_admin(id, flag);
    }
    r
}

#[test]
fn toggling_admins_in_the_store_keeps_one() {
    let mut repo = MemoryUserRepo::new();
    repo.seed(member(1, "Ada", true), "classic");
    repo.seed(member(2, "Bea", true), "classic");
    let actor = admin(1);
    assert_eq!(toggle_in_store(&mut repo, &actor, 2), Ok(false));
    assert_eq!(repo.count_admins(), 1);
    assert_eq!(toggle_in_store(&mut repo, &actor, 1), Err(AdminRefusal::AtLeastOneAdmin));
    assert_eq!(toggle_in_store(&mut repo, &admin(2), 1), Err(AdminRefusal::AtLeastOneAdmin));
    assert_eq!(repo.count_admins(), 1);
}
