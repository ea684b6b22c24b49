use pila::invites::MemoryInviteRepo;

#[test]
fn create_then_find_by_token_round_trips() {
    let mut repo = MemoryInviteRepo::new();
    let league = 0x1EA;
    repo.create(league, "tok-1", Some("Office"));
    let found = repo.find_by_token("tok-1").unwrap();
    assert_eq!(found.league_id, league);
    assert_eq!(found.label.as_deref(), Some("Office"));
}

#[test]
fn list_is_scoped_to_league() {
    let mut repo = MemoryInviteRepo::new();
    let a = 0xA;
    let b = 0xB;
    repo.create(a, "a1", None);
    repo.create(a, "a2", None);
    repo.create(b, "b1", None);
    assert_eq!(repo.list_for_league(a).len(), 2);
    assert_eq!(repo.list_for_league(b).len(), 1);
}

#[test]
fn delete_revokes_token() {
    let mut repo = MemoryInviteRepo::new();
    let league = 0x1EA;
    let id = repo.create(league, "tok", None);
    repo.delete(id);
    assert!(repo.find_by_token("tok").is_none());
    assert!(repo.find_by_id(id).is_none());
}

#[test]
fn find_by_id_and_newest_first() {
    let mut repo = MemoryInviteRepo::new();
    let first = repo.create(1, "t1", Some("first"));
    let second = repo.create(1, "t2", None);
    assert_ne!(first, second);
    assert_eq!(repo.find_by_id(second).unwrap().token, "t2");
    let list = repo.list_for_league(1);
    assert!(list[0].created_at >= list[1].created_at);
    assert!(repo.find_by_token("t3").is_none());
}
