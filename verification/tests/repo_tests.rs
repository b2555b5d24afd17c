use memo_repo::repo::MemoRepository;

#[test]
fn create_then_get_returns_record() {
    let mut repo = MemoRepository::new();
    let m = repo.create(String::from("buy milk"), 100);
    assert_eq!(m.id, 1);
    assert_eq!(m.content, "buy milk");
    assert_eq!(m.created_at, 100);
    let got = repo.get_active_by_id(1).unwrap();
    assert_eq!(got.id, 1);
    assert_eq!(got.content, "buy milk");
    assert_eq!(got.created_at, 100);
}

#[test]
fn create_accepts_empty_content() {
    let mut repo = MemoRepository::new();
    let m = repo.create(String::new(), 7);
    assert_eq!(m.id, 1);
    assert_eq!(m.content, "");
    let got = repo.get_active_by_id(1).unwrap();
    assert_eq!(got.content, "");
}

#[test]
fn ids_are_sequential_and_unique() {
    let mut repo = MemoRepository::new();
    let a = repo.create(String::from("a"), 1);
    let b = repo.create(String::from("b"), 2);
    let c = repo.create(String::from("c"), 3);
    assert_eq!((a.id, b.id, c.id), (1, 2, 3));
    assert_eq!(repo.row_count(), 3);
}

#[test]
fn get_unknown_id_is_empty_not_error() {
    let mut repo = MemoRepository::new();
    assert!(repo.get_active_by_id(1).is_none());
    repo.create(String::from("note"), 1);
    assert!(repo.get_active_by_id(0).is_none());
    assert!(repo.get_active_by_id(-5).is_none());
    assert!(repo.get_active_by_id(2).is_none());
}

#[test]
fn soft_delete_hides_record_everywhere() {
    let mut repo = MemoRepository::new();
    let m = repo.create(String::from("buy milk"), 10);
    repo.soft_delete(m.id);
    assert!(repo.get_active_by_id(m.id).is_none());
    assert_eq!(repo.list_active(10).len(), 0);
    assert_eq!(repo.search_active("milk").len(), 0);
    assert_eq!(repo.search_active("").len(), 0);
    // the row is tombstoned, not physically removed
    assert_eq!(repo.row_count(), 1);
}

#[test]
fn soft_delete_nonexistent_is_noop() {
    let mut repo = MemoRepository::new();
    repo.create(String::from("keep me"), 5);
    repo.soft_delete(42);
    repo.soft_delete(-1);
    let listed = repo.list_active(10);
    assert_eq!(listed.len(), 1);
    assert_eq!(listed[0].content, "keep me");
}

#[test]
fn soft_delete_is_idempotent() {
    let mut repo = MemoRepository::new();
    let a = repo.create(String::from("a"), 1);
    repo.create(String::from("b"), 2);
    repo.soft_delete(a.id);
    repo.soft_delete(a.id);
    let listed = repo.list_active(10);
    assert_eq!(listed.len(), 1);
    assert_eq!(listed[0].content, "b");
}

#[test]
fn list_active_orders_most_recent_first() {
    let mut repo = MemoRepository::new();
    repo.create(String::from("oldest"), 10);
    repo.create(String::from("newest"), 30);
    repo.create(String::from("middle"), 20);
    let listed = repo.list_active(10);
    assert_eq!(listed.len(), 3);
    assert_eq!(listed[0].content, "newest");
    assert_eq!(listed[1].content, "middle");
    assert_eq!(listed[2].content, "oldest");
}

#[test]
fn list_active_truncates_to_limit() {
    let mut repo = MemoRepository::new();
    repo.create(String::from("a"), 1);
    repo.create(String::from("b"), 2);
    repo.create(String::from("c"), 3);
    let listed = repo.list_active(2);
    assert_eq!(listed.len(), 2);
    assert_eq!(listed[0].content, "c");
    assert_eq!(listed[1].content, "b");
}

#[test]
fn list_active_limit_zero_is_empty() {
    let mut repo = MemoRepository::new();
    repo.create(String::from("a"), 1);
    assert_eq!(repo.list_active(0).len(), 0);
}

#[test]
fn list_active_on_empty_store_is_empty() {
    let repo = MemoRepository::new();
    assert_eq!(repo.list_active(5).len(), 0);
}

#[test]
fn list_active_with_equal_timestamps_keeps_both() {
    let mut repo = MemoRepository::new();
    repo.create(String::from("first"), 5);
    repo.create(String::from("second"), 5);
    let listed = repo.list_active(10);
    assert_eq!(listed.len(), 2);
    // ties may come in either order, but both must be there, once each
    assert_ne!(listed[0].id, listed[1].id);
    let one = repo.list_active(1);
    assert_eq!(one.len(), 1);
    assert_eq!(one[0].created_at, 5);
}

#[test]
fn search_active_finds_exactly_matching_records() {
    let mut repo = MemoRepository::new();
    repo.create(String::from("buy milk"), 1);
    repo.create(String::from("walk dog"), 2);
    repo.create(String::from("milk the cow"), 3);
    let found = repo.search_active("milk");
    assert_eq!(found.len(), 2);
    assert!(found.iter().any(|m| m.content == "buy milk"));
    assert!(found.iter().any(|m| m.content == "milk the cow"));
    assert_eq!(repo.search_active("cat").len(), 0);
}

#[test]
fn search_active_empty_needle_matches_all_active() {
    let mut repo = MemoRepository::new();
    repo.create(String::from("a"), 1);
    let b = repo.create(String::from("b"), 2);
    repo.soft_delete(b.id);
    let found = repo.search_active("");
    assert_eq!(found.len(), 1);
    assert_eq!(found[0].content, "a");
}

#[test]
fn search_active_skips_deleted_whatever_content() {
    let mut repo = MemoRepository::new();
    let m = repo.create(String::from("buy milk"), 1);
    repo.create(String::from("more milk"), 2);
    repo.soft_delete(m.id);
    let found = repo.search_active("milk");
    assert_eq!(found.len(), 1);
    assert_eq!(found[0].content, "more milk");
}

#[test]
fn search_treats_every_character_literally() {
    let mut repo = MemoRepository::new();
    repo.create(String::from("100% done"), 1);
    repo.create(String::from("plain note"), 2);
    let found = repo.search_active("%");
    assert_eq!(found.len(), 1);
    assert_eq!(found[0].content, "100% done");
    assert_eq!(repo.search_active("x%").len(), 0);
    assert_eq!(repo.search_active("_").len(), 0);
}

#[test]
fn update_content_changes_only_content() {
    let mut repo = MemoRepository::new();
    let m = repo.create(String::from("draft"), 50);
    repo.update_content(m.id, String::from("final text"));
    let got = repo.get_active_by_id(m.id).unwrap();
    assert_eq!(got.id, m.id);
    assert_eq!(got.created_at, 50);
    assert_eq!(got.content, "final text");
}

#[test]
fn update_content_on_unknown_id_is_noop() {
    let mut repo = MemoRepository::new();
    repo.create(String::from("only"), 1);
    repo.update_content(9, String::from("ghost write"));
    let listed = repo.list_active(10);
    assert_eq!(listed.len(), 1);
    assert_eq!(listed[0].content, "only");
}

#[test]
fn update_of_deleted_record_stays_unobservable() {
    let mut repo = MemoRepository::new();
    let m = repo.create(String::from("secret"), 1);
    repo.soft_delete(m.id);
    // the update is accepted silently, but no filtered read can see it
    repo.update_content(m.id, String::from("rewritten"));
    assert!(repo.get_active_by_id(m.id).is_none());
    assert_eq!(repo.search_active("rewritten").len(), 0);
    assert_eq!(repo.list_active(10).len(), 0);
}

#[test]
fn scenario_two_memos_then_delete() {
    let mut repo = MemoRepository::new();
    let buy_milk = repo.create(String::from("buy milk"), 100);
    repo.create(String::from("walk dog"), 200);
    let listed = repo.list_active(5);
    assert_eq!(listed.len(), 2);
    assert_eq!(listed[0].content, "walk dog");
    assert_eq!(listed[1].content, "buy milk");
    repo.soft_delete(buy_milk.id);
    let listed = repo.list_active(5);
    assert_eq!(listed.len(), 1);
    assert_eq!(listed[0].content, "walk dog");
    assert_eq!(repo.search_active("milk").len(), 0);
}
