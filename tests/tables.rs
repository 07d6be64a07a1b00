use kanban_db::db::Db;
use kanban_db::error::{classify, DbError, StoreFailure};
use kanban_db::models::{BoardSummary, CreateBoard, CreateCard, Status, StatusCount, UpdateCard};
use kanban_db::pool::{PoolConfig, DEFAULT_POOL_SIZE, MAX_POOL_SIZE};
use kanban_db::query::{is_recent_at, recent_cutoff, DAY_MICROS};
use kanban_db::text::{contains, contains_folded};

const T0: i64 = 1_700_000_000_000_000;

fn board(db: &mut Db, name: &str, now: i64) -> i64 {
    db.create_board_at(CreateBoard { name: name.to_string() }, now).unwrap().id
}

fn card(db: &mut Db, board_id: i64, text: &str, status: Status, now: i64) -> i64 {
    let c = db
        .create_card_at(CreateCard { board_id, description: text.to_string() }, now)
        .unwrap();
    if status != Status::Todo {
        db.update_card(c.id, UpdateCard { description: text.to_string(), status }).unwrap();
    }
    c.id
}

#[test]
fn created_board_is_found_by_id() {
    let mut db = Db::new();
    let a = db.create_board_at(CreateBoard { name: "Alpha".to_string() }, T0).unwrap();
    let b = db.create_board_at(CreateBoard { name: "Beta".to_string() }, T0 + 1).unwrap();
    assert_eq!(a.id, 1);
    assert_eq!(b.id, 2);
    assert_eq!(a.created_at, T0);
    let got = db.get_board_by_id(b.id).unwrap();
    assert_eq!(got.name, "Beta");
    assert_eq!(got.id, b.id);
    assert_eq!(got.created_at, T0 + 1);
}

#[test]
fn board_ids_are_not_reused_after_delete() {
    let mut db = Db::new();
    let a = board(&mut db, "A", T0);
    db.delete_board_by_id(a).unwrap();
    let b = board(&mut db, "B", T0);
    assert_ne!(a, b);
    assert_eq!(b, 2);
}

#[test]
fn deleted_board_is_not_found() {
    let mut db = Db::new();
    let a = board(&mut db, "A", T0);
    let b = board(&mut db, "B", T0);
    assert_eq!(db.delete_board_by_id(a), Ok(()));
    assert_eq!(db.get_board_by_id(a).unwrap_err(), DbError::NotFound);
    assert_eq!(db.get_board_by_id(b).unwrap().name, "B");
}

#[test]
fn deleting_a_board_keeps_its_cards() {
    let mut db = Db::new();
    let a = board(&mut db, "A", T0);
    card(&mut db, a, "x", Status::Todo, T0);
    db.delete_board_by_id(a).unwrap();
    assert_eq!(db.get_card_by_board_id(a).unwrap().len(), 1);
}

#[test]
fn all_boards_listed_by_creation_time() {
    let mut db = Db::new();
    board(&mut db, "first", T0);
    board(&mut db, "second", T0 + 10);
    // the clock never runs backwards: an earlier instant is lifted to the latest one
    board(&mut db, "third", T0 - 50);
    board(&mut db, "fourth", T0 + 20);
    let all = db.get_all_boards().unwrap();
    let names: Vec<&str> = all.iter().map(|b| b.name.as_str()).collect();
    assert_eq!(names, vec!["first", "second", "third", "fourth"]);
    let times: Vec<i64> = all.iter().map(|b| b.created_at).collect();
    assert_eq!(times, vec![T0, T0 + 10, T0 + 10, T0 + 20]);
    for w in all.windows(2) {
        assert!(w[0].created_at <= w[1].created_at);
    }
}

#[test]
fn summary_counts_each_status() {
    let mut db = Db::new();
    let b = board(&mut db, "work", T0);
    let other = board(&mut db, "other", T0);
    card(&mut db, b, "t1", Status::Todo, T0);
    card(&mut db, b, "t2", Status::Todo, T0);
    card(&mut db, b, "g1", Status::Doing, T0);
    card(&mut db, b, "d1", Status::Done, T0);
    card(&mut db, b, "d2", Status::Done, T0);
    card(&mut db, b, "d3", Status::Done, T0);
    card(&mut db, other, "o", Status::Done, T0);
    let s = db.board_summary(b).unwrap();
    assert_eq!(s, BoardSummary { todo: 2, doing: 1, done: 3 });
}

#[test]
fn summary_of_board_without_cards_is_zero() {
    let mut db = Db::new();
    let b = board(&mut db, "empty", T0);
    assert_eq!(db.board_summary(b).unwrap(), BoardSummary { todo: 0, doing: 0, done: 0 });
    assert_eq!(BoardSummary::default(), BoardSummary { todo: 0, doing: 0, done: 0 });
}

#[test]
fn summary_from_rows() {
    let rows = vec![
        StatusCount { count: 3, status: Status::Done },
        StatusCount { count: 2, status: Status::Todo },
        StatusCount { count: 4, status: Status::Done },
    ];
    assert_eq!(BoardSummary::from(rows), BoardSummary { todo: 2, doing: 0, done: 7 });
    assert_eq!(BoardSummary::from(Vec::new()), BoardSummary { todo: 0, doing: 0, done: 0 });
}

#[test]
fn status_counts_give_one_row_per_status() {
    let mut db = Db::new();
    let b = board(&mut db, "b", T0);
    card(&mut db, b, "x", Status::Doing, T0);
    let rows = db.status_counts(b);
    assert_eq!(
        rows,
        vec![
            StatusCount { count: 0, status: Status::Todo },
            StatusCount { count: 1, status: Status::Doing },
            StatusCount { count: 0, status: Status::Done },
        ]
    );
}

#[test]
fn delete_done_cards_keeps_the_rest() {
    let mut db = Db::new();
    let b = board(&mut db, "b", T0);
    let other = board(&mut db, "o", T0);
    card(&mut db, b, "t", Status::Todo, T0);
    card(&mut db, b, "g", Status::Doing, T0);
    card(&mut db, b, "d1", Status::Done, T0);
    card(&mut db, b, "d2", Status::Done, T0);
    card(&mut db, other, "od", Status::Done, T0);
    let before = db.board_summary(b).unwrap();
    assert_eq!(before, BoardSummary { todo: 1, doing: 1, done: 2 });
    db.delete_done_cards_by_board_id(b).unwrap();
    let after = db.board_summary(b).unwrap();
    assert_eq!(after, BoardSummary { todo: 1, doing: 1, done: 0 });
    assert_eq!(db.board_summary(other).unwrap(), BoardSummary { todo: 0, doing: 0, done: 1 });
    let left: Vec<String> = db.get_card_by_board_id(b).unwrap().into_iter().map(|c| c.description).collect();
    assert_eq!(left, vec!["t".to_string(), "g".to_string()]);
}

#[test]
fn name_search_folded_finds_sprint_planning() {
    let mut db = Db::new();
    board(&mut db, "Sprint Planning", T0);
    board(&mut db, "Backlog", T0);
    let found = db.get_recent_boards_name_contains_at("spr", T0).unwrap();
    assert_eq!(found.len(), 1);
    assert_eq!(found[0].name, "Sprint Planning");
}

#[test]
fn plain_name_search_matches_case() {
    let mut db = Db::new();
    board(&mut db, "Sprint Planning", T0);
    board(&mut db, "Backlog", T0);
    let upper = db.get_board_name_contains("Spr").unwrap();
    assert_eq!(upper.len(), 1);
    assert_eq!(upper[0].name, "Sprint Planning");
    assert!(db.get_board_name_contains("spr").unwrap().is_empty());
    assert_eq!(db.get_board_name_contains("log").unwrap()[0].name, "Backlog");
}

#[test]
fn exact_name_search() {
    let mut db = Db::new();
    board(&mut db, "Ops", T0);
    board(&mut db, "Ops team", T0);
    board(&mut db, "Ops", T0 + 1);
    let found = db.get_board_by_name("Ops").unwrap();
    assert_eq!(found.len(), 2);
    assert!(found.iter().all(|b| b.name == "Ops"));
}

#[test]
fn recent_boards_latest_first() {
    let mut db = Db::new();
    board(&mut db, "old", T0);
    board(&mut db, "edge", T0 + 1_000);
    board(&mut db, "new", T0 + 2 * DAY_MICROS);
    let now = T0 + 1_000 + DAY_MICROS;
    let found = db.get_recent_boards_at(now).unwrap();
    let names: Vec<&str> = found.iter().map(|b| b.name.as_str()).collect();
    assert_eq!(names, vec!["new", "edge"]);
}

#[test]
fn recent_and_name_both_required() {
    let mut db = Db::new();
    board(&mut db, "Release OLD", T0);
    board(&mut db, "release new", T0 + 3 * DAY_MICROS);
    board(&mut db, "other new", T0 + 3 * DAY_MICROS);
    let found = db.get_recent_boards_name_contains_at("RELEASE", T0 + 3 * DAY_MICROS).unwrap();
    assert_eq!(found.len(), 1);
    assert_eq!(found[0].name, "release new");
}

#[test]
fn recent_or_name_either_suffices() {
    let mut db = Db::new();
    board(&mut db, "Release OLD", T0);
    board(&mut db, "ancient", T0 + 1);
    board(&mut db, "other new", T0 + 3 * DAY_MICROS);
    let found = db.get_recent_boards_or_name_contains_at("release", T0 + 3 * DAY_MICROS).unwrap();
    let names: Vec<&str> = found.iter().map(|b| b.name.as_str()).collect();
    assert_eq!(names, vec!["other new", "Release OLD"]);
}

#[test]
fn boards_created_now_are_recent() {
    let mut db = Db::new();
    let b = db.create_board(CreateBoard { name: "today".to_string() }).unwrap();
    let found = db.get_recent_boards().unwrap();
    assert_eq!(found.len(), 1);
    assert_eq!(found[0].id, b.id);
    assert_eq!(db.get_recent_boards_name_contains("TOD").unwrap().len(), 1);
    assert_eq!(db.get_recent_boards_or_name_contains("zzz").unwrap().len(), 1);
    let c = db.create_card(CreateCard { board_id: b.id, description: "now".to_string() }).unwrap();
    assert!(c.created_at >= b.created_at);
}

#[test]
fn delete_missing_card_is_ok() {
    let mut db = Db::new();
    let b = board(&mut db, "b", T0);
    card(&mut db, b, "x", Status::Todo, T0);
    assert_eq!(db.delete_card_by_id(99), Ok(()));
    assert_eq!(db.get_all_cards().unwrap().len(), 1);
    let id = db.get_all_cards().unwrap()[0].id;
    assert_eq!(db.delete_card_by_id(id), Ok(()));
    assert_eq!(db.delete_card_by_id(id), Ok(()));
    assert!(db.get_all_cards().unwrap().is_empty());
}

#[test]
fn many_cards_get_distinct_ids_and_are_listed() {
    let mut db = Db::new();
    let b = board(&mut db, "b", T0);
    let n = 25;
    let mut ids = Vec::new();
    for i in 0..n {
        ids.push(card(&mut db, b, &format!("card {}", i), Status::Todo, T0 + i as i64));
    }
    let mut sorted = ids.clone();
    sorted.sort();
    sorted.dedup();
    assert_eq!(sorted.len(), n);
    let listed: Vec<i64> = db.get_card_by_board_id(b).unwrap().iter().map(|c| c.id).collect();
    assert_eq!(listed, ids);
}

#[test]
fn new_card_starts_todo() {
    let mut db = Db::new();
    let b = board(&mut db, "b", T0);
    let c = db.create_card_at(CreateCard { board_id: b, description: "d".to_string() }, T0).unwrap();
    assert_eq!(c.status, Status::Todo);
    assert_eq!(c.board_id, b);
    assert_eq!(c.description, "d");
}

#[test]
fn card_on_missing_board_is_refused() {
    let mut db = Db::new();
    let r = db.create_card_at(CreateCard { board_id: 7, description: "d".to_string() }, T0);
    assert_eq!(r.unwrap_err(), DbError::ConstraintViolation);
    assert!(db.get_all_cards().unwrap().is_empty());
}

#[test]
fn update_card_replaces_both_fields() {
    let mut db = Db::new();
    let b = board(&mut db, "b", T0);
    let id = card(&mut db, b, "before", Status::Todo, T0);
    let c = db
        .update_card(id, UpdateCard { description: "after".to_string(), status: Status::Doing })
        .unwrap();
    assert_eq!(c.id, id);
    assert_eq!(c.description, "after");
    assert_eq!(c.status, Status::Doing);
    let listed = db.get_all_cards().unwrap();
    assert_eq!(listed[0].description, "after");
    assert_eq!(listed[0].status, Status::Doing);
}

#[test]
fn update_missing_card_is_not_found() {
    let mut db = Db::new();
    let r = db.update_card(3, UpdateCard { description: "x".to_string(), status: Status::Done });
    assert_eq!(r.unwrap_err(), DbError::NotFound);
}

#[test]
fn cards_by_status_across_boards() {
    let mut db = Db::new();
    let a = board(&mut db, "a", T0);
    let b = board(&mut db, "b", T0);
    card(&mut db, a, "a1", Status::Done, T0);
    card(&mut db, b, "b1", Status::Todo, T0);
    card(&mut db, b, "b2", Status::Done, T0 + 1);
    let done: Vec<String> = db.get_card_by_status(Status::Done).unwrap().into_iter().map(|c| c.description).collect();
    assert_eq!(done, vec!["a1".to_string(), "b2".to_string()]);
}

#[test]
fn bulk_deletes() {
    let mut db = Db::new();
    let a = board(&mut db, "a", T0);
    let b = board(&mut db, "b", T0);
    card(&mut db, a, "a1", Status::Todo, T0);
    card(&mut db, b, "b1", Status::Todo, T0);
    db.delete_cards_by_board_id(a).unwrap();
    assert!(db.get_card_by_board_id(a).unwrap().is_empty());
    assert_eq!(db.get_card_by_board_id(b).unwrap().len(), 1);
    db.delete_all_cards().unwrap();
    assert!(db.get_all_cards().unwrap().is_empty());
    db.delete_all_boards().unwrap();
    assert!(db.get_all_boards().unwrap().is_empty());
}

#[test]
fn recency_window_bounds() {
    assert_eq!(recent_cutoff(T0), T0 - 86_400_000_000);
    assert_eq!(recent_cutoff(i64::MIN + 5), i64::MIN);
    assert!(is_recent_at(T0 - DAY_MICROS, T0));
    assert!(!is_recent_at(T0 - DAY_MICROS - 1, T0));
    assert!(is_recent_at(i64::MIN, i64::MIN + 1));
}

#[test]
fn substring_matching() {
    assert!(contains("Sprint Planning", "Plan"));
    assert!(!contains("Sprint Planning", "plan"));
    assert!(contains("abc", ""));
    assert!(contains_folded("Sprint Planning", "PLAN"));
    assert!(contains_folded("BACKLOG", "klo"));
    assert!(!contains_folded("Backlog", "spr"));
}

#[test]
fn pool_settings_are_bounded() {
    let c = PoolConfig::new("postgres://localhost/kanban".to_string());
    assert_eq!(c.max_size, DEFAULT_POOL_SIZE);
    assert_eq!(c.validate(), Ok(()));
    let empty = PoolConfig::new(String::new());
    assert_eq!(empty.validate(), Err(DbError::ConnectionError));
    let big = PoolConfig { url: "postgres://h/db".to_string(), min_idle: 0, max_size: MAX_POOL_SIZE + 1 };
    assert_eq!(big.validate(), Err(DbError::ConnectionError));
    let zero = PoolConfig { url: "postgres://h/db".to_string(), min_idle: 0, max_size: 0 };
    assert_eq!(zero.validate(), Err(DbError::ConnectionError));
    let idle = PoolConfig { url: "postgres://h/db".to_string(), min_idle: 5, max_size: 4 };
    assert_eq!(idle.validate(), Err(DbError::ConnectionError));
}

#[test]
fn driver_failures_are_classified() {
    assert_eq!(classify(StoreFailure::RowMissing), DbError::NotFound);
    assert_eq!(classify(StoreFailure::UniqueViolation), DbError::ConstraintViolation);
    assert_eq!(classify(StoreFailure::ForeignKeyViolation), DbError::ConstraintViolation);
    assert_eq!(classify(StoreFailure::ConnectionLost), DbError::ConnectionError);
    assert_eq!(classify(StoreFailure::CheckoutTimeout), DbError::PoolExhausted);
    assert_eq!(classify(StoreFailure::Other), DbError::QueryError);
}

#[test]
fn store_rows_are_checked_before_folding() {
    let ok = vec![
        StatusCount { count: 2, status: Status::Todo },
        StatusCount { count: 1, status: Status::Doing },
        StatusCount { count: 3, status: Status::Done },
    ];
    assert_eq!(BoardSummary::from_rows(ok), Ok(BoardSummary { todo: 2, doing: 1, done: 3 }));
    let negative = vec![StatusCount { count: -1, status: Status::Doing }];
    assert_eq!(BoardSummary::from_rows(negative), Err(DbError::QueryError));
    let overflow = vec![
        StatusCount { count: i64::MAX, status: Status::Done },
        StatusCount { count: 1, status: Status::Done },
    ];
    assert_eq!(BoardSummary::from_rows(overflow), Err(DbError::QueryError));
    let largest = vec![
        StatusCount { count: i64::MAX, status: Status::Done },
        StatusCount { count: i64::MAX, status: Status::Todo },
    ];
    assert_eq!(
        BoardSummary::from_rows(largest),
        Ok(BoardSummary { todo: i64::MAX, doing: 0, done: i64::MAX })
    );
    assert_eq!(BoardSummary::from_rows(Vec::new()), Ok(BoardSummary { todo: 0, doing: 0, done: 0 }));
}

#[test]
fn status_labels_are_read() {
    assert_eq!(Status::from_label("todo"), Some(Status::Todo));
    assert_eq!(Status::from_label("doing"), Some(Status::Doing));
    assert_eq!(Status::from_label("done"), Some(Status::Done));
    assert_eq!(Status::from_label("Done"), None);
    assert_eq!(Status::from_label(""), None);
}

#[test]
fn recent_or_name_finds_sprint_not_old_backlog() {
    let mut db = Db::new();
    board(&mut db, "Backlog", T0);
    board(&mut db, "Sprint Planning", T0 + 1);
    let found = db.get_recent_boards_or_name_contains_at("spr", T0 + 3 * DAY_MICROS).unwrap();
    assert!(found.iter().any(|b| b.name == "Sprint Planning"));
    assert!(!found.iter().any(|b| b.name == "Backlog"));
}
