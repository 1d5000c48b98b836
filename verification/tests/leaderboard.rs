use x3_counter::database::leaderboard::{is_row_le, LeaderboardRow};
use x3_counter::database::unsigned::PsqlU;
use x3_counter::database::DatabaseHandler;

fn summary(rows: &Vec<LeaderboardRow>) -> Vec<(String, u64, u32, u64)> {
    rows.iter().map(|r| (r.emote.clone(), r.user_id.0, r.count.0, r.rank.0)).collect()
}

fn row(emote: &str, user_id: u64, count: u32, rank: u64) -> (String, u64, u32, u64) {
    (emote.to_owned(), user_id, count, rank)
}

#[test]
fn ties_share_a_rank_and_the_next_count_follows() {
    let mut db = DatabaseHandler::new();
    db.set_count(1, 10, "x3", 10).unwrap();
    db.set_count(2, 10, "x3", 10).unwrap();
    db.set_count(3, 10, "x3", 7).unwrap();
    let rows = db.leaderboard(10, 2);
    assert_eq!(
        summary(&rows),
        vec![row("x3", 1, 10, 1), row("x3", 2, 10, 1), row("x3", 3, 7, 2)]
    );
    let top = db.leaderboard(10, 1);
    assert_eq!(summary(&top), vec![row("x3", 1, 10, 1), row("x3", 2, 10, 1)]);
    assert!(db.leaderboard(10, 0).is_empty());
}

#[test]
fn ranks_are_dense() {
    let mut db = DatabaseHandler::new();
    db.set_count(1, 10, "x3", 5).unwrap();
    db.set_count(2, 10, "x3", 9).unwrap();
    db.set_count(3, 10, "x3", 9).unwrap();
    db.set_count(4, 10, "x3", 9).unwrap();
    db.set_count(5, 10, "x3", 2).unwrap();
    db.set_count(6, 10, "x3", 5).unwrap();
    let rows = db.leaderboard(10, 5);
    assert_eq!(
        summary(&rows),
        vec![
            row("x3", 2, 9, 1),
            row("x3", 3, 9, 1),
            row("x3", 4, 9, 1),
            row("x3", 1, 5, 2),
            row("x3", 6, 5, 2),
            row("x3", 5, 2, 3),
        ]
    );
    let two = db.leaderboard(10, 2);
    assert_eq!(two.len(), 5);
    assert_eq!(two[4].rank.0, 2);
}

#[test]
fn tokens_are_ranked_apart_and_ordered() {
    let mut db = DatabaseHandler::new();
    db.set_count(1, 10, "x3", 4).unwrap();
    db.set_count(1, 10, ":3", 1).unwrap();
    db.set_count(2, 10, "x3", 6).unwrap();
    db.set_count(2, 10, ":3", 3).unwrap();
    db.set_count(3, 10, "uwu", 2).unwrap();
    let rows = db.leaderboard(10, 3);
    assert_eq!(
        summary(&rows),
        vec![
            row(":3", 2, 3, 1),
            row(":3", 1, 1, 2),
            row("uwu", 3, 2, 1),
            row("x3", 2, 6, 1),
            row("x3", 1, 4, 2),
        ]
    );
    let first = db.leaderboard(10, 1);
    assert_eq!(
        summary(&first),
        vec![row(":3", 2, 3, 1), row("uwu", 3, 2, 1), row("x3", 2, 6, 1)]
    );
}

#[test]
fn other_guilds_do_not_count() {
    let mut db = DatabaseHandler::new();
    db.set_count(1, 10, "x3", 4).unwrap();
    db.set_count(2, 11, "x3", 9).unwrap();
    db.set_count(3, 11, "x3", 8).unwrap();
    assert_eq!(summary(&db.leaderboard(10, 3)), vec![row("x3", 1, 4, 1)]);
    assert_eq!(
        summary(&db.leaderboard(11, 3)),
        vec![row("x3", 2, 9, 1), row("x3", 3, 8, 2)]
    );
    assert!(db.leaderboard(12, 3).is_empty());
    assert!(DatabaseHandler::new().leaderboard(10, 3).is_empty());
}

#[test]
fn leaderboard_follows_increments() {
    let mut db = DatabaseHandler::new();
    for _ in 0..3 {
        db.add_one(1, 10, "x3").unwrap();
    }
    db.add_one(2, 10, "X3").unwrap();
    let rows = db.leaderboard(10, u64::MAX);
    assert_eq!(summary(&rows), vec![row("x3", 1, 3, 1), row("x3", 2, 1, 2)]);
}

#[test]
fn row_text_shows_rank_user_and_count() {
    let line = LeaderboardRow {
        emote: "x3".to_owned(),
        user_id: PsqlU(1072524113411362846),
        count: PsqlU(12),
        rank: PsqlU(3),
    };
    assert_eq!(line.to_text(), "3\\. <@1072524113411362846> - 12");
}

#[test]
fn rows_order_by_token_then_rank() {
    let a = LeaderboardRow { emote: ":3".to_owned(), user_id: PsqlU(1), count: PsqlU(1), rank: PsqlU(5) };
    let b = LeaderboardRow { emote: "x3".to_owned(), user_id: PsqlU(1), count: PsqlU(1), rank: PsqlU(1) };
    let c = LeaderboardRow { emote: "x3".to_owned(), user_id: PsqlU(2), count: PsqlU(1), rank: PsqlU(2) };
    assert!(is_row_le(&a, &b));
    assert!(!is_row_le(&b, &a));
    assert!(is_row_le(&b, &c));
    assert!(!is_row_le(&c, &b));
    assert!(is_row_le(&b, &b));
}
