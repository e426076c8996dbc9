use app_store_scraper::pull::{
    insert_outcome, DbError, InsertOutcome, PullAction, ReviewPull, Tally,
};
use app_store_scraper::review::Review;
use app_store_scraper::timestamp::Timestamp;

fn at(secs: i64) -> Timestamp {
    Timestamp::new(secs, 0).unwrap()
}

fn review(id: usize, updated: i64) -> Review {
    Review {
        review_id: id.to_string(),
        app_id: "77".to_string(),
        title: "t".to_string(),
        body: "b".to_string(),
        rating: 3,
        version: "1".to_string(),
        updated_at: at(updated),
        author_name: "a".to_string(),
        inserted_at: at(0),
        xml_raw: "".to_string(),
    }
}

fn asked_page(pull: &ReviewPull) -> Option<usize> {
    match pull.action() {
        PullAction::FetchPage { page } => Some(page),
        _ => None,
    }
}

fn asked_review(pull: &ReviewPull) -> Option<String> {
    match pull.action() {
        PullAction::InsertReview { review } => Some(review.review_id.clone()),
        _ => None,
    }
}

fn is_done(pull: &ReviewPull) -> bool {
    matches!(pull.action(), PullAction::Finish)
}

#[test]
fn answers_of_the_database_are_told_apart() {
    assert_eq!(insert_outcome(&Ok(())), InsertOutcome::Inserted);
    assert_eq!(
        insert_outcome(&Err(DbError::Sqlite { extended_code: 1555 })),
        InsertOutcome::Duplicate,
    );
    assert_eq!(
        insert_outcome(&Err(DbError::Sqlite { extended_code: 2067 })),
        InsertOutcome::Failed,
    );
    assert_eq!(insert_outcome(&Err(DbError::Other)), InsertOutcome::Failed);
}

#[test]
fn pages_are_asked_for_in_order_and_end() {
    let mut pull = ReviewPull::new();
    for page in 1..10 {
        assert_eq!(asked_page(&pull), Some(page));
        if page % 2 == 0 {
            pull.page_failed();
        } else {
            pull.page_read(vec![]);
        }
    }
    assert!(is_done(&pull));
    assert_eq!(pull.tally(), Tally { scraped: None, oldest: None, newest: None });
}

#[test]
fn saved_reviews_are_counted_with_their_oldest_and_newest() {
    let mut pull = ReviewPull::new();
    pull.page_read(vec![review(1, 50), review(2, 70), review(3, 20), review(4, 90), review(5, 1)]);
    assert_eq!(asked_review(&pull), Some("1".to_string()));
    pull.tried(InsertOutcome::Inserted);
    assert_eq!(pull.tally(), Tally { scraped: Some(1), oldest: Some(at(50)), newest: Some(at(50)) });
    pull.tried(InsertOutcome::Inserted);
    assert_eq!(asked_review(&pull), Some("3".to_string()));
    pull.tried(InsertOutcome::Inserted);
    pull.tried(InsertOutcome::Duplicate);
    pull.tried(InsertOutcome::Failed);
    assert_eq!(pull.tally(), Tally { scraped: Some(3), oldest: Some(at(20)), newest: Some(at(70)) });
    assert_eq!(asked_page(&pull), Some(2));
    pull.page_read(vec![review(6, 10)]);
    pull.tried(InsertOutcome::Inserted);
    assert_eq!(pull.tally(), Tally { scraped: Some(4), oldest: Some(at(10)), newest: Some(at(70)) });
}

#[test]
fn a_full_page_of_duplicates_ends_the_pull() {
    let mut pull = ReviewPull::new();
    pull.page_read((0..60).map(|i| review(i, 5)).collect());
    pull.tried(InsertOutcome::Inserted);
    for _ in 0..49 {
        pull.tried(InsertOutcome::Duplicate);
        assert!(!is_done(&pull));
    }
    pull.tried(InsertOutcome::Duplicate);
    assert!(is_done(&pull));
    assert_eq!(pull.tally().scraped, Some(1));
}

#[test]
fn duplicates_are_counted_by_page() {
    let mut pull = ReviewPull::new();
    for page in 1..10 {
        assert_eq!(asked_page(&pull), Some(page));
        pull.page_read((0..49).map(|i| review(i, 5)).collect());
        for _ in 0..49 {
            pull.tried(InsertOutcome::Duplicate);
        }
    }
    assert!(is_done(&pull));
    assert_eq!(pull.tally().scraped, None);
}

#[test]
fn events_out_of_turn_change_nothing() {
    let mut pull = ReviewPull::new();
    pull.tried(InsertOutcome::Inserted);
    assert_eq!(asked_page(&pull), Some(1));
    assert_eq!(pull.tally().scraped, None);
    pull.page_read(vec![review(1, 5)]);
    pull.page_failed();
    pull.page_read(vec![review(2, 5)]);
    assert_eq!(asked_review(&pull), Some("1".to_string()));
    for _ in 0..20 {
        pull.tried(InsertOutcome::Failed);
        pull.page_failed();
    }
    assert!(is_done(&pull));
    pull.page_read(vec![review(3, 5)]);
    assert!(is_done(&pull));
}

#[test]
fn a_tally_counts_and_has_room() {
    let mut tally = Tally::new();
    assert!(tally.has_room());
    tally.count(at(4));
    tally.count(at(4));
    assert_eq!(tally, Tally { scraped: Some(2), oldest: Some(at(4)), newest: Some(at(4)) });
    tally.scraped = Some(i64::MAX);
    assert!(!tally.has_room());
}

#[test]
fn a_whole_pull_stops_counting_at_a_full_page_of_duplicates() {
    let mut pull = ReviewPull::new();
    let mut events = 0;
    pull.page_failed();
    pull.page_read(vec![review(1, 40), review(2, 30)]);
    pull.tried(InsertOutcome::Inserted);
    pull.tried(InsertOutcome::Failed);
    pull.page_read((0..52).map(|i| review(i, 10)).collect());
    while !is_done(&pull) {
        pull.tried(InsertOutcome::Duplicate);
        events += 1;
    }
    assert_eq!(events, 50);
    pull.tried(InsertOutcome::Inserted);
    assert_eq!(pull.tally(), Tally { scraped: Some(1), oldest: Some(at(40)), newest: Some(at(40)) });
}

#[test]
fn a_pull_of_full_pages_ends_after_the_last() {
    let mut pull = ReviewPull::new();
    let mut events = 0;
    while !is_done(&pull) {
        match asked_page(&pull) {
            Some(_) => pull.page_read((0..3).map(|i| review(i, i as i64)).collect()),
            None => pull.tried(InsertOutcome::Inserted),
        }
        events += 1;
    }
    assert_eq!(events, 9 * (3 + 1));
    assert_eq!(pull.tally(), Tally { scraped: Some(27), oldest: Some(at(0)), newest: Some(at(2)) });
}
