use app_store_scraper::app_version::AppVersion;
use app_store_scraper::pull::{PullAction, Tally};
use app_store_scraper::records::{
    app_row, record_scrape, review_row, CREATE_APPS, CREATE_REVIEWS, CREATE_SCRAPES, INSERT_APP,
    INSERT_REVIEW, INSERT_SCRAPE,
};
use app_store_scraper::review::Review;
use app_store_scraper::scrape::{
    app_ids_query, requested_mode, resolve_missing_apps, review_targets, Mode, ReviewScrape,
    ReviewTargets, ALL_APP_IDS, APP_CATEGORIES, RANKED_APP_IDS,
};
use app_store_scraper::text::parse_i64;
use app_store_scraper::timestamp::Timestamp;

fn at(secs: i64) -> Timestamp {
    Timestamp::new(secs, 0).unwrap()
}

fn ids(n: usize) -> Vec<String> {
    (0..n).map(|i| i.to_string()).collect()
}

fn listed(app_ids: &[&str]) -> ReviewTargets {
    ReviewTargets::Listed { app_ids: app_ids.iter().map(|id| id.to_string()).collect() }
}

/// The items of the first list in brackets after a word.
fn items_after<'a>(statement: &'a str, word: &str) -> Vec<&'a str> {
    let rest = &statement[statement.find(word).unwrap()..];
    let start = rest.find('(').unwrap() + 1;
    let end = rest.find(')').unwrap();
    rest[start..end].split(',').map(|item| item.trim()).collect()
}

/// The first word of each line that declares a column.
fn declared(statement: &str) -> Vec<&str> {
    statement
        .lines()
        .filter(|line| line.contains(" text") || line.contains(" integer"))
        .map(|line| line.split_whitespace().next().unwrap())
        .collect()
}

fn placeholders(n: usize) -> Vec<String> {
    (1..=n).map(|i| format!("${}", i)).collect()
}

#[test]
fn a_review_is_a_row_of_ten_columns() {
    let review = Review {
        review_id: "1".to_string(),
        app_id: "77".to_string(),
        title: "t".to_string(),
        body: "b".to_string(),
        rating: -3,
        version: "1.0".to_string(),
        updated_at: at(1),
        author_name: "a".to_string(),
        inserted_at: at(60),
        xml_raw: "<x/>".to_string(),
    };
    let row = review_row(&review);
    assert_eq!(
        row,
        vec![
            "1", "77", "t", "b", "-3", "1.0", "1970-01-01T00:00:01.000Z", "a",
            "1970-01-01T00:01:00.000Z", "<x/>",
        ],
    );
    assert_eq!(parse_i64(&row[4]), Some(-3));
    assert!(INSERT_REVIEW.contains("$10") && !INSERT_REVIEW.contains("$11"));
}

#[test]
fn an_app_is_a_row_of_ten_columns() {
    let app = AppVersion {
        app_id: "77".to_string(),
        updated_at: at(1),
        category: "6014".to_string(),
        name: "n".to_string(),
        publisher: "p".to_string(),
        summary: "s".to_string(),
        released_at: at(2),
        inserted_at: at(3),
        icon_url: "i".to_string(),
        xml_raw: "".to_string(),
    };
    assert_eq!(
        app_row(&app),
        vec![
            "77", "1970-01-01T00:00:01.000Z", "6014", "n", "p", "s", "1970-01-01T00:00:02.000Z",
            "1970-01-01T00:00:03.000Z", "i", "",
        ],
    );
    assert!(INSERT_APP.contains("$10") && !INSERT_APP.contains("$11"));
}

#[test]
fn a_scrape_is_recorded_with_its_tally() {
    let tally = Tally { scraped: Some(2), oldest: Some(at(5)), newest: Some(at(6)) };
    let row = record_scrape("77", &at(1), &at(2), &tally);
    assert_eq!(row.app_id, "77");
    assert_eq!(row.scrape_start, "1970-01-01T00:00:01.000Z");
    assert_eq!(row.scrape_end, "1970-01-01T00:00:02.000Z");
    assert_eq!(row.newest_review, Some("1970-01-01T00:00:06.000Z".to_string()));
    assert_eq!(row.oldest_review, Some("1970-01-01T00:00:05.000Z".to_string()));
    assert_eq!(row.items_scraped, Some(2));
    assert!(INSERT_SCRAPE.contains("$6") && !INSERT_SCRAPE.contains("$7"));
}

#[test]
fn the_columns_of_a_review_are_in_the_order_of_its_statement() {
    let review = Review {
        review_id: "review_id".to_string(),
        app_id: "app_id".to_string(),
        title: "title".to_string(),
        body: "body".to_string(),
        rating: 4,
        version: "version".to_string(),
        updated_at: at(5),
        author_name: "author_name".to_string(),
        inserted_at: at(6),
        xml_raw: "xml_raw".to_string(),
    };
    let columns = items_after(INSERT_REVIEW, "insert into reviews");
    let expected: Vec<String> = columns
        .iter()
        .map(|column| match *column {
            "rating" => "4".to_string(),
            "updated_at" => at(5).to_rfc3339(),
            "inserted_at" => at(6).to_rfc3339(),
            name => name.to_string(),
        })
        .collect();
    assert_eq!(review_row(&review), expected);
    assert_eq!(items_after(INSERT_REVIEW, "values"), placeholders(columns.len()));
    assert_eq!(declared(CREATE_REVIEWS), columns);
}

#[test]
fn the_columns_of_an_app_are_in_the_order_of_its_statement() {
    let app = AppVersion {
        app_id: "app_id".to_string(),
        updated_at: at(5),
        category: "category".to_string(),
        name: "name".to_string(),
        publisher: "publisher".to_string(),
        summary: "summary".to_string(),
        released_at: at(6),
        inserted_at: at(7),
        icon_url: "icon_url".to_string(),
        xml_raw: "xml_raw".to_string(),
    };
    let columns = items_after(INSERT_APP, "insert into apps");
    let expected: Vec<String> = columns
        .iter()
        .map(|column| match *column {
            "updated_at" => at(5).to_rfc3339(),
            "released_at" => at(6).to_rfc3339(),
            "inserted_at" => at(7).to_rfc3339(),
            name => name.to_string(),
        })
        .collect();
    assert_eq!(app_row(&app), expected);
    assert_eq!(items_after(INSERT_APP, "values"), placeholders(columns.len()));
    assert_eq!(declared(CREATE_APPS), columns);
    let replaced: Vec<String> =
        columns[1..].iter().map(|column| format!("{}=excluded.{}", column, column)).collect();
    let update = INSERT_APP.split("do update set").nth(1).unwrap();
    let updates: Vec<&str> =
        update.trim().trim_end_matches(';').split(',').map(|item| item.trim()).collect();
    assert_eq!(updates, replaced);
}

#[test]
fn the_fields_of_a_record_are_in_the_order_of_its_statement() {
    let tally = Tally { scraped: None, oldest: None, newest: None };
    let record = format!("{:#?}", record_scrape("77", &at(1), &at(2), &tally));
    let fields: Vec<&str> = record
        .lines()
        .filter_map(|line| line.trim().find(": ").map(|end| &line.trim()[..end]))
        .collect();
    let columns = items_after(INSERT_SCRAPE, "insert into scrapes");
    assert_eq!(fields, columns);
    assert_eq!(items_after(INSERT_SCRAPE, "values"), placeholders(columns.len()));
    assert_eq!(declared(CREATE_SCRAPES), columns);
}

#[test]
fn equal_pulls_give_equal_records() {
    let tally = Tally { scraped: Some(1), oldest: Some(at(5)), newest: Some(at(5)) };
    let mut records = vec![record_scrape("76", &at(0), &at(1), &tally)];
    records.push(record_scrape("77", &at(1), &at(2), &tally));
    records.push(record_scrape("77", &at(1), &at(2), &tally));
    assert_eq!(records[1], records[2]);
    assert_ne!(records[0], records[1]);
}

#[test]
fn a_scrape_of_nothing_is_recorded_without_times() {
    let mut scrape = ReviewScrape::start("77");
    while let PullAction::FetchPage { .. } = scrape.pull.action() {
        scrape.pull.page_failed();
    }
    let row = scrape.finish();
    assert_eq!(row.app_id, "77");
    assert_eq!(row.scrape_start, scrape.scrape_start.to_rfc3339());
    assert!(row.scrape_start <= row.scrape_end);
    assert_eq!(row.newest_review, None);
    assert_eq!(row.oldest_review, None);
    assert_eq!(row.items_scraped, None);
}

#[test]
fn modes_are_named() {
    assert_eq!(requested_mode(None), Some(Mode::Reviews));
    assert_eq!(requested_mode(Some("reviews")), Some(Mode::Reviews));
    assert_eq!(requested_mode(Some("apps")), Some(Mode::Apps));
    assert_eq!(requested_mode(Some("resolve-missing")), Some(Mode::ResolveMissing));
    assert_eq!(requested_mode(Some("Apps")), None);
    assert_eq!(requested_mode(Some("")), None);
}

#[test]
fn without_a_request_the_stored_apps_are_scraped() {
    assert_eq!(review_targets(None, None), ReviewTargets::Stored);
    assert_eq!(review_targets(None, Some("")), ReviewTargets::Stored);
    assert_eq!(review_targets(None, Some(",,")), ReviewTargets::Stored);
}

#[test]
fn requested_apps_are_scraped() {
    assert_eq!(
        review_targets(None, Some("389801252,951627425")),
        listed(&["389801252", "951627425"]),
    );
    assert_eq!(review_targets(Some("7"), None), listed(&["7"]));
    assert_eq!(review_targets(Some("7"), Some("8,,9,")), listed(&["7", "8", "9"]));
    assert_eq!(review_targets(Some(""), None), listed(&[""]));
}

#[test]
fn apps_are_ranked_once_enough_were_scraped() {
    assert_eq!(app_ids_query(0), ALL_APP_IDS);
    assert_eq!(app_ids_query(1000), ALL_APP_IDS);
    assert_eq!(app_ids_query(1001), RANKED_APP_IDS);
}

#[test]
fn missing_apps_are_looked_up_in_batches() {
    assert_eq!(resolve_missing_apps(&ids(0)), Vec::<Vec<String>>::new());
    assert_eq!(resolve_missing_apps(&ids(1)), vec![ids(1)]);
    assert_eq!(resolve_missing_apps(&ids(199)), vec![ids(199)]);
    assert_eq!(resolve_missing_apps(&ids(200)), vec![ids(200), ids(200)]);
    assert_eq!(resolve_missing_apps(&ids(450)), vec![ids(200), ids(450)]);
}

#[test]
fn categories_are_distinct() {
    assert_eq!(APP_CATEGORIES.len(), 71);
    assert_eq!(APP_CATEGORIES[0], 6000);
    assert_eq!(APP_CATEGORIES[70], 6022);
    for i in 0..APP_CATEGORIES.len() {
        for j in 0..i {
            assert_ne!(APP_CATEGORIES[i], APP_CATEGORIES[j]);
        }
    }
}
