use app_store_scraper::error::ScrapeError;
use app_store_scraper::feeds::{
    fetch_apps, fetch_reviews, is_insert_error, lookup_url, reviews_url, top_apps_url,
    FetchedReviews,
};
use app_store_scraper::pull::{InsertOutcome, PullAction, ReviewPull};

const ENTRY: &str = r#"<entry><updated>2019-07-01T03:04:05Z</updated><id>1</id><title>t</title><content type="text">b</content><rating>5</rating><version>1</version><author><name>n</name></author></entry>"#;

fn next_page(fetched: FetchedReviews) -> Option<usize> {
    let mut pull = ReviewPull::new();
    fetched.deliver(&mut pull);
    match pull.action() {
        PullAction::FetchPage { page } => Some(page),
        _ => None,
    }
}

#[test]
fn addresses_name_what_is_asked_for() {
    assert_eq!(
        reviews_url("389801252", 3),
        "https://itunes.apple.com/us/rss/customerreviews/id=389801252/page=3/sortBy=mostRecent/xml",
    );
    assert_eq!(
        top_apps_url(6014),
        "https://itunes.apple.com/us/rss/topgrossingapplications/limit=200/genre=6014/xml",
    );
    assert_eq!(
        lookup_url(&vec!["1".to_string(), "23".to_string()]),
        "http://itunes.apple.com/lookup?id=1,23",
    );
}

#[test]
fn a_request_that_failed_fails_the_page() {
    let fetched = fetch_reviews("77", 4, None);
    let error = ScrapeError::FetchReviews { app_id: "77".to_string(), page: 4 };
    assert_eq!(fetched, FetchedReviews::NotFetched { error });
    assert!(fetched.is_error());
    assert_eq!(fetched.pause_secs(), 0);
    assert_eq!(next_page(fetched), Some(2));
}

#[test]
fn an_answer_without_content_is_an_empty_page() {
    let fetched = fetch_reviews("77", 1, Some(""));
    assert_eq!(fetched, FetchedReviews::NoContent);
    assert!(fetched.is_error());
    assert_eq!(fetched.pause_secs(), 60);
    assert_eq!(next_page(fetched), Some(2));
}

#[test]
fn an_answer_that_is_no_feed_fails_the_page() {
    let fetched = fetch_reviews("77", 1, Some("busy"));
    assert_eq!(fetched, FetchedReviews::Unreadable { error: ScrapeError::ParseXml });
    assert!(fetched.is_error());
    assert_eq!(fetched.pause_secs(), 0);
    assert_eq!(next_page(fetched), Some(2));
}

#[test]
fn a_feed_hands_its_reviews_to_the_pull() {
    let fetched = fetch_reviews("77", 1, Some(&format!("<feed>{}</feed>", ENTRY)));
    assert!(!fetched.is_error());
    assert_eq!(fetched.pause_secs(), 0);
    let mut pull = ReviewPull::new();
    fetched.deliver(&mut pull);
    match pull.action() {
        PullAction::InsertReview { review } => assert_eq!(review.review_id, "1"),
        _ => panic!("a review was to be saved"),
    }
}

#[test]
fn apps_are_read_from_an_answer() {
    assert_eq!(fetch_apps(6014, None), Err(ScrapeError::FetchApps { category: 6014 }));
    assert_eq!(fetch_apps(6014, Some("busy")), Err(ScrapeError::ParseXml));
    let parsed = fetch_apps(6014, Some("<feed><entry/></feed>")).unwrap();
    assert_eq!(parsed.apps, vec![]);
    assert_eq!(parsed.failures.len(), 1);
}

#[test]
fn only_failures_to_save_are_errors() {
    assert!(is_insert_error(InsertOutcome::Failed));
    assert!(!is_insert_error(InsertOutcome::Duplicate));
    assert!(!is_insert_error(InsertOutcome::Inserted));
}

#[test]
fn errors_have_log_lines() {
    let name = || "title".to_string();
    let lines = [
        (
            ScrapeError::FetchReviews { app_id: "77".to_string(), page: 4 },
            "Unable to fetch reviews for app_id 77 and page 4",
        ),
        (ScrapeError::FetchApps { category: 6014 }, "Unable to fetch apps for category 6014"),
        (ScrapeError::ParseXml, "Couldn't parse XML from document"),
        (ScrapeError::WriteXml, "Couldn't write XML to cursor"),
        (ScrapeError::Utf8, "Couldn't parse UTF8 string"),
        (ScrapeError::MissingNode { name: name() }, "Unable to find node with name title"),
        (
            ScrapeError::MissingNodeWithAttr {
                name: name(),
                attr: "height".to_string(),
                value: "100".to_string(),
            },
            "Unable to find node with name title and height=100",
        ),
        (ScrapeError::MissingContent, "No contet[type=\"text\"] element found"),
        (ScrapeError::NoText { name: name() }, "No text found in title node"),
        (ScrapeError::BadDate, "Couldn't parse date from string"),
        (ScrapeError::BadRating, "Unable to parse rating as int"),
    ];
    for (error, line) in lines.iter() {
        assert_eq!(error.log_line(), Some(line.to_string()));
    }
    assert_eq!(ScrapeError::MissingAttr.log_line(), None);
}
