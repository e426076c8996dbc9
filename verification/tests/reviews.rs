use app_store_scraper::entry::{take_entries, Entry};
use app_store_scraper::error::ScrapeError;
use app_store_scraper::review::{
    build_review, parse_reviews, review_from_node, reviews_in_feed, Review,
};
use app_store_scraper::timestamp::Timestamp;
use app_store_scraper::xml::{parse_document, Node};

const ENTRY: &str = r#"<entry>
    <updated>2019-07-01T03:04:05-07:00</updated>
    <id>4321</id>
    <title>Great</title>
    <content type="html">html</content>
    <content type="text">Works well</content>
    <rating>5</rating>
    <version>1.2.3</version>
    <author><name>someone</name><uri>u</uri></author>
</entry>"#;

fn feed(entries: &[&str]) -> String {
    format!("<feed><id>feed</id>{}</feed>", entries.concat())
}

fn read(entry: &str) -> Result<Review, ScrapeError> {
    let node: Node = parse_document(entry).unwrap();
    review_from_node("77", &node, "raw".to_string(), Timestamp::new(9, 0).unwrap())
}

fn missing(name: &str) -> Result<Review, ScrapeError> {
    Err(ScrapeError::MissingNode { name: name.to_string() })
}

#[test]
fn a_review_holds_what_its_entry_holds() {
    let review = read(ENTRY).unwrap();
    assert_eq!(review.review_id, "4321");
    assert_eq!(review.app_id, "77");
    assert_eq!(review.title, "Great");
    assert_eq!(review.body, "Works well");
    assert_eq!(review.rating, 5);
    assert_eq!(review.version, "1.2.3");
    assert_eq!(review.updated_at.secs(), 1561975445);
    assert_eq!(review.author_name, "someone");
    assert_eq!(review.inserted_at.secs(), 9);
    assert_eq!(review.xml_raw, "raw");
}

#[test]
fn the_first_unreadable_field_is_reported() {
    assert_eq!(read("<entry/>"), Err(ScrapeError::MissingContent));
    let bodiless = ENTRY.replace("Works well", "");
    assert_eq!(read(&bodiless), Err(ScrapeError::NoText { name: "content".to_string() }));
    assert_eq!(read(&ENTRY.replace("type=\"text\"", "")), Err(ScrapeError::MissingContent));
    assert_eq!(read(&ENTRY.replace("<id>4321</id>", "")), missing("id"));
    assert_eq!(read(&ENTRY.replace("<title>Great</title>", "")), missing("title"));
    assert_eq!(read(&ENTRY.replace("<rating>5</rating>", "")), missing("rating"));
    assert_eq!(read(&ENTRY.replace(">5<", ">five<")), Err(ScrapeError::BadRating));
    assert_eq!(read(&ENTRY.replace("<version>1.2.3</version>", "")), missing("version"));
    assert_eq!(read(&ENTRY.replace("2019-07", "2019-7")), Err(ScrapeError::BadDate));
    assert_eq!(read(&ENTRY.replace("<name>someone</name>", "")), missing("name"));
    let anonymous = ENTRY.replace("<author><name>someone</name><uri>u</uri></author>", "");
    assert_eq!(read(&anonymous), missing("author"));
    let two_faults = anonymous.replace(">5<", ">five<");
    assert_eq!(read(&two_faults), Err(ScrapeError::BadRating));
}

#[test]
fn a_built_review_keeps_its_entry_and_the_time() {
    let entry = Entry::new(parse_document(ENTRY).unwrap()).unwrap();
    let before = chrono::Utc::now().timestamp();
    let review = build_review("77", &entry).unwrap();
    let after = chrono::Utc::now().timestamp();
    assert!(before <= review.inserted_at.secs() && review.inserted_at.secs() <= after);
    assert!(review.xml_raw.starts_with("<?xml"));
    assert_eq!(&review.xml_raw, entry.xml_raw());
    assert_eq!(&parse_document(&review.xml_raw).unwrap(), entry.node());
    assert_eq!(review.rating, 5);
    let bad = Entry::new(parse_document("<entry/>").unwrap()).unwrap();
    assert_eq!(build_review("77", &bad), Err(ScrapeError::MissingContent));
}

#[test]
fn a_feed_gives_a_review_for_each_entry_in_order() {
    let other = ENTRY.replace("4321", "4322").replace(">5<", ">-1<");
    let reviews = parse_reviews("77", &feed(&[ENTRY, "<link/>", &other])).unwrap();
    assert_eq!(reviews.len(), 2);
    assert_eq!(reviews[0].review_id, "4321");
    assert_eq!(reviews[1].review_id, "4322");
    assert_eq!(reviews[1].rating, -1);
    assert!(reviews.iter().all(|review| review.app_id == "77"));
    assert_eq!(parse_reviews("77", &feed(&[])), Ok(vec![]));
}

#[test]
fn one_bad_entry_fails_the_feed() {
    let text = feed(&[ENTRY, "<entry/>", ENTRY]);
    assert_eq!(parse_reviews("77", &text), Err(ScrapeError::MissingContent));
    let entries = take_entries(parse_document(&text).unwrap()).unwrap();
    assert_eq!(entries.len(), 3);
    assert_eq!(reviews_in_feed("77", &entries), Err(ScrapeError::MissingContent));
    assert_eq!(parse_reviews("77", &feed(&[ENTRY, ENTRY])).unwrap().len(), 2);
}

#[test]
fn a_text_that_is_no_feed_fails() {
    assert_eq!(parse_reviews("77", "busy"), Err(ScrapeError::ParseXml));
}

#[test]
fn the_time_and_the_raw_text_do_not_decide_what_is_read() {
    let node = parse_document(ENTRY).unwrap();
    let early = review_from_node("77", &node, "a".to_string(), Timestamp::new(1, 0).unwrap()).unwrap();
    let late = review_from_node("77", &node, "b".to_string(), Timestamp::new(2, 0).unwrap()).unwrap();
    assert_eq!(Review { xml_raw: "a".to_string(), inserted_at: early.inserted_at, ..late }, early);
}

#[test]
fn builds_of_an_entry_agree() {
    let many = r#"<entry a="1" b="2" c="3" d="4" e="5" f="6" g="7" h="8" i="9" j="10">"#;
    let entry = Entry::new(parse_document(&ENTRY.replace("<entry>", many)).unwrap()).unwrap();
    let first = build_review("77", &entry).unwrap();
    let second = build_review("78", &entry).unwrap();
    assert_eq!(first.xml_raw, second.xml_raw);
    assert_eq!(first.app_id, "77");
    assert_eq!(second.app_id, "78");
    let inserted_at = first.inserted_at;
    assert_eq!(Review { app_id: "77".to_string(), inserted_at, ..second }, first);
    let kept = parse_document(&first.xml_raw).unwrap();
    let mut attributes = kept.attributes;
    attributes.sort();
    assert_eq!(attributes.len(), 10);
    assert_eq!(attributes[1], ("b".to_string(), "2".to_string()));
}
