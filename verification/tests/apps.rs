use app_store_scraper::app_version::{
    app_from_node, apps_in_feed, build_app, parse_apps, resolve_all, AppSearchResult,
    AppVersion,
};
use app_store_scraper::entry::{take_entries, Entry};
use app_store_scraper::error::ScrapeError;
use app_store_scraper::timestamp::Timestamp;
use app_store_scraper::xml::parse_document;

const ENTRY: &str = r#"<entry xmlns:im="http://itunes.apple.com/rss">
    <updated>2019-07-01T03:04:05-07:00</updated>
    <id im:id="389801252" im:bundleId="b">url</id>
    <im:name>Name</im:name>
    <summary>Summary</summary>
    <category im:id="6008" term="t"/>
    <im:artist href="h">Artist</im:artist>
    <im:image height="53">small</im:image>
    <im:image height="100">large</im:image>
    <im:releaseDate label="l">2010-10-06T01:12:41-07:00</im:releaseDate>
</entry>"#;

fn read(entry: &str) -> Result<AppVersion, ScrapeError> {
    let node = parse_document(entry).unwrap();
    app_from_node(&node, "raw".to_string(), Timestamp::new(9, 0).unwrap())
}

fn missing(name: &str) -> Result<AppVersion, ScrapeError> {
    Err(ScrapeError::MissingNode { name: name.to_string() })
}

fn found() -> AppSearchResult {
    AppSearchResult {
        artwork_url512: "icon".to_string(),
        primary_genre_id: 6008,
        track_id: 389801252,
        current_version_release_date: "2019-07-01T10:04:05Z".to_string(),
        artist_name: "Artist".to_string(),
        track_name: "Name".to_string(),
        description: "Summary".to_string(),
        release_date: "2010-10-06T08:12:41Z".to_string(),
    }
}

#[test]
fn an_app_holds_what_its_entry_holds() {
    let app = read(ENTRY).unwrap();
    assert_eq!(app.app_id, "389801252");
    assert_eq!(app.category, "6008");
    assert_eq!(app.name, "Name");
    assert_eq!(app.publisher, "Artist");
    assert_eq!(app.summary, "Summary");
    assert_eq!(app.icon_url, "large");
    assert_eq!(app.updated_at.secs(), 1561975445);
    assert_eq!(app.released_at.secs(), 1286352761);
    assert_eq!(app.inserted_at.secs(), 9);
    assert_eq!(app.xml_raw, "raw");
}

#[test]
fn the_first_unreadable_field_of_an_app_is_reported() {
    assert_eq!(read("<entry/>"), missing("id"));
    assert_eq!(read(&ENTRY.replace("im:id=\"389801252\"", "")), Err(ScrapeError::MissingAttr));
    assert_eq!(read(&ENTRY.replace("<category im:id=\"6008\" term=\"t\"/>", "")), missing("category"));
    assert_eq!(read(&ENTRY.replace("<im:name>Name</im:name>", "")), missing("name"));
    assert_eq!(
        read(&ENTRY.replace(">Artist<", "><")),
        Err(ScrapeError::NoText { name: "artist".to_string() }),
    );
    assert_eq!(read(&ENTRY.replace("2019-07-01T", "2019-07-01 at ")), Err(ScrapeError::BadDate));
    assert_eq!(read(&ENTRY.replace("releaseDate", "date")), missing("releaseDate"));
    assert_eq!(read(&ENTRY.replace("<summary>Summary</summary>", "")), missing("summary"));
    assert_eq!(
        read(&ENTRY.replace("height=\"100\"", "height=\"75\"")),
        Err(ScrapeError::MissingNodeWithAttr {
            name: "image".to_string(),
            attr: "height".to_string(),
            value: "100".to_string(),
        }),
    );
}

#[test]
fn a_built_app_keeps_its_entry_and_the_time() {
    let entry = Entry::new(parse_document(ENTRY).unwrap()).unwrap();
    let before = chrono::Utc::now().timestamp();
    let app = build_app(&entry).unwrap();
    let after = chrono::Utc::now().timestamp();
    assert!(before <= app.inserted_at.secs() && app.inserted_at.secs() <= after);
    let kept = parse_document(&app.xml_raw).unwrap();
    assert_eq!(read(&app.xml_raw).unwrap().app_id, app.app_id);
    assert_eq!(kept.children.len(), entry.node().children.len());
}

#[test]
fn a_feed_keeps_the_entries_that_can_be_read() {
    let other = ENTRY.replace("389801252", "951627425");
    let text = format!("<feed>{}<entry/>{}<title>t</title></feed>", ENTRY, other);
    let parsed = parse_apps(&text).unwrap();
    assert_eq!(parsed.apps.len(), 2);
    assert_eq!(parsed.apps[0].app_id, "389801252");
    assert_eq!(parsed.apps[1].app_id, "951627425");
    assert_eq!(parsed.failures, vec![ScrapeError::MissingNode { name: "id".to_string() }]);
    let again = apps_in_feed(&take_entries(parse_document(&text).unwrap()).unwrap());
    assert_eq!(again.apps.len() + again.failures.len(), 3);
}

#[test]
fn a_text_that_is_no_feed_gives_no_apps() {
    assert_eq!(parse_apps("busy"), Err(ScrapeError::ParseXml));
}

#[test]
fn a_found_app_is_taken_over() {
    let at = |secs| Timestamp::new(secs, 0).unwrap();
    let app = AppVersion::from_search_result(&found(), at(1), at(2), at(3));
    assert_eq!(app.app_id, "389801252");
    assert_eq!(app.category, "6008");
    assert_eq!(app.name, "Name");
    assert_eq!(app.publisher, "Artist");
    assert_eq!(app.summary, "Summary");
    assert_eq!(app.icon_url, "icon");
    assert_eq!(app.xml_raw, "");
    assert_eq!(app.updated_at, at(1));
    assert_eq!(app.released_at, at(2));
    assert_eq!(app.inserted_at, at(3));
}

#[test]
fn the_dates_of_a_found_app_are_read() {
    let app = AppVersion::resolve(&found()).unwrap();
    assert_eq!(app.updated_at.secs(), 1561975445);
    assert_eq!(app.released_at.secs(), 1286352761);
    let undated = AppSearchResult { release_date: "soon".to_string(), ..found() };
    assert_eq!(AppVersion::resolve(&undated), Err(ScrapeError::BadDate));
    let undated = AppSearchResult { current_version_release_date: "".to_string(), ..found() };
    assert_eq!(AppVersion::resolve(&undated), Err(ScrapeError::BadDate));
}

#[test]
fn all_found_apps_are_taken_over_or_none() {
    let second = AppSearchResult { track_id: -5, ..found() };
    let apps = resolve_all(&vec![found(), second]).unwrap();
    assert_eq!(apps.len(), 2);
    assert_eq!(apps[1].app_id, "-5");
    let undated = AppSearchResult { release_date: "soon".to_string(), ..found() };
    assert_eq!(resolve_all(&vec![found(), undated]), Err(ScrapeError::BadDate));
    assert_eq!(resolve_all(&vec![]), Ok(vec![]));
}

#[test]
fn app_builds_of_an_entry_agree() {
    let entry = Entry::new(parse_document(ENTRY).unwrap()).unwrap();
    let first = build_app(&entry).unwrap();
    let second = build_app(&entry).unwrap();
    assert_eq!(first.xml_raw, second.xml_raw);
    assert_eq!(AppVersion { inserted_at: first.inserted_at, ..second }, first);
    let bad = Entry::new(parse_document("<entry/>").unwrap()).unwrap();
    assert_eq!(build_app(&bad), missing("id"));
    assert_eq!(build_app(&bad), build_app(&bad));
}
