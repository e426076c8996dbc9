use std::collections::{BTreeMap, BTreeSet};

use app_store_scraper::app_version::{resolve_all, AppSearchResult};
use app_store_scraper::feeds::fetch_reviews;
use app_store_scraper::pull::{InsertOutcome, PullAction, ReviewPull, Tally};
use app_store_scraper::records::{app_row, review_row};
use app_store_scraper::scrape::resolve_missing_apps;

type Table = BTreeMap<String, Vec<String>>;

fn entry(id: usize, day: usize) -> String {
    format!(
        "<entry><id>{}</id><title>t</title><content type=\"text\">c</content><rating>4</rating>\
         <version>1</version><updated>2019-07-{:02}T00:00:00Z</updated>\
         <author><name>n</name></author></entry>",
        id, day,
    )
}

fn feed(ids: std::ops::Range<usize>) -> Option<String> {
    let entries: Vec<String> = ids.map(|id| entry(id, id % 28 + 1)).collect();
    Some(format!("<feed>{}</feed>", entries.concat()))
}

fn pull(table: &mut Table, app_id: &str, answers: &[Option<String>]) -> (Tally, usize) {
    pull_with_faults(table, app_id, answers, &[])
}

/// A pull in which the attempts of the given numbers fail, whatever is there.
fn pull_with_faults(
    table: &mut Table,
    app_id: &str,
    answers: &[Option<String>],
    faults: &[usize],
) -> (Tally, usize) {
    let mut pull = ReviewPull::new();
    let mut attempts = 0;
    loop {
        let outcome = match pull.action() {
            PullAction::Finish => return (pull.tally(), attempts),
            PullAction::FetchPage { page } => {
                let answer = answers[page - 1].as_ref().map(|content| content.as_str());
                fetch_reviews(app_id, page as u64, answer).deliver(&mut pull);
                continue;
            }
            PullAction::InsertReview { review } => {
                attempts += 1;
                if faults.contains(&attempts) {
                    InsertOutcome::Failed
                } else if table.contains_key(&review.review_id) {
                    InsertOutcome::Duplicate
                } else {
                    table.insert(review.review_id.clone(), review_row(review));
                    InsertOutcome::Inserted
                }
            }
        };
        pull.tried(outcome);
    }
}

fn pages(first: Vec<Option<String>>) -> Vec<Option<String>> {
    let mut answers = first;
    answers.resize(9, feed(0..0));
    answers
}

#[test]
fn a_pull_adds_what_it_counts() {
    let mut table = Table::new();
    pull(&mut table, "1", &pages(vec![feed(0..5)]));
    let before = table.clone();
    let answers = pages(vec![feed(3..8), None, Some(String::new()), Some("busy".to_string()), feed(6..9)]);
    let (tally, _) = pull(&mut table, "2", &answers);
    assert_eq!(tally.scraped, Some(4));
    assert_eq!(table.len(), before.len() + 4);
    for (id, row) in before.iter() {
        assert_eq!(&table[id], row);
    }
    for (id, row) in table.iter().filter(|(id, _)| !before.contains_key(*id)) {
        assert_eq!(&row[0], id);
        assert_eq!(row[1], "2");
    }
}

#[test]
fn a_repeated_pull_saves_nothing() {
    let mut table = Table::new();
    let answers = pages(vec![feed(0..30), None, feed(25..90), feed(60..120), feed(200..260)]);
    let (first, _) = pull(&mut table, "1", &answers);
    assert_eq!(first.scraped, Some(180));
    let before = table.clone();
    let (second, attempts) = pull(&mut table, "1", &answers);
    assert_eq!(second.scraped, None);
    assert!(second.oldest.is_none() && second.newest.is_none());
    assert_eq!(table, before);
    assert_eq!(attempts, 30 + 50);
}

#[test]
fn a_repeated_pull_stops_no_later_than_the_first() {
    let mut table = Table::new();
    pull(&mut table, "1", &pages(vec![feed(10..60)]));
    let answers = pages(vec![feed(0..200), feed(300..310)]);
    let (first, attempts) = pull(&mut table, "1", &answers);
    assert_eq!(first.scraped, Some(10));
    assert_eq!(attempts, 60);
    let before = table.clone();
    let (second, attempts) = pull(&mut table, "1", &answers);
    assert_eq!(second.scraped, None);
    assert_eq!(attempts, 50);
    assert_eq!(table, before);
}

#[test]
fn failures_of_a_repeated_pull_that_goes_no_further_save_nothing() {
    let mut table = Table::new();
    let answers = pages(vec![feed(0..30), feed(40..45)]);
    let (_, first) = pull(&mut table, "1", &answers);
    let before = table.clone();
    let (tally, second) = pull_with_faults(&mut table, "1", &answers, &[1, 7, 33]);
    assert!(second <= first);
    assert_eq!(tally.scraped, None);
    assert_eq!(table, before);
}

#[test]
fn a_failure_can_carry_a_repeated_pull_past_the_first() {
    let mut table = Table::new();
    pull(&mut table, "1", &pages(vec![feed(0..50)]));
    let answers = pages(vec![feed(0..51)]);
    let (_, first) = pull(&mut table, "1", &answers);
    assert_eq!(first, 50);
    let (tally, second) = pull_with_faults(&mut table, "1", &answers, &[1]);
    assert_eq!(second, 51);
    assert_eq!(tally.scraped, Some(1));
}

fn found(track_id: i64) -> AppSearchResult {
    AppSearchResult {
        artwork_url512: "i".to_string(),
        primary_genre_id: 6008,
        track_id,
        current_version_release_date: "2019-07-01T10:04:05Z".to_string(),
        artist_name: "a".to_string(),
        track_name: "n".to_string(),
        description: "d".to_string(),
        release_date: "2010-10-06T08:12:41Z".to_string(),
    }
}

#[test]
fn lookups_resolve_what_they_find() {
    let mut apps = Table::new();
    let missing: BTreeSet<String> = (1..=201).map(|id: i64| id.to_string()).collect();
    let ids: Vec<String> = missing.iter().cloned().collect();
    let lookups = resolve_missing_apps(&ids);
    let looked_up: BTreeSet<String> = lookups.iter().flatten().cloned().collect();
    assert_eq!(looked_up, missing);
    for lookup in lookups.iter() {
        let answer: Vec<AppSearchResult> = lookup
            .iter()
            .map(|id| id.parse::<i64>().unwrap())
            .filter(|id| id % 2 == 0)
            .map(found)
            .collect();
        for app in resolve_all(&answer).unwrap() {
            apps.insert(app.app_id.clone(), app_row(&app));
        }
    }
    let left: BTreeSet<String> = missing.iter().filter(|id| !apps.contains_key(*id)).cloned().collect();
    let odd: BTreeSet<String> = (1..=201).filter(|id| id % 2 == 1).map(|id: i64| id.to_string()).collect();
    assert_eq!(left, odd);
    assert_eq!(apps.len(), 100);
    assert_eq!(apps["2"][0], "2");
}

#[test]
fn the_last_save_of_an_app_counts() {
    let later = AppSearchResult { track_name: "later".to_string(), ..found(2) };
    let saved = resolve_all(&vec![found(2), later]).unwrap();
    let mut apps = Table::new();
    for app in saved.iter() {
        apps.insert(app.app_id.clone(), app_row(app));
    }
    assert_eq!(apps.len(), 1);
    assert_eq!(apps["2"], app_row(&saved[1]));
    assert_eq!(apps["2"][3], "later");
    apps.insert(saved[1].app_id.clone(), app_row(&saved[1]));
    assert_eq!(apps.len(), 1);
}

#[test]
fn lookups_that_break_off_keep_what_was_saved() {
    let ids: Vec<String> = (1..=250).map(|id: i64| id.to_string()).collect();
    let lookups = resolve_missing_apps(&ids);
    assert_eq!(lookups.len(), 2);
    let mut apps = Table::new();
    let answer: Vec<AppSearchResult> =
        lookups[0].iter().map(|id| found(id.parse::<i64>().unwrap())).collect();
    for app in resolve_all(&answer).unwrap().iter().take(150) {
        apps.insert(app.app_id.clone(), app_row(app));
    }
    let left = ids.iter().filter(|id| !apps.contains_key(*id)).count();
    assert_eq!(apps.len(), 150);
    assert_eq!(left, 100);
    assert!(lookups[0].iter().all(|id| ids.contains(id)));
}
