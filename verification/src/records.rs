//! The rows that go into the database, and the statements that put them there.
use crate::app_version::{AppVersion, AppView};
use crate::pull::{
    a_pull_bounds_what_it_saved, oldest_is_not_after_newest, run, saved, PullEvent, Tally, TallyView,
};
use crate::review::{Review, ReviewView};
use crate::text::{
    decimal, decimal_reads_back, i64_to_string, optional_text, parsed_i64, strings_view,
};
use crate::timestamp::{rfc3339_millis, Instant, Timestamp};
use vstd::prelude::*;

verus! {

pub const CREATE_APPS: &'static str = "
    create table if not exists apps (
        app_id text not null primary key,
        updated_at text,
        category text not null,
        name text not null,
        publisher text not null, -- From the `artist` field
        summary text not null,
        released_at text not null,
        inserted_at text not null,
        icon_url text not null,
        xml_raw text not null
    );
";

pub const CREATE_REVIEWS: &'static str = "
    create table if not exists reviews (
        review_id text not null primary key,
        app_id text not null,
        title text not null,
        body text not null, -- content[type=\"text\"]
        rating integer not null,
        version text not null,
        updated_at text not null,
        author_name text not null,
        inserted_at text not null,
        xml_raw text not null
    );
";

pub const CREATE_SCRAPES: &'static str = "
    create table if not exists scrapes (
        app_id text not null,
        scrape_start text not null,
        scrape_end text not null,
        newest_review text,
        oldest_review text,
        items_scraped integer
    );
";

/// Saves a row of `review_row`. A review that is there already is refused.
pub const INSERT_REVIEW: &'static str = "
    insert into reviews (
        review_id,
        app_id,
        title,
        body,
        rating,
        version,
        updated_at,
        author_name,
        inserted_at,
        xml_raw
    ) values ($1, $2, $3, $4, $5, $6, $7, $8, $9, $10);
";

/// Saves a row of `app_row`. An application that is there already is replaced.
pub const INSERT_APP: &'static str = "
    insert into apps (
        app_id,
        updated_at,
        category,
        name,
        publisher,
        summary,
        released_at,
        inserted_at,
        icon_url,
        xml_raw
    ) values ($1, $2, $3, $4, $5, $6, $7, $8, $9, $10)
    on conflict (app_id) do update set
        updated_at=excluded.updated_at,
        category=excluded.category,
        name=excluded.name,
        publisher=excluded.publisher,
        summary=excluded.summary,
        released_at=excluded.released_at,
        inserted_at=excluded.inserted_at,
        icon_url=excluded.icon_url,
        xml_raw=excluded.xml_raw;
";

/// Saves the columns of a `ScrapeRow`, in the order of its fields.
pub const INSERT_SCRAPE: &'static str = "
    insert into scrapes (
        app_id,
        scrape_start,
        scrape_end,
        newest_review,
        oldest_review,
        items_scraped
    ) values ($1, $2, $3, $4, $5, $6);
";

/// The columns of a review, in the order of `INSERT_REVIEW`.
pub open spec fn review_columns(review: ReviewView) -> Seq<Seq<char>> {
    seq![
        review.review_id,
        review.app_id,
        review.title,
        review.body,
        decimal(review.rating),
        review.version,
        rfc3339_millis(review.updated_at),
        review.author_name,
        rfc3339_millis(review.inserted_at),
        review.xml_raw,
    ]
}

/// The columns of a review, in the order of `INSERT_REVIEW`.
pub fn review_row(review: &Review) -> (r: Vec<String>)
    ensures
        strings_view(r@) == review_columns(review@),
{
    let row: Vec<String> = vec![
        review.review_id.clone(),
        review.app_id.clone(),
        review.title.clone(),
        review.body.clone(),
        i64_to_string(review.rating),
        review.version.clone(),
        review.updated_at.to_rfc3339(),
        review.author_name.clone(),
        review.inserted_at.to_rfc3339(),
        review.xml_raw.clone(),
    ];
    assert(strings_view(row@) =~= review_columns(review@));
    row
}

/// The columns of an application, in the order of `INSERT_APP`.
pub open spec fn app_columns(app: AppView) -> Seq<Seq<char>> {
    seq![
        app.app_id,
        rfc3339_millis(app.updated_at),
        app.category,
        app.name,
        app.publisher,
        app.summary,
        rfc3339_millis(app.released_at),
        rfc3339_millis(app.inserted_at),
        app.icon_url,
        app.xml_raw,
    ]
}

/// The columns of an application, in the order of `INSERT_APP`.
pub fn app_row(app: &AppVersion) -> (r: Vec<String>)
    ensures
        strings_view(r@) == app_columns(app@),
{
    let row: Vec<String> = vec![
        app.app_id.clone(),
        app.updated_at.to_rfc3339(),
        app.category.clone(),
        app.name.clone(),
        app.publisher.clone(),
        app.summary.clone(),
        app.released_at.to_rfc3339(),
        app.inserted_at.to_rfc3339(),
        app.icon_url.clone(),
        app.xml_raw.clone(),
    ];
    assert(strings_view(row@) =~= app_columns(app@));
    row
}

/// A record of one pull of an application's reviews.
#[derive(Debug, PartialEq, Eq)]
pub struct ScrapeRow {
    pub app_id: String,
    pub scrape_start: String,
    pub scrape_end: String,
    pub newest_review: Option<String>,
    pub oldest_review: Option<String>,
    pub items_scraped: Option<i64>,
}

/// A `ScrapeRow` with its strings as character sequences.
pub struct ScrapeView {
    pub app_id: Seq<char>,
    pub scrape_start: Seq<char>,
    pub scrape_end: Seq<char>,
    pub newest_review: Option<Seq<char>>,
    pub oldest_review: Option<Seq<char>>,
    pub items_scraped: Option<int>,
}

impl View for ScrapeRow {
    type V = ScrapeView;

    open spec fn view(&self) -> ScrapeView {
        ScrapeView {
            app_id: self.app_id@,
            scrape_start: self.scrape_start@,
            scrape_end: self.scrape_end@,
            newest_review: optional_text(self.newest_review),
            oldest_review: optional_text(self.oldest_review),
            items_scraped: match self.items_scraped {
                Some(n) => Some(n as int),
                None => None,
            },
        }
    }
}

pub open spec fn optional_millis(at: Option<Instant>) -> Option<Seq<char>> {
    match at {
        Some(at) => Some(rfc3339_millis(at)),
        None => None,
    }
}

fn optional_rfc3339(at: &Option<Timestamp>) -> (r: Option<String>)
    ensures
        optional_text(r) == optional_millis(
            match *at {
                Some(at) => Some(at@),
                None => None,
            },
        ),
{
    match at {
        Some(at) => Some(at.to_rfc3339()),
        None => None,
    }
}

/// The record of a pull that ran between two times and came to a tally.
pub open spec fn scrape_columns(
    app_id: Seq<char>,
    scrape_start: Instant,
    scrape_end: Instant,
    tally: TallyView,
) -> ScrapeView {
    ScrapeView {
        app_id,
        scrape_start: rfc3339_millis(scrape_start),
        scrape_end: rfc3339_millis(scrape_end),
        newest_review: optional_millis(tally.newest),
        oldest_review: optional_millis(tally.oldest),
        items_scraped: tally.scraped,
    }
}

/// The record of a pull that ran between two times and came to a tally.
pub fn record_scrape(
    app_id: &str,
    scrape_start: &Timestamp,
    scrape_end: &Timestamp,
    tally: &Tally,
) -> (r: ScrapeRow)
    ensures
        r@ == scrape_columns(app_id@, scrape_start@, scrape_end@, tally@),
{
    ScrapeRow {
        app_id: app_id.to_owned(),
        scrape_start: scrape_start.to_rfc3339(),
        scrape_end: scrape_end.to_rfc3339(),
        newest_review: optional_rfc3339(&tally.newest),
        oldest_review: optional_rfc3339(&tally.oldest),
        items_scraped: tally.scraped,
    }
}

/// The rating column of a review reads back as its rating.
pub proof fn rating_column_reads_back(review: Review)
    ensures
        parsed_i64(review_columns(review@)[4]) == Some(review.rating),
{
    decimal_reads_back(review.rating);
}

/// The record of any pull has a number of reviews, an oldest and a newest of them together or not
/// at all.
pub proof fn records_are_complete_or_empty(
    app_id: Seq<char>,
    scrape_start: Instant,
    scrape_end: Instant,
    events: Seq<PullEvent>,
)
    ensures
        ({
            let row = scrape_columns(app_id, scrape_start, scrape_end, run(events).tally);
            (row.newest_review is Some <==> row.items_scraped is Some) && (row.oldest_review is Some
                <==> row.items_scraped is Some)
        }),
{
    oldest_is_not_after_newest(events);
}

/// The row of a review holds its fields, one in each column: the texts to the character, the rating
/// as a numeral that reads back, and the times as RFC 3339 writes them to the millisecond.
pub proof fn the_row_of_a_review_holds_its_fields(review: Review)
    ensures
        review_columns(review@).len() == 10,
        review_columns(review@)[0] == review.review_id@,
        review_columns(review@)[1] == review.app_id@,
        review_columns(review@)[2] == review.title@,
        review_columns(review@)[3] == review.body@,
        parsed_i64(review_columns(review@)[4]) == Some(review.rating),
        review_columns(review@)[4] == decimal(review.rating as int),
        review_columns(review@)[5] == review.version@,
        review_columns(review@)[6] == rfc3339_millis(review.updated_at@),
        review_columns(review@)[7] == review.author_name@,
        review_columns(review@)[8] == rfc3339_millis(review.inserted_at@),
        review_columns(review@)[9] == review.xml_raw@,
{
    decimal_reads_back(review.rating);
}

/// The row of an application holds its fields, one in each column: the texts to the character, and
/// the times as RFC 3339 writes them to the millisecond.
pub proof fn the_row_of_an_app_holds_its_fields(app: AppVersion)
    ensures
        app_columns(app@).len() == 10,
        app_columns(app@)[0] == app.app_id@,
        app_columns(app@)[1] == rfc3339_millis(app.updated_at@),
        app_columns(app@)[2] == app.category@,
        app_columns(app@)[3] == app.name@,
        app_columns(app@)[4] == app.publisher@,
        app_columns(app@)[5] == app.summary@,
        app_columns(app@)[6] == rfc3339_millis(app.released_at@),
        app_columns(app@)[7] == rfc3339_millis(app.inserted_at@),
        app_columns(app@)[8] == app.icon_url@,
        app_columns(app@)[9] == app.xml_raw@,
{
}

/// Reviews of the same row agree in all their texts and in their rating.
pub proof fn rows_tell_reviews_apart(a: Review, b: Review)
    requires
        review_columns(a@) == review_columns(b@),
    ensures
        a.review_id@ == b.review_id@,
        a.app_id@ == b.app_id@,
        a.title@ == b.title@,
        a.body@ == b.body@,
        a.rating == b.rating,
        a.version@ == b.version@,
        a.author_name@ == b.author_name@,
        a.xml_raw@ == b.xml_raw@,
{
    the_row_of_a_review_holds_its_fields(a);
    the_row_of_a_review_holds_its_fields(b);
}

/// The record of a pull that saved reviews holds their number and the updates of the newest and of
/// the oldest of them: times of saved reviews, such that no saved review was updated at a later or
/// at an earlier second. Its start and its end are those of the scraping.
pub proof fn a_record_tells_what_was_saved(
    app_id: Seq<char>,
    scrape_start: Instant,
    scrape_end: Instant,
    events: Seq<PullEvent>,
) -> (extremes: (Instant, Instant))
    requires
        saved(events).len() > 0,
    ensures
        ({
            let record = scrape_columns(app_id, scrape_start, scrape_end, run(events).tally);
            let (oldest, newest) = extremes;
            &&& record.app_id == app_id
            &&& record.scrape_start == rfc3339_millis(scrape_start)
            &&& record.scrape_end == rfc3339_millis(scrape_end)
            &&& record.items_scraped == Some(saved(events).len() as int)
            &&& record.newest_review == Some(rfc3339_millis(newest))
            &&& record.oldest_review == Some(rfc3339_millis(oldest))
            &&& saved(events).contains(newest)
            &&& saved(events).contains(oldest)
            &&& forall|i: int|
                0 <= i < saved(events).len() ==> {
                    let at = #[trigger] saved(events)[i];
                    &&& newest.secs > at.secs || (newest.secs == at.secs && newest.nanos >= at.nanos)
                    &&& oldest.secs < at.secs || (oldest.secs == at.secs && oldest.nanos <= at.nanos)
                }
        }),
{
    let tally = run(events).tally;
    a_pull_bounds_what_it_saved(events, 0);
    let oldest = tally.oldest->0;
    let newest = tally.newest->0;
    assert forall|i: int| 0 <= i < saved(events).len() implies {
        let at = #[trigger] saved(events)[i];
        &&& newest.secs > at.secs || (newest.secs == at.secs && newest.nanos >= at.nanos)
        &&& oldest.secs < at.secs || (oldest.secs == at.secs && oldest.nanos <= at.nanos)
    } by {
        a_pull_bounds_what_it_saved(events, i);
    }
    (oldest, newest)
}

/// What a record says of the reviews rests on the pull alone: it does not change with the
/// application, the start or the end of the scraping, and these do not change with it. A pull that
/// saved nothing is recorded without a number and without reviews.
pub proof fn what_a_record_rests_on(
    app_id: Seq<char>,
    scrape_start: Instant,
    scrape_end: Instant,
    tally: TallyView,
    other_id: Seq<char>,
    other_start: Instant,
    other_end: Instant,
    other_tally: TallyView,
)
    ensures
        ({
            let record = scrape_columns(app_id, scrape_start, scrape_end, tally);
            let moved = scrape_columns(other_id, other_start, other_end, tally);
            let recounted = scrape_columns(app_id, scrape_start, scrape_end, other_tally);
            &&& record.newest_review == moved.newest_review
            &&& record.oldest_review == moved.oldest_review
            &&& record.items_scraped == moved.items_scraped
            &&& record.app_id == app_id && recounted.app_id == app_id
            &&& record.scrape_start == rfc3339_millis(scrape_start)
            &&& recounted.scrape_start == rfc3339_millis(scrape_start)
            &&& record.scrape_end == rfc3339_millis(scrape_end)
            &&& recounted.scrape_end == rfc3339_millis(scrape_end)
        }),
        ({
            let nothing = scrape_columns(app_id, scrape_start, scrape_end, TallyView::empty());
            nothing.newest_review is None && nothing.oldest_review is None
                && nothing.items_scraped is None
        }),
{
}

/// A record holds what its tally holds: the number as it is, and each time, where there is one, as
/// RFC 3339 writes it to the millisecond.
pub proof fn a_record_holds_its_tally(
    app_id: Seq<char>,
    scrape_start: Instant,
    scrape_end: Instant,
    tally: TallyView,
)
    ensures
        ({
            let record = scrape_columns(app_id, scrape_start, scrape_end, tally);
            &&& record.items_scraped == tally.scraped
            &&& tally.newest matches Some(at) ==> record.newest_review == Some(rfc3339_millis(at))
            &&& tally.newest is None ==> record.newest_review is None
            &&& tally.oldest matches Some(at) ==> record.oldest_review == Some(rfc3339_millis(at))
            &&& tally.oldest is None ==> record.oldest_review is None
        }),
{
}

/// The view of a record holds each of its fields.
pub proof fn the_view_of_a_record_is_its_fields(row: ScrapeRow)
    ensures
        row@.app_id == row.app_id@,
        row@.scrape_start == row.scrape_start@,
        row@.scrape_end == row.scrape_end@,
        row.newest_review matches Some(text) ==> row@.newest_review == Some(text@),
        row.newest_review is None ==> row@.newest_review is None,
        row.oldest_review matches Some(text) ==> row@.oldest_review == Some(text@),
        row.oldest_review is None ==> row@.oldest_review is None,
        row.items_scraped matches Some(n) ==> row@.items_scraped == Some(n as int),
        row.items_scraped is None ==> row@.items_scraped is None,
{
}

/// The statements that make the tables and fill them: a review and an application have their
/// identifier for a key, a review whose key is taken is refused, and an application whose key is
/// taken replaces all that was there of it.
pub proof fn what_the_statements_are()
    ensures
        CREATE_APPS@ == "
    create table if not exists apps (
        app_id text not null primary key,
        updated_at text,
        category text not null,
        name text not null,
        publisher text not null, -- From the `artist` field
        summary text not null,
        released_at text not null,
        inserted_at text not null,
        icon_url text not null,
        xml_raw text not null
    );
"@,
        CREATE_REVIEWS@ == "
    create table if not exists reviews (
        review_id text not null primary key,
        app_id text not null,
        title text not null,
        body text not null, -- content[type=\"text\"]
        rating integer not null,
        version text not null,
        updated_at text not null,
        author_name text not null,
        inserted_at text not null,
        xml_raw text not null
    );
"@,
        CREATE_SCRAPES@ == "
    create table if not exists scrapes (
        app_id text not null,
        scrape_start text not null,
        scrape_end text not null,
        newest_review text,
        oldest_review text,
        items_scraped integer
    );
"@,
        INSERT_REVIEW@ == "
    insert into reviews (
        review_id,
        app_id,
        title,
        body,
        rating,
        version,
        updated_at,
        author_name,
        inserted_at,
        xml_raw
    ) values ($1, $2, $3, $4, $5, $6, $7, $8, $9, $10);
"@,
        INSERT_APP@ == "
    insert into apps (
        app_id,
        updated_at,
        category,
        name,
        publisher,
        summary,
        released_at,
        inserted_at,
        icon_url,
        xml_raw
    ) values ($1, $2, $3, $4, $5, $6, $7, $8, $9, $10)
    on conflict (app_id) do update set
        updated_at=excluded.updated_at,
        category=excluded.category,
        name=excluded.name,
        publisher=excluded.publisher,
        summary=excluded.summary,
        released_at=excluded.released_at,
        inserted_at=excluded.inserted_at,
        icon_url=excluded.icon_url,
        xml_raw=excluded.xml_raw;
"@,
        INSERT_SCRAPE@ == "
    insert into scrapes (
        app_id,
        scrape_start,
        scrape_end,
        newest_review,
        oldest_review,
        items_scraped
    ) values ($1, $2, $3, $4, $5, $6);
"@,
{
}

} // verus!
