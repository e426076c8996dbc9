//! Where the feeds are, and what their answers mean.
use crate::app_version::{
    apps_parsed, every_entry_is_accounted_for, parse_apps, shows, shows_an_app,
    the_apps_are_what_the_feed_shows, AppView, ParsedApps,
};
use crate::error::{empty_to_err, ErrorView, ScrapeError};
use crate::nodes::entries;
use crate::pull::{
    an_answer_is_saved_duplicate_or_failure, outcome_of, what_an_event_does, DbError, InsertOutcome,
    PullEvent, PullView, ReviewPull, Stage,
};
use crate::review::{
    fails_by, is_first_silent, parse_reviews, parsed_reviews_are_what_the_feed_says, reviews_parsed,
    reviews_view, says, says_a_review, Review, ReviewView,
};
use crate::text::{
    comma_joined, comma_split, decimal, decimal_reads_back, i64_to_string, join_commas,
    join_then_split, parsed_i64, strings_view, u64_to_string,
};
use crate::xml::{writes_as, xml_document};
use vstd::prelude::*;
use vstd::string::*;

verus! {

/// The browser that requests name themselves.
pub const CHROME_USER_AGENT: &'static str =
    "Mozilla/5.0 (X11; Linux x86_64) AppleWebKit/537.36 (KHTML, like Gecko) Chrome/70.0.3538.77 Safari/537.36";

/// How long to wait before a request.
pub const SLEEP_MILLIS: u64 = 1000;

/// How long to wait after an answer without content.
pub const NO_CONTENT_SLEEP_SECS: u64 = 60;

/// The address of a page of an application's reviews, the most recent first.
pub open spec fn reviews_address(app_id: Seq<char>, page: int) -> Seq<char> {
    "https://itunes.apple.com/us/rss/customerreviews/id="@ + app_id + "/page="@ + decimal(page)
        + "/sortBy=mostRecent/xml"@
}

/// The address of the top grossing applications of a category.
pub open spec fn top_apps_address(category: int) -> Seq<char> {
    "https://itunes.apple.com/us/rss/topgrossingapplications/limit=200/genre="@ + decimal(category)
        + "/xml"@
}

/// The address that looks a list of applications up.
pub open spec fn lookup_address(app_ids: Seq<Seq<char>>) -> Seq<char> {
    "http://itunes.apple.com/lookup?id="@ + comma_joined(app_ids)
}

/// The address of a page of an application's reviews, the most recent first.
pub fn reviews_url(app_id: &str, page: u64) -> (r: String)
    ensures
        r@ == "https://itunes.apple.com/us/rss/customerreviews/id="@ + app_id@ + "/page="@ + decimal(
            page as int,
        ) + "/sortBy=mostRecent/xml"@,
        r@ == reviews_address(app_id@, page as int),
{
    let mut url = String::from_str("https://itunes.apple.com/us/rss/customerreviews/id=");
    url.append(app_id);
    url.append("/page=");
    url.append(u64_to_string(page).as_str());
    url.append("/sortBy=mostRecent/xml");
    url
}

/// The address of the top grossing applications of a category.
pub fn top_apps_url(category: i64) -> (r: String)
    ensures
        r@ == "https://itunes.apple.com/us/rss/topgrossingapplications/limit=200/genre="@ + decimal(
            category as int,
        ) + "/xml"@,
        r@ == top_apps_address(category as int),
{
    let mut url = String::from_str(
        "https://itunes.apple.com/us/rss/topgrossingapplications/limit=200/genre=",
    );
    url.append(i64_to_string(category).as_str());
    url.append("/xml");
    url
}

/// The address that looks a list of applications up.
pub fn lookup_url(app_ids: &Vec<String>) -> (r: String)
    ensures
        r@ == "http://itunes.apple.com/lookup?id="@ + comma_joined(strings_view(app_ids@)),
        r@ == lookup_address(strings_view(app_ids@)),
{
    let mut url = String::from_str("http://itunes.apple.com/lookup?id=");
    url.append(join_commas(app_ids).as_str());
    url
}

/// What asking for a page of reviews came to.
#[derive(Debug, PartialEq, Eq)]
pub enum FetchedReviews {
    /// There was no answer.
    NotFetched { error: ScrapeError },
    /// The answer had no content.
    NoContent,
    /// The content is not a feed of reviews.
    Unreadable { error: ScrapeError },
    /// The reviews of the page.
    Read { reviews: Vec<Review> },
}

/// Whether asking for a page of reviews can come to this, given the answer.
pub open spec fn page_answered(
    app_id: Seq<char>,
    page: int,
    answer: Option<Seq<char>>,
    fetched: FetchedReviews,
) -> bool {
    match answer {
        None => fetched matches FetchedReviews::NotFetched { error } && error@
            == (ErrorView::FetchReviews { app_id, page }),
        Some(content) => if content.len() == 0 {
            fetched is NoContent
        } else {
            match fetched {
                FetchedReviews::Read { reviews } => reviews_parsed(
                    app_id,
                    content,
                    Ok(reviews_view(reviews@)),
                ),
                FetchedReviews::Unreadable { error } => reviews_parsed(
                    app_id,
                    content,
                    Err(error@),
                ),
                _ => false,
            }
        },
    }
}

/// Makes what there is of an answer for a page of reviews; there is none where the request failed.
pub fn fetch_reviews(app_id: &str, page: u64, answer: Option<&str>) -> (r: FetchedReviews)
    ensures
        page_answered(
            app_id@,
            page as int,
            match answer {
                Some(content) => Some(content@),
                None => None,
            },
            r,
        ),
{
    match answer {
        None => FetchedReviews::NotFetched {
            error: ScrapeError::FetchReviews { app_id: app_id.to_owned(), page },
        },
        Some(content) => {
            if content.is_empty() {
                FetchedReviews::NoContent
            } else {
                match parse_reviews(app_id, content) {
                    Ok(reviews) => FetchedReviews::Read { reviews },
                    Err(error) => FetchedReviews::Unreadable { error },
                }
            }
        },
    }
}

/// Whether a result is what asking for the applications of a category comes to, given the answer:
/// the applications and the errors of the entries.
pub open spec fn apps_answered(
    category: int,
    answer: Option<Seq<char>>,
    result: Result<(Seq<AppView>, Seq<ErrorView>), ErrorView>,
) -> bool {
    match answer {
        None => result matches Err(error) && error == (ErrorView::FetchApps { category }),
        Some(content) => match xml_document(content) {
            Some(document) => result matches Ok(parsed) && apps_parsed(
                entries(document),
                parsed.0,
                parsed.1,
            ),
            None => result matches Err(error) && error == ErrorView::ParseXml,
        },
    }
}

/// Makes the applications of a category of an answer; there is none where the request failed.
pub fn fetch_apps(category: i64, answer: Option<&str>) -> (r: Result<ParsedApps, ScrapeError>)
    ensures
        match answer {
            None => r matches Err(error) && error@ == (ErrorView::FetchApps {
                category: category as int,
            }),
            Some(content) => match xml_document(content@) {
                Some(document) => r matches Ok(parsed) && apps_parsed(
                    entries(document),
                    parsed.apps_view(),
                    parsed.failures_view(),
                ),
                None => r matches Err(error) && error@ == ErrorView::ParseXml,
            },
        },
        apps_answered(
            category as int,
            match answer {
                Some(content) => Some(content@),
                None => None,
            },
            match r {
                Ok(parsed) => Ok((parsed.apps_view(), parsed.failures_view())),
                Err(error) => Err(error@),
            },
        ),
{
    let content = empty_to_err(answer, ScrapeError::FetchApps { category })?;
    parse_apps(content)
}

impl FetchedReviews {
    /// What this is to a pull: an answer without content is a page without reviews.
    pub open spec fn event(self) -> PullEvent {
        match self {
            FetchedReviews::NotFetched { .. } => PullEvent::PageFailed,
            FetchedReviews::Unreadable { .. } => PullEvent::PageFailed,
            FetchedReviews::NoContent => PullEvent::PageRead { reviews: Seq::empty() },
            FetchedReviews::Read { reviews } => PullEvent::PageRead {
                reviews: reviews_view(reviews@),
            },
        }
    }

    /// Whether this counts as an error of scraping.
    pub open spec fn counts_as_error(self) -> bool {
        !(self is Read)
    }

    /// How many seconds to wait before going on.
    pub open spec fn pause(self) -> int {
        if self is NoContent {
            NO_CONTENT_SLEEP_SECS as int
        } else {
            0
        }
    }

    /// Whether this counts as an error of scraping.
    pub fn is_error(&self) -> (r: bool)
        ensures
            r == !(self is Read),
            r == self.counts_as_error(),
    {
        match self {
            FetchedReviews::Read { .. } => false,
            _ => true,
        }
    }

    /// How many seconds to wait before going on.
    pub fn pause_secs(&self) -> (r: u64)
        ensures
            r == (if self is NoContent {
                NO_CONTENT_SLEEP_SECS
            } else {
                0
            }),
            r == self.pause(),
    {
        match self {
            FetchedReviews::NoContent => NO_CONTENT_SLEEP_SECS,
            _ => 0,
        }
    }

    /// Hands this to the pull that asked for the page.
    pub fn deliver(self, pull: &mut ReviewPull)
        ensures
            final(pull)@ == old(pull)@.step(self.event()),
    {
        match self {
            FetchedReviews::NotFetched { .. } => pull.page_failed(),
            FetchedReviews::Unreadable { .. } => pull.page_failed(),
            FetchedReviews::NoContent => {
                let none: Vec<Review> = Vec::new();
                assert(reviews_view(none@) =~= Seq::<ReviewView>::empty());
                pull.page_read(none)
            },
            FetchedReviews::Read { reviews } => pull.page_read(reviews),
        }
    }
}

/// Whether what became of a review counts as an error of scraping: a duplicate does not.
pub open spec fn counts_as_insert_error(outcome: InsertOutcome) -> bool {
    outcome == InsertOutcome::Failed
}

/// Whether what became of a review counts as an error of scraping: a duplicate does not.
pub fn is_insert_error(outcome: InsertOutcome) -> (r: bool)
    ensures
        r == (outcome == InsertOutcome::Failed),
        r == counts_as_insert_error(outcome),
{
    outcome == InsertOutcome::Failed
}

/// The address of a page of reviews names the application and the page: between the fixed parts
/// stand the identifier, to the character, and a numeral that reads back as the page.
pub proof fn the_address_of_a_page_names_it(app_id: Seq<char>, page: i64)
    requires
        page >= 0,
    ensures
        ({
            let address = reviews_address(app_id, page as int);
            let start = "https://itunes.apple.com/us/rss/customerreviews/id="@;
            let middle = "/page="@;
            let end = "/sortBy=mostRecent/xml"@;
            let behind = start.len() + app_id.len();
            &&& address.len() == behind + middle.len() + decimal(page as int).len() + end.len()
            &&& address.take(start.len() as int) == start
            &&& address.subrange(start.len() as int, behind as int) == app_id
            &&& address.subrange(behind as int, (behind + middle.len()) as int) == middle
            &&& parsed_i64(
                address.subrange((behind + middle.len()) as int, address.len() - end.len()),
            ) == Some(page)
            &&& address.skip(address.len() - end.len()) == end
        }),
{
    let address = reviews_address(app_id, page as int);
    let start = "https://itunes.apple.com/us/rss/customerreviews/id="@;
    let middle = "/page="@;
    let end = "/sortBy=mostRecent/xml"@;
    let behind = start.len() + app_id.len();
    decimal_reads_back(page);
    assert(address.take(start.len() as int) =~= start);
    assert(address.subrange(start.len() as int, behind as int) =~= app_id);
    assert(address.subrange(behind as int, (behind + middle.len()) as int) =~= middle);
    assert(address.subrange((behind + middle.len()) as int, address.len() - end.len()) =~= decimal(
        page as int,
    ));
    assert(address.skip(address.len() - end.len()) =~= end);
}

/// The address of a category's applications names the category: between the fixed parts stands a
/// numeral that reads back as the category.
pub proof fn the_address_of_a_category_names_it(category: i64)
    ensures
        ({
            let address = top_apps_address(category as int);
            let start = "https://itunes.apple.com/us/rss/topgrossingapplications/limit=200/genre="@;
            let end = "/xml"@;
            &&& address.len() == start.len() + decimal(category as int).len() + end.len()
            &&& address.take(start.len() as int) == start
            &&& parsed_i64(address.subrange(start.len() as int, address.len() - end.len())) == Some(
                category,
            )
            &&& address.skip(address.len() - end.len()) == end
        }),
{
    let address = top_apps_address(category as int);
    let start = "https://itunes.apple.com/us/rss/topgrossingapplications/limit=200/genre="@;
    let end = "/xml"@;
    decimal_reads_back(category);
    assert(address.take(start.len() as int) =~= start);
    assert(address.subrange(start.len() as int, address.len() - end.len()) =~= decimal(
        category as int,
    ));
    assert(address.skip(address.len() - end.len()) =~= end);
}

/// The address of a lookup names the applications: behind the fixed part stand their identifiers,
/// all of them and in order, with a comma between each two.
pub proof fn the_address_of_a_lookup_names_its_apps(app_ids: Seq<Seq<char>>)
    requires
        app_ids.len() > 0,
        forall|i: int| 0 <= i < app_ids.len() ==> !(#[trigger] app_ids[i]).contains(','),
    ensures
        ({
            let address = lookup_address(app_ids);
            let start = "http://itunes.apple.com/lookup?id="@;
            &&& address.len() >= start.len()
            &&& address.take(start.len() as int) == start
            &&& comma_split(address.skip(start.len() as int)) == app_ids
        }),
{
    let address = lookup_address(app_ids);
    let start = "http://itunes.apple.com/lookup?id="@;
    join_then_split(app_ids);
    assert(address.take(start.len() as int) =~= start);
    assert(address.skip(start.len() as int) =~= comma_joined(app_ids));
}

/// What an answer for a page comes to: without an answer, an error that names the application and
/// the page; without content, just that; and otherwise the reviews that the content says, exactly
/// where it is a document each of whose entries says one.
pub proof fn what_an_answer_for_a_page_comes_to(
    app_id: Seq<char>,
    page: int,
    answer: Option<Seq<char>>,
    fetched: FetchedReviews,
)
    requires
        page_answered(app_id, page, answer, fetched),
    ensures
        fetched is NotFetched <==> answer is None,
        fetched matches FetchedReviews::NotFetched { error } ==> error@ == (
        ErrorView::FetchReviews { app_id, page }),
        fetched is NoContent <==> (answer matches Some(content) && content.len() == 0),
        fetched is Read <==> (answer matches Some(content) && content.len() > 0 && (xml_document(
            content,
        ) matches Some(document) && forall|i: int|
            0 <= i < entries(document).len() ==> says_a_review(#[trigger] entries(document)[i]))),
        fetched matches FetchedReviews::Unreadable { error } ==> match xml_document(answer->0) {
            None => error@ == ErrorView::ParseXml,
            Some(document) => exists|i: int| #[trigger]
                is_first_silent(entries(document), i) && fails_by(entries(document)[i], error@),
        },
        fetched matches FetchedReviews::Read { reviews } ==> {
            let nodes = entries(xml_document(answer->0)->0);
            &&& reviews@.len() == nodes.len()
            &&& forall|i: int|
                0 <= i < reviews@.len() ==> says(nodes[i], (#[trigger] reviews@[i])@)
                    && reviews@[i].app_id@ == app_id && writes_as(nodes[i], reviews@[i].xml_raw@)
        },
{
    if let Some(content) = answer {
        if content.len() > 0 {
            let result: Result<Seq<ReviewView>, ErrorView> = match fetched {
                FetchedReviews::Read { reviews } => Ok(reviews_view(reviews@)),
                FetchedReviews::Unreadable { error } => Err(error@),
                _ => arbitrary(),
            };
            parsed_reviews_are_what_the_feed_says(app_id, content, result);
            if let FetchedReviews::Read { reviews } = fetched {
                let nodes = entries(xml_document(content)->0);
                let views = reviews_view(reviews@);
                assert forall|i: int| 0 <= i < reviews@.len() implies says(
                    nodes[i],
                    (#[trigger] reviews@[i])@,
                ) && reviews@[i].app_id@ == app_id && writes_as(
                    nodes[i],
                    reviews@[i].xml_raw@,
                ) by {
                    assert(views[i] == reviews@[i]@);
                }
            }
        }
    }
}

/// What a page comes to is what the pull that asked for it goes on with: the reviews that were read,
/// each of them and in order, and the next page where there are none. What could not be fetched or
/// read and what had no content is an error of scraping, and only an answer without content is
/// followed by a minute's wait.
pub proof fn what_a_page_comes_to_reaches_the_pull(fetched: FetchedReviews, pull: PullView, page: int)
    requires
        pull.stage == (Stage::Fetch { page }),
    ensures
        fetched matches FetchedReviews::Read { reviews } ==> reviews@.len() > 0 ==> {
            &&& pull.step(fetched.event()).stage matches Stage::Insert { page: of, waiting, duplicates }
            &&& of == page && duplicates == 0 && waiting.len() == reviews@.len()
            &&& forall|i: int| 0 <= i < waiting.len() ==> #[trigger] waiting[i] == reviews@[i]@
        },
        !(fetched is Read) || (fetched matches FetchedReviews::Read { reviews } && reviews@.len()
            == 0) ==> pull.step(fetched.event()).stage == (if page < 9 {
            Stage::Fetch { page: page + 1 }
        } else {
            Stage::Done
        }),
        pull.step(fetched.event()).tally == pull.tally,
        fetched.counts_as_error() <==> fetched is NotFetched || fetched is NoContent
            || fetched is Unreadable,
        fetched.pause() == (if fetched is NoContent {
            60int
        } else {
            0
        }),
{
    what_an_event_does(pull, fetched.event());
    if let FetchedReviews::Read { reviews } = fetched {
        if reviews@.len() == 0 {
            assert(reviews_view(reviews@) =~= Seq::<ReviewView>::empty());
        }
    }
}

/// What an answer for a category comes to: without an answer, an error that names the category;
/// where it is no document, that error; and otherwise the applications that its entries show, in
/// order, with the errors of the entries that show none.
pub proof fn what_an_answer_for_a_category_comes_to(
    category: int,
    answer: Option<Seq<char>>,
    result: Result<(Seq<AppView>, Seq<ErrorView>), ErrorView>,
)
    requires
        apps_answered(category, answer, result),
    ensures
        answer is None ==> result == Err::<(Seq<AppView>, Seq<ErrorView>), ErrorView>(
            ErrorView::FetchApps { category },
        ),
        result is Ok <==> (answer matches Some(content) && xml_document(content) is Some),
        answer matches Some(content) && xml_document(content) is None ==> result == Err::<
            (Seq<AppView>, Seq<ErrorView>),
            ErrorView,
        >(ErrorView::ParseXml),
        result matches Ok(parsed) ==> {
            let nodes = entries(xml_document(answer->0)->0);
            &&& parsed.0.len() + parsed.1.len() == nodes.len()
            &&& forall|k: int|
                0 <= k < parsed.0.len() ==> exists|i: int|
                    0 <= i < nodes.len() && shows(#[trigger] nodes[i], #[trigger] parsed.0[k])
            &&& forall|i: int|
                0 <= i < nodes.len() && shows_an_app(#[trigger] nodes[i]) ==> exists|k: int|
                    0 <= k < parsed.0.len() && shows(nodes[i], #[trigger] parsed.0[k])
        },
{
    if let Ok(parsed) = result {
        let nodes = entries(xml_document(answer->0)->0);
        every_entry_is_accounted_for(nodes, parsed.0, parsed.1);
        let places = the_apps_are_what_the_feed_shows(nodes, parsed.0, parsed.1);
        assert forall|k: int| 0 <= k < parsed.0.len() implies exists|i: int|
            0 <= i < nodes.len() && shows(#[trigger] nodes[i], #[trigger] parsed.0[k]) by {
            assert(0 <= places[k] < nodes.len());
            assert(shows(nodes[places[k]], parsed.0[k]));
        }
        assert forall|i: int| 0 <= i < nodes.len() && shows_an_app(
            #[trigger] nodes[i],
        ) implies exists|k: int| 0 <= k < parsed.0.len() && shows(nodes[i], #[trigger] parsed.0[k]) by {
            let k = choose|k: int| 0 <= k < places.len() && places[k] == i;
            assert(shows(nodes[places[k]], parsed.0[k]));
        }
    }
}

/// A review that could not be saved is an error of scraping exactly where the database refused it
/// for anything but a key that is taken.
pub proof fn only_failures_to_save_are_errors(result: Result<(), DbError>)
    ensures
        counts_as_insert_error(outcome_of(result)) <==> (result matches Err(error) && error != (
        DbError::Sqlite { extended_code: 1555 })),
{
    an_answer_is_saved_duplicate_or_failure(result);
}

/// How requests are made: a second apart, and in the name of a browser.
pub proof fn how_requests_are_made()
    ensures
        SLEEP_MILLIS == 1000,
        CHROME_USER_AGENT@ == "Mozilla/5.0 (X11; Linux x86_64) AppleWebKit/537.36 (KHTML, like Gecko) Chrome/70.0.3538.77 Safari/537.36"@,
{
}

} // verus!
