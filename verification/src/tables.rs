//! The tables of the database, and what pulls and lookups make of them.
//!
//! The tables are those that `records` creates: a review and an application have a row under their
//! identifier, and each pull of reviews has a record. What is said here of the tables is said of
//! any database that refuses a review whose identifier is taken.
use crate::app_version::AppView;
use crate::feeds::{page_answered, FetchedReviews};
use crate::pull::{
    a_whole_pull, page_events, page_tally, pages_events, pages_tally, run, InsertOutcome, PageStory,
    PullEvent, TallyView, FULL_PAGE, LAST_PAGE,
};
use crate::records::{app_columns, review_columns, scrape_columns, ScrapeView};
use crate::review::{each_review_comes_from_its_entry, reviews_parsed, ReviewView};
use crate::scrape::{every_missing_app_is_looked_up, lookup_batches};
use crate::timestamp::Instant;
use vstd::prelude::*;

verus! {

/// The rows of the tables: the columns of each review and of each application by identifier, and
/// the records of pulls in order.
pub struct Database {
    pub reviews: Map<Seq<char>, Seq<Seq<char>>>,
    pub apps: Map<Seq<char>, Seq<Seq<char>>>,
    pub scrapes: Seq<ScrapeView>,
}

/// An attempt to save a review, and what became of it.
pub struct Attempt {
    pub review: ReviewView,
    pub outcome: InsertOutcome,
}

/// The attempts to save the reviews of a page, up to a full page of duplicates.
pub open spec fn page_attempts(
    duplicates: int,
    reviews: Seq<ReviewView>,
    outcomes: Seq<InsertOutcome>,
) -> Seq<Attempt>
    decreases reviews.len(),
{
    if reviews.len() == 0 {
        Seq::empty()
    } else {
        let attempt = Attempt { review: reviews[0], outcome: outcomes[0] };
        let met = if outcomes[0] is Duplicate {
            duplicates + 1
        } else {
            duplicates
        };
        if met == FULL_PAGE {
            seq![attempt]
        } else {
            seq![attempt] + page_attempts(met, reviews.drop_first(), outcomes.drop_first())
        }
    }
}

/// The attempts of a pull to save the reviews of its pages, up to a full page of duplicates.
pub open spec fn pull_attempts(pages: Seq<PageStory>) -> Seq<Attempt>
    decreases pages.len(),
{
    if pages.len() == 0 {
        Seq::empty()
    } else {
        match pages[0] {
            PageStory::Failed => pull_attempts(pages.drop_first()),
            PageStory::Read { reviews, outcomes } => if page_tally(
                TallyView::empty(),
                0,
                reviews,
                outcomes,
            ).1 {
                page_attempts(0, reviews, outcomes)
            } else {
                page_attempts(0, reviews, outcomes) + pull_attempts(pages.drop_first())
            },
        }
    }
}

/// Whether the answer to an attempt goes by the identifier: a review is saved only where the
/// identifier is free, and is a duplicate only where it is taken.
pub open spec fn goes_by_key(reviews: Map<Seq<char>, Seq<Seq<char>>>, attempt: Attempt) -> bool {
    match attempt.outcome {
        InsertOutcome::Inserted => !reviews.contains_key(attempt.review.review_id),
        InsertOutcome::Duplicate => reviews.contains_key(attempt.review.review_id),
        InsertOutcome::Failed => true,
    }
}

/// The reviews after an attempt: a review that was saved has its row, and nothing else changes.
pub open spec fn after_attempt(
    reviews: Map<Seq<char>, Seq<Seq<char>>>,
    attempt: Attempt,
) -> Map<Seq<char>, Seq<Seq<char>>> {
    if attempt.outcome is Inserted {
        reviews.insert(attempt.review.review_id, review_columns(attempt.review))
    } else {
        reviews
    }
}

/// The reviews after attempts, one after the other.
pub open spec fn after_attempts(
    reviews: Map<Seq<char>, Seq<Seq<char>>>,
    attempts: Seq<Attempt>,
) -> Map<Seq<char>, Seq<Seq<char>>>
    decreases attempts.len(),
{
    if attempts.len() == 0 {
        reviews
    } else {
        after_attempts(after_attempt(reviews, attempts[0]), attempts.drop_first())
    }
}

/// Whether the answers to attempts, one after the other, go by the identifiers.
pub open spec fn all_by_key(
    reviews: Map<Seq<char>, Seq<Seq<char>>>,
    attempts: Seq<Attempt>,
) -> bool
    decreases attempts.len(),
{
    attempts.len() > 0 ==> {
        &&& goes_by_key(reviews, attempts[0])
        &&& all_by_key(after_attempt(reviews, attempts[0]), attempts.drop_first())
    }
}

/// How many of the attempts saved a review.
pub open spec fn inserted(attempts: Seq<Attempt>) -> int
    decreases attempts.len(),
{
    if attempts.len() == 0 {
        0
    } else {
        inserted(attempts.drop_first()) + (if attempts[0].outcome is Inserted {
            1int
        } else {
            0int
        })
    }
}

/// How many reviews a tally counts.
pub open spec fn counted(tally: TallyView) -> int {
    match tally.scraped {
        Some(n) => n,
        None => 0,
    }
}

impl Database {
    /// Whether the database answers the attempts of a pull by the identifiers of its reviews.
    pub open spec fn answers(self, pages: Seq<PageStory>) -> bool {
        all_by_key(self.reviews, pull_attempts(pages))
    }

    /// The database after the attempts of a pull.
    pub open spec fn pulled(self, pages: Seq<PageStory>) -> Database {
        Database { reviews: after_attempts(self.reviews, pull_attempts(pages)), ..self }
    }
}

/// Whether the story of a page is one that the answer to the request for it leads to.
pub open spec fn is_story_of(
    app_id: Seq<char>,
    page: int,
    answer: Option<Seq<char>>,
    story: PageStory,
) -> bool {
    &&& story.is_told()
    &&& exists|fetched: FetchedReviews| #[trigger]
        page_answered(app_id, page, answer, fetched) && page_events(story)[0] == fetched.event()
}

/// Whether the stories of the pages of a pull are ones that the answers to its requests lead to.
pub open spec fn are_stories_of(
    app_id: Seq<char>,
    answers: Seq<Option<Seq<char>>>,
    pages: Seq<PageStory>,
) -> bool {
    &&& pages.len() == LAST_PAGE
    &&& answers.len() == LAST_PAGE
    &&& forall|i: int|
        0 <= i < LAST_PAGE ==> is_story_of(app_id, i + 1, answers[i], #[trigger] pages[i])
}

proof fn lemma_attempts_concat(
    reviews: Map<Seq<char>, Seq<Seq<char>>>,
    a: Seq<Attempt>,
    b: Seq<Attempt>,
)
    ensures
        after_attempts(reviews, a + b) == after_attempts(after_attempts(reviews, a), b),
        all_by_key(reviews, a + b) <==> all_by_key(reviews, a) && all_by_key(
            after_attempts(reviews, a),
            b,
        ),
        inserted(a + b) == inserted(a) + inserted(b),
    decreases a.len(),
{
    if a.len() == 0 {
        assert(a + b =~= b);
    } else {
        assert((a + b).drop_first() =~= a.drop_first() + b);
        assert((a + b)[0] == a[0]);
        lemma_attempts_concat(after_attempt(reviews, a[0]), a.drop_first(), b);
    }
}

proof fn lemma_stop_rests_on_outcomes(
    tally: TallyView,
    duplicates: int,
    reviews: Seq<ReviewView>,
    outcomes: Seq<InsertOutcome>,
)
    ensures
        page_tally(tally, duplicates, reviews, outcomes).1 == page_tally(
            TallyView::empty(),
            duplicates,
            reviews,
            outcomes,
        ).1,
    decreases reviews.len(),
{
    if reviews.len() > 0 {
        let met = if outcomes[0] is Duplicate {
            duplicates + 1
        } else {
            duplicates
        };
        let rest = reviews.drop_first();
        let answers = outcomes.drop_first();
        lemma_stop_rests_on_outcomes(tally, met, rest, answers);
        lemma_stop_rests_on_outcomes(tally.with(reviews[0].updated_at), met, rest, answers);
        lemma_stop_rests_on_outcomes(
            TallyView::empty().with(reviews[0].updated_at),
            met,
            rest,
            answers,
        );
    }
}

proof fn lemma_page_is_counted(
    tally: TallyView,
    duplicates: int,
    reviews: Seq<ReviewView>,
    outcomes: Seq<InsertOutcome>,
)
    requires
        reviews.len() == outcomes.len(),
        duplicates < FULL_PAGE,
    ensures
        counted(page_tally(tally, duplicates, reviews, outcomes).0) == counted(tally) + inserted(
            page_attempts(duplicates, reviews, outcomes),
        ),
    decreases reviews.len(),
{
    let attempts = page_attempts(duplicates, reviews, outcomes);
    if reviews.len() > 0 {
        let met = if outcomes[0] is Duplicate {
            duplicates + 1
        } else {
            duplicates
        };
        if met == FULL_PAGE {
            assert(attempts.drop_first() =~= Seq::empty());
            assert(inserted(attempts.drop_first()) == 0);
        } else {
            let rest = page_attempts(met, reviews.drop_first(), outcomes.drop_first());
            assert(attempts.drop_first() =~= rest);
            let next = if outcomes[0] is Inserted {
                tally.with(reviews[0].updated_at)
            } else {
                tally
            };
            lemma_page_is_counted(next, met, reviews.drop_first(), outcomes.drop_first());
        }
    }
}

proof fn lemma_pull_is_counted(tally: TallyView, pages: Seq<PageStory>)
    requires
        forall|i: int| 0 <= i < pages.len() ==> (#[trigger] pages[i]).is_told(),
    ensures
        counted(pages_tally(tally, pages)) == counted(tally) + inserted(pull_attempts(pages)),
    decreases pages.len(),
{
    if pages.len() > 0 {
        let rest = pages.drop_first();
        assert forall|i: int| 0 <= i < rest.len() implies (#[trigger] rest[i]).is_told() by {
            assert(rest[i] == pages[i + 1]);
        }
        assert(pages[0].is_told());
        match pages[0] {
            PageStory::Failed => {
                lemma_pull_is_counted(tally, rest);
            },
            PageStory::Read { reviews, outcomes } => {
                lemma_page_is_counted(tally, 0, reviews, outcomes);
                lemma_stop_rests_on_outcomes(tally, 0, reviews, outcomes);
                lemma_pull_is_counted(page_tally(tally, 0, reviews, outcomes).0, rest);
                lemma_attempts_concat(
                    Map::empty(),
                    page_attempts(0, reviews, outcomes),
                    pull_attempts(rest),
                );
            },
        }
    }
}

proof fn lemma_attempts_add_rows(
    reviews: Map<Seq<char>, Seq<Seq<char>>>,
    attempts: Seq<Attempt>,
    app_id: Seq<char>,
)
    requires
        reviews.dom().finite(),
        all_by_key(reviews, attempts),
        forall|i: int| 0 <= i < attempts.len() ==> (#[trigger] attempts[i]).review.app_id == app_id,
    ensures
        after_attempts(reviews, attempts).dom().finite(),
        after_attempts(reviews, attempts).len() == reviews.len() + inserted(attempts),
        forall|id: Seq<char>| #[trigger]
            reviews.contains_key(id) ==> after_attempts(reviews, attempts).contains_key(id)
                && after_attempts(reviews, attempts)[id] == reviews[id],
        forall|id: Seq<char>| #[trigger]
            after_attempts(reviews, attempts).contains_key(id) && !reviews.contains_key(id)
                ==> after_attempts(reviews, attempts)[id][0] == id && after_attempts(
                reviews,
                attempts,
            )[id][1] == app_id,
    decreases attempts.len(),
{
    if attempts.len() > 0 {
        let next = after_attempt(reviews, attempts[0]);
        let rest = attempts.drop_first();
        assert forall|i: int| 0 <= i < rest.len() implies (#[trigger] rest[i]).review.app_id
            == app_id by {
            assert(rest[i] == attempts[i + 1]);
        }
        assert(attempts[0].review.app_id == app_id);
        lemma_attempts_add_rows(next, rest, app_id);
        let after = after_attempts(reviews, attempts);
        assert(after == after_attempts(next, rest));
        assert forall|id: Seq<char>| #[trigger] reviews.contains_key(id) implies after.contains_key(
            id,
        ) && after[id] == reviews[id] by {
            assert(next.contains_key(id));
        }
        assert forall|id: Seq<char>| #[trigger]
            after.contains_key(id) && !reviews.contains_key(id) implies after[id][0] == id
            && after[id][1] == app_id by {
            if next.contains_key(id) {
                assert(after[id] == next[id]);
            }
        }
    }
}

proof fn lemma_page_attempts_are_of_its_reviews(
    app_id: Seq<char>,
    duplicates: int,
    reviews: Seq<ReviewView>,
    outcomes: Seq<InsertOutcome>,
)
    requires
        forall|i: int| 0 <= i < reviews.len() ==> (#[trigger] reviews[i]).app_id == app_id,
    ensures
        forall|i: int|
            0 <= i < page_attempts(duplicates, reviews, outcomes).len() ==> (
            #[trigger] page_attempts(duplicates, reviews, outcomes)[i]).review.app_id == app_id,
    decreases reviews.len(),
{
    if reviews.len() > 0 {
        let rest = reviews.drop_first();
        assert forall|i: int| 0 <= i < rest.len() implies (#[trigger] rest[i]).app_id == app_id by {
            assert(rest[i] == reviews[i + 1]);
        }
        assert(reviews[0].app_id == app_id);
        let met = if outcomes[0] is Duplicate {
            duplicates + 1
        } else {
            duplicates
        };
        lemma_page_attempts_are_of_its_reviews(app_id, met, rest, outcomes.drop_first());
    }
}

/// Whether all reviews of a page are of an application.
pub open spec fn is_page_of(app_id: Seq<char>, page: PageStory) -> bool {
    page matches PageStory::Read { reviews, .. } ==> forall|i: int|
        0 <= i < reviews.len() ==> (#[trigger] reviews[i]).app_id == app_id
}

proof fn lemma_pull_attempts_are_of_its_app(app_id: Seq<char>, pages: Seq<PageStory>)
    requires
        forall|i: int| 0 <= i < pages.len() ==> is_page_of(app_id, #[trigger] pages[i]),
    ensures
        forall|i: int|
            0 <= i < pull_attempts(pages).len() ==> (#[trigger] pull_attempts(pages)[i]).review.app_id
                == app_id,
    decreases pages.len(),
{
    if pages.len() > 0 {
        let rest = pages.drop_first();
        assert forall|i: int| 0 <= i < rest.len() implies is_page_of(
            app_id,
            #[trigger] rest[i],
        ) by {
            assert(rest[i] == pages[i + 1]);
        }
        lemma_pull_attempts_are_of_its_app(app_id, rest);
        assert(is_page_of(app_id, pages[0]));
        if let PageStory::Read { reviews, outcomes } = pages[0] {
            lemma_page_attempts_are_of_its_reviews(app_id, 0, reviews, outcomes);
        }
    }
}

proof fn lemma_stories_are_of_their_app(
    app_id: Seq<char>,
    page: int,
    answer: Option<Seq<char>>,
    story: PageStory,
)
    requires
        is_story_of(app_id, page, answer, story),
    ensures
        is_page_of(app_id, story),
{
    let fetched = choose|fetched: FetchedReviews| #[trigger]
        page_answered(app_id, page, answer, fetched) && page_events(story)[0] == fetched.event();
    if let PageStory::Read { reviews, .. } = story {
        assert(page_events(story)[0] == PullEvent::PageRead { reviews });
        if fetched is Read {
            assert forall|i: int| 0 <= i < reviews.len() implies (#[trigger] reviews[i]).app_id
                == app_id by {
                each_review_comes_from_its_entry(app_id, answer->0, reviews, i);
            }
        }
    }
}

/// A pull adds to the reviews as many rows as it counts, each of them under its identifier and of
/// the application that was asked for. The rows that were there stay as they are, and so do the
/// applications and the records of pulls.
pub proof fn a_pull_adds_what_it_counts(
    database: Database,
    app_id: Seq<char>,
    answers: Seq<Option<Seq<char>>>,
    pages: Seq<PageStory>,
)
    requires
        database.reviews.dom().finite(),
        are_stories_of(app_id, answers, pages),
        database.answers(pages),
    ensures
        database.pulled(pages).reviews.dom().finite(),
        database.pulled(pages).reviews.len() == database.reviews.len() + counted(
            run(pages_events(pages)).tally,
        ),
        forall|id: Seq<char>| #[trigger]
            database.reviews.contains_key(id) ==> database.pulled(pages).reviews.contains_key(id)
                && database.pulled(pages).reviews[id] == database.reviews[id],
        forall|id: Seq<char>| #[trigger]
            database.pulled(pages).reviews.contains_key(id) && !database.reviews.contains_key(id)
                ==> database.pulled(pages).reviews[id][0] == id && database.pulled(
                pages,
            ).reviews[id][1] == app_id,
        database.pulled(pages).apps == database.apps,
        database.pulled(pages).scrapes == database.scrapes,
{
    assert forall|i: int| 0 <= i < pages.len() implies (#[trigger] pages[i]).is_told() by {
        assert(is_story_of(app_id, i + 1, answers[i], pages[i]));
    }
    assert forall|i: int| 0 <= i < pages.len() implies is_page_of(app_id, #[trigger] pages[i]) by {
        lemma_stories_are_of_their_app(app_id, i + 1, answers[i], pages[i]);
    }
    a_whole_pull(pages);
    lemma_pull_is_counted(TallyView::empty(), pages);
    lemma_pull_attempts_are_of_its_app(app_id, pages);
    lemma_attempts_add_rows(database.reviews, pull_attempts(pages), app_id);
}

/// Whether two stories of a page are of the same reviews.
pub open spec fn are_alike(story: PageStory, other: PageStory) -> bool {
    match (story, other) {
        (PageStory::Failed, PageStory::Failed) => true,
        (
            PageStory::Read { reviews, outcomes },
            PageStory::Read { reviews: other_reviews, outcomes: other_outcomes },
        ) => {
            &&& reviews.len() == outcomes.len() == other_reviews.len() == other_outcomes.len()
            &&& forall|i: int|
                0 <= i < reviews.len() ==> (#[trigger] reviews[i]).review_id
                    == other_reviews[i].review_id
        },
        _ => false,
    }
}

/// Whatever one answer for a page leads to is of the same reviews.
pub proof fn stories_of_an_answer_are_alike(
    app_id: Seq<char>,
    page: int,
    answer: Option<Seq<char>>,
    story: PageStory,
    other: PageStory,
)
    requires
        is_story_of(app_id, page, answer, story),
        is_story_of(app_id, page, answer, other),
    ensures
        are_alike(story, other),
{
    let fetched = choose|fetched: FetchedReviews| #[trigger]
        page_answered(app_id, page, answer, fetched) && page_events(story)[0] == fetched.event();
    let other_fetched = choose|fetched: FetchedReviews| #[trigger]
        page_answered(app_id, page, answer, fetched) && page_events(other)[0] == fetched.event();
    if let PageStory::Read { reviews, .. } = story {
        assert(page_events(story)[0] == PullEvent::PageRead { reviews });
    }
    if let PageStory::Read { reviews, .. } = other {
        assert(page_events(other)[0] == PullEvent::PageRead { reviews });
    }
    if fetched is Read {
        let reviews = story->reviews;
        let other_reviews = other->reviews;
        let content = answer->0;
        assert(reviews_parsed(app_id, content, Ok(reviews)));
        assert(reviews_parsed(app_id, content, Ok(other_reviews)));
        assert forall|i: int| 0 <= i < reviews.len() implies (#[trigger] reviews[i]).review_id
            == other_reviews[i].review_id by {
            each_review_comes_from_its_entry(app_id, content, reviews, i);
            each_review_comes_from_its_entry(app_id, content, other_reviews, i);
        }
    }
}

/// Whether every attempt was answered by a duplicate.
spec fn all_duplicates(attempts: Seq<Attempt>) -> bool {
    forall|i: int| 0 <= i < attempts.len() ==> (#[trigger] attempts[i]).outcome is Duplicate
}

/// Whether no attempt failed, other than by a duplicate.
pub open spec fn none_failed(attempts: Seq<Attempt>) -> bool {
    forall|i: int| 0 <= i < attempts.len() ==> !((#[trigger] attempts[i]).outcome is Failed)
}

/// Whether no attempt failed, other than by a duplicate, to save a review that is there.
pub open spec fn none_there_failed(
    reviews: Map<Seq<char>, Seq<Seq<char>>>,
    attempts: Seq<Attempt>,
) -> bool {
    forall|i: int|
        0 <= i < attempts.len() && reviews.contains_key(
            (#[trigger] attempts[i]).review.review_id,
        ) ==> !(attempts[i].outcome is Failed)
}

proof fn lemma_attempts_keep_keys(
    reviews: Map<Seq<char>, Seq<Seq<char>>>,
    attempts: Seq<Attempt>,
    id: Seq<char>,
)
    requires
        reviews.contains_key(id),
    ensures
        after_attempts(reviews, attempts).contains_key(id),
    decreases attempts.len(),
{
    if attempts.len() > 0 {
        lemma_attempts_keep_keys(
            after_attempt(reviews, attempts[0]),
            attempts.drop_first(),
            id,
        );
    }
}

/// Whether no attempt saved a review.
spec fn none_inserted(attempts: Seq<Attempt>) -> bool {
    forall|i: int| 0 <= i < attempts.len() ==> !((#[trigger] attempts[i]).outcome is Inserted)
}

proof fn lemma_nothing_saved(reviews: Map<Seq<char>, Seq<Seq<char>>>, attempts: Seq<Attempt>)
    requires
        none_inserted(attempts),
    ensures
        after_attempts(reviews, attempts) == reviews,
    decreases attempts.len(),
{
    if attempts.len() > 0 {
        let rest = attempts.drop_first();
        assert(!(attempts[0].outcome is Inserted));
        assert forall|i: int| 0 <= i < rest.len() implies !((
        #[trigger] rest[i]).outcome is Inserted) by {
            assert(rest[i] == attempts[i + 1]);
        }
        lemma_nothing_saved(reviews, rest);
    }
}

proof fn lemma_page_without_saves(
    tally: TallyView,
    duplicates: int,
    reviews: Seq<ReviewView>,
    outcomes: Seq<InsertOutcome>,
)
    requires
        duplicates < FULL_PAGE,
        none_inserted(page_attempts(duplicates, reviews, outcomes)),
    ensures
        page_tally(tally, duplicates, reviews, outcomes).0 == tally,
    decreases reviews.len(),
{
    let attempts = page_attempts(duplicates, reviews, outcomes);
    if reviews.len() > 0 {
        assert(attempts[0].outcome == outcomes[0]);
        let met = if outcomes[0] is Duplicate {
            duplicates + 1
        } else {
            duplicates
        };
        if met != FULL_PAGE {
            let rest = page_attempts(met, reviews.drop_first(), outcomes.drop_first());
            assert forall|i: int| 0 <= i < rest.len() implies !((
            #[trigger] rest[i]).outcome is Inserted) by {
                assert(rest[i] == attempts[i + 1]);
            }
            lemma_page_without_saves(tally, met, reviews.drop_first(), outcomes.drop_first());
        }
    }
}

proof fn lemma_pull_without_saves(tally: TallyView, pages: Seq<PageStory>)
    requires
        forall|i: int| 0 <= i < pages.len() ==> (#[trigger] pages[i]).is_told(),
        none_inserted(pull_attempts(pages)),
    ensures
        pages_tally(tally, pages) == tally,
    decreases pages.len(),
{
    if pages.len() > 0 {
        let all = pull_attempts(pages);
        let rest = pages.drop_first();
        let left = pull_attempts(rest);
        assert forall|i: int| 0 <= i < rest.len() implies (#[trigger] rest[i]).is_told() by {
            assert(rest[i] == pages[i + 1]);
        }
        assert(pages[0].is_told());
        match pages[0] {
            PageStory::Failed => {
                lemma_pull_without_saves(tally, rest);
            },
            PageStory::Read { reviews, outcomes } => {
                let first = page_attempts(0, reviews, outcomes);
                assert forall|i: int| 0 <= i < first.len() implies !((
                #[trigger] first[i]).outcome is Inserted) by {
                    assert(first[i] == all[i]);
                }
                lemma_page_without_saves(tally, 0, reviews, outcomes);
                lemma_stop_rests_on_outcomes(tally, 0, reviews, outcomes);
                if !page_tally(tally, 0, reviews, outcomes).1 {
                    assert forall|i: int| 0 <= i < left.len() implies !((
                    #[trigger] left[i]).outcome is Inserted) by {
                        assert(left[i] == all[first.len() + i]);
                    }
                    lemma_pull_without_saves(tally, rest);
                }
            },
        }
    }
}

/// The reviews of all pages, one page after the other.
spec fn all_reviews(pages: Seq<PageStory>) -> Seq<ReviewView>
    decreases pages.len(),
{
    if pages.len() == 0 {
        Seq::empty()
    } else {
        match pages[0] {
            PageStory::Failed => all_reviews(pages.drop_first()),
            PageStory::Read { reviews, .. } => reviews + all_reviews(pages.drop_first()),
        }
    }
}

proof fn lemma_page_is_tried_in_order(
    duplicates: int,
    reviews: Seq<ReviewView>,
    outcomes: Seq<InsertOutcome>,
)
    requires
        duplicates < FULL_PAGE,
    ensures
        page_attempts(duplicates, reviews, outcomes).len() <= reviews.len(),
        forall|i: int|
            0 <= i < page_attempts(duplicates, reviews, outcomes).len() ==> (
            #[trigger] page_attempts(duplicates, reviews, outcomes)[i]).review == reviews[i],
        !page_tally(TallyView::empty(), duplicates, reviews, outcomes).1 ==> page_attempts(
            duplicates,
            reviews,
            outcomes,
        ).len() == reviews.len(),
    decreases reviews.len(),
{
    let attempts = page_attempts(duplicates, reviews, outcomes);
    if reviews.len() > 0 {
        let met = if outcomes[0] is Duplicate {
            duplicates + 1
        } else {
            duplicates
        };
        if met != FULL_PAGE {
            let rest = page_attempts(met, reviews.drop_first(), outcomes.drop_first());
            lemma_page_is_tried_in_order(met, reviews.drop_first(), outcomes.drop_first());
            lemma_stop_rests_on_outcomes(
                TallyView::empty().with(reviews[0].updated_at),
                met,
                reviews.drop_first(),
                outcomes.drop_first(),
            );
            assert forall|i: int| 0 <= i < attempts.len() implies (#[trigger] attempts[i]).review
                == reviews[i] by {
                if i > 0 {
                    assert(attempts[i] == rest[i - 1]);
                    assert(reviews[i] == reviews.drop_first()[i - 1]);
                }
            }
        }
    }
}

/// A pull tries the reviews of its pages in order, up to where it stops.
proof fn lemma_pull_is_tried_in_order(pages: Seq<PageStory>)
    ensures
        pull_attempts(pages).len() <= all_reviews(pages).len(),
        forall|i: int|
            0 <= i < pull_attempts(pages).len() ==> (#[trigger] pull_attempts(pages)[i]).review
                == all_reviews(pages)[i],
    decreases pages.len(),
{
    if pages.len() > 0 {
        let rest = pages.drop_first();
        lemma_pull_is_tried_in_order(rest);
        if let PageStory::Read { reviews, outcomes } = pages[0] {
            let all = pull_attempts(pages);
            let first = page_attempts(0, reviews, outcomes);
            lemma_page_is_tried_in_order(0, reviews, outcomes);
            assert forall|i: int| 0 <= i < all.len() implies (#[trigger] all[i]).review
                == all_reviews(pages)[i] by {
                if i < first.len() {
                    assert(all[i] == first[i]);
                } else {
                    assert(all[i] == pull_attempts(rest)[i - first.len()]);
                }
            }
        }
    }
}

proof fn lemma_alike_pages_have_the_same_reviews(pages: Seq<PageStory>, again: Seq<PageStory>)
    requires
        pages.len() == again.len(),
        forall|i: int| 0 <= i < pages.len() ==> are_alike(#[trigger] pages[i], again[i]),
    ensures
        all_reviews(pages).len() == all_reviews(again).len(),
        forall|i: int|
            0 <= i < all_reviews(pages).len() ==> (#[trigger] all_reviews(pages)[i]).review_id
                == all_reviews(again)[i].review_id,
    decreases pages.len(),
{
    if pages.len() > 0 {
        let rest = pages.drop_first();
        let other = again.drop_first();
        assert forall|i: int| 0 <= i < rest.len() implies are_alike(
            #[trigger] rest[i],
            other[i],
        ) by {
            assert(rest[i] == pages[i + 1]);
        }
        lemma_alike_pages_have_the_same_reviews(rest, other);
        assert(are_alike(pages[0], again[0]));
        if let PageStory::Read { reviews, .. } = pages[0] {
            assert forall|i: int| 0 <= i < all_reviews(pages).len() implies (
            #[trigger] all_reviews(pages)[i]).review_id == all_reviews(again)[i].review_id by {
                if i >= reviews.len() {
                    assert(all_reviews(pages)[i] == all_reviews(rest)[i - reviews.len()]);
                } else {
                    assert(all_reviews(pages)[i] == reviews[i]);
                }
            }
        }
    }
}

proof fn lemma_tried_reviews_are_there(
    reviews: Map<Seq<char>, Seq<Seq<char>>>,
    attempts: Seq<Attempt>,
    i: int,
)
    requires
        all_by_key(reviews, attempts),
        none_failed(attempts),
        0 <= i < attempts.len(),
    ensures
        after_attempts(reviews, attempts).contains_key(attempts[i].review.review_id),
    decreases attempts.len(),
{
    let next = after_attempt(reviews, attempts[0]);
    let rest = attempts.drop_first();
    assert(!(attempts[0].outcome is Failed));
    if i == 0 {
        lemma_attempts_keep_keys(next, rest, attempts[0].review.review_id);
    } else {
        assert forall|j: int| 0 <= j < rest.len() implies !((
        #[trigger] rest[j]).outcome is Failed) by {
            assert(rest[j] == attempts[j + 1]);
        }
        assert(rest[i - 1] == attempts[i]);
        lemma_tried_reviews_are_there(next, rest, i - 1);
    }
}

proof fn lemma_what_is_there_is_not_saved(
    reviews: Map<Seq<char>, Seq<Seq<char>>>,
    attempts: Seq<Attempt>,
    i: int,
)
    requires
        all_by_key(reviews, attempts),
        0 <= i < attempts.len(),
        reviews.contains_key(attempts[i].review.review_id),
    ensures
        !(attempts[i].outcome is Inserted),
    decreases attempts.len(),
{
    if i > 0 {
        let rest = attempts.drop_first();
        assert(rest[i - 1] == attempts[i]);
        lemma_what_is_there_is_not_saved(after_attempt(reviews, attempts[0]), rest, i - 1);
    }
}

/// A page tried again: where each review that the first pull tried is in the table that the second
/// starts from, the second meets duplicates alone and stops no later than the first.
proof fn lemma_page_again(
    reviews: Map<Seq<char>, Seq<Seq<char>>>,
    duplicates: int,
    page: Seq<ReviewView>,
    outcomes: Seq<InsertOutcome>,
    there: Map<Seq<char>, Seq<Seq<char>>>,
    met: int,
    again: Seq<ReviewView>,
    answers: Seq<InsertOutcome>,
)
    requires
        page.len() == outcomes.len() == again.len() == answers.len(),
        forall|i: int|
            0 <= i < page.len() ==> (#[trigger] page[i]).review_id == again[i].review_id,
        duplicates <= met < FULL_PAGE,
        all_by_key(reviews, page_attempts(duplicates, page, outcomes)),
        none_failed(page_attempts(duplicates, page, outcomes)),
        forall|id: Seq<char>| #[trigger]
            after_attempts(reviews, page_attempts(duplicates, page, outcomes)).contains_key(id)
                ==> there.contains_key(id),
        all_by_key(there, page_attempts(met, again, answers)),
        none_there_failed(there, page_attempts(met, again, answers)),
    ensures
        all_duplicates(page_attempts(met, again, answers)),
        page_tally(TallyView::empty(), duplicates, page, outcomes).1 ==> page_tally(
            TallyView::empty(),
            met,
            again,
            answers,
        ).1,
    decreases page.len(),
{
    let first = page_attempts(duplicates, page, outcomes);
    let second = page_attempts(met, again, answers);
    if page.len() > 0 {
        assert(first[0].review == page[0] && first[0].outcome == outcomes[0]);
        assert(second[0].review == again[0] && second[0].outcome == answers[0]);
        let id = page[0].review_id;
        assert(id == again[0].review_id);
        let next = after_attempt(reviews, first[0]);
        assert(next.contains_key(id));
        assert(after_attempts(reviews, first) == after_attempts(next, first.drop_first()));
        lemma_attempts_keep_keys(next, first.drop_first(), id);
        assert(there.contains_key(id));
        assert(answers[0] is Duplicate);
        if met + 1 == FULL_PAGE {
            assert(second =~= seq![second[0]]);
        } else {
            let counted_first = if outcomes[0] is Duplicate {
                duplicates + 1
            } else {
                duplicates
            };
            let rest = page_attempts(counted_first, page.drop_first(), outcomes.drop_first());
            let other = page_attempts(met + 1, again.drop_first(), answers.drop_first());
            assert(first.drop_first() =~= rest);
            assert(second.drop_first() =~= other);
            assert forall|i: int| 0 <= i < rest.len() implies !((
            #[trigger] rest[i]).outcome is Failed) by {
                assert(rest[i] == first[i + 1]);
            }
            assert forall|i: int| 0 <= i < other.len() && there.contains_key(
                (#[trigger] other[i]).review.review_id,
            ) implies !(other[i].outcome is Failed) by {
                assert(other[i] == second[i + 1]);
            }
            assert forall|i: int| 0 <= i < page.drop_first().len() implies (
            #[trigger] page.drop_first()[i]).review_id == again.drop_first()[i].review_id by {
                assert(page.drop_first()[i] == page[i + 1]);
            }
            lemma_page_again(
                next,
                counted_first,
                page.drop_first(),
                outcomes.drop_first(),
                there,
                met + 1,
                again.drop_first(),
                answers.drop_first(),
            );
            lemma_stop_rests_on_outcomes(
                TallyView::empty().with(page[0].updated_at),
                counted_first,
                page.drop_first(),
                outcomes.drop_first(),
            );
            assert forall|i: int| 0 <= i < second.len() implies (
            #[trigger] second[i]).outcome is Duplicate by {
                if i > 0 {
                    assert(second[i] == other[i - 1]);
                }
            }
        }
    }
}

proof fn lemma_pull_again(
    reviews: Map<Seq<char>, Seq<Seq<char>>>,
    pages: Seq<PageStory>,
    there: Map<Seq<char>, Seq<Seq<char>>>,
    again: Seq<PageStory>,
)
    requires
        pages.len() == again.len(),
        forall|i: int| 0 <= i < pages.len() ==> are_alike(#[trigger] pages[i], again[i]),
        all_by_key(reviews, pull_attempts(pages)),
        none_failed(pull_attempts(pages)),
        there == after_attempts(reviews, pull_attempts(pages)),
        all_by_key(there, pull_attempts(again)),
        none_there_failed(there, pull_attempts(again)),
    ensures
        all_duplicates(pull_attempts(again)),
    decreases pages.len(),
{
    if pages.len() > 0 {
        let rest = pages.drop_first();
        let other = again.drop_first();
        assert forall|i: int| 0 <= i < rest.len() implies are_alike(
            #[trigger] rest[i],
            other[i],
        ) by {
            assert(rest[i] == pages[i + 1]);
        }
        assert(are_alike(pages[0], again[0]));
        match (pages[0], again[0]) {
            (
                PageStory::Read { reviews: page, outcomes },
                PageStory::Read { reviews: page_again, outcomes: answers },
            ) => {
                let first = page_attempts(0, page, outcomes);
                let second = page_attempts(0, page_again, answers);
                let all = pull_attempts(pages);
                let all_again = pull_attempts(again);
                let stops = page_tally(TallyView::empty(), 0, page, outcomes).1;
                let stops_again = page_tally(TallyView::empty(), 0, page_again, answers).1;
                let left = if stops {
                    Seq::empty()
                } else {
                    pull_attempts(rest)
                };
                let left_again = if stops_again {
                    Seq::empty()
                } else {
                    pull_attempts(other)
                };
                assert(all =~= first + left);
                assert(all_again =~= second + left_again);
                lemma_attempts_concat(reviews, first, left);
                lemma_attempts_concat(there, second, left_again);
                assert forall|i: int| 0 <= i < first.len() implies !((
                #[trigger] first[i]).outcome is Failed) by {
                    assert(first[i] == all[i]);
                }
                assert forall|i: int|
                    0 <= i < second.len() && there.contains_key(
                        (#[trigger] second[i]).review.review_id,
                    ) implies !(second[i].outcome is Failed) by {
                    assert(second[i] == all_again[i]);
                }
                let between = after_attempts(reviews, first);
                assert forall|id: Seq<char>| #[trigger] between.contains_key(
                    id,
                ) implies there.contains_key(id) by {
                    lemma_attempts_keep_keys(between, left, id);
                }
                lemma_page_again(reviews, 0, page, outcomes, there, 0, page_again, answers);
                lemma_nothing_saved(there, second);
                if !stops_again {
                    assert forall|i: int| 0 <= i < left.len() implies !((
                    #[trigger] left[i]).outcome is Failed) by {
                        assert(left[i] == all[first.len() + i]);
                    }
                    assert forall|i: int|
                        0 <= i < left_again.len() && there.contains_key(
                            (#[trigger] left_again[i]).review.review_id,
                        ) implies !(left_again[i].outcome is Failed) by {
                        assert(left_again[i] == all_again[second.len() + i]);
                    }
                    lemma_pull_again(between, rest, there, other);
                }
                assert forall|i: int| 0 <= i < all_again.len() implies (
                #[trigger] all_again[i]).outcome is Duplicate by {
                    if i < second.len() {
                        assert(all_again[i] == second[i]);
                    } else {
                        assert(all_again[i] == left_again[i - second.len()]);
                    }
                }
            },
            _ => {
                lemma_pull_again(reviews, rest, there, other);
            },
        }
    }
}

proof fn lemma_repeated_pulls_are_alike(
    app_id: Seq<char>,
    answers: Seq<Option<Seq<char>>>,
    pages: Seq<PageStory>,
    again: Seq<PageStory>,
)
    requires
        are_stories_of(app_id, answers, pages),
        are_stories_of(app_id, answers, again),
    ensures
        forall|i: int| 0 <= i < pages.len() ==> are_alike(#[trigger] pages[i], again[i]),
        forall|i: int| 0 <= i < again.len() ==> (#[trigger] again[i]).is_told(),
{
    assert forall|i: int| 0 <= i < pages.len() implies are_alike(
        #[trigger] pages[i],
        again[i],
    ) by {
        stories_of_an_answer_are_alike(app_id, i + 1, answers[i], pages[i], again[i]);
    }
    assert forall|i: int| 0 <= i < again.len() implies (#[trigger] again[i]).is_told() by {
        assert(is_story_of(app_id, i + 1, answers[i], again[i]));
    }
}

/// Two pulls on the same answers try the same reviews in the same order, as far as both go. Where
/// no review failed to be saved the first time other than by a duplicate, the second pull saves
/// none of the reviews that the first tried, whatever fails the second time.
pub proof fn what_was_tried_is_not_saved_again(
    database: Database,
    app_id: Seq<char>,
    answers: Seq<Option<Seq<char>>>,
    pages: Seq<PageStory>,
    again: Seq<PageStory>,
    i: int,
)
    requires
        are_stories_of(app_id, answers, pages),
        are_stories_of(app_id, answers, again),
        database.answers(pages),
        none_failed(pull_attempts(pages)),
        database.pulled(pages).answers(again),
        0 <= i < pull_attempts(pages).len(),
        i < pull_attempts(again).len(),
    ensures
        pull_attempts(again)[i].review.review_id == pull_attempts(pages)[i].review.review_id,
        database.pulled(pages).reviews.contains_key(pull_attempts(again)[i].review.review_id),
        !(pull_attempts(again)[i].outcome is Inserted),
{
    lemma_repeated_pulls_are_alike(app_id, answers, pages, again);
    lemma_pull_is_tried_in_order(pages);
    lemma_pull_is_tried_in_order(again);
    lemma_alike_pages_have_the_same_reviews(pages, again);
    assert(pull_attempts(pages)[i].review == all_reviews(pages)[i]);
    assert(pull_attempts(again)[i].review == all_reviews(again)[i]);
    lemma_tried_reviews_are_there(database.reviews, pull_attempts(pages), i);
    lemma_what_is_there_is_not_saved(
        database.pulled(pages).reviews,
        pull_attempts(again),
        i,
    );
}

/// A pull that is repeated on the same answers saves nothing, where no review failed to be saved
/// the first time other than by a duplicate: its tally is empty, and it leaves the database as the
/// first pull left it. Whatever fails the second time, this holds where it tries no more reviews
/// than the first; and it holds where it meets a duplicate for each review that is there.
pub proof fn a_repeated_pull_saves_nothing(
    database: Database,
    app_id: Seq<char>,
    answers: Seq<Option<Seq<char>>>,
    pages: Seq<PageStory>,
    again: Seq<PageStory>,
)
    requires
        are_stories_of(app_id, answers, pages),
        are_stories_of(app_id, answers, again),
        database.answers(pages),
        none_failed(pull_attempts(pages)),
        database.pulled(pages).answers(again),
        pull_attempts(again).len() <= pull_attempts(pages).len() || none_there_failed(
            database.pulled(pages).reviews,
            pull_attempts(again),
        ),
    ensures
        run(pages_events(again)).tally == TallyView::empty(),
        database.pulled(pages).pulled(again) == database.pulled(pages),
{
    let there = database.pulled(pages).reviews;
    let attempts = pull_attempts(again);
    lemma_repeated_pulls_are_alike(app_id, answers, pages, again);
    a_whole_pull(again);
    if attempts.len() <= pull_attempts(pages).len() {
        assert forall|i: int| 0 <= i < attempts.len() implies !((
        #[trigger] attempts[i]).outcome is Inserted) by {
            what_was_tried_is_not_saved_again(database, app_id, answers, pages, again, i);
        }
    } else {
        lemma_pull_again(database.reviews, pages, there, again);
    }
    assert(none_inserted(attempts));
    lemma_nothing_saved(there, attempts);
    lemma_pull_without_saves(TallyView::empty(), again);
}

/// The applications after the given ones were saved, one after the other, each in the place of what
/// there was of it.
pub open spec fn after_apps(
    apps: Map<Seq<char>, Seq<Seq<char>>>,
    found: Seq<AppView>,
) -> Map<Seq<char>, Seq<Seq<char>>>
    decreases found.len(),
{
    if found.len() == 0 {
        apps
    } else {
        after_apps(apps, found.drop_last()).insert(found.last().app_id, app_columns(found.last()))
    }
}

/// The identifiers of applications.
pub open spec fn app_ids(found: Seq<AppView>) -> Set<Seq<char>> {
    found.map_values(|app: AppView| app.app_id).to_set()
}

/// Whether an identifier stands in one of the first lists that are looked up.
pub open spec fn is_looked_up(ids: Seq<Seq<char>>, lookups: int, id: Seq<char>) -> bool {
    exists|i: int| 0 <= i < lookups && (#[trigger] lookup_batches(ids)[i]).contains(id)
}

impl Database {
    /// Whether there is a review of an application.
    pub open spec fn has_review_of(self, app_id: Seq<char>) -> bool {
        exists|id: Seq<char>| #[trigger]
            self.reviews.contains_key(id) && self.reviews[id][1] == app_id
    }

    /// The applications that have reviews but no row of their own.
    pub open spec fn missing(self) -> Set<Seq<char>> {
        Set::new(|app_id: Seq<char>| self.has_review_of(app_id) && !self.apps.contains_key(app_id))
    }

    /// The database after the applications that lookups found were saved, lookup after lookup.
    pub open spec fn resolved(self, found: Seq<Seq<AppView>>) -> Database {
        Database { apps: after_apps(self.apps, found.flatten()), ..self }
    }

    /// The database after a pull was recorded.
    pub open spec fn recorded(self, record: ScrapeView) -> Database {
        Database { scrapes: self.scrapes.push(record), ..self }
    }
}

proof fn lemma_apps_are_saved(apps: Map<Seq<char>, Seq<Seq<char>>>, found: Seq<AppView>)
    ensures
        forall|id: Seq<char>| #[trigger]
            after_apps(apps, found).contains_key(id) <==> apps.contains_key(id) || app_ids(
                found,
            ).contains(id),
        forall|id: Seq<char>| #[trigger]
            apps.contains_key(id) && !app_ids(found).contains(id) ==> after_apps(apps, found)[id]
                == apps[id],
    decreases found.len(),
{
    let ids = found.map_values(|app: AppView| app.app_id);
    if found.len() > 0 {
        let before = found.drop_last();
        let earlier = before.map_values(|app: AppView| app.app_id);
        lemma_apps_are_saved(apps, before);
        assert(ids =~= earlier.push(found.last().app_id));
        assert forall|id: Seq<char>| #[trigger]
            app_ids(found).contains(id) <==> app_ids(before).contains(id) || id
                == found.last().app_id by {
            if earlier.contains(id) {
                let i = choose|i: int| 0 <= i < earlier.len() && earlier[i] == id;
                assert(ids[i] == id);
            }
            if id == found.last().app_id {
                assert(ids[ids.len() - 1] == id);
            }
        }
        assert forall|id: Seq<char>| #[trigger]
            after_apps(apps, found).contains_key(id) <==> apps.contains_key(id) || app_ids(
                found,
            ).contains(id) by {
            assert(after_apps(apps, before).contains_key(id) <==> apps.contains_key(id) || app_ids(
                before,
            ).contains(id));
        }
    }
}

/// Resolving the missing applications, as far as it goes: it may break off after any lookup, or in
/// the middle of saving what the last one found. No other applications are looked up, in whatever
/// order they were listed, and all of them are where it goes through. Each application that was
/// saved has a row, no row is lost, the other rows and the other tables stay as they are, and those
/// that are missing afterwards are those that were missing and not saved.
pub proof fn lookups_resolve_what_they_find(
    database: Database,
    ids: Seq<Seq<char>>,
    found: Seq<Seq<AppView>>,
)
    requires
        ids.to_set() == database.missing(),
        found.len() <= lookup_batches(ids).len(),
    ensures
        forall|id: Seq<char>| #[trigger]
            is_looked_up(ids, found.len() as int, id) ==> database.missing().contains(id),
        found.len() == lookup_batches(ids).len() ==> forall|id: Seq<char>| #[trigger]
            is_looked_up(ids, found.len() as int, id) <==> database.missing().contains(id),
        forall|id: Seq<char>| #[trigger]
            app_ids(found.flatten()).contains(id) ==> database.resolved(found).apps.contains_key(id),
        forall|id: Seq<char>| #[trigger]
            database.apps.contains_key(id) ==> database.resolved(found).apps.contains_key(id),
        forall|id: Seq<char>| #[trigger]
            database.apps.contains_key(id) && !app_ids(found.flatten()).contains(id)
                ==> database.resolved(found).apps[id] == database.apps[id],
        database.resolved(found).missing() == database.missing().difference(
            app_ids(found.flatten()),
        ),
        database.resolved(found).reviews == database.reviews,
        database.resolved(found).scrapes == database.scrapes,
{
    let batches = lookup_batches(ids);
    let lookups = found.len() as int;
    let after = database.resolved(found);
    every_missing_app_is_looked_up(ids);
    lemma_apps_are_saved(database.apps, found.flatten());
    assert forall|id: Seq<char>| #[trigger] is_looked_up(
        ids,
        lookups,
        id,
    ) implies database.missing().contains(id) by {
        let i = choose|i: int| 0 <= i < lookups && (#[trigger] batches[i]).contains(id);
        let k = choose|k: int| 0 <= k < batches[i].len() && batches[i][k] == id;
        assert(batches[i] == ids.take(batches[i].len() as int));
        assert(ids[k] == id);
        assert(ids.to_set().contains(id));
    }
    if lookups == batches.len() {
        assert forall|id: Seq<char>| database.missing().contains(id) implies #[trigger] is_looked_up(
            ids,
            lookups,
            id,
        ) by {
            assert(ids.to_set().contains(id) <==> ids.contains(id));
            assert(batches[batches.len() - 1].contains(id));
        }
    }
    assert forall|id: Seq<char>| #[trigger] after.missing().contains(
        id,
    ) <==> database.missing().difference(app_ids(found.flatten())).contains(id) by {
        if after.has_review_of(id) {
            let row = choose|row: Seq<char>| #[trigger]
                after.reviews.contains_key(row) && after.reviews[row][1] == id;
            assert(database.reviews.contains_key(row));
        }
        if database.has_review_of(id) {
            let row = choose|row: Seq<char>| #[trigger]
                database.reviews.contains_key(row) && database.reviews[row][1] == id;
            assert(after.reviews.contains_key(row));
        }
    }
    assert(after.missing() =~= database.missing().difference(app_ids(found.flatten())));
}

/// What was saved of applications stays saved, whatever is saved after it: saving some and then
/// others is saving all of them, and only a later save of an application changes its row.
pub proof fn saved_apps_stay_saved(
    apps: Map<Seq<char>, Seq<Seq<char>>>,
    found: Seq<AppView>,
    more: Seq<AppView>,
)
    ensures
        after_apps(apps, found + more) == after_apps(after_apps(apps, found), more),
        forall|id: Seq<char>| #[trigger]
            after_apps(apps, found).contains_key(id) ==> after_apps(
                apps,
                found + more,
            ).contains_key(id),
        forall|id: Seq<char>| #[trigger]
            after_apps(apps, found).contains_key(id) && !app_ids(more).contains(id) ==> after_apps(
                apps,
                found + more,
            )[id] == after_apps(apps, found)[id],
    decreases more.len(),
{
    if more.len() == 0 {
        assert(found + more =~= found);
    } else {
        saved_apps_stay_saved(apps, found, more.drop_last());
        assert((found + more).drop_last() =~= found + more.drop_last());
        assert((found + more).last() == more.last());
    }
    lemma_apps_are_saved(after_apps(apps, found), more);
}

/// The last save of an application counts: it is as if the one before it had not been made.
/// Saving an application twice is saving it once.
pub proof fn the_last_save_of_an_app_counts(
    apps: Map<Seq<char>, Seq<Seq<char>>>,
    found: Seq<AppView>,
    a: AppView,
    b: AppView,
)
    requires
        a.app_id == b.app_id,
    ensures
        after_apps(apps, found.push(a).push(b)) == after_apps(apps, found.push(b)),
        after_apps(apps, found.push(b)).contains_key(b.app_id),
        after_apps(apps, found.push(b))[b.app_id] == app_columns(b),
        a == b ==> after_apps(apps, found.push(a).push(b)) == after_apps(apps, found.push(a)),
{
    assert(found.push(a).push(b).drop_last() =~= found.push(a));
    assert(found.push(a).drop_last() =~= found);
    assert(found.push(b).drop_last() =~= found);
    assert(after_apps(apps, found.push(a)) == after_apps(apps, found).insert(
        a.app_id,
        app_columns(a),
    ));
    assert(after_apps(apps, found.push(a).push(b)) =~= after_apps(apps, found.push(b)));
}

/// The records of pulls only grow: a pull is recorded behind the others, which stay as they are, and
/// so do the reviews and the applications. A record that is made twice is there twice.
pub proof fn records_only_grow(
    database: Database,
    app_id: Seq<char>,
    scrape_start: Instant,
    scrape_end: Instant,
    tally: TallyView,
)
    ensures
        ({
            let record = scrape_columns(app_id, scrape_start, scrape_end, tally);
            let after = database.recorded(record);
            let twice = after.recorded(record);
            &&& after.scrapes.len() == database.scrapes.len() + 1
            &&& after.scrapes.last() == record
            &&& forall|i: int|
                0 <= i < database.scrapes.len() ==> #[trigger] after.scrapes[i]
                    == database.scrapes[i]
            &&& after.reviews == database.reviews
            &&& after.apps == database.apps
            &&& twice.scrapes == database.scrapes.push(record).push(record)
            &&& twice.scrapes.len() == database.scrapes.len() + 2
        }),
{
}

} // verus!
