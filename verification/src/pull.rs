//! Pulling the reviews of one application: which page to ask for, which review to save, and what
//! to count.
use crate::review::{reviews_view, Review, ReviewView};
use crate::timestamp::{before_goes_by_seconds_then_nanos, Instant, Timestamp};
use vstd::prelude::*;

verus! {

/// The last page of reviews that is asked for; the first is page 1.
pub const LAST_PAGE: usize = 9;

/// How many reviews of one page have to be known already for the pull to end.
pub const FULL_PAGE: u32 = 50;

/// The extended result code of SQLite for a primary key that is taken.
pub const PRIMARY_KEY_TAKEN: i32 = 1555;

/// How the database refused a statement.
#[derive(Clone, Copy, Debug, PartialEq, Eq)]
pub enum DbError {
    /// SQLite failed with this extended result code.
    Sqlite { extended_code: i32 },
    /// Something else failed.
    Other,
}

/// What became of a row that was to be saved.
#[derive(Clone, Copy, Debug, PartialEq, Eq, Structural)]
pub enum InsertOutcome {
    Inserted,
    /// The row was there already.
    Duplicate,
    Failed,
}

/// What an answer of the database says of a row.
pub open spec fn outcome_of(result: Result<(), DbError>) -> InsertOutcome {
    match result {
        Ok(_) => InsertOutcome::Inserted,
        Err(DbError::Sqlite { extended_code }) => if extended_code == PRIMARY_KEY_TAKEN {
            InsertOutcome::Duplicate
        } else {
            InsertOutcome::Failed
        },
        Err(DbError::Other) => InsertOutcome::Failed,
    }
}

/// Tells a saved row, a duplicate and a failure apart.
pub fn insert_outcome(result: &Result<(), DbError>) -> (r: InsertOutcome)
    ensures
        r == outcome_of(*result),
{
    match result {
        Ok(_) => InsertOutcome::Inserted,
        Err(DbError::Sqlite { extended_code }) => {
            if *extended_code == PRIMARY_KEY_TAKEN {
                InsertOutcome::Duplicate
            } else {
                InsertOutcome::Failed
            }
        },
        Err(DbError::Other) => InsertOutcome::Failed,
    }
}

/// How many reviews were saved, and when the oldest and the newest of them was updated.
#[derive(Clone, Copy, Debug, PartialEq, Eq)]
pub struct Tally {
    pub scraped: Option<i64>,
    pub oldest: Option<Timestamp>,
    pub newest: Option<Timestamp>,
}

/// A `Tally` with its times as instants.
pub struct TallyView {
    pub scraped: Option<int>,
    pub oldest: Option<Instant>,
    pub newest: Option<Instant>,
}

impl View for Tally {
    type V = TallyView;

    open spec fn view(&self) -> TallyView {
        TallyView {
            scraped: match self.scraped {
                Some(n) => Some(n as int),
                None => None,
            },
            oldest: match self.oldest {
                Some(at) => Some(at@),
                None => None,
            },
            newest: match self.newest {
                Some(at) => Some(at@),
                None => None,
            },
        }
    }
}

impl TallyView {
    /// The tally of nothing.
    pub open spec fn empty() -> TallyView {
        TallyView { scraped: None, oldest: None, newest: None }
    }

    /// The tally with one more review, which was updated at the given time.
    pub open spec fn with(self, at: Instant) -> TallyView {
        TallyView {
            scraped: match self.scraped {
                Some(n) => Some(n + 1),
                None => Some(1),
            },
            oldest: match self.oldest {
                Some(oldest) => if at.before(oldest) {
                    Some(at)
                } else {
                    Some(oldest)
                },
                None => Some(at),
            },
            newest: match self.newest {
                Some(newest) => if newest.before(at) {
                    Some(at)
                } else {
                    Some(newest)
                },
                None => Some(at),
            },
        }
    }

    /// The tally of reviews that were updated at the given times.
    pub open spec fn of(times: Seq<Instant>) -> TallyView
        decreases times.len(),
    {
        if times.len() == 0 {
            TallyView::empty()
        } else {
            TallyView::of(times.drop_last()).with(times.last())
        }
    }
}

impl Tally {
    /// The tally of nothing.
    pub fn new() -> (r: Tally)
        ensures
            r@ == TallyView::empty(),
    {
        Tally { scraped: None, oldest: None, newest: None }
    }

    /// Whether one more review can be counted.
    pub fn has_room(&self) -> (r: bool)
        ensures
            r == (self.scraped != Some(i64::MAX)),
    {
        match self.scraped {
            Some(n) => n != i64::MAX,
            None => true,
        }
    }

    /// Counts a review that was updated at the given time.
    pub fn count(&mut self, at: Timestamp)
        requires
            old(self).scraped != Some(i64::MAX),
        ensures
            final(self)@ == old(self)@.with(at@),
    {
        self.scraped = match self.scraped {
            Some(n) => Some(n + 1),
            None => Some(1),
        };
        self.newest = match self.newest {
            Some(newest) => if newest.is_before(&at) {
                Some(at)
            } else {
                Some(newest)
            },
            None => Some(at),
        };
        self.oldest = match self.oldest {
            Some(oldest) => if at.is_before(&oldest) {
                Some(at)
            } else {
                Some(oldest)
            },
            None => Some(at),
        };
    }
}

/// Where a pull stands.
pub enum Stage {
    /// A page is to be fetched.
    Fetch { page: int },
    /// The first of the reviews that wait is to be saved.
    Insert { page: int, waiting: Seq<ReviewView>, duplicates: int },
    Done,
}

/// A pull: where it stands, and what it has counted.
pub struct PullView {
    pub stage: Stage,
    pub tally: TallyView,
}

/// What can happen to a pull.
pub enum PullEvent {
    /// The page could not be fetched or read.
    PageFailed,
    /// The page was read.
    PageRead { reviews: Seq<ReviewView> },
    /// The database answered for the review that was to be saved.
    Tried { outcome: InsertOutcome },
}

/// Where a pull stands when it is through with a page.
pub open spec fn after_page(page: int) -> Stage {
    if page < LAST_PAGE {
        Stage::Fetch { page: page + 1 }
    } else {
        Stage::Done
    }
}

impl PullView {
    /// A pull that has yet to begin.
    pub open spec fn start() -> PullView {
        PullView { stage: Stage::Fetch { page: 1 }, tally: TallyView::empty() }
    }

    /// The page that a pull asks for, if it asks for one.
    pub open spec fn asks_page(self) -> Option<int> {
        match self.stage {
            Stage::Fetch { page } => Some(page),
            _ => None,
        }
    }

    /// The review that a pull asks to save, if it asks for one.
    pub open spec fn asks_review(self) -> Option<ReviewView> {
        match self.stage {
            Stage::Insert { waiting, .. } => Some(waiting[0]),
            _ => None,
        }
    }

    /// Whether a pull waits for an event of this kind.
    pub open spec fn accepts(self, event: PullEvent) -> bool {
        match event {
            PullEvent::PageFailed => self.stage is Fetch,
            PullEvent::PageRead { .. } => self.stage is Fetch,
            PullEvent::Tried { .. } => self.stage is Insert,
        }
    }

    /// The pull after an event. An event that it does not wait for changes nothing.
    ///
    /// A page that fails is passed over. The reviews of a page are saved one by one; a saved
    /// review is counted, a duplicate is counted for its page only, and a failure is passed
    /// over. A page with as many duplicates as a full page has reviews ends the pull.
    pub open spec fn step(self, event: PullEvent) -> PullView {
        match (self.stage, event) {
            (Stage::Fetch { page }, PullEvent::PageFailed) => PullView {
                stage: after_page(page),
                ..self
            },
            (Stage::Fetch { page }, PullEvent::PageRead { reviews }) => PullView {
                stage: if reviews.len() == 0 {
                    after_page(page)
                } else {
                    Stage::Insert { page, waiting: reviews, duplicates: 0 }
                },
                ..self
            },
            (Stage::Insert { page, waiting, duplicates }, PullEvent::Tried { outcome }) => {
                let met = if outcome == InsertOutcome::Duplicate {
                    duplicates + 1
                } else {
                    duplicates
                };
                PullView {
                    stage: if met == FULL_PAGE {
                        Stage::Done
                    } else if waiting.len() == 1 {
                        after_page(page)
                    } else {
                        Stage::Insert { page, waiting: waiting.drop_first(), duplicates: met }
                    },
                    tally: if outcome == InsertOutcome::Inserted {
                        self.tally.with(waiting[0].updated_at)
                    } else {
                        self.tally
                    },
                }
            },
            _ => self,
        }
    }
}

/// What a pull needs next.
pub enum PullAction<'a> {
    /// Fetch a page of reviews.
    FetchPage { page: usize },
    /// Save a review.
    InsertReview { review: &'a Review },
    /// Nothing: the pull is done.
    Finish,
}

/// A pull of the reviews of one application.
pub struct ReviewPull {
    page: usize,
    reviews: Vec<Review>,
    next: usize,
    duplicates: u32,
    stopped: bool,
    tally: Tally,
}

impl View for ReviewPull {
    type V = PullView;

    closed spec fn view(&self) -> PullView {
        PullView {
            stage: if self.stopped {
                Stage::Done
            } else if self.next < self.reviews@.len() {
                Stage::Insert {
                    page: self.page as int,
                    waiting: reviews_view(self.reviews@).skip(self.next as int),
                    duplicates: self.duplicates as int,
                }
            } else {
                Stage::Fetch { page: self.page as int }
            },
            tally: self.tally@,
        }
    }
}

impl ReviewPull {
    #[verifier::type_invariant]
    spec fn well_formed(self) -> bool {
        &&& 1 <= self.page <= LAST_PAGE
        &&& self.next <= self.reviews@.len()
        &&& self.duplicates < FULL_PAGE
    }

    /// A pull that has yet to begin.
    pub fn new() -> (r: ReviewPull)
        ensures
            r@ == PullView::start(),
    {
        ReviewPull {
            page: 1,
            reviews: Vec::new(),
            next: 0,
            duplicates: 0,
            stopped: false,
            tally: Tally::new(),
        }
    }

    /// What the pull needs next.
    pub fn action(&self) -> (r: PullAction<'_>)
        ensures
            match self@.stage {
                Stage::Fetch { page } => r matches PullAction::FetchPage { page: asked } && asked == page,
                Stage::Insert { waiting, .. } => r matches PullAction::InsertReview { review }
                    && review@ == waiting[0],
                Stage::Done => r is Finish,
            },
            match r {
                PullAction::FetchPage { page } => self@.asks_page() == Some(page as int),
                PullAction::InsertReview { review } => self@.asks_review() == Some(review@),
                PullAction::Finish => self@.asks_page() is None && self@.asks_review() is None,
            },
    {
        if self.stopped {
            PullAction::Finish
        } else if self.next < self.reviews.len() {
            PullAction::InsertReview { review: &self.reviews[self.next] }
        } else {
            PullAction::FetchPage { page: self.page }
        }
    }

    /// What the pull has counted so far.
    pub fn tally(&self) -> (r: Tally)
        ensures
            r@ == self@.tally,
    {
        self.tally
    }

    fn finish_page(&mut self)
        requires
            !old(self).stopped,
        ensures
            final(self)@ == (PullView {
                stage: after_page(old(self).page as int),
                tally: old(self)@.tally,
            }),
    {
        proof {
            use_type_invariant(&*self);
        }
        self.next = self.reviews.len();
        if self.page < LAST_PAGE {
            self.page = self.page + 1;
        } else {
            self.stopped = true;
        }
    }

    /// The page could not be fetched or read.
    pub fn page_failed(&mut self)
        ensures
            final(self)@ == old(self)@.step(PullEvent::PageFailed),
    {
        if !self.stopped && self.next >= self.reviews.len() {
            self.finish_page();
        }
    }

    /// The page was read.
    pub fn page_read(&mut self, reviews: Vec<Review>)
        ensures
            final(self)@ == old(self)@.step(
                PullEvent::PageRead { reviews: reviews_view(reviews@) },
            ),
    {
        proof {
            use_type_invariant(&*self);
        }
        if !self.stopped && self.next >= self.reviews.len() {
            if reviews.len() == 0 {
                self.finish_page();
            } else {
                self.next = 0;
                self.duplicates = 0;
                self.reviews = reviews;
                assert(reviews_view(self.reviews@).skip(0) =~= reviews_view(reviews@));
            }
        }
    }

    /// The database answered for the review that was to be saved.
    pub fn tried(&mut self, outcome: InsertOutcome)
        requires
            outcome == InsertOutcome::Inserted ==> old(self)@.tally.scraped != Some(i64::MAX as int),
        ensures
            final(self)@ == old(self)@.step(PullEvent::Tried { outcome }),
    {
        proof {
            use_type_invariant(&*self);
        }
        if self.stopped || self.next >= self.reviews.len() {
            return;
        }
        let ghost waiting = reviews_view(self.reviews@).skip(self.next as int);
        if outcome == InsertOutcome::Inserted {
            let at = self.reviews[self.next].updated_at;
            let mut tally = self.tally;
            tally.count(at);
            self.tally = tally;
        }
        if outcome == InsertOutcome::Duplicate {
            if self.duplicates + 1 == FULL_PAGE {
                self.stopped = true;
                return;
            }
            self.duplicates = self.duplicates + 1;
        }
        assert(reviews_view(self.reviews@).skip(self.next + 1) =~= waiting.drop_first());
        if self.next + 1 == self.reviews.len() {
            self.finish_page();
        } else {
            self.next = self.next + 1;
        }
    }
}

/// A tally counts the reviews that it is of, and is empty where there are none. Its oldest time
/// is among theirs and none of theirs comes before it; its newest time is among theirs and comes
/// before none of theirs.
pub proof fn tally_is_count_and_extremes(times: Seq<Instant>)
    ensures
        times.len() == 0 ==> TallyView::of(times) == TallyView::empty(),
        times.len() > 0 ==> {
            &&& TallyView::of(times).scraped == Some(times.len() as int)
            &&& TallyView::of(times).oldest matches Some(oldest) && times.contains(oldest)
                && forall|i: int| 0 <= i < times.len() ==> !(#[trigger] times[i]).before(oldest)
            &&& TallyView::of(times).newest matches Some(newest) && times.contains(newest)
                && forall|i: int| 0 <= i < times.len() ==> !newest.before(#[trigger] times[i])
        },
    decreases times.len(),
{
    if times.len() > 0 {
        let earlier = times.drop_last();
        let at = times.last();
        tally_is_count_and_extremes(earlier);
        assert(times[times.len() - 1] == at);
        let oldest = TallyView::of(times).oldest->0;
        let newest = TallyView::of(times).newest->0;
        if earlier.len() > 0 {
            let o = choose|o: int| 0 <= o < earlier.len() && earlier[o] == TallyView::of(earlier).oldest->0;
            let n = choose|n: int| 0 <= n < earlier.len() && earlier[n] == TallyView::of(earlier).newest->0;
            assert(times[o] == earlier[o]);
            assert(times[n] == earlier[n]);
        }
        assert forall|i: int| 0 <= i < times.len() implies !(#[trigger] times[i]).before(oldest)
            && !newest.before(times[i]) by {
            if i < earlier.len() {
                assert(earlier[i] == times[i]);
            }
        }
    }
}

/// The pull after a sequence of events.
pub open spec fn run(events: Seq<PullEvent>) -> PullView
    decreases events.len(),
{
    if events.len() == 0 {
        PullView::start()
    } else {
        run(events.drop_last()).step(events.last())
    }
}

/// When the reviews that were saved in a pull were updated, in the order of their saving.
pub open spec fn saved(events: Seq<PullEvent>) -> Seq<Instant>
    decreases events.len(),
{
    if events.len() == 0 {
        Seq::empty()
    } else {
        let before = saved(events.drop_last());
        match (run(events.drop_last()).stage, events.last()) {
            (Stage::Insert { waiting, .. }, PullEvent::Tried { outcome }) => if outcome
                == InsertOutcome::Inserted {
                before.push(waiting[0].updated_at)
            } else {
                before
            },
            _ => before,
        }
    }
}

/// How many pages a pull has had an answer for.
pub open spec fn pages_answered(events: Seq<PullEvent>) -> int
    decreases events.len(),
{
    if events.len() == 0 {
        0
    } else {
        let before = pages_answered(events.drop_last());
        if run(events.drop_last()).stage is Fetch && !(events.last() is Tried) {
            before + 1
        } else {
            before
        }
    }
}

/// How many duplicates a pull has met since it last had a page read.
pub open spec fn duplicates_on_page(events: Seq<PullEvent>) -> int
    decreases events.len(),
{
    if events.len() == 0 {
        0
    } else {
        match (run(events.drop_last()).stage, events.last()) {
            (Stage::Fetch { .. }, PullEvent::PageRead { .. }) => 0,
            (Stage::Insert { .. }, PullEvent::Tried { outcome }) => if outcome
                == InsertOutcome::Duplicate {
                duplicates_on_page(events.drop_last()) + 1
            } else {
                duplicates_on_page(events.drop_last())
            },
            _ => duplicates_on_page(events.drop_last()),
        }
    }
}

/// Whatever happens to a pull, its tally is that of the reviews that were saved: duplicates and
/// failures count for nothing.
pub proof fn tally_is_of_what_was_saved(events: Seq<PullEvent>)
    ensures
        run(events).tally == TallyView::of(saved(events)),
    decreases events.len(),
{
    if events.len() > 0 {
        tally_is_of_what_was_saved(events.drop_last());
        let before = saved(events.drop_last());
        if saved(events).len() > before.len() {
            assert(saved(events).drop_last() =~= before);
        }
    }
}

/// Whatever happens to a pull, it has a number of saved reviews, an oldest and a newest of them
/// together or not at all, and the newest does not come before the oldest.
pub proof fn oldest_is_not_after_newest(events: Seq<PullEvent>)
    ensures
        run(events).tally.scraped is Some <==> saved(events).len() > 0,
        run(events).tally.oldest is Some <==> saved(events).len() > 0,
        run(events).tally.newest is Some <==> saved(events).len() > 0,
        saved(events).len() > 0 ==> !run(events).tally.newest->0.before(run(events).tally.oldest->0),
{
    tally_is_of_what_was_saved(events);
    tally_is_count_and_extremes(saved(events));
}

/// Pages are asked for in order, from the first to the last at most, and each of them once.
pub proof fn pages_are_asked_in_order(events: Seq<PullEvent>)
    ensures
        0 <= pages_answered(events) <= LAST_PAGE,
        match run(events).stage {
            Stage::Fetch { page } => page == pages_answered(events) + 1 && page <= LAST_PAGE,
            Stage::Insert { page, .. } => page == pages_answered(events),
            Stage::Done => true,
        },
    decreases events.len(),
{
    if events.len() > 0 {
        pages_are_asked_in_order(events.drop_last());
    }
}

/// While a pull saves the reviews of a page, there is one to save, and the duplicates that it has
/// met on that page are fewer than a full page.
pub proof fn duplicates_are_counted_by_page(events: Seq<PullEvent>)
    ensures
        match run(events).stage {
            Stage::Insert { waiting, duplicates, .. } => {
                &&& waiting.len() > 0
                &&& duplicates == duplicates_on_page(events)
                &&& 0 <= duplicates < FULL_PAGE
            },
            _ => true,
        },
    decreases events.len(),
{
    if events.len() > 0 {
        duplicates_are_counted_by_page(events.drop_last());
    }
}

/// A pull ends with a full page of duplicates on one page, or with the last page, and not before.
pub proof fn how_a_pull_ends(events: Seq<PullEvent>, event: PullEvent)
    requires
        !(run(events).stage is Done),
    ensures
        run(events.push(event)).stage is Done <==> {
            ||| duplicates_on_page(events.push(event)) == FULL_PAGE && run(events).stage is Insert
            ||| run(events).stage == Stage::Fetch { page: LAST_PAGE as int } && (event is PageFailed || (
            event matches PullEvent::PageRead { reviews } && reviews.len() == 0))
            ||| run(events).stage matches Stage::Insert { page, waiting, .. } && page == LAST_PAGE
                && waiting.len() == 1 && event is Tried
        },
{
    assert(events.push(event).drop_last() =~= events);
    duplicates_are_counted_by_page(events);
    pages_are_asked_in_order(events);
}

/// A bound on the events that a pull still waits for, where no page has more than `most` reviews.
pub open spec fn events_left(stage: Stage, most: int) -> int {
    match stage {
        Stage::Fetch { page } => (LAST_PAGE + 1 - page) * (most + 1),
        Stage::Insert { page, waiting, .. } => (LAST_PAGE - page) * (most + 1) + waiting.len(),
        Stage::Done => 0,
    }
}

/// Every pull ends: where no page has more than `most` reviews, it is done after at most
/// `LAST_PAGE * (most + 1)` events that it waited for.
pub proof fn every_pull_ends(events: Seq<PullEvent>, most: int)
    requires
        most >= 0,
        forall|i: int|
            0 <= i < events.len() ==> run(events.take(i)).accepts(#[trigger] events[i]),
        forall|i: int|
            0 <= i < events.len() ==> (#[trigger] events[i] matches PullEvent::PageRead { reviews }
                ==> reviews.len() <= most),
    ensures
        events.len() + events_left(run(events).stage, most) <= LAST_PAGE * (most + 1),
        events_left(run(events).stage, most) >= 0,
    decreases events.len(),
{
    if events.len() > 0 {
        let before = events.drop_last();
        assert forall|i: int| 0 <= i < before.len() implies run(before.take(i)).accepts(
            #[trigger] before[i],
        ) by {
            assert(before.take(i) =~= events.take(i));
            assert(before[i] == events[i]);
        }
        assert forall|i: int| 0 <= i < before.len() implies (#[trigger] before[i] matches PullEvent::PageRead {
            reviews,
        } ==> reviews.len() <= most) by {
            assert(before[i] == events[i]);
        }
        every_pull_ends(before, most);
        assert(events.take(events.len() - 1) =~= before);
        assert(run(before).accepts(events[events.len() - 1]));
        pages_are_asked_in_order(before);
        duplicates_are_counted_by_page(before);
        let k = most + 1;
        let page = match run(before).stage {
            Stage::Fetch { page } => page,
            Stage::Insert { page, .. } => page,
            Stage::Done => 0,
        };
        assert((LAST_PAGE + 1 - page) * k == (LAST_PAGE - page) * k + k) by (nonlinear_arith);
        assert((LAST_PAGE + 1 - (page + 1)) * k == (LAST_PAGE - page) * k) by (nonlinear_arith);
        assert(page <= LAST_PAGE ==> (LAST_PAGE - page) * k >= 0) by (nonlinear_arith)
            requires
                k > 0,
        ;
    }
}

/// What became of a page: it failed, or it was read and the database answered for its reviews.
pub enum PageStory {
    Failed,
    Read { reviews: Seq<ReviewView>, outcomes: Seq<InsertOutcome> },
}

impl PageStory {
    /// Whether there is an answer for each review.
    pub open spec fn is_told(self) -> bool {
        match self {
            PageStory::Failed => true,
            PageStory::Read { reviews, outcomes } => reviews.len() == outcomes.len(),
        }
    }
}

/// The tally after the reviews of a page, and whether a full page of duplicates was met among
/// them, after which none of them counts.
pub open spec fn page_tally(
    tally: TallyView,
    duplicates: int,
    reviews: Seq<ReviewView>,
    outcomes: Seq<InsertOutcome>,
) -> (TallyView, bool)
    decreases reviews.len(),
{
    if reviews.len() == 0 {
        (tally, false)
    } else {
        match outcomes[0] {
            InsertOutcome::Inserted => page_tally(
                tally.with(reviews[0].updated_at),
                duplicates,
                reviews.drop_first(),
                outcomes.drop_first(),
            ),
            InsertOutcome::Duplicate => if duplicates + 1 == FULL_PAGE {
                (tally, true)
            } else {
                page_tally(tally, duplicates + 1, reviews.drop_first(), outcomes.drop_first())
            },
            InsertOutcome::Failed => page_tally(
                tally,
                duplicates,
                reviews.drop_first(),
                outcomes.drop_first(),
            ),
        }
    }
}

/// The tally after a sequence of pages: page after page, up to a full page of duplicates.
pub open spec fn pages_tally(tally: TallyView, pages: Seq<PageStory>) -> TallyView
    decreases pages.len(),
{
    if pages.len() == 0 {
        tally
    } else {
        match pages[0] {
            PageStory::Failed => pages_tally(tally, pages.drop_first()),
            PageStory::Read { reviews, outcomes } => {
                let (after, full) = page_tally(tally, 0, reviews, outcomes);
                if full {
                    after
                } else {
                    pages_tally(after, pages.drop_first())
                }
            },
        }
    }
}

/// The pull after a sequence of events, from any point on.
pub open spec fn run_from(pull: PullView, events: Seq<PullEvent>) -> PullView
    decreases events.len(),
{
    if events.len() == 0 {
        pull
    } else {
        run_from(pull.step(events[0]), events.drop_first())
    }
}

/// The events of the answers of the database.
pub open spec fn outcome_events(outcomes: Seq<InsertOutcome>) -> Seq<PullEvent> {
    outcomes.map_values(|outcome: InsertOutcome| PullEvent::Tried { outcome })
}

/// The events of a page.
pub open spec fn page_events(page: PageStory) -> Seq<PullEvent> {
    match page {
        PageStory::Failed => seq![PullEvent::PageFailed],
        PageStory::Read { reviews, outcomes } => seq![PullEvent::PageRead { reviews }]
            + outcome_events(outcomes),
    }
}

/// The events of a sequence of pages.
pub open spec fn pages_events(pages: Seq<PageStory>) -> Seq<PullEvent>
    decreases pages.len(),
{
    if pages.len() == 0 {
        Seq::empty()
    } else {
        page_events(pages[0]) + pages_events(pages.drop_first())
    }
}

proof fn lemma_run_from_concat(pull: PullView, a: Seq<PullEvent>, b: Seq<PullEvent>)
    ensures
        run_from(pull, a + b) == run_from(run_from(pull, a), b),
    decreases a.len(),
{
    if a.len() == 0 {
        assert(a + b =~= b);
    } else {
        assert((a + b).drop_first() =~= a.drop_first() + b);
        lemma_run_from_concat(pull.step(a[0]), a.drop_first(), b);
    }
}

proof fn lemma_run_from_done(pull: PullView, events: Seq<PullEvent>)
    requires
        pull.stage is Done,
    ensures
        run_from(pull, events) == pull,
    decreases events.len(),
{
    if events.len() > 0 {
        lemma_run_from_done(pull, events.drop_first());
    }
}

proof fn lemma_run_is_run_from(events: Seq<PullEvent>)
    ensures
        run(events) == run_from(PullView::start(), events),
    decreases events.len(),
{
    if events.len() > 0 {
        lemma_run_is_run_from(events.drop_last());
        let last = seq![events.last()];
        assert(events =~= events.drop_last() + last);
        lemma_run_from_concat(PullView::start(), events.drop_last(), last);
        assert(last.drop_first() =~= Seq::empty());
        let before = run(events.drop_last());
        assert(run_from(before, last) == run_from(before.step(last[0]), last.drop_first()));
    }
}

proof fn lemma_run_page(
    pull: PullView,
    page: int,
    waiting: Seq<ReviewView>,
    duplicates: int,
    outcomes: Seq<InsertOutcome>,
)
    requires
        pull.stage == (Stage::Insert { page, waiting, duplicates }),
        waiting.len() == outcomes.len() > 0,
        duplicates < FULL_PAGE,
    ensures
        ({
            let (tally, full) = page_tally(pull.tally, duplicates, waiting, outcomes);
            run_from(pull, outcome_events(outcomes)) == (PullView {
                stage: if full {
                    Stage::Done
                } else {
                    after_page(page)
                },
                tally,
            })
        }),
    decreases outcomes.len(),
{
    let events = outcome_events(outcomes);
    let next = pull.step(events[0]);
    assert(events[0] == PullEvent::Tried { outcome: outcomes[0] });
    assert(events.drop_first() =~= outcome_events(outcomes.drop_first()));
    assert(run_from(pull, events) == run_from(next, events.drop_first()));
    if next.stage is Done {
        lemma_run_from_done(next, events.drop_first());
    }
    if waiting.len() == 1 {
        assert(events.drop_first() =~= Seq::empty());
        assert(waiting.drop_first() =~= Seq::empty());
        assert(run_from(next, events.drop_first()) == next);
        reveal_with_fuel(page_tally, 2);
    } else {
        let met = if outcomes[0] == InsertOutcome::Duplicate {
            duplicates + 1
        } else {
            duplicates
        };
        if met != FULL_PAGE {
            lemma_run_page(next, page, waiting.drop_first(), met, outcomes.drop_first());
        }
    }
}

proof fn lemma_run_pages(pull: PullView, page: int, pages: Seq<PageStory>)
    requires
        pull.stage == (Stage::Fetch { page }),
        pages.len() == LAST_PAGE + 1 - page,
        page <= LAST_PAGE,
        forall|i: int| 0 <= i < pages.len() ==> (#[trigger] pages[i]).is_told(),
    ensures
        run_from(pull, pages_events(pages)) == (PullView {
            stage: Stage::Done,
            tally: pages_tally(pull.tally, pages),
        }),
    decreases pages.len(),
{
    let rest = pages.drop_first();
    let first = page_events(pages[0]);
    let next = run_from(pull, first);
    lemma_run_from_concat(pull, first, pages_events(rest));
    assert(pages[0].is_told());
    let opened = pull.step(first[0]);
    assert(next == run_from(opened, first.drop_first()));
    match pages[0] {
        PageStory::Failed => {
            assert(first.drop_first() =~= Seq::empty());
        },
        PageStory::Read { reviews, outcomes } => {
            assert(first.drop_first() =~= outcome_events(outcomes));
            if reviews.len() == 0 {
                assert(outcome_events(outcomes) =~= Seq::empty());
            } else {
                lemma_run_page(opened, page, reviews, 0, outcomes);
            }
        },
    }
    if next.stage is Done {
        lemma_run_from_done(next, pages_events(rest));
        if rest.len() == 0 {
            assert(pages_tally(next.tally, rest) == next.tally);
        }
    } else {
        assert forall|i: int| 0 <= i < rest.len() implies (#[trigger] rest[i]).is_told() by {
            assert(rest[i] == pages[i + 1]);
        }
        lemma_run_pages(next, page + 1, rest);
    }
}

/// A whole pull: whatever becomes of its pages, it ends, and its tally is that of the pages one
/// after the other, up to a full page of duplicates.
pub proof fn a_whole_pull(pages: Seq<PageStory>)
    requires
        pages.len() == LAST_PAGE,
        forall|i: int| 0 <= i < pages.len() ==> (#[trigger] pages[i]).is_told(),
    ensures
        run(pages_events(pages)) == (PullView {
            stage: Stage::Done,
            tally: pages_tally(TallyView::empty(), pages),
        }),
{
    lemma_run_is_run_from(pages_events(pages));
    lemma_run_pages(PullView::start(), 1, pages);
}

/// The tally of times bounds them by the clock: its newest time is one of them and has at least the
/// seconds of each, and at equal seconds at least the nanoseconds; its oldest time is one of them and
/// has at most those. It counts each of them once.
pub proof fn a_tally_bounds_its_times(times: Seq<Instant>, i: int)
    requires
        0 <= i < times.len(),
    ensures
        TallyView::of(times).scraped == Some(times.len() as int),
        TallyView::of(times).newest matches Some(newest) && times.contains(newest) && newest.secs
            >= times[i].secs && (newest.secs == times[i].secs ==> newest.nanos >= times[i].nanos),
        TallyView::of(times).oldest matches Some(oldest) && times.contains(oldest) && oldest.secs
            <= times[i].secs && (oldest.secs == times[i].secs ==> oldest.nanos <= times[i].nanos),
{
    tally_is_count_and_extremes(times);
    let newest = TallyView::of(times).newest->0;
    let oldest = TallyView::of(times).oldest->0;
    before_goes_by_seconds_then_nanos(newest, times[i]);
    before_goes_by_seconds_then_nanos(times[i], oldest);
}

/// Whatever happens to a pull, its tally counts the reviews that were saved and bounds the times of
/// their updates: the newest has at least the seconds of each of them, and the oldest at most.
pub proof fn a_pull_bounds_what_it_saved(events: Seq<PullEvent>, i: int)
    requires
        0 <= i < saved(events).len(),
    ensures
        run(events).tally.scraped == Some(saved(events).len() as int),
        run(events).tally.newest matches Some(newest) && saved(events).contains(newest)
            && newest.secs >= saved(events)[i].secs && (newest.secs == saved(events)[i].secs
            ==> newest.nanos >= saved(events)[i].nanos),
        run(events).tally.oldest matches Some(oldest) && saved(events).contains(oldest)
            && oldest.secs <= saved(events)[i].secs && (oldest.secs == saved(events)[i].secs
            ==> oldest.nanos <= saved(events)[i].nanos),
{
    tally_is_of_what_was_saved(events);
    a_tally_bounds_its_times(saved(events), i);
}

/// Counting one more review: the count goes up by one, an earlier time than all before becomes the
/// oldest and a later one the newest, and otherwise they stay.
pub proof fn one_more_review_is_counted(tally: TallyView, at: Instant)
    ensures
        tally.with(at).scraped == Some(
            1 + match tally.scraped {
                Some(n) => n,
                None => 0,
            },
        ),
        tally.newest is None ==> tally.with(at).newest == Some(at),
        tally.oldest is None ==> tally.with(at).oldest == Some(at),
        tally.newest matches Some(newest) ==> tally.with(at).newest == Some(
            if at.secs > newest.secs || (at.secs == newest.secs && at.nanos > newest.nanos) {
                at
            } else {
                newest
            },
        ),
        tally.oldest matches Some(oldest) ==> tally.with(at).oldest == Some(
            if at.secs < oldest.secs || (at.secs == oldest.secs && at.nanos < oldest.nanos) {
                at
            } else {
                oldest
            },
        ),
{
    if let Some(newest) = tally.newest {
        before_goes_by_seconds_then_nanos(newest, at);
        before_goes_by_seconds_then_nanos(at, newest);
    }
    if let Some(oldest) = tally.oldest {
        before_goes_by_seconds_then_nanos(oldest, at);
        before_goes_by_seconds_then_nanos(at, oldest);
    }
}

/// A row was saved exactly where the database said so. It was there already exactly where SQLite
/// answered with code 1555, and every other answer is a failure.
pub proof fn an_answer_is_saved_duplicate_or_failure(result: Result<(), DbError>)
    ensures
        outcome_of(result) is Inserted <==> result is Ok,
        outcome_of(result) is Duplicate <==> result == Err::<(), DbError>(
            DbError::Sqlite { extended_code: 1555 },
        ),
        outcome_of(result) is Failed <==> (result matches Err(error) && error != (DbError::Sqlite {
            extended_code: 1555,
        })),
{
}

/// How far a pull goes: it asks for pages 1 to 9 and no others, it meets fewer than 50 duplicates on
/// a page that it goes on with, and it is done only when it has had an answer for all nine pages or
/// has met 50 duplicates on one.
pub proof fn a_pull_takes_nine_pages_or_fifty_duplicates(events: Seq<PullEvent>)
    ensures
        match run(events).stage {
            Stage::Fetch { page } => 1 <= page <= 9 && page == pages_answered(events) + 1,
            Stage::Insert { page, waiting, duplicates } => 1 <= page <= 9 && page
                == pages_answered(events) && waiting.len() > 0 && duplicates
                == duplicates_on_page(events) && 0 <= duplicates < 50,
            Stage::Done => pages_answered(events) == 9 || duplicates_on_page(events) == 50,
        },
    decreases events.len(),
{
    if events.len() > 0 {
        a_pull_takes_nine_pages_or_fifty_duplicates(events.drop_last());
    }
}

/// What a pull makes of an event: one that it does not wait for changes nothing. A page that failed
/// or has no reviews leads to the next page, or ends the pull where it was the ninth, and is not
/// counted. A page with reviews leads to the first of them.
pub proof fn what_an_event_does(pull: PullView, event: PullEvent)
    ensures
        pull.stage is Done ==> pull.step(event) == pull,
        pull.stage is Fetch && event is Tried ==> pull.step(event) == pull,
        pull.stage is Insert && !(event is Tried) ==> pull.step(event) == pull,
        !pull.accepts(event) ==> pull.step(event) == pull,
        pull.stage is Fetch && !(event is Tried) ==> pull.accepts(event) && pull.step(event).tally
            == pull.tally,
        pull.stage is Insert && event is Tried ==> pull.accepts(event),
        pull.stage matches Stage::Fetch { page } ==> (event is PageFailed || event == (
        PullEvent::PageRead { reviews: Seq::empty() })) ==> pull.step(event).stage == (if page < 9 {
            Stage::Fetch { page: page + 1 }
        } else {
            Stage::Done
        }),
        pull.stage matches Stage::Fetch { page } ==> event matches PullEvent::PageRead { reviews }
            ==> reviews.len() > 0 ==> pull.step(event).stage == (Stage::Insert {
            page,
            waiting: reviews,
            duplicates: 0,
        }),
{
}

/// The duplicates among answers of the database.
pub open spec fn duplicates_among(outcomes: Seq<InsertOutcome>) -> int {
    outcomes.filter(|outcome: InsertOutcome| outcome is Duplicate).len() as int
}

/// The reviews of a page are tried one by one, each of them, in the order of the page: after as many
/// answers as there are reviews before it, a review is next, where fewer than 50 of the answers were
/// duplicates.
pub proof fn reviews_are_tried_in_the_order_of_the_page(
    pull: PullView,
    page: int,
    reviews: Seq<ReviewView>,
    outcomes: Seq<InsertOutcome>,
)
    requires
        pull.stage == (Stage::Fetch { page }),
        outcomes.len() < reviews.len(),
        duplicates_among(outcomes) < 50,
    ensures
        run_from(pull, seq![PullEvent::PageRead { reviews }] + outcome_events(outcomes)).stage == (
        Stage::Insert {
            page,
            waiting: reviews.skip(outcomes.len() as int),
            duplicates: duplicates_among(outcomes),
        }),
        run_from(
            pull,
            seq![PullEvent::PageRead { reviews }] + outcome_events(outcomes),
        ).asks_review() == Some(reviews[outcomes.len() as int]),
    decreases outcomes.len(),
{
    reveal(Seq::filter);
    let first = seq![PullEvent::PageRead { reviews }];
    let events = first + outcome_events(outcomes);
    if outcomes.len() == 0 {
        assert(events =~= first);
        assert(first.drop_first() =~= Seq::empty());
        reveal_with_fuel(run_from, 2);
        assert(reviews.skip(0) =~= reviews);
    } else {
        let before = outcomes.drop_last();
        let last = seq![PullEvent::Tried { outcome: outcomes.last() }];
        assert(duplicates_among(before) <= duplicates_among(outcomes));
        reviews_are_tried_in_the_order_of_the_page(pull, page, reviews, before);
        assert(events =~= (first + outcome_events(before)) + last);
        lemma_run_from_concat(pull, first + outcome_events(before), last);
        let then = run_from(pull, first + outcome_events(before));
        assert(last.drop_first() =~= Seq::empty());
        assert(run_from(then, last) == run_from(then.step(last[0]), last.drop_first()));
        assert(reviews.skip(before.len() as int).drop_first() =~= reviews.skip(outcomes.len() as int));
    }
}

/// The review that a pull asks to save is the one that the answer counts for: where it is saved, it
/// is one review more, updated when that review was; otherwise nothing is counted. A page is asked
/// for exactly where no review is, until the pull is done.
pub proof fn the_review_asked_for_is_the_one_counted(pull: PullView, outcome: InsertOutcome)
    ensures
        pull.asks_review() is Some ==> pull.asks_page() is None,
        pull.stage is Done <==> pull.asks_page() is None && pull.asks_review() is None,
        pull.asks_review() matches Some(review) ==> {
            let after = pull.step(PullEvent::Tried { outcome }).tally;
            &&& outcome is Inserted ==> after == pull.tally.with(review.updated_at)
            &&& !(outcome is Inserted) ==> after == pull.tally
        },
        pull.stage matches Stage::Fetch { page } ==> pull.asks_page() == Some(page),
        pull.stage matches Stage::Insert { waiting, .. } ==> pull.asks_review() == Some(waiting[0]),
{
}

/// The view of a tally holds each of its fields.
pub proof fn the_view_of_a_tally_is_its_fields(tally: Tally)
    ensures
        tally@.scraped is Some <==> tally.scraped is Some,
        tally.scraped matches Some(n) ==> tally@.scraped == Some(n as int),
        tally@.oldest is Some <==> tally.oldest is Some,
        tally.oldest matches Some(at) ==> tally@.oldest == Some(at@),
        tally@.newest is Some <==> tally.newest is Some,
        tally.newest matches Some(at) ==> tally@.newest == Some(at@),
{
}

} // verus!
