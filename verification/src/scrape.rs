//! What to scrape: the mode, the categories, the applications, and the batches to look up.
use crate::nodes::{lemma_filter_picks, picks};
use crate::pull::{PullView, ReviewPull, TallyView};
use crate::records::{
    a_record_holds_its_tally, record_scrape, scrape_columns, what_a_record_rests_on, ScrapeRow,
    ScrapeView,
};
use crate::text::{
    comma_joined, comma_split, join_then_split, split_commas, str_eq, strings_view,
};
use crate::timestamp::{now, rfc3339_millis, Instant, Timestamp};
use vstd::prelude::*;

verus! {

/// The categories whose top applications are scraped, in order.
pub const APP_CATEGORIES: [i64; 71] = [
    6000, 6001, 6002, 6003, 6004, 6005, 6006, 6007, 6008, 6009,
    6010, 6011, 6012, 6013, 6014, 7001, 7002, 7003, 7004, 7005,
    7006, 7007, 7008, 7009, 7010, 7011, 7012, 7013, 7014, 7015,
    7016, 7017, 7018, 7019, 6015, 6016, 6017, 6018, 6019, 6020,
    6021, 13001, 13002, 13003, 13004, 13005, 13006, 13007, 13008, 13009,
    13011, 13012, 13013, 13014, 13015, 13016, 13017, 13018, 13019, 13020,
    13021, 13022, 13023, 13024, 13025, 13026, 13027, 13028, 13029, 13030,
    6022,
];

/// What a run of the scraper is for.
#[derive(Clone, Copy, Debug, PartialEq, Eq, Structural)]
pub enum Mode {
    /// The top applications of each category.
    Apps,
    /// The reviews of applications.
    Reviews,
    /// The applications that have reviews but are not known.
    ResolveMissing,
}

/// The mode that a name stands for; without a name it is reviews.
pub open spec fn mode_named(name: Option<Seq<char>>) -> Option<Mode> {
    match name {
        None => Some(Mode::Reviews),
        Some(name) => if name == "apps"@ {
            Some(Mode::Apps)
        } else if name == "reviews"@ {
            Some(Mode::Reviews)
        } else if name == "resolve-missing"@ {
            Some(Mode::ResolveMissing)
        } else {
            None
        },
    }
}

/// The mode that an argument asks for, if it is understood; without one it is reviews.
pub fn requested_mode(name: Option<&str>) -> (r: Option<Mode>)
    ensures
        r == mode_named(
            match name {
                Some(name) => Some(name@),
                None => None,
            },
        ),
{
    match name {
        None => Some(Mode::Reviews),
        Some(name) => {
            if str_eq(name, "apps") {
                Some(Mode::Apps)
            } else if str_eq(name, "reviews") {
                Some(Mode::Reviews)
            } else if str_eq(name, "resolve-missing") {
                Some(Mode::ResolveMissing)
            } else {
                None
            }
        },
    }
}

/// The applications whose reviews are to be scraped.
#[derive(Debug, PartialEq, Eq)]
pub enum ReviewTargets {
    /// Those that the database suggests.
    Stored,
    /// These, in order.
    Listed { app_ids: Vec<String> },
}

/// The identifiers in a comma-separated list: its pieces that are not empty.
pub open spec fn listed_ids(list: Seq<char>) -> Seq<Seq<char>> {
    comma_split(list).filter(|piece: Seq<char>| piece.len() > 0)
}

/// The identifiers that were asked for: the one given on its own, then those of the list.
pub open spec fn requested_ids(single: Option<Seq<char>>, list: Option<Seq<char>>) -> Seq<Seq<char>> {
    (match single {
        Some(app_id) => seq![app_id],
        None => Seq::empty(),
    }) + (match list {
        Some(list) => listed_ids(list),
        None => Seq::empty(),
    })
}

/// Whether targets are the given identifiers, or those that the database suggests where none is
/// given.
pub open spec fn targets_are(ids: Seq<Seq<char>>, targets: ReviewTargets) -> bool {
    match targets {
        ReviewTargets::Stored => ids.len() == 0,
        ReviewTargets::Listed { app_ids } => ids.len() > 0 && strings_view(app_ids@) == ids,
    }
}

/// Chooses the applications whose reviews are scraped: those that were asked for, on their own
/// or in a comma-separated list, or else those that the database suggests.
pub fn review_targets(single: Option<&str>, list: Option<&str>) -> (r: ReviewTargets)
    ensures
        ({
            let ids = requested_ids(
                match single {
                    Some(app_id) => Some(app_id@),
                    None => None,
                },
                match list {
                    Some(list) => Some(list@),
                    None => None,
                },
            );
            match r {
                ReviewTargets::Stored => ids.len() == 0,
                ReviewTargets::Listed { app_ids } => ids.len() > 0 && strings_view(app_ids@) == ids,
            }
        }),
        targets_are(
            requested_ids(
                match single {
                    Some(app_id) => Some(app_id@),
                    None => None,
                },
                match list {
                    Some(list) => Some(list@),
                    None => None,
                },
            ),
            r,
        ),
{
    let mut app_ids: Vec<String> = Vec::new();
    let ghost first: Seq<Seq<char>> = match single {
        Some(app_id) => seq![app_id@],
        None => Seq::empty(),
    };
    if let Some(app_id) = single {
        app_ids.push(app_id.to_owned());
    }
    assert(strings_view(app_ids@) =~= first);
    if let Some(list) = list {
        let pieces = split_commas(list);
        let ghost views = strings_view(pieces@);
        let ghost nonempty = |piece: Seq<char>| piece.len() > 0;
        let mut i: usize = 0;
        proof {
            reveal(Seq::filter);
            assert(views.take(0) =~= Seq::empty());
            assert(strings_view(app_ids@) =~= first + views.take(0).filter(nonempty));
        }
        while i < pieces.len()
            invariant
                i <= pieces.len(),
                views == strings_view(pieces@),
                nonempty == (|piece: Seq<char>| piece.len() > 0),
                strings_view(app_ids@) == first + views.take(i as int).filter(nonempty),
            decreases pieces.len() - i,
        {
            proof {
                reveal(Seq::filter);
                assert(views.take(i + 1).drop_last() =~= views.take(i as int));
            }
            let ghost before = app_ids@;
            if !pieces[i].as_str().is_empty() {
                let piece = pieces[i].clone();
                app_ids.push(piece);
                assert(strings_view(app_ids@) =~= strings_view(before).push(piece@));
            }
            assert(strings_view(app_ids@) =~= first + views.take(i + 1).filter(nonempty));
            i += 1;
        }
        assert(views.take(views.len() as int) =~= views);
    }
    if app_ids.len() == 0 {
        ReviewTargets::Stored
    } else {
        ReviewTargets::Listed { app_ids }
    }
}

/// Every identifier of the list that is not empty is scraped, and so is the one given on its own.
pub proof fn requested_apps_are_scraped(
    single: Option<Seq<char>>,
    list: Option<Seq<char>>,
    app_id: Seq<char>,
)
    requires
        single == Some(app_id) || (list matches Some(list) && comma_split(list).contains(app_id)
            && app_id.len() > 0),
    ensures
        requested_ids(single, list).contains(app_id),
{
    let ids = requested_ids(single, list);
    if single == Some(app_id) {
        assert(ids[0] == app_id);
    } else {
        let pieces = comma_split(list->0);
        let nonempty = |piece: Seq<char>| piece.len() > 0;
        let i = choose|i: int| 0 <= i < pieces.len() && pieces[i] == app_id;
        pieces.lemma_filter_contains(nonempty, i);
        let k = choose|k: int| 0 <= k < listed_ids(list->0).len() && listed_ids(list->0)[k] == app_id;
        let first = if single is Some {
            1int
        } else {
            0int
        };
        assert(ids[first + k] == app_id);
    }
}

/// A list of identifiers written with commas between them is scraped as it is written.
pub proof fn written_lists_are_scraped_in_order(app_ids: Seq<Seq<char>>)
    requires
        app_ids.len() > 0,
        forall|i: int|
            0 <= i < app_ids.len() ==> (#[trigger] app_ids[i]).len() > 0 && !app_ids[i].contains(','),
    ensures
        requested_ids(None, Some(comma_joined(app_ids))) == app_ids,
{
    join_then_split(app_ids);
    let nonempty = |piece: Seq<char>| piece.len() > 0;
    lemma_filter_all(app_ids, nonempty);
    assert(requested_ids(None, Some(comma_joined(app_ids))) =~= app_ids);
}

proof fn lemma_filter_all(parts: Seq<Seq<char>>, wanted: spec_fn(Seq<char>) -> bool)
    requires
        forall|i: int| 0 <= i < parts.len() ==> wanted(#[trigger] parts[i]),
    ensures
        parts.filter(wanted) == parts,
    decreases parts.len(),
{
    reveal(Seq::filter);
    if parts.len() > 0 {
        assert forall|i: int| 0 <= i < parts.drop_last().len() implies wanted(
            #[trigger] parts.drop_last()[i],
        ) by {
            assert(parts.drop_last()[i] == parts[i]);
        }
        lemma_filter_all(parts.drop_last(), wanted);
        assert(wanted(parts[parts.len() - 1]));
        assert(parts.drop_last().push(parts.last()) =~= parts);
    }
}

/// Without a request, the database suggests the applications.
pub proof fn no_request_means_stored_apps()
    ensures
        requested_ids(None, None).len() == 0,
{
}

/// How many applications have to have been scraped for the records of scraping to rank them.
pub const RANKED_ABOVE: i64 = 1000;

/// Counts the applications that have been scraped.
pub const COUNT_SCRAPED_APPS: &'static str = "
    select count(distinct(app_id)) from scrapes
";

/// The applications that have not been scraped, those with the most reviews to expect, and those
/// whose scraping lies back the longest, a thousand of each at most.
pub const RANKED_APP_IDS: &'static str = "
    with scrape_stats as (
        select
            app_id,
            strftime('%s', max(scrape_start)) - strftime('%s', min(oldest_review)) as period,
            sum(items_scraped) as items_scraped,
            strftime('%s', 'now') - strftime('%s', max(scrape_start)) as age
        from scrapes
        where scrape_start > date(current_timestamp, '-1 year')
        group by app_id
    ),
    stalest_apps as (
        select
            app_id
        from scrape_stats
        order by age desc
        limit 1000
    ),
    most_relavent_apps as (
        select
            app_id
        from scrape_stats
        order by age * items_scraped / coalesce(period, 1) desc
        limit 1000
    ),
    unscraped_apps as (
        select app_id from apps except select distinct app_id from scrapes limit 1000
    ),
    selected_apps as (
        select * from unscraped_apps
        union all
        select * from most_relavent_apps
        union all
        select * from stalest_apps
    )
    select distinct(app_id) from selected_apps
";

/// All applications, those that were updated last first.
pub const ALL_APP_IDS: &'static str = "
    select distinct(app_id) from apps order by updated_at desc
";

/// The applications that have reviews but are not known.
pub const MISSING_APP_IDS: &'static str =
    "select distinct app_id from reviews except select app_id from apps";

/// The query for the applications to scrape, given how many have been scraped.
pub open spec fn query_for(num_apps_scraped: int) -> Seq<char> {
    if num_apps_scraped > RANKED_ABOVE {
        RANKED_APP_IDS@
    } else {
        ALL_APP_IDS@
    }
}

/// The query for the applications to scrape: ranked by the records of scraping once there are
/// enough of them, and all applications until then.
pub fn app_ids_query(num_apps_scraped: i64) -> (r: &'static str)
    ensures
        r@ == (if num_apps_scraped > RANKED_ABOVE {
            RANKED_APP_IDS@
        } else {
            ALL_APP_IDS@
        }),
        r@ == query_for(num_apps_scraped as int),
{
    if num_apps_scraped > RANKED_ABOVE {
        RANKED_APP_IDS
    } else {
        ALL_APP_IDS
    }
}

/// How many identifiers are collected before the first of them are looked up.
pub const LOOKUP_BATCH: usize = 200;

/// The lists to look up, in order, for a list of identifiers: its first `LOOKUP_BATCH`, where it
/// has as many, and then all of it, where it has any.
pub open spec fn lookup_batches(ids: Seq<Seq<char>>) -> Seq<Seq<Seq<char>>> {
    if ids.len() == 0 {
        Seq::empty()
    } else if ids.len() < LOOKUP_BATCH {
        seq![ids]
    } else {
        seq![ids.take(LOOKUP_BATCH as int), ids]
    }
}

/// The views of a list of batches.
pub open spec fn batches_view(batches: Seq<Vec<String>>) -> Seq<Seq<Seq<char>>> {
    batches.map_values(|batch: Vec<String>| strings_view(batch@))
}

fn copy_prefix(ids: &Vec<String>, n: usize) -> (r: Vec<String>)
    requires
        n <= ids@.len(),
    ensures
        strings_view(r@) == strings_view(ids@).take(n as int),
{
    let mut r: Vec<String> = Vec::new();
    let mut i: usize = 0;
    while i < n
        invariant
            i <= n <= ids@.len(),
            r@.len() == i,
            forall|j: int| 0 <= j < i ==> (#[trigger] r@[j])@ == ids@[j]@,
        decreases n - i,
    {
        r.push(ids[i].clone());
        i += 1;
    }
    assert(strings_view(r@) =~= strings_view(ids@).take(n as int));
    r
}

/// The lists of identifiers to look up, in order.
pub fn resolve_missing_apps(app_ids: &Vec<String>) -> (r: Vec<Vec<String>>)
    ensures
        batches_view(r@) == lookup_batches(strings_view(app_ids@)),
{
    let ghost ids = strings_view(app_ids@);
    let mut batches: Vec<Vec<String>> = Vec::new();
    if app_ids.len() >= LOOKUP_BATCH {
        batches.push(copy_prefix(app_ids, LOOKUP_BATCH));
    }
    if app_ids.len() > 0 {
        batches.push(copy_prefix(app_ids, app_ids.len()));
        assert(ids.take(ids.len() as int) =~= ids);
    }
    assert(batches_view(batches@) =~= lookup_batches(ids));
    batches
}

/// Every identifier is looked up: the last list holds them all, in order. No list is empty, and
/// each holds the identifiers from the first on.
pub proof fn every_missing_app_is_looked_up(ids: Seq<Seq<char>>)
    ensures
        ids.len() > 0 <==> lookup_batches(ids).len() > 0,
        ids.len() > 0 ==> lookup_batches(ids).last() == ids,
        forall|i: int|
            0 <= i < lookup_batches(ids).len() ==> (#[trigger] lookup_batches(ids)[i]).len() > 0
                && lookup_batches(ids)[i].len() <= ids.len() && lookup_batches(ids)[i] == ids.take(
                lookup_batches(ids)[i].len() as int,
            ),
{
    assert(ids.take(ids.len() as int) =~= ids);
}

/// Whether a record is that of a scraping that ended at some time of the clock.
pub open spec fn scrape_finished(
    app_id: Seq<char>,
    scrape_start: Instant,
    tally: TallyView,
    record: ScrapeView,
) -> bool {
    exists|scrape_end: Instant|
        scrape_end.on_calendar() && record == #[trigger] scrape_columns(
            app_id,
            scrape_start,
            scrape_end,
            tally,
        )
}

/// The scraping of one application's reviews.
pub struct ReviewScrape {
    pub app_id: String,
    pub scrape_start: Timestamp,
    pub pull: ReviewPull,
}

impl ReviewScrape {
    /// Begins at the time of the clock.
    pub fn start(app_id: &str) -> (r: ReviewScrape)
        ensures
            r.app_id@ == app_id@,
            r.scrape_start@.on_calendar(),
            r.pull@ == PullView::start(),
    {
        ReviewScrape {
            app_id: app_id.to_owned(),
            scrape_start: now(),
            pull: ReviewPull::new(),
        }
    }

    /// The record of the scraping, which ends at the time of the clock.
    pub fn finish(&self) -> (r: ScrapeRow)
        requires
            self.pull@.stage is Done,
        ensures
            exists|scrape_end: Instant|
                scrape_end.on_calendar() && r@ == #[trigger] scrape_columns(
                    self.app_id@,
                    self.scrape_start@,
                    scrape_end,
                    self.pull@.tally,
                ),
            scrape_finished(self.app_id@, self.scrape_start@, self.pull@.tally, r@),
    {
        record_scrape(self.app_id.as_str(), &self.scrape_start, &now(), &self.pull.tally())
    }
}

/// The modes have just these names, to the character, and without a name the mode is reviews.
pub proof fn the_modes_have_their_names(name: Seq<char>)
    ensures
        mode_named(None) == Some(Mode::Reviews),
        mode_named(Some(name)) == Some(Mode::Apps) <==> name == "apps"@,
        mode_named(Some(name)) == Some(Mode::Reviews) <==> name == "reviews"@,
        mode_named(Some(name)) == Some(Mode::ResolveMissing) <==> name == "resolve-missing"@,
        mode_named(Some(name)) is None <==> name != "apps"@ && name != "reviews"@ && name
            != "resolve-missing"@,
{
    reveal_strlit("apps");
    reveal_strlit("reviews");
    reveal_strlit("resolve-missing");
    assert("apps"@.len() == 4 && "reviews"@.len() == 7 && "resolve-missing"@.len() == 15);
}

/// The applications that were asked for are the one given on its own and then the pieces of the list
/// between its commas that are not empty: all of these and no others, in order, and each as often as
/// it was given.
pub proof fn what_was_asked_for_is_scraped(
    single: Option<Seq<char>>,
    list: Option<Seq<char>>,
) -> (places: Seq<int>)
    ensures
        ({
            let ids = requested_ids(single, list);
            let pieces = match list {
                Some(list) => comma_split(list),
                None => Seq::empty(),
            };
            let first = if single is Some {
                1int
            } else {
                0int
            };
            &&& ids.len() == first + places.len()
            &&& single matches Some(app_id) ==> ids[0] == app_id
            &&& picks(pieces, places, ids.skip(first))
            &&& forall|i: int|
                0 <= i < pieces.len() ==> (places.contains(i) <==> (#[trigger] pieces[i]).len() > 0)
        }),
{
    let ids = requested_ids(single, list);
    let first = if single is Some {
        1int
    } else {
        0int
    };
    match list {
        Some(list) => {
            let pieces = comma_split(list);
            let nonempty = |piece: Seq<char>| piece.len() > 0;
            let places = lemma_filter_picks(pieces, nonempty);
            assert(ids.skip(first) =~= pieces.filter(nonempty));
            assert forall|i: int| 0 <= i < pieces.len() implies (places.contains(i) <==> (
            #[trigger] pieces[i]).len() > 0) by {
                assert(nonempty(pieces[i]) <==> pieces[i].len() > 0);
            }
            places
        },
        None => {
            assert(ids.skip(first) =~= Seq::<Seq<char>>::empty());
            Seq::empty()
        },
    }
}

/// The database suggests the applications exactly where none was asked for; otherwise it is just
/// those that were, in their order.
pub proof fn who_is_scraped(ids: Seq<Seq<char>>, targets: ReviewTargets)
    requires
        targets_are(ids, targets),
    ensures
        targets is Stored <==> ids.len() == 0,
        targets matches ReviewTargets::Listed { app_ids } ==> {
            &&& app_ids@.len() == ids.len()
            &&& forall|i: int| 0 <= i < ids.len() ==> (#[trigger] app_ids@[i])@ == ids[i]
        },
{
    if let ReviewTargets::Listed { app_ids } = targets {
        assert forall|i: int| 0 <= i < ids.len() implies (#[trigger] app_ids@[i])@ == ids[i] by {
            assert(strings_view(app_ids@)[i] == app_ids@[i]@);
        }
    }
}

/// Up to a thousand scraped applications all are scraped again, those that were updated last first.
/// Above it they are ranked: up to a thousand each of those not scraped, of those with the most
/// reviews to expect and of those whose scraping lies back the longest.
pub proof fn apps_are_ranked_above_a_thousand(num_apps_scraped: int)
    ensures
        num_apps_scraped <= 1000 ==> query_for(num_apps_scraped) == "
    select distinct(app_id) from apps order by updated_at desc
"@,
        num_apps_scraped > 1000 ==> query_for(num_apps_scraped) == "
    with scrape_stats as (
        select
            app_id,
            strftime('%s', max(scrape_start)) - strftime('%s', min(oldest_review)) as period,
            sum(items_scraped) as items_scraped,
            strftime('%s', 'now') - strftime('%s', max(scrape_start)) as age
        from scrapes
        where scrape_start > date(current_timestamp, '-1 year')
        group by app_id
    ),
    stalest_apps as (
        select
            app_id
        from scrape_stats
        order by age desc
        limit 1000
    ),
    most_relavent_apps as (
        select
            app_id
        from scrape_stats
        order by age * items_scraped / coalesce(period, 1) desc
        limit 1000
    ),
    unscraped_apps as (
        select app_id from apps except select distinct app_id from scrapes limit 1000
    ),
    selected_apps as (
        select * from unscraped_apps
        union all
        select * from most_relavent_apps
        union all
        select * from stalest_apps
    )
    select distinct(app_id) from selected_apps
"@,
{
}

/// What is asked of the database: how many applications have been scraped, and which have reviews
/// but no row of their own.
pub proof fn what_is_asked_of_the_database()
    ensures
        COUNT_SCRAPED_APPS@ == "
    select count(distinct(app_id)) from scrapes
"@,
        MISSING_APP_IDS@ == "select distinct app_id from reviews except select app_id from apps"@,
{
}

/// The lists that are looked up: none for no identifiers, one of all of them where they are fewer
/// than 200, and otherwise two, of the first 200 and of all, each in the order of the identifiers.
pub proof fn how_identifiers_are_looked_up(ids: Seq<Seq<char>>)
    ensures
        ids.len() == 0 ==> lookup_batches(ids).len() == 0,
        0 < ids.len() < 200 ==> lookup_batches(ids).len() == 1,
        ids.len() >= 200 ==> lookup_batches(ids).len() == 2 && lookup_batches(ids)[0].len() == 200,
        ids.len() > 0 ==> lookup_batches(ids).last().len() == ids.len(),
        forall|b: int, i: int|
            0 <= b < lookup_batches(ids).len() && 0 <= i < lookup_batches(ids)[b].len()
                ==> #[trigger] lookup_batches(ids)[b][i] == ids[i],
{
}

/// The categories, place by place: those of the applications, the games, the later ones and the
/// magazines, and at last the catalogs. No two of them are the same.
pub proof fn the_categories_are_those_of_the_store(i: int, j: int)
    requires
        0 <= i < 71,
        0 <= j < 71,
    ensures
        APP_CATEGORIES@.len() == 71,
        APP_CATEGORIES@[i] == (if i < 15 {
            6000 + i
        } else if i < 34 {
            7001 + (i - 15)
        } else if i < 41 {
            6015 + (i - 34)
        } else if i < 50 {
            13001 + (i - 41)
        } else if i < 70 {
            13011 + (i - 50)
        } else {
            6022
        }),
        i != j ==> APP_CATEGORIES@[i] != APP_CATEGORIES@[j],
{
    lemma_category(i);
    lemma_category(j);
}

proof fn lemma_category(i: int)
    requires
        0 <= i < 71,
    ensures
        APP_CATEGORIES@.len() == 71,
        APP_CATEGORIES@[i] == (if i < 15 {
            6000 + i
        } else if i < 34 {
            7001 + (i - 15)
        } else if i < 41 {
            6015 + (i - 34)
        } else if i < 50 {
            13001 + (i - 41)
        } else if i < 70 {
            13011 + (i - 50)
        } else {
            6022
        }),
{
    let all = APP_CATEGORIES@;
    assert(all[0] == 6000);
    assert(all[1] == 6001);
    assert(all[2] == 6002);
    assert(all[3] == 6003);
    assert(all[4] == 6004);
    assert(all[5] == 6005);
    assert(all[6] == 6006);
    assert(all[7] == 6007);
    assert(all[8] == 6008);
    assert(all[9] == 6009);
    assert(all[10] == 6010);
    assert(all[11] == 6011);
    assert(all[12] == 6012);
    assert(all[13] == 6013);
    assert(all[14] == 6014);
    assert(all[15] == 7001);
    assert(all[16] == 7002);
    assert(all[17] == 7003);
    assert(all[18] == 7004);
    assert(all[19] == 7005);
    assert(all[20] == 7006);
    assert(all[21] == 7007);
    assert(all[22] == 7008);
    assert(all[23] == 7009);
    assert(all[24] == 7010);
    assert(all[25] == 7011);
    assert(all[26] == 7012);
    assert(all[27] == 7013);
    assert(all[28] == 7014);
    assert(all[29] == 7015);
    assert(all[30] == 7016);
    assert(all[31] == 7017);
    assert(all[32] == 7018);
    assert(all[33] == 7019);
    assert(all[34] == 6015);
    assert(all[35] == 6016);
    assert(all[36] == 6017);
    assert(all[37] == 6018);
    assert(all[38] == 6019);
    assert(all[39] == 6020);
    assert(all[40] == 6021);
    assert(all[41] == 13001);
    assert(all[42] == 13002);
    assert(all[43] == 13003);
    assert(all[44] == 13004);
    assert(all[45] == 13005);
    assert(all[46] == 13006);
    assert(all[47] == 13007);
    assert(all[48] == 13008);
    assert(all[49] == 13009);
    assert(all[50] == 13011);
    assert(all[51] == 13012);
    assert(all[52] == 13013);
    assert(all[53] == 13014);
    assert(all[54] == 13015);
    assert(all[55] == 13016);
    assert(all[56] == 13017);
    assert(all[57] == 13018);
    assert(all[58] == 13019);
    assert(all[59] == 13020);
    assert(all[60] == 13021);
    assert(all[61] == 13022);
    assert(all[62] == 13023);
    assert(all[63] == 13024);
    assert(all[64] == 13025);
    assert(all[65] == 13026);
    assert(all[66] == 13027);
    assert(all[67] == 13028);
    assert(all[68] == 13029);
    assert(all[69] == 13030);
    assert(all[70] == 6022);
}

/// The views of lists to look up are those of the lists, in order.
pub proof fn the_views_of_batches_are_theirs(batches: Seq<Vec<String>>)
    ensures
        batches_view(batches).len() == batches.len(),
        forall|b: int, i: int|
            0 <= b < batches.len() && 0 <= i < batches[b]@.len() ==> batches_view(batches)[b].len()
                == batches[b]@.len() && #[trigger] batches_view(batches)[b][i] == batches[b]@[i]@,
{
}

/// The record of a finished scraping is of its application, from its start, and of what its pull
/// counted; only its end is up to the clock.
pub proof fn a_finished_scraping_is_recorded(
    app_id: Seq<char>,
    scrape_start: Instant,
    tally: TallyView,
    record: ScrapeView,
) -> (scrape_end: Instant)
    requires
        scrape_finished(app_id, scrape_start, tally, record),
    ensures
        scrape_end.on_calendar(),
        record.scrape_end == rfc3339_millis(scrape_end),
        record.app_id == app_id,
        record.scrape_start == rfc3339_millis(scrape_start),
        record.items_scraped == tally.scraped,
        tally.newest matches Some(at) ==> record.newest_review == Some(rfc3339_millis(at)),
        tally.newest is None ==> record.newest_review is None,
        tally.oldest matches Some(at) ==> record.oldest_review == Some(rfc3339_millis(at)),
        tally.oldest is None ==> record.oldest_review is None,
{
    let scrape_end = choose|scrape_end: Instant|
        scrape_end.on_calendar() && record == #[trigger] scrape_columns(
            app_id,
            scrape_start,
            scrape_end,
            tally,
        );
    a_record_holds_its_tally(app_id, scrape_start, scrape_end, tally);
    what_a_record_rests_on(
        app_id,
        scrape_start,
        scrape_end,
        tally,
        app_id,
        scrape_start,
        scrape_end,
        tally,
    );
    scrape_end
}

} // verus!
