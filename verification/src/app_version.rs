//! Applications: the feed of top applications, and the results of a lookup.
use crate::entry::{entries_view, entry_nodes, take_entries, Entry, EntryView};
use crate::error::{result_view, ErrorView, ScrapeError};
use crate::nodes::{
    child_attr, child_date, child_text, child_with_attr, date, entries, first_bears, first_dates,
    first_holds, first_with_holds, get_node_attr, get_node_dt, get_node_text, get_node_with_attr,
    get_text, has_attr, is_first_with, lacks_attr, lacks_date, lacks_text, lemma_filter_picks,
    parse_date, text, the_child_with_an_attribute_is_the_first_such,
    what_is_asked_comes_from_the_first,
};
use crate::text::{decimal, decimal_reads_back, i64_to_string, parsed_i64};
use crate::timestamp::{now, rfc3339_instant, Instant, Timestamp};
use crate::xml::{parse_document, writes_as, xml_document, Node, NodeView};
use vstd::prelude::*;

verus! {

/// An application as it was at some time.
#[derive(Debug, PartialEq, Eq)]
pub struct AppVersion {
    pub app_id: String,
    pub updated_at: Timestamp,
    pub category: String,
    pub name: String,
    pub publisher: String,
    pub summary: String,
    pub released_at: Timestamp,
    /// When the application was read.
    pub inserted_at: Timestamp,
    pub icon_url: String,
    /// The entry of the feed that the application was read from, if it comes from a feed.
    pub xml_raw: String,
}

/// An `AppVersion` with its strings as character sequences and its times as instants.
pub struct AppView {
    pub app_id: Seq<char>,
    pub updated_at: Instant,
    pub category: Seq<char>,
    pub name: Seq<char>,
    pub publisher: Seq<char>,
    pub summary: Seq<char>,
    pub released_at: Instant,
    pub inserted_at: Instant,
    pub icon_url: Seq<char>,
    pub xml_raw: Seq<char>,
}

impl View for AppVersion {
    type V = AppView;

    open spec fn view(&self) -> AppView {
        AppView {
            app_id: self.app_id@,
            updated_at: self.updated_at@,
            category: self.category@,
            name: self.name@,
            publisher: self.publisher@,
            summary: self.summary@,
            released_at: self.released_at@,
            inserted_at: self.inserted_at@,
            icon_url: self.icon_url@,
            xml_raw: self.xml_raw@,
        }
    }
}

/// The address of an entry's icon: the text of its image of height 100.
pub open spec fn entry_icon(entry: NodeView) -> Result<Seq<char>, ErrorView> {
    match child_with_attr(entry, "image"@, "height"@, "100"@) {
        Ok(image) => text(image),
        Err(error) => Err(error),
    }
}

/// The error of the first field of an application that cannot be read in an entry, if there is
/// one.
pub open spec fn app_error(entry: NodeView) -> Option<ErrorView> {
    if let Err(error) = child_attr(entry, "id"@, "id"@) {
        Some(error)
    } else if let Err(error) = child_attr(entry, "category"@, "id"@) {
        Some(error)
    } else if let Err(error) = child_text(entry, "name"@) {
        Some(error)
    } else if let Err(error) = child_text(entry, "artist"@) {
        Some(error)
    } else if let Err(error) = child_date(entry, "updated"@) {
        Some(error)
    } else if let Err(error) = child_date(entry, "releaseDate"@) {
        Some(error)
    } else if let Err(error) = child_text(entry, "summary"@) {
        Some(error)
    } else if let Err(error) = entry_icon(entry) {
        Some(error)
    } else {
        None
    }
}

/// The application that an entry of a feed holds, or the error of the first of its fields that
/// cannot be read.
pub open spec fn app_of(entry: NodeView, xml_raw: Seq<char>, inserted_at: Instant) -> Result<
    AppView,
    ErrorView,
> {
    match app_error(entry) {
        Some(error) => Err(error),
        None => Ok(
            AppView {
                app_id: child_attr(entry, "id"@, "id"@)->Ok_0,
                updated_at: child_date(entry, "updated"@)->Ok_0,
                category: child_attr(entry, "category"@, "id"@)->Ok_0,
                name: child_text(entry, "name"@)->Ok_0,
                publisher: child_text(entry, "artist"@)->Ok_0,
                summary: child_text(entry, "summary"@)->Ok_0,
                released_at: child_date(entry, "releaseDate"@)->Ok_0,
                inserted_at,
                icon_url: entry_icon(entry)->Ok_0,
                xml_raw,
            },
        ),
    }
}

/// Whether a result is that of building an application from an entry, dated by some time of the
/// clock: the application that the entry holds, with the entry's text, or the error of a field.
pub open spec fn app_built(entry: EntryView, result: Result<AppView, ErrorView>) -> bool {
    match result {
        Ok(app) => {
            &&& app_of(entry.node, entry.xml_raw, app.inserted_at) == result
            &&& app.inserted_at.on_calendar()
            &&& entry.is_written()
        },
        Err(error) => app_error(entry.node) == Some(error),
    }
}

/// Whether an application is the one that an entry holds, dated by some time of the clock, with a
/// text that the entry can be written as.
pub open spec fn app_read(entry: NodeView, app: AppView) -> bool {
    &&& app_of(entry, app.xml_raw, app.inserted_at) == Ok::<AppView, ErrorView>(app)
    &&& app.inserted_at.on_calendar()
    &&& writes_as(entry, app.xml_raw)
}

/// Reads the fields of an entry into an application, with the entry's own text and the time of
/// reading.
pub fn app_from_node(node: &Node, xml_raw: String, inserted_at: Timestamp) -> (r: Result<
    AppVersion,
    ScrapeError,
>)
    ensures
        result_view(r) == app_of(node@, xml_raw@, inserted_at@),
{
    let app_id = get_node_attr(node, "id", "id")?;
    let category = get_node_attr(node, "category", "id")?;
    let name = get_node_text(node, "name")?;
    let publisher = get_node_text(node, "artist")?;
    let updated_at = get_node_dt(node, "updated")?;
    let released_at = get_node_dt(node, "releaseDate")?;
    let summary = get_node_text(node, "summary")?;
    let icon_url = get_text(get_node_with_attr(node, "image", "height", "100")?)?;
    Ok(
        AppVersion {
            app_id,
            updated_at,
            category,
            name,
            publisher,
            summary,
            released_at,
            inserted_at,
            icon_url,
            xml_raw,
        },
    )
}

/// Builds an application from an entry of a feed and dates it by the clock. It succeeds exactly
/// where every field can be read.
pub fn build_app(entry: &Entry) -> (r: Result<AppVersion, ScrapeError>)
    ensures
        app_built(entry@, result_view(r)),
{
    app_from_node(entry.node(), entry.xml_raw().clone(), now())
}

/// What a feed of applications gives: the applications of the entries that could be read, and the
/// errors of the others, each in the order of the feed.
#[derive(Debug, PartialEq, Eq)]
pub struct ParsedApps {
    pub apps: Vec<AppVersion>,
    pub failures: Vec<ScrapeError>,
}

/// The entries that hold an application, in order.
pub open spec fn readable(entries: Seq<NodeView>) -> Seq<NodeView> {
    entries.filter(|entry: NodeView| app_error(entry) is None)
}

/// The errors of the entries that hold none, in order.
pub open spec fn app_errors(entries: Seq<NodeView>) -> Seq<ErrorView> {
    entries.filter_map(|entry: NodeView| app_error(entry))
}

/// Whether applications and errors are those of reading a list of entries: the applications of the
/// entries that hold one, and the errors of the others, each in order.
pub open spec fn apps_parsed(
    entries: Seq<NodeView>,
    apps: Seq<AppView>,
    errors: Seq<ErrorView>,
) -> bool {
    &&& apps.len() == readable(entries).len()
    &&& forall|k: int|
        0 <= k < apps.len() ==> app_read(readable(entries)[k], #[trigger] apps[k])
    &&& errors == app_errors(entries)
}

impl ParsedApps {
    pub open spec fn apps_view(self) -> Seq<AppView> {
        self.apps@.map_values(|app: AppVersion| app@)
    }

    pub open spec fn failures_view(self) -> Seq<ErrorView> {
        self.failures@.map_values(|error: ScrapeError| error@)
    }
}

/// Reads the applications that the entries of a feed hold, and passes over the entries that cannot
/// be read.
pub fn apps_in_feed(feed: &Vec<Entry>) -> (r: ParsedApps)
    ensures
        apps_parsed(entry_nodes(entries_view(feed@)), r.apps_view(), r.failures_view()),
{
    let ghost nodes = entry_nodes(entries_view(feed@));
    let mut parsed = ParsedApps { apps: Vec::new(), failures: Vec::new() };
    let mut i: usize = 0;
    proof {
        reveal(Seq::filter);
        assert(nodes.take(0) =~= Seq::empty());
        assert(parsed.failures_view() =~= app_errors(nodes.take(0)));
    }
    while i < feed.len()
        invariant
            i <= feed.len(),
            nodes == entry_nodes(entries_view(feed@)),
            apps_parsed(nodes.take(i as int), parsed.apps_view(), parsed.failures_view()),
        decreases feed.len() - i,
    {
        let ghost before = parsed;
        let ghost earlier = nodes.take(i as int);
        let ghost entry = nodes[i as int];
        proof {
            reveal(Seq::filter);
            assert(nodes.take(i + 1).drop_last() =~= earlier);
            assert(nodes.take(i + 1).last() == entry);
        }
        match build_app(&feed[i]) {
            Ok(app) => {
                parsed.apps.push(app);
                proof {
                    assert(readable(nodes.take(i + 1)) == readable(earlier).push(entry));
                    assert(parsed.apps_view() =~= before.apps_view().push(app@));
                    assert(parsed.failures_view() =~= before.failures_view());
                    assert(app_read(entry, app@));
                }
            },
            Err(error) => {
                parsed.failures.push(error);
                proof {
                    assert(readable(nodes.take(i + 1)) == readable(earlier));
                    assert(parsed.failures_view() =~= before.failures_view() + seq![error@]);
                    assert(parsed.apps_view() =~= before.apps_view());
                }
            },
        }
        i += 1;
    }
    assert(nodes.take(nodes.len() as int) =~= nodes);
    parsed
}

/// Reads the applications from the text of a feed. It fails exactly where the text is no XML
/// document; an entry that cannot be read is passed over.
pub fn parse_apps(xml: &str) -> (r: Result<ParsedApps, ScrapeError>)
    ensures
        match xml_document(xml@) {
            Some(document) => r matches Ok(parsed) && apps_parsed(
                entries(document),
                parsed.apps_view(),
                parsed.failures_view(),
            ),
            None => r matches Err(error) && error@ == ErrorView::ParseXml,
        },
{
    let feed = take_entries(parse_document(xml)?)?;
    Ok(apps_in_feed(&feed))
}

proof fn lemma_entries_are_split(entries: Seq<NodeView>)
    ensures
        readable(entries).len() + app_errors(entries).len() == entries.len(),
        forall|i: int|
            0 <= i < entries.len() && app_error(#[trigger] entries[i]) is None ==> readable(
                entries,
            ).contains(entries[i]),
        forall|k: int|
            0 <= k < readable(entries).len() ==> entries.contains(#[trigger] readable(entries)[k]),
    decreases entries.len(),
{
    reveal(Seq::filter);
    if entries.len() > 0 {
        let before = entries.drop_last();
        lemma_entries_are_split(before);
        assert forall|i: int|
            0 <= i < entries.len() && app_error(#[trigger] entries[i]) is None implies readable(
            entries,
        ).contains(entries[i]) by {
            if i < before.len() {
                assert(before[i] == entries[i]);
                let k = choose|k: int|
                    0 <= k < readable(before).len() && readable(before)[k] == entries[i];
                assert(readable(entries)[k] == entries[i]);
            } else {
                assert(readable(entries)[readable(entries).len() - 1] == entries[i]);
            }
        }
        assert forall|k: int| 0 <= k < readable(entries).len() implies entries.contains(
            #[trigger] readable(entries)[k],
        ) by {
            if k < readable(before).len() {
                assert(readable(before)[k] == readable(entries)[k]);
                let i = choose|i: int| 0 <= i < before.len() && before[i] == readable(before)[k];
                assert(entries[i] == readable(entries)[k]);
            } else {
                assert(entries[entries.len() - 1] == readable(entries)[k]);
            }
        }
    }
}

/// Each entry of a feed gives either an application or an error.
pub proof fn every_entry_is_accounted_for(
    entries: Seq<NodeView>,
    apps: Seq<AppView>,
    errors: Seq<ErrorView>,
)
    requires
        apps_parsed(entries, apps, errors),
    ensures
        apps.len() + errors.len() == entries.len(),
{
    lemma_entries_are_split(entries);
}

/// Each application that a feed gives holds what one of its entries holds and how that entry reads.
pub proof fn every_app_comes_from_an_entry(
    entries: Seq<NodeView>,
    apps: Seq<AppView>,
    errors: Seq<ErrorView>,
    k: int,
)
    requires
        apps_parsed(entries, apps, errors),
        0 <= k < apps.len(),
    ensures
        exists|i: int| 0 <= i < entries.len() && app_read(#[trigger] entries[i], apps[k]),
{
    lemma_entries_are_split(entries);
    let entry = readable(entries)[k];
    let i = choose|i: int| 0 <= i < entries.len() && entries[i] == entry;
    assert(app_read(entries[i], apps[k]));
}

/// An entry whose fields can all be read is among the applications, whatever the other entries
/// hold.
pub proof fn readable_entries_are_kept(
    entries: Seq<NodeView>,
    apps: Seq<AppView>,
    errors: Seq<ErrorView>,
    i: int,
)
    requires
        apps_parsed(entries, apps, errors),
        0 <= i < entries.len(),
        app_error(entries[i]) is None,
    ensures
        exists|k: int| 0 <= k < apps.len() && app_read(entries[i], #[trigger] apps[k]),
{
    lemma_entries_are_split(entries);
    let k = choose|k: int| 0 <= k < readable(entries).len() && readable(entries)[k] == entries[i];
    assert(app_read(entries[i], apps[k]));
}

/// Two builds from one entry both succeed or both fail with one error. The applications agree in
/// all but the time that they were read, and both hold the one text that the entry was written as.
pub proof fn app_builds_of_an_entry_agree(
    entry: EntryView,
    result: Result<AppView, ErrorView>,
    other: Result<AppView, ErrorView>,
)
    requires
        app_built(entry, result),
        app_built(entry, other),
    ensures
        result is Ok <==> other is Ok,
        result is Err ==> other == result,
        result matches Ok(app) ==> {
            &&& other == Ok::<AppView, ErrorView>(
                AppView { inserted_at: other->Ok_0.inserted_at, ..app },
            )
            &&& app.xml_raw == entry.xml_raw
            &&& writes_as(entry.node, app.xml_raw)
        },
{
}

/// An application as a lookup answers it.
#[derive(Debug, PartialEq, Eq)]
pub struct AppSearchResult {
    pub artwork_url512: String,
    pub primary_genre_id: i64,
    pub track_id: i64,
    pub current_version_release_date: String,
    pub artist_name: String,
    pub track_name: String,
    pub description: String,
    pub release_date: String,
}

/// The application of a lookup's answer, with its dates as instants. It comes from no feed.
pub open spec fn found_app(
    found: AppSearchResult,
    updated_at: Instant,
    released_at: Instant,
    inserted_at: Instant,
) -> AppView {
    AppView {
        app_id: decimal(found.track_id as int),
        updated_at,
        category: decimal(found.primary_genre_id as int),
        name: found.track_name@,
        publisher: found.artist_name@,
        summary: found.description@,
        released_at,
        inserted_at,
        icon_url: found.artwork_url512@,
        xml_raw: Seq::empty(),
    }
}

/// Whether both dates of a lookup's answer can be read.
pub open spec fn has_dates(found: AppSearchResult) -> bool {
    date(found.current_version_release_date@) is Ok && date(found.release_date@) is Ok
}

/// Whether an application is that of a lookup's answer, dated by some time of the clock.
pub open spec fn app_found(found: AppSearchResult, app: AppView) -> bool {
    &&& has_dates(found)
    &&& app.inserted_at.on_calendar()
    &&& app == found_app(
        found,
        date(found.current_version_release_date@)->Ok_0,
        date(found.release_date@)->Ok_0,
        app.inserted_at,
    )
}

impl AppVersion {
    /// The application of a lookup's answer, with its dates as they were read.
    pub fn from_search_result(
        found: &AppSearchResult,
        updated_at: Timestamp,
        released_at: Timestamp,
        inserted_at: Timestamp,
    ) -> (r: AppVersion)
        ensures
            r@ == found_app(*found, updated_at@, released_at@, inserted_at@),
    {
        AppVersion {
            app_id: i64_to_string(found.track_id),
            updated_at,
            category: i64_to_string(found.primary_genre_id),
            name: found.track_name.clone(),
            publisher: found.artist_name.clone(),
            summary: found.description.clone(),
            released_at,
            inserted_at,
            icon_url: found.artwork_url512.clone(),
            xml_raw: String::new(),
        }
    }

    /// Reads the dates of a lookup's answer and dates the application by the clock. It fails
    /// exactly where one of the two dates cannot be read.
    pub fn resolve(found: &AppSearchResult) -> (r: Result<AppVersion, ScrapeError>)
        ensures
            match r {
                Ok(app) => app_found(*found, app@),
                Err(error) => !has_dates(*found) && error@ == ErrorView::BadDate,
            },
    {
        let updated_at = parse_date(found.current_version_release_date.as_str())?;
        let released_at = parse_date(found.release_date.as_str())?;
        Ok(AppVersion::from_search_result(found, updated_at, released_at, now()))
    }
}

/// Whether a result is that of taking over a lookup's answers: their applications in order, or an
/// error where a date of one of them cannot be read.
pub open spec fn apps_resolved(
    found: Seq<AppSearchResult>,
    result: Result<Seq<AppView>, ErrorView>,
) -> bool {
    match result {
        Ok(apps) => apps.len() == found.len() && forall|i: int|
            0 <= i < found.len() ==> app_found(#[trigger] found[i], apps[i]),
        Err(error) => error == ErrorView::BadDate && exists|i: int|
            0 <= i < found.len() && !has_dates(#[trigger] found[i]),
    }
}

/// The applications of a lookup's answers, in order. It fails exactly where a date of one of them
/// cannot be read.
pub fn resolve_all(found: &Vec<AppSearchResult>) -> (r: Result<Vec<AppVersion>, ScrapeError>)
    ensures
        match r {
            Ok(apps) => apps@.len() == found@.len() && forall|i: int|
                0 <= i < found@.len() ==> app_found(#[trigger] found@[i], apps@[i]@),
            Err(error) => error@ == ErrorView::BadDate && exists|i: int|
                0 <= i < found@.len() && !has_dates(#[trigger] found@[i]),
        },
        apps_resolved(
            found@,
            match r {
                Ok(apps) => Ok(apps@.map_values(|app: AppVersion| app@)),
                Err(error) => Err(error@),
            },
        ),
{
    let mut apps: Vec<AppVersion> = Vec::new();
    let mut i: usize = 0;
    while i < found.len()
        invariant
            i <= found.len(),
            apps@.len() == i,
            forall|j: int| 0 <= j < i ==> app_found(#[trigger] found@[j], apps@[j]@),
        decreases found.len() - i,
    {
        match AppVersion::resolve(&found[i]) {
            Ok(app) => apps.push(app),
            Err(error) => {
                assert(!has_dates(found@[i as int]));
                return Err(error);
            },
        }
        i += 1;
    }
    Ok(apps)
}

/// Whether the fields of an application are what an entry shows: its identifier and its category are
/// the `id` attributes of the first children of these names, its icon is the text of the first image
/// of height 100, and each other field is held by the first child that has the name of the field.
pub open spec fn shows(entry: NodeView, app: AppView) -> bool {
    let nodes = entry.children;
    &&& first_bears(nodes, "id"@, "id"@, app.app_id)
    &&& first_bears(nodes, "category"@, "id"@, app.category)
    &&& first_holds(nodes, "name"@, app.name)
    &&& first_holds(nodes, "artist"@, app.publisher)
    &&& first_dates(nodes, "updated"@, app.updated_at)
    &&& first_dates(nodes, "releaseDate"@, app.released_at)
    &&& first_holds(nodes, "summary"@, app.summary)
    &&& first_with_holds(nodes, "image"@, "height"@, "100"@, app.icon_url)
}

/// Whether an entry shows what the fields of an application are.
pub open spec fn shows_an_app(entry: NodeView) -> bool {
    exists|app: AppView| shows(entry, app)
}

/// Whether an error is the one for the icon in a sequence of nodes.
pub open spec fn lacks_icon(nodes: Seq<NodeView>, error: ErrorView) -> bool {
    ||| error == (ErrorView::MissingNodeWithAttr { name: "image"@, attr: "height"@, value: "100"@ })
        && forall|j: int|
        0 <= j < nodes.len() ==> !((#[trigger] nodes[j]).name == "image"@ && has_attr(
            nodes[j],
            "height"@,
            "100"@,
        ))
    ||| error == (ErrorView::NoText { name: "image"@ }) && exists|i: int| #[trigger]
        is_first_with(nodes, "image"@, "height"@, "100"@, i) && nodes[i].text is None
}

proof fn lemma_icon(entry: NodeView)
    ensures
        match entry_icon(entry) {
            Ok(icon) => first_with_holds(entry.children, "image"@, "height"@, "100"@, icon),
            Err(error) => lacks_icon(entry.children, error),
        },
        forall|icon: Seq<char>| #[trigger]
            first_with_holds(entry.children, "image"@, "height"@, "100"@, icon) ==> entry_icon(entry)
                == Ok::<Seq<char>, ErrorView>(icon),
{
    let nodes = entry.children;
    assert forall|i: int| is_first_with(nodes, "image"@, "height"@, "100"@, i) implies child_with_attr(
        entry,
        "image"@,
        "height"@,
        "100"@,
    ) == Ok::<NodeView, ErrorView>(nodes[i]) by {
        the_child_with_an_attribute_is_the_first_such(entry, "image"@, "height"@, "100"@, i);
    }
    the_child_with_an_attribute_is_the_first_such(entry, "image"@, "height"@, "100"@, 0);
    if child_with_attr(entry, "image"@, "height"@, "100"@) is Ok {
        let k = choose|k: int| is_first_with(nodes, "image"@, "height"@, "100"@, k);
        assert(is_first_with(nodes, "image"@, "height"@, "100"@, k));
    }
}

proof fn lemma_fields(entry: NodeView)
    ensures
        forall|name: Seq<char>, held: Seq<char>| #[trigger]
            first_holds(entry.children, name, held) <==> child_text(entry, name) == Ok::<
                Seq<char>,
                ErrorView,
            >(held),
        forall|name: Seq<char>, at: Instant| #[trigger]
            first_dates(entry.children, name, at) <==> child_date(entry, name) == Ok::<
                Instant,
                ErrorView,
            >(at),
        forall|name: Seq<char>, attr: Seq<char>, value: Seq<char>| #[trigger]
            first_bears(entry.children, name, attr, value) <==> child_attr(entry, name, attr)
                == Ok::<Seq<char>, ErrorView>(value),
{
    let none = Seq::<char>::empty();
    assert forall|name: Seq<char>, held: Seq<char>| #[trigger]
        first_holds(entry.children, name, held) <==> child_text(entry, name) == Ok::<
            Seq<char>,
            ErrorView,
        >(held) by {
        what_is_asked_comes_from_the_first(entry, name, none);
    }
    assert forall|name: Seq<char>, at: Instant| #[trigger]
        first_dates(entry.children, name, at) <==> child_date(entry, name) == Ok::<
            Instant,
            ErrorView,
        >(at) by {
        what_is_asked_comes_from_the_first(entry, name, none);
    }
    assert forall|name: Seq<char>, attr: Seq<char>, value: Seq<char>| #[trigger]
        first_bears(entry.children, name, attr, value) <==> child_attr(entry, name, attr) == Ok::<
            Seq<char>,
            ErrorView,
        >(value) by {
        what_is_asked_comes_from_the_first(entry, name, attr);
    }
}

/// An entry gives an application exactly where it shows what the fields of one are. The application
/// then holds just that, with the text and the time that it was given.
pub proof fn an_app_is_what_its_entry_shows(
    entry: NodeView,
    xml_raw: Seq<char>,
    inserted_at: Instant,
    app: AppView,
)
    ensures
        app_of(entry, xml_raw, inserted_at) == Ok::<AppView, ErrorView>(app) <==> {
            &&& shows(entry, app)
            &&& app.xml_raw == xml_raw
            &&& app.inserted_at == inserted_at
        },
{
    lemma_fields(entry);
    lemma_icon(entry);
}

proof fn lemma_shows_is_no_error(entry: NodeView)
    ensures
        app_error(entry) is None <==> shows_an_app(entry),
{
    let at = Instant { secs: 0, nanos: 0 };
    let none = Seq::<char>::empty();
    if let Ok(app) = app_of(entry, none, at) {
        an_app_is_what_its_entry_shows(entry, none, at, app);
    }
    if shows_an_app(entry) {
        let app = choose|app: AppView| shows(entry, app);
        an_app_is_what_its_entry_shows(entry, app.xml_raw, app.inserted_at, app);
    }
}

/// An application has the icon that its entry has at height 100: the text of the first such image.
/// Images of other heights, and images behind it, make no difference.
pub proof fn the_icon_is_the_image_of_height_100(
    entry: NodeView,
    xml_raw: Seq<char>,
    inserted_at: Instant,
    i: int,
)
    requires
        is_first_with(entry.children, "image"@, "height"@, "100"@, i),
    ensures
        app_of(entry, xml_raw, inserted_at) matches Ok(app) ==> entry.children[i].text == Some(
            app.icon_url,
        ),
{
    if let Ok(app) = app_of(entry, xml_raw, inserted_at) {
        an_app_is_what_its_entry_shows(entry, xml_raw, inserted_at, app);
        let k = choose|k: int| #[trigger]
            is_first_with(entry.children, "image"@, "height"@, "100"@, k)
                && entry.children[k].text == Some(app.icon_url);
        assert(!(k < i));
        assert(!(i < k));
    }
}

/// Whether an error is that of the first of the fields that an entry does not show, in the order of
/// identifier, category, name, publisher, update, release, summary and icon.
pub open spec fn app_fails_by(entry: NodeView, error: ErrorView) -> bool {
    let nodes = entry.children;
    let id = exists|s: Seq<char>| first_bears(nodes, "id"@, "id"@, s);
    let category = exists|s: Seq<char>| first_bears(nodes, "category"@, "id"@, s);
    let name = exists|s: Seq<char>| first_holds(nodes, "name"@, s);
    let artist = exists|s: Seq<char>| first_holds(nodes, "artist"@, s);
    let updated = exists|at: Instant| first_dates(nodes, "updated"@, at);
    let released = exists|at: Instant| first_dates(nodes, "releaseDate"@, at);
    let summary = exists|s: Seq<char>| first_holds(nodes, "summary"@, s);
    let named = id && category && name;
    ||| lacks_attr(nodes, "id"@, "id"@, error)
    ||| id && lacks_attr(nodes, "category"@, "id"@, error)
    ||| id && category && lacks_text(nodes, "name"@, error)
    ||| named && lacks_text(nodes, "artist"@, error)
    ||| named && artist && lacks_date(nodes, "updated"@, error)
    ||| named && artist && updated && lacks_date(nodes, "releaseDate"@, error)
    ||| named && artist && updated && released && lacks_text(nodes, "summary"@, error)
    ||| named && artist && updated && released && summary && lacks_icon(nodes, error)
}

/// An entry that gives no application fails by the first of the fields that it does not show, in the
/// order of identifier, category, name, publisher, update, release, summary and icon.
pub proof fn an_entry_fails_by_what_it_does_not_show(entry: NodeView, error: ErrorView)
    requires
        app_error(entry) == Some(error),
    ensures
        app_fails_by(entry, error),
{
    what_is_asked_comes_from_the_first(entry, "id"@, "id"@);
    what_is_asked_comes_from_the_first(entry, "category"@, "id"@);
    what_is_asked_comes_from_the_first(entry, "name"@, "id"@);
    what_is_asked_comes_from_the_first(entry, "artist"@, "id"@);
    what_is_asked_comes_from_the_first(entry, "updated"@, "id"@);
    what_is_asked_comes_from_the_first(entry, "releaseDate"@, "id"@);
    what_is_asked_comes_from_the_first(entry, "summary"@, "id"@);
    lemma_icon(entry);
}

/// What building an application from an entry gives: the application that the entry shows, with the
/// text of the entry, exactly where it shows one, and otherwise an error.
pub proof fn a_built_app_is_what_its_entry_shows(
    entry: EntryView,
    result: Result<AppView, ErrorView>,
)
    requires
        app_built(entry, result),
    ensures
        result matches Ok(app) ==> {
            &&& shows(entry.node, app)
            &&& app.xml_raw == entry.xml_raw
            &&& app.inserted_at.on_calendar()
        },
        result is Ok <==> shows_an_app(entry.node),
        result matches Err(error) ==> app_fails_by(entry.node, error),
{
    if let Err(error) = result {
        an_entry_fails_by_what_it_does_not_show(entry.node, error);
    }
    lemma_shows_is_no_error(entry.node);
    if let Ok(app) = result {
        an_app_is_what_its_entry_shows(entry.node, entry.xml_raw, app.inserted_at, app);
    }
}

/// The applications of a feed are those that its entries show: one for each entry that shows one, as
/// the entry shows it, in the order of the feed.
pub proof fn the_apps_are_what_the_feed_shows(
    entries: Seq<NodeView>,
    apps: Seq<AppView>,
    errors: Seq<ErrorView>,
) -> (places: Seq<int>)
    requires
        apps_parsed(entries, apps, errors),
    ensures
        places.len() == apps.len(),
        forall|k: int|
            0 <= k < places.len() ==> 0 <= #[trigger] places[k] < entries.len() && shows(
                entries[places[k]],
                apps[k],
            ) && writes_as(entries[places[k]], apps[k].xml_raw),
        forall|k: int, l: int|
            0 <= k < l < places.len() ==> #[trigger] places[k] < #[trigger] places[l],
        forall|i: int|
            0 <= i < entries.len() ==> (places.contains(i) <==> shows_an_app(#[trigger] entries[i])),
{
    let wanted = |entry: NodeView| app_error(entry) is None;
    let places = lemma_filter_picks(entries, wanted);
    assert forall|k: int| 0 <= k < places.len() implies 0 <= #[trigger] places[k] < entries.len()
        && shows(entries[places[k]], apps[k]) && writes_as(
        entries[places[k]],
        apps[k].xml_raw,
    ) by {
        assert(app_read(readable(entries)[k], apps[k]));
        an_app_is_what_its_entry_shows(
            entries[places[k]],
            apps[k].xml_raw,
            apps[k].inserted_at,
            apps[k],
        );
    }
    assert forall|i: int| 0 <= i < entries.len() implies (places.contains(i) <==> shows_an_app(
        #[trigger] entries[i],
    )) by {
        lemma_shows_is_no_error(entries[i]);
        assert(wanted(entries[i]) <==> app_error(entries[i]) is None);
    }
    places
}

/// The errors of a feed are those of its entries that show no application, in the order of the feed.
pub proof fn the_errors_are_those_of_the_other_entries(
    entries: Seq<NodeView>,
    apps: Seq<AppView>,
    errors: Seq<ErrorView>,
) -> (places: Seq<int>)
    requires
        apps_parsed(entries, apps, errors),
    ensures
        places.len() == errors.len(),
        forall|k: int|
            0 <= k < places.len() ==> 0 <= #[trigger] places[k] < entries.len() && app_fails_by(
                entries[places[k]],
                errors[k],
            ),
        forall|k: int, l: int|
            0 <= k < l < places.len() ==> #[trigger] places[k] < #[trigger] places[l],
        forall|i: int|
            0 <= i < entries.len() ==> (places.contains(i) <==> !shows_an_app(#[trigger] entries[i])),
{
    let places = lemma_error_places(entries);
    assert forall|k: int| 0 <= k < places.len() implies 0 <= #[trigger] places[k] < entries.len()
        && app_fails_by(entries[places[k]], errors[k]) by {
        an_entry_fails_by_what_it_does_not_show(entries[places[k]], errors[k]);
    }
    assert forall|i: int| 0 <= i < entries.len() implies (places.contains(i) <==> !shows_an_app(
        #[trigger] entries[i],
    )) by {
        lemma_shows_is_no_error(entries[i]);
    }
    places
}

proof fn lemma_error_places(entries: Seq<NodeView>) -> (places: Seq<int>)
    ensures
        places.len() == app_errors(entries).len(),
        forall|k: int|
            0 <= k < places.len() ==> 0 <= #[trigger] places[k] < entries.len() && app_error(
                entries[places[k]],
            ) == Some(app_errors(entries)[k]),
        forall|k: int, l: int|
            0 <= k < l < places.len() ==> #[trigger] places[k] < #[trigger] places[l],
        forall|i: int|
            0 <= i < entries.len() ==> (places.contains(i) <==> app_error(#[trigger] entries[i]) is Some),
    decreases entries.len(),
{
    if entries.len() == 0 {
        Seq::empty()
    } else {
        let before = entries.drop_last();
        let last = entries.len() - 1;
        let earlier = lemma_error_places(before);
        let places = if app_error(entries.last()) is Some {
            earlier.push(last)
        } else {
            earlier
        };
        assert forall|k: int| 0 <= k < places.len() implies 0 <= #[trigger] places[k] < entries.len()
            && app_error(entries[places[k]]) == Some(app_errors(entries)[k]) by {
            if k < earlier.len() {
                assert(places[k] == earlier[k]);
                assert(before[earlier[k]] == entries[earlier[k]]);
            }
        }
        assert forall|i: int| 0 <= i < entries.len() implies (places.contains(i) <==> app_error(
            #[trigger] entries[i],
        ) is Some) by {
            if i < last {
                assert(before[i] == entries[i]);
                if earlier.contains(i) {
                    let k = choose|k: int| 0 <= k < earlier.len() && earlier[k] == i;
                    assert(places[k] == i);
                }
                if places.contains(i) {
                    let k = choose|k: int| 0 <= k < places.len() && places[k] == i;
                    assert(earlier[k] == i);
                }
            } else {
                if app_error(entries[i]) is Some {
                    assert(places[places.len() - 1] == i);
                }
                if places.contains(i) {
                    let k = choose|k: int| 0 <= k < places.len() && places[k] == i;
                    assert(app_error(entries[places[k]]) is Some);
                }
            }
        }
        places
    }
}

/// The application of a lookup's answer holds what the answer holds: its identifier and its category
/// read back as the track and the primary genre, its dates are those that the answer writes, and its
/// other fields are the answer's, to the character. It has no text of an entry.
pub proof fn a_found_app_is_what_the_answer_holds(found: AppSearchResult, app: AppView)
    requires
        app_found(found, app),
    ensures
        parsed_i64(app.app_id) == Some(found.track_id),
        parsed_i64(app.category) == Some(found.primary_genre_id),
        app.app_id == decimal(found.track_id as int),
        app.category == decimal(found.primary_genre_id as int),
        app.name == found.track_name@,
        app.publisher == found.artist_name@,
        app.summary == found.description@,
        app.icon_url == found.artwork_url512@,
        rfc3339_instant(found.current_version_release_date@) == Some(app.updated_at),
        rfc3339_instant(found.release_date@) == Some(app.released_at),
        app.inserted_at.on_calendar(),
        app.xml_raw.len() == 0,
{
    decimal_reads_back(found.track_id);
    decimal_reads_back(found.primary_genre_id);
}

/// Answers of different tracks give applications of different identifiers, and answers of different
/// genres give applications of different categories, whatever the dates that they are given.
pub proof fn different_answers_give_different_apps(
    found: AppSearchResult,
    other: AppSearchResult,
    updated_at: Instant,
    released_at: Instant,
    inserted_at: Instant,
)
    ensures
        ({
            let app = found_app(found, updated_at, released_at, inserted_at);
            let other_app = found_app(other, updated_at, released_at, inserted_at);
            &&& parsed_i64(app.app_id) == Some(found.track_id)
            &&& parsed_i64(app.category) == Some(found.primary_genre_id)
            &&& app.app_id == other_app.app_id <==> found.track_id == other.track_id
            &&& app.category == other_app.category <==> found.primary_genre_id
                == other.primary_genre_id
            &&& app.updated_at == updated_at
            &&& app.released_at == released_at
            &&& app.inserted_at == inserted_at
            &&& app.name == found.track_name@
            &&& app.publisher == found.artist_name@
            &&& app.summary == found.description@
            &&& app.icon_url == found.artwork_url512@
            &&& app.xml_raw.len() == 0
        }),
{
    decimal_reads_back(found.track_id);
    decimal_reads_back(found.primary_genre_id);
    decimal_reads_back(other.track_id);
    decimal_reads_back(other.primary_genre_id);
}

/// A lookup's answer has its dates exactly where both of them are written as RFC 3339 writes them.
pub proof fn an_answer_has_dates_where_both_can_be_read(found: AppSearchResult)
    ensures
        has_dates(found) <==> rfc3339_instant(found.current_version_release_date@) is Some
            && rfc3339_instant(found.release_date@) is Some,
{
}

/// The answers of a lookup are taken over all together and in order, or not at all: exactly where
/// both dates of each of them can be read, there is an application for each, with its identifier.
pub proof fn found_apps_are_taken_over_together(
    found: Seq<AppSearchResult>,
    result: Result<Seq<AppView>, ErrorView>,
)
    requires
        apps_resolved(found, result),
    ensures
        result is Ok <==> forall|i: int|
            0 <= i < found.len() ==> rfc3339_instant(
                (#[trigger] found[i]).current_version_release_date@,
            ) is Some && rfc3339_instant(found[i].release_date@) is Some,
        result matches Ok(apps) ==> apps.len() == found.len() && forall|i: int|
            0 <= i < apps.len() ==> parsed_i64((#[trigger] apps[i]).app_id) == Some(
                found[i].track_id,
            ),
        result matches Err(error) ==> error == ErrorView::BadDate,
{
    if let Ok(apps) = result {
        assert forall|i: int| 0 <= i < apps.len() implies parsed_i64((#[trigger] apps[i]).app_id)
            == Some(found[i].track_id) by {
            assert(app_found(found[i], apps[i]));
            a_found_app_is_what_the_answer_holds(found[i], apps[i]);
        }
    } else {
        let i = choose|i: int| 0 <= i < found.len() && !has_dates(#[trigger] found[i]);
        assert(!has_dates(found[i]));
    }
}

/// The view of an application holds each of its fields, and nothing is lost in it.
pub proof fn the_view_of_an_app_is_its_fields(app: AppVersion)
    ensures
        app@.app_id == app.app_id@,
        app@.updated_at == app.updated_at@,
        app@.category == app.category@,
        app@.name == app.name@,
        app@.publisher == app.publisher@,
        app@.summary == app.summary@,
        app@.released_at == app.released_at@,
        app@.inserted_at == app.inserted_at@,
        app@.icon_url == app.icon_url@,
        app@.xml_raw == app.xml_raw@,
{
}

/// The views of what a feed gives are those of its applications and of its errors, in order.
pub proof fn the_views_of_parsed_apps_are_theirs(parsed: ParsedApps)
    ensures
        parsed.apps_view().len() == parsed.apps@.len(),
        parsed.failures_view().len() == parsed.failures@.len(),
        forall|i: int|
            0 <= i < parsed.apps@.len() ==> #[trigger] parsed.apps_view()[i] == parsed.apps@[i]@,
        forall|i: int|
            0 <= i < parsed.failures@.len() ==> #[trigger] parsed.failures_view()[i]
                == parsed.failures@[i]@,
{
}

} // verus!
