//! Customer reviews and the feed that lists them.
use crate::entry::{entries_view, entry_nodes, take_entries, Entry, EntryView};
use crate::error::{empty_to_err, result_view, ErrorView, ScrapeError};
use crate::nodes::{
    child, child_date, child_text, child_with_attr, entries, first_dates, first_holds,
    first_with_holds, get_node_dt, get_node_or_err, get_node_text, get_node_with_attr, get_text,
    has_attr, is_first, is_first_with, lacks_date, lacks_text, text,
    the_child_is_the_first_of_its_name, the_child_with_an_attribute_is_the_first_such,
    what_is_asked_comes_from_the_first,
};
use crate::text::{decimal, decimal_reads_back, parse_i64, parsed_i64};
use crate::timestamp::{now, Instant, Timestamp};
use crate::xml::{parse_document, writes_as, xml_document, Node, NodeView};
use vstd::prelude::*;

verus! {

/// A customer review of an application.
#[derive(Debug, PartialEq, Eq)]
pub struct Review {
    pub review_id: String,
    pub app_id: String,
    pub title: String,
    pub body: String,
    pub rating: i64,
    pub version: String,
    pub updated_at: Timestamp,
    pub author_name: String,
    /// When the review was read.
    pub inserted_at: Timestamp,
    /// The entry of the feed that the review was read from.
    pub xml_raw: String,
}

/// A `Review` with its strings as character sequences and its times as instants.
pub struct ReviewView {
    pub review_id: Seq<char>,
    pub app_id: Seq<char>,
    pub title: Seq<char>,
    pub body: Seq<char>,
    pub rating: int,
    pub version: Seq<char>,
    pub updated_at: Instant,
    pub author_name: Seq<char>,
    pub inserted_at: Instant,
    pub xml_raw: Seq<char>,
}

impl View for Review {
    type V = ReviewView;

    open spec fn view(&self) -> ReviewView {
        ReviewView {
            review_id: self.review_id@,
            app_id: self.app_id@,
            title: self.title@,
            body: self.body@,
            rating: self.rating as int,
            version: self.version@,
            updated_at: self.updated_at@,
            author_name: self.author_name@,
            inserted_at: self.inserted_at@,
            xml_raw: self.xml_raw@,
        }
    }
}

/// The views of a list of reviews.
pub open spec fn reviews_view(reviews: Seq<Review>) -> Seq<ReviewView> {
    reviews.map_values(|review: Review| review@)
}

/// The text of an entry's plain-text content.
pub open spec fn entry_body(entry: NodeView) -> Result<Seq<char>, ErrorView> {
    match child_with_attr(entry, "content"@, "type"@, "text"@) {
        Ok(content) => text(content),
        Err(_) => Err(ErrorView::MissingContent),
    }
}

/// The integer in an entry's rating.
pub open spec fn entry_rating(entry: NodeView) -> Result<i64, ErrorView> {
    match child_text(entry, "rating"@) {
        Ok(text) => match parsed_i64(text) {
            Some(rating) => Ok(rating),
            None => Err(ErrorView::BadRating),
        },
        Err(error) => Err(error),
    }
}

/// The name of an entry's author.
pub open spec fn entry_author(entry: NodeView) -> Result<Seq<char>, ErrorView> {
    match child(entry, "author"@) {
        Ok(author) => child_text(author, "name"@),
        Err(error) => Err(error),
    }
}

/// The error of the first field of a review that cannot be read in an entry, if there is one.
pub open spec fn review_error(entry: NodeView) -> Option<ErrorView> {
    if let Err(error) = entry_body(entry) {
        Some(error)
    } else if let Err(error) = child_text(entry, "id"@) {
        Some(error)
    } else if let Err(error) = child_text(entry, "title"@) {
        Some(error)
    } else if let Err(error) = entry_rating(entry) {
        Some(error)
    } else if let Err(error) = child_text(entry, "version"@) {
        Some(error)
    } else if let Err(error) = child_date(entry, "updated"@) {
        Some(error)
    } else if let Err(error) = entry_author(entry) {
        Some(error)
    } else {
        None
    }
}

/// The review that an entry of a feed holds, or the error of the first of its fields that cannot
/// be read.
pub open spec fn review_of(
    app_id: Seq<char>,
    entry: NodeView,
    xml_raw: Seq<char>,
    inserted_at: Instant,
) -> Result<ReviewView, ErrorView> {
    match review_error(entry) {
        Some(error) => Err(error),
        None => Ok(
            ReviewView {
                review_id: child_text(entry, "id"@)->Ok_0,
                app_id,
                title: child_text(entry, "title"@)->Ok_0,
                body: entry_body(entry)->Ok_0,
                rating: entry_rating(entry)->Ok_0 as int,
                version: child_text(entry, "version"@)->Ok_0,
                updated_at: child_date(entry, "updated"@)->Ok_0,
                author_name: entry_author(entry)->Ok_0,
                inserted_at,
                xml_raw,
            },
        ),
    }
}

/// Whether a result is that of building a review from an entry, dated by some time of the clock:
/// the review that the entry holds, with the entry's text, or the error of a field.
pub open spec fn review_built(
    app_id: Seq<char>,
    entry: EntryView,
    result: Result<ReviewView, ErrorView>,
) -> bool {
    match result {
        Ok(review) => {
            &&& review_of(app_id, entry.node, entry.xml_raw, review.inserted_at) == result
            &&& review.inserted_at.on_calendar()
            &&& entry.is_written()
        },
        Err(error) => review_error(entry.node) == Some(error),
    }
}

/// The error of the first of a list of entries that holds no review, if there is one.
pub open spec fn first_review_error(entries: Seq<NodeView>) -> Option<ErrorView>
    decreases entries.len(),
{
    if entries.len() == 0 {
        None
    } else if let Some(error) = review_error(entries[0]) {
        Some(error)
    } else {
        first_review_error(entries.drop_first())
    }
}

/// Whether a result is that of reading the reviews of a list of entries: a review for each entry
/// in order, or the error of the first entry that holds none.
pub open spec fn reviews_built(
    app_id: Seq<char>,
    list: Seq<EntryView>,
    result: Result<Seq<ReviewView>, ErrorView>,
) -> bool {
    match first_review_error(entry_nodes(list)) {
        None => {
            &&& result matches Ok(reviews)
            &&& reviews.len() == list.len()
            &&& forall|i: int|
                0 <= i < list.len() ==> review_built(app_id, #[trigger] list[i], Ok(reviews[i]))
        },
        Some(error) => result == Err::<Seq<ReviewView>, ErrorView>(error),
    }
}

/// Whether a review is the one that an entry holds, dated by some time of the clock, with a text
/// that the entry can be written as.
pub open spec fn review_read(app_id: Seq<char>, entry: NodeView, review: ReviewView) -> bool {
    &&& review_of(app_id, entry, review.xml_raw, review.inserted_at) == Ok::<ReviewView, ErrorView>(
        review,
    )
    &&& review.inserted_at.on_calendar()
    &&& writes_as(entry, review.xml_raw)
}

/// Reads the fields of an entry into a review, with the entry's own text and the time of reading.
pub fn review_from_node(app_id: &str, node: &Node, xml_raw: String, inserted_at: Timestamp) -> (r:
    Result<Review, ScrapeError>)
    ensures
        result_view(r) == review_of(app_id@, node@, xml_raw@, inserted_at@),
{
    let body = match get_node_with_attr(node, "content", "type", "text") {
        Ok(content) => get_text(content)?,
        Err(_) => return Err(ScrapeError::MissingContent),
    };
    let review_id = get_node_text(node, "id")?;
    let title = get_node_text(node, "title")?;
    let rating_text = get_node_text(node, "rating")?;
    let rating: i64 = empty_to_err(parse_i64(rating_text.as_str()), ScrapeError::BadRating)?;
    let version = get_node_text(node, "version")?;
    let updated_at = get_node_dt(node, "updated")?;
    let author_name = get_node_text(get_node_or_err(node, "author")?, "name")?;
    Ok(
        Review {
            review_id,
            app_id: app_id.to_owned(),
            title,
            body,
            rating,
            version,
            updated_at,
            author_name,
            inserted_at,
            xml_raw,
        },
    )
}

/// Builds a review from an entry of a feed and dates it by the clock. It succeeds exactly where
/// every field can be read.
pub fn build_review(app_id: &str, entry: &Entry) -> (r: Result<Review, ScrapeError>)
    ensures
        review_built(app_id@, entry@, result_view(r)),
{
    review_from_node(app_id, entry.node(), entry.xml_raw().clone(), now())
}

proof fn lemma_first_review_error_step(entries: Seq<NodeView>, i: int)
    requires
        0 <= i < entries.len(),
    ensures
        first_review_error(entries.skip(i)) == match review_error(entries[i]) {
            Some(error) => Some(error),
            None => first_review_error(entries.skip(i + 1)),
        },
{
    assert(entries.skip(i).drop_first() =~= entries.skip(i + 1));
}

/// Reads the reviews that the entries of a feed hold. One entry that cannot be read fails the whole
/// feed.
pub fn reviews_in_feed(app_id: &str, feed: &Vec<Entry>) -> (r: Result<Vec<Review>, ScrapeError>)
    ensures
        reviews_built(
            app_id@,
            entries_view(feed@),
            match r {
                Ok(reviews) => Ok(reviews_view(reviews@)),
                Err(error) => Err(error@),
            },
        ),
{
    let ghost list = entries_view(feed@);
    let ghost nodes = entry_nodes(list);
    let mut results: Vec<Review> = Vec::new();
    let mut i: usize = 0;
    assert(nodes.skip(0) =~= nodes);
    while i < feed.len()
        invariant
            i <= feed.len(),
            list == entries_view(feed@),
            nodes == entry_nodes(list),
            results@.len() == i,
            forall|j: int|
                0 <= j < i ==> review_built(app_id@, #[trigger] list[j], Ok(results@[j]@)),
            first_review_error(nodes) == first_review_error(nodes.skip(i as int)),
        decreases feed.len() - i,
    {
        proof {
            lemma_first_review_error_step(nodes, i as int);
            assert(list[i as int] == feed@[i as int]@);
        }
        results.push(build_review(app_id, &feed[i])?);
        i += 1;
    }
    Ok(results)
}

/// Whether a result is that of reading the reviews of a feed's text: a review for each entry in
/// order, the error of the first entry that holds none, or that the text is no document.
pub open spec fn reviews_parsed(
    app_id: Seq<char>,
    xml: Seq<char>,
    result: Result<Seq<ReviewView>, ErrorView>,
) -> bool {
    match xml_document(xml) {
        None => result == Err::<Seq<ReviewView>, ErrorView>(ErrorView::ParseXml),
        Some(document) => match first_review_error(entries(document)) {
            None => {
                &&& result matches Ok(reviews)
                &&& reviews.len() == entries(document).len()
                &&& forall|i: int|
                    0 <= i < reviews.len() ==> review_read(
                        app_id,
                        entries(document)[i],
                        #[trigger] reviews[i],
                    )
            },
            Some(error) => result == Err::<Seq<ReviewView>, ErrorView>(error),
        },
    }
}

/// Reads the reviews of an application from the text of a feed.
pub fn parse_reviews(app_id: &str, xml: &str) -> (r: Result<Vec<Review>, ScrapeError>)
    ensures
        reviews_parsed(
            app_id@,
            xml@,
            match r {
                Ok(reviews) => Ok(reviews_view(reviews@)),
                Err(error) => Err(error@),
            },
        ),
{
    let feed = take_entries(parse_document(xml)?)?;
    let r = reviews_in_feed(app_id, &feed);
    proof {
        let list = entries_view(feed@);
        if r is Ok {
            let views = reviews_view(r->Ok_0@);
            assert forall|i: int| 0 <= i < views.len() implies review_read(
                app_id@,
                entry_nodes(list)[i],
                #[trigger] views[i],
            ) by {
                assert(review_built(app_id@, list[i], Ok(views[i])));
            }
        }
    }
    r
}

/// A feed gives one review for each of its entries, in order: each is of the application that was
/// asked for, and holds what its own entry holds and how that entry reads.
pub proof fn each_review_comes_from_its_entry(
    app_id: Seq<char>,
    xml: Seq<char>,
    reviews: Seq<ReviewView>,
    i: int,
)
    requires
        reviews_parsed(app_id, xml, Ok(reviews)),
        0 <= i < reviews.len(),
    ensures
        xml_document(xml) is Some,
        reviews.len() == entries(xml_document(xml)->0).len(),
        reviews[i].app_id == app_id,
        review_of(
            app_id,
            entries(xml_document(xml)->0)[i],
            reviews[i].xml_raw,
            reviews[i].inserted_at,
        ) == Ok::<ReviewView, ErrorView>(reviews[i]),
        writes_as(entries(xml_document(xml)->0)[i], reviews[i].xml_raw),
{
    assert(review_read(app_id, entries(xml_document(xml)->0)[i], reviews[i]));
}

/// Two builds from one entry, for whatever applications, both succeed or both fail with one error.
/// The reviews agree in all but the application that they are for and the time that they were
/// read, and both hold the one text that the entry was written as.
pub proof fn builds_of_an_entry_agree(
    app_id: Seq<char>,
    other_app_id: Seq<char>,
    entry: EntryView,
    result: Result<ReviewView, ErrorView>,
    other: Result<ReviewView, ErrorView>,
)
    requires
        review_built(app_id, entry, result),
        review_built(other_app_id, entry, other),
    ensures
        result is Ok <==> other is Ok,
        result is Err ==> other == result,
        result matches Ok(review) ==> {
            &&& other == Ok::<ReviewView, ErrorView>(
                ReviewView {
                    app_id: other_app_id,
                    inserted_at: other->Ok_0.inserted_at,
                    ..review
                },
            )
            &&& review.app_id == app_id
            &&& review.xml_raw == entry.xml_raw
            &&& writes_as(entry.node, review.xml_raw)
        },
{
}

/// A feed gives its reviews exactly where each of its entries holds one.
pub proof fn one_bad_entry_fails_the_feed(
    app_id: Seq<char>,
    xml: Seq<char>,
    result: Result<Seq<ReviewView>, ErrorView>,
)
    requires
        xml_document(xml) is Some,
        reviews_parsed(app_id, xml, result),
    ensures
        result is Ok <==> forall|i: int|
            0 <= i < entries(xml_document(xml)->0).len() ==> review_error(
                #[trigger] entries(xml_document(xml)->0)[i],
            ) is None,
{
    lemma_first_review_error(entries(xml_document(xml)->0));
}

proof fn lemma_first_review_error(entries: Seq<NodeView>)
    ensures
        first_review_error(entries) is None <==> forall|i: int|
            0 <= i < entries.len() ==> review_error(#[trigger] entries[i]) is None,
    decreases entries.len(),
{
    if entries.len() > 0 {
        let rest = entries.drop_first();
        lemma_first_review_error(rest);
        if first_review_error(entries) is None {
            assert forall|i: int| 0 <= i < entries.len() implies review_error(
                #[trigger] entries[i],
            ) is None by {
                if i > 0 {
                    assert(entries[i] == rest[i - 1]);
                }
            }
        } else if review_error(entries[0]) is None {
            let i = choose|i: int| 0 <= i < rest.len() && review_error(#[trigger] rest[i]) is Some;
            assert(entries[i + 1] == rest[i]);
        }
    }
}

/// Whether the fields of a review are what an entry says: each is held by the first child that has
/// the name of the field. The body is that of the first content of type `text`, the author that of
/// the first name of the first author, the rating an integer, and the update an RFC 3339 date.
pub open spec fn says(entry: NodeView, review: ReviewView) -> bool {
    let nodes = entry.children;
    &&& first_with_holds(nodes, "content"@, "type"@, "text"@, review.body)
    &&& first_holds(nodes, "id"@, review.review_id)
    &&& first_holds(nodes, "title"@, review.title)
    &&& rates(nodes, review.rating)
    &&& first_holds(nodes, "version"@, review.version)
    &&& first_dates(nodes, "updated"@, review.updated_at)
    &&& is_by(nodes, review.author_name)
}

/// Whether an entry says what the fields of a review are.
pub open spec fn says_a_review(entry: NodeView) -> bool {
    exists|review: ReviewView| says(entry, review)
}

/// Whether the first rating of a sequence of nodes reads as an integer.
pub open spec fn rates(nodes: Seq<NodeView>, rating: int) -> bool {
    exists|i: int| #[trigger]
        is_first(nodes, "rating"@, i) && (nodes[i].text matches Some(held) && (parsed_i64(
            held,
        ) matches Some(v) && v == rating))
}

/// Whether the first author of a sequence of nodes has a name.
pub open spec fn is_by(nodes: Seq<NodeView>, name: Seq<char>) -> bool {
    exists|i: int| #[trigger]
        is_first(nodes, "author"@, i) && first_holds(nodes[i].children, "name"@, name)
}

/// An entry gives a review exactly where it says what the fields of one are. The review then holds
/// just that, with the application, the text and the time that it was given.
pub proof fn a_review_is_what_its_entry_says(
    app_id: Seq<char>,
    entry: NodeView,
    xml_raw: Seq<char>,
    inserted_at: Instant,
    review: ReviewView,
)
    ensures
        review_of(app_id, entry, xml_raw, inserted_at) == Ok::<ReviewView, ErrorView>(review) <==> {
            &&& says(entry, review)
            &&& review.app_id == app_id
            &&& review.xml_raw == xml_raw
            &&& review.inserted_at == inserted_at
        },
{
    let nodes = entry.children;
    let none = Seq::<char>::empty();
    what_is_asked_comes_from_the_first(entry, "id"@, none);
    what_is_asked_comes_from_the_first(entry, "title"@, none);
    what_is_asked_comes_from_the_first(entry, "rating"@, none);
    what_is_asked_comes_from_the_first(entry, "version"@, none);
    what_is_asked_comes_from_the_first(entry, "updated"@, none);
    lemma_content(entry);
    lemma_author(entry);
    let r = review_of(app_id, entry, xml_raw, inserted_at);
    if r == Ok::<ReviewView, ErrorView>(review) {
        let held = child_text(entry, "rating"@)->Ok_0;
        let i = choose|i: int| #[trigger]
            is_first(nodes, "rating"@, i) && nodes[i].text == Some(held);
        assert(is_first(nodes, "rating"@, i));
        assert(rates(nodes, review.rating));
    }
    if says(entry, review) {
        let i = choose|i: int| #[trigger]
            is_first(nodes, "rating"@, i) && (nodes[i].text matches Some(held) && (parsed_i64(
                held,
            ) matches Some(v) && v == review.rating));
        assert(first_holds(nodes, "rating"@, nodes[i].text->0));
    }
}

proof fn lemma_content(entry: NodeView)
    ensures
        match entry_body(entry) {
            Ok(body) => first_with_holds(entry.children, "content"@, "type"@, "text"@, body),
            Err(error) => lacks_content(entry.children, error),
        },
        forall|body: Seq<char>| #[trigger]
            first_with_holds(entry.children, "content"@, "type"@, "text"@, body) ==> entry_body(entry)
                == Ok::<Seq<char>, ErrorView>(body),
{
    let nodes = entry.children;
    assert forall|i: int| is_first_with(nodes, "content"@, "type"@, "text"@, i) implies child_with_attr(
        entry,
        "content"@,
        "type"@,
        "text"@,
    ) == Ok::<NodeView, ErrorView>(nodes[i]) by {
        the_child_with_an_attribute_is_the_first_such(entry, "content"@, "type"@, "text"@, i);
    }
    the_child_with_an_attribute_is_the_first_such(entry, "content"@, "type"@, "text"@, 0);
    if child_with_attr(entry, "content"@, "type"@, "text"@) is Ok {
        let k = choose|k: int| is_first_with(nodes, "content"@, "type"@, "text"@, k);
        assert(is_first_with(nodes, "content"@, "type"@, "text"@, k));
    }
}

proof fn lemma_author(entry: NodeView)
    ensures
        match entry_author(entry) {
            Ok(name) => is_by(entry.children, name),
            Err(error) => lacks_author(entry.children, error),
        },
        forall|name: Seq<char>| #[trigger]
            is_by(entry.children, name) ==> entry_author(entry) == Ok::<Seq<char>, ErrorView>(name),
{
    let nodes = entry.children;
    let none = Seq::<char>::empty();
    assert forall|i: int| is_first(nodes, "author"@, i) implies child(entry, "author"@) == Ok::<
        NodeView,
        ErrorView,
    >(nodes[i]) by {
        the_child_is_the_first_of_its_name(entry, "author"@, i);
    }
    the_child_is_the_first_of_its_name(entry, "author"@, 0);
    if let Ok(author) = child(entry, "author"@) {
        let k = choose|k: int| is_first(nodes, "author"@, k);
        assert(is_first(nodes, "author"@, k));
        what_is_asked_comes_from_the_first(author, "name"@, none);
    }
}

/// Whether an error is the one for the content of type `text` in a sequence of nodes.
pub open spec fn lacks_content(nodes: Seq<NodeView>, error: ErrorView) -> bool {
    ||| error == ErrorView::MissingContent && forall|j: int|
        0 <= j < nodes.len() ==> !((#[trigger] nodes[j]).name == "content"@ && has_attr(
            nodes[j],
            "type"@,
            "text"@,
        ))
    ||| error == (ErrorView::NoText { name: "content"@ }) && exists|i: int| #[trigger]
        is_first_with(nodes, "content"@, "type"@, "text"@, i) && nodes[i].text is None
}

/// Whether an error is the one for the rating in a sequence of nodes.
pub open spec fn lacks_rating(nodes: Seq<NodeView>, error: ErrorView) -> bool {
    ||| lacks_text(nodes, "rating"@, error)
    ||| error == ErrorView::BadRating && exists|i: int| #[trigger]
        is_first(nodes, "rating"@, i) && (nodes[i].text matches Some(held) && parsed_i64(
            held,
        ) is None)
}

/// Whether an error is the one for the author in a sequence of nodes.
pub open spec fn lacks_author(nodes: Seq<NodeView>, error: ErrorView) -> bool {
    ||| error == (ErrorView::MissingNode { name: "author"@ }) && forall|j: int|
        0 <= j < nodes.len() ==> (#[trigger] nodes[j]).name != "author"@
    ||| exists|i: int| #[trigger]
        is_first(nodes, "author"@, i) && lacks_text(nodes[i].children, "name"@, error)
}

/// Whether an error is that of the first of the fields that an entry does not say, in the order of
/// body, identifier, title, rating, version, update and author.
pub open spec fn fails_by(entry: NodeView, error: ErrorView) -> bool {
    let nodes = entry.children;
    let body = exists|s: Seq<char>|
        first_with_holds(nodes, "content"@, "type"@, "text"@, s);
    let id = exists|s: Seq<char>| first_holds(nodes, "id"@, s);
    let title = exists|s: Seq<char>| first_holds(nodes, "title"@, s);
    let rating = exists|v: int| rates(nodes, v);
    let version = exists|s: Seq<char>| first_holds(nodes, "version"@, s);
    let updated = exists|at: Instant| first_dates(nodes, "updated"@, at);
    ||| lacks_content(nodes, error)
    ||| body && lacks_text(nodes, "id"@, error)
    ||| body && id && lacks_text(nodes, "title"@, error)
    ||| body && id && title && lacks_rating(nodes, error)
    ||| body && id && title && rating && lacks_text(nodes, "version"@, error)
    ||| body && id && title && rating && version && lacks_date(nodes, "updated"@, error)
    ||| body && id && title && rating && version && updated && lacks_author(nodes, error)
}

/// An entry that gives no review fails by the first of the fields that it does not say, in the
/// order of body, identifier, title, rating, version, update and author.
pub proof fn an_entry_fails_by_what_it_does_not_say(entry: NodeView, error: ErrorView)
    requires
        review_error(entry) == Some(error),
    ensures
        fails_by(entry, error),
{
    let nodes = entry.children;
    let none = Seq::<char>::empty();
    what_is_asked_comes_from_the_first(entry, "id"@, none);
    what_is_asked_comes_from_the_first(entry, "title"@, none);
    what_is_asked_comes_from_the_first(entry, "rating"@, none);
    what_is_asked_comes_from_the_first(entry, "version"@, none);
    what_is_asked_comes_from_the_first(entry, "updated"@, none);
    lemma_content(entry);
    lemma_author(entry);
    if let Ok(held) = child_text(entry, "rating"@) {
        let i = choose|i: int| #[trigger]
            is_first(nodes, "rating"@, i) && nodes[i].text == Some(held);
        assert(is_first(nodes, "rating"@, i));
        if let Some(v) = parsed_i64(held) {
            assert(rates(nodes, v as int));
        }
    }
}

/// A review has the rating that its entry has: where the first rating of the entry is the numeral of
/// an integer, that integer is the rating of the review.
pub proof fn the_rating_is_the_number_in_the_entry(
    app_id: Seq<char>,
    entry: NodeView,
    xml_raw: Seq<char>,
    inserted_at: Instant,
    i: int,
    v: i64,
)
    requires
        is_first(entry.children, "rating"@, i),
        entry.children[i].text == Some(decimal(v as int)),
    ensures
        review_of(app_id, entry, xml_raw, inserted_at) matches Ok(review) ==> review.rating == v,
{
    decimal_reads_back(v);
    if let Ok(review) = review_of(app_id, entry, xml_raw, inserted_at) {
        a_review_is_what_its_entry_says(app_id, entry, xml_raw, inserted_at, review);
        let k = choose|k: int| #[trigger]
            is_first(entry.children, "rating"@, k) && (entry.children[k].text matches Some(held) && (
            parsed_i64(held) matches Some(w) && w == review.rating));
        assert(!(k < i));
        assert(!(i < k));
    }
}

/// What building a review from an entry gives: the review that the entry says, with the text of the
/// entry, exactly where it says one, and otherwise an error.
pub proof fn a_built_review_is_what_its_entry_says(
    app_id: Seq<char>,
    entry: EntryView,
    result: Result<ReviewView, ErrorView>,
)
    requires
        review_built(app_id, entry, result),
    ensures
        result matches Ok(review) ==> {
            &&& says(entry.node, review)
            &&& review.app_id == app_id
            &&& review.xml_raw == entry.xml_raw
            &&& review.inserted_at.on_calendar()
        },
        result is Ok <==> says_a_review(entry.node),
        result matches Err(error) ==> fails_by(entry.node, error),
{
    if let Err(error) = result {
        an_entry_fails_by_what_it_does_not_say(entry.node, error);
    }
    if let Ok(review) = result {
        a_review_is_what_its_entry_says(
            app_id,
            entry.node,
            entry.xml_raw,
            review.inserted_at,
            review,
        );
    } else if exists|review: ReviewView| says(entry.node, review) {
        let review = choose|review: ReviewView| says(entry.node, review);
        a_review_is_what_its_entry_says(
            review.app_id,
            entry.node,
            review.xml_raw,
            review.inserted_at,
            review,
        );
    }
}

proof fn lemma_says_is_no_error(entry: NodeView)
    ensures
        review_error(entry) is None <==> says_a_review(entry),
{
    let at = Instant { secs: 0, nanos: 0 };
    let none = Seq::<char>::empty();
    if let Ok(review) = review_of(none, entry, none, at) {
        a_review_is_what_its_entry_says(none, entry, none, at, review);
    }
    if exists|review: ReviewView| says(entry, review) {
        let review = choose|review: ReviewView| says(entry, review);
        a_review_is_what_its_entry_says(
            review.app_id,
            entry,
            review.xml_raw,
            review.inserted_at,
            review,
        );
    }
}

/// What a list of entries gives: a review for each entry, in order and as the entry says, exactly
/// where each of them says one.
pub proof fn built_reviews_are_what_their_entries_say(
    app_id: Seq<char>,
    list: Seq<EntryView>,
    result: Result<Seq<ReviewView>, ErrorView>,
)
    requires
        reviews_built(app_id, list, result),
    ensures
        result matches Ok(reviews) ==> {
            &&& reviews.len() == list.len()
            &&& forall|i: int|
                0 <= i < reviews.len() ==> says(list[i].node, #[trigger] reviews[i])
                    && reviews[i].app_id == app_id && reviews[i].xml_raw == list[i].xml_raw
        },
        result is Ok <==> forall|i: int|
            0 <= i < list.len() ==> says_a_review((#[trigger] list[i]).node),
        result matches Err(error) ==> exists|i: int| #[trigger]
            is_first_silent(entry_nodes(list), i) && fails_by(list[i].node, error),
{
    let nodes = entry_nodes(list);
    lemma_first_review_error(nodes);
    assert forall|i: int| 0 <= i < list.len() implies (review_error(nodes[i]) is None
        <==> says_a_review((#[trigger] list[i]).node)) by {
        lemma_says_is_no_error(list[i].node);
    }
    if let Ok(reviews) = result {
        assert forall|i: int| 0 <= i < reviews.len() implies says(
            list[i].node,
            #[trigger] reviews[i],
        ) && reviews[i].app_id == app_id && reviews[i].xml_raw == list[i].xml_raw by {
            assert(review_built(app_id, list[i], Ok(reviews[i])));
            a_built_review_is_what_its_entry_says(app_id, list[i], Ok(reviews[i]));
        }
        assert forall|i: int| 0 <= i < list.len() implies says_a_review(
            (#[trigger] list[i]).node,
        ) by {
            assert(review_error(nodes[i]) is None);
        }
    } else {
        let i = choose|i: int| 0 <= i < nodes.len() && review_error(#[trigger] nodes[i]) is Some;
        assert(list[i].node == nodes[i]);
        lemma_first_fault(nodes);
    }
}

/// What the text of a feed gives: where it is a document, a review for each child named `entry`, in
/// order and as that child says, exactly where each of them says one.
pub proof fn parsed_reviews_are_what_the_feed_says(
    app_id: Seq<char>,
    xml: Seq<char>,
    result: Result<Seq<ReviewView>, ErrorView>,
)
    requires
        reviews_parsed(app_id, xml, result),
    ensures
        xml_document(xml) is None <==> result == Err::<Seq<ReviewView>, ErrorView>(
            ErrorView::ParseXml,
        ),
        xml_document(xml) matches Some(document) ==> {
            &&& result matches Ok(reviews) ==> {
                &&& reviews.len() == entries(document).len()
                &&& forall|i: int|
                    0 <= i < reviews.len() ==> says(entries(document)[i], #[trigger] reviews[i])
                        && reviews[i].app_id == app_id && writes_as(
                        entries(document)[i],
                        reviews[i].xml_raw,
                    )
            }
            &&& result is Ok <==> forall|i: int|
                0 <= i < entries(document).len() ==> says_a_review(#[trigger] entries(document)[i])
            &&& result matches Err(error) ==> exists|i: int| #[trigger]
                is_first_silent(entries(document), i) && fails_by(entries(document)[i], error)
        },
{
    if let Some(document) = xml_document(xml) {
        let nodes = entries(document);
        lemma_first_review_error(nodes);
        assert forall|i: int| 0 <= i < nodes.len() implies (review_error(nodes[i]) is None
            <==> says_a_review(#[trigger] nodes[i])) by {
            lemma_says_is_no_error(nodes[i]);
        }
        if let Ok(reviews) = result {
            assert forall|i: int| 0 <= i < reviews.len() implies says(
                nodes[i],
                #[trigger] reviews[i],
            ) && reviews[i].app_id == app_id && writes_as(nodes[i], reviews[i].xml_raw) by {
                assert(review_read(app_id, nodes[i], reviews[i]));
                a_review_is_what_its_entry_says(
                    app_id,
                    nodes[i],
                    reviews[i].xml_raw,
                    reviews[i].inserted_at,
                    reviews[i],
                );
            }
            assert forall|i: int| 0 <= i < nodes.len() implies says_a_review(
                #[trigger] nodes[i],
            ) by {
                assert(review_error(nodes[i]) is None);
            }
        } else {
            let i = choose|i: int| 0 <= i < nodes.len() && review_error(#[trigger] nodes[i]) is Some;
            assert(!says_a_review(nodes[i]));
            lemma_first_fault(nodes);
        }
    }
}

/// Whether an entry is the first of a sequence that says no review.
pub open spec fn is_first_silent(entries: Seq<NodeView>, i: int) -> bool {
    &&& 0 <= i < entries.len()
    &&& !says_a_review(entries[i])
    &&& forall|j: int| 0 <= j < i ==> says_a_review(#[trigger] entries[j])
}

proof fn lemma_first_fault(entries: Seq<NodeView>)
    ensures
        first_review_error(entries) != Some(ErrorView::ParseXml),
        first_review_error(entries) matches Some(error) ==> exists|i: int| #[trigger]
            is_first_silent(entries, i) && fails_by(entries[i], error),
    decreases entries.len(),
{
    if entries.len() > 0 {
        let rest = entries.drop_first();
        lemma_says_is_no_error(entries[0]);
        lemma_first_fault(rest);
        if let Some(error) = review_error(entries[0]) {
            an_entry_fails_by_what_it_does_not_say(entries[0], error);
            assert(is_first_silent(entries, 0));
        } else if let Some(error) = first_review_error(rest) {
            let i = choose|i: int| #[trigger] is_first_silent(rest, i) && fails_by(rest[i], error);
            assert forall|j: int| 0 <= j < i + 1 implies says_a_review(#[trigger] entries[j]) by {
                if j > 0 {
                    assert(entries[j] == rest[j - 1]);
                }
            }
            assert(entries[i + 1] == rest[i]);
            assert(is_first_silent(entries, i + 1));
        }
    }
}

/// A feed that gives no reviews fails by the first entry that says none: by what that entry does not
/// say, and not by any before or behind it.
pub proof fn a_feed_fails_by_its_first_bad_entry(entries: Seq<NodeView>, i: int)
    requires
        0 <= i < entries.len(),
        forall|j: int| 0 <= j < i ==> review_error(#[trigger] entries[j]) is None,
        review_error(entries[i]) is Some,
    ensures
        first_review_error(entries) == review_error(entries[i]),
    decreases entries.len(),
{
    if i > 0 {
        let rest = entries.drop_first();
        assert(review_error(entries[0]) is None);
        assert forall|j: int| 0 <= j < i - 1 implies review_error(#[trigger] rest[j]) is None by {
            assert(rest[j] == entries[j + 1]);
        }
        assert(rest[i - 1] == entries[i]);
        a_feed_fails_by_its_first_bad_entry(rest, i - 1);
    }
}

/// The view of a review holds each of its fields, and nothing is lost in it.
pub proof fn the_view_of_a_review_is_its_fields(review: Review)
    ensures
        review@.review_id == review.review_id@,
        review@.app_id == review.app_id@,
        review@.title == review.title@,
        review@.body == review.body@,
        review@.rating == review.rating,
        review@.version == review.version@,
        review@.updated_at == review.updated_at@,
        review@.author_name == review.author_name@,
        review@.inserted_at == review.inserted_at@,
        review@.xml_raw == review.xml_raw@,
{
}

/// The views of reviews are those of the reviews, in order.
pub proof fn the_views_of_reviews_are_theirs(reviews: Seq<Review>)
    ensures
        reviews_view(reviews).len() == reviews.len(),
        forall|i: int| 0 <= i < reviews.len() ==> #[trigger] reviews_view(reviews)[i] == reviews[i]@,
{
}

} // verus!
