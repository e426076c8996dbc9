//! Looking up the children, attributes, texts and dates of a node.
use crate::error::{erase_err, result_view, ErrorView, ScrapeError};
use crate::timestamp::{parse_rfc3339, rfc3339_instant, Instant, Timestamp};
use crate::xml::{lemma_children_view, pairs_map, Node, NodeView};
use vstd::prelude::*;

verus! {

/// The first node of a sequence that satisfies a predicate.
pub open spec fn first_node(nodes: Seq<NodeView>, wanted: spec_fn(NodeView) -> bool) -> Option<
    NodeView,
>
    decreases nodes.len(),
{
    if nodes.len() == 0 {
        None
    } else if wanted(nodes[0]) {
        Some(nodes[0])
    } else {
        first_node(nodes.drop_first(), wanted)
    }
}

/// Nodes of a name.
pub open spec fn named(name: Seq<char>) -> spec_fn(NodeView) -> bool {
    |node: NodeView| node.name == name
}

/// Nodes of a name whose attribute has a value.
pub open spec fn named_with_attr(
    name: Seq<char>,
    attr: Seq<char>,
    value: Seq<char>,
) -> spec_fn(NodeView) -> bool {
    |node: NodeView|
        node.name == name && node.attributes.contains_key(attr) && node.attributes[attr] == value
}

/// The first child of a name.
pub open spec fn child(node: NodeView, name: Seq<char>) -> Result<NodeView, ErrorView> {
    match first_node(node.children, named(name)) {
        Some(found) => Ok(found),
        None => Err(ErrorView::MissingNode { name }),
    }
}

/// The first child of a name whose attribute has a value.
pub open spec fn child_with_attr(
    node: NodeView,
    name: Seq<char>,
    attr: Seq<char>,
    value: Seq<char>,
) -> Result<NodeView, ErrorView> {
    match first_node(node.children, named_with_attr(name, attr, value)) {
        Some(found) => Ok(found),
        None => Err(ErrorView::MissingNodeWithAttr { name, attr, value }),
    }
}

/// The text of a node.
pub open spec fn text(node: NodeView) -> Result<Seq<char>, ErrorView> {
    match node.text {
        Some(text) => Ok(text),
        None => Err(ErrorView::NoText { name: node.name }),
    }
}

/// The text of the first child of a name.
pub open spec fn child_text(node: NodeView, name: Seq<char>) -> Result<Seq<char>, ErrorView> {
    match child(node, name) {
        Ok(found) => text(found),
        Err(error) => Err(error),
    }
}

/// The instant that a text stands for.
pub open spec fn date(text: Seq<char>) -> Result<Instant, ErrorView> {
    match rfc3339_instant(text) {
        Some(at) => Ok(at),
        None => Err(ErrorView::BadDate),
    }
}

/// The instant that the text of the first child of a name stands for.
pub open spec fn child_date(node: NodeView, name: Seq<char>) -> Result<Instant, ErrorView> {
    match child_text(node, name) {
        Ok(text) => date(text),
        Err(error) => Err(error),
    }
}

/// An attribute of the first child of a name.
pub open spec fn child_attr(node: NodeView, name: Seq<char>, attr: Seq<char>) -> Result<
    Seq<char>,
    ErrorView,
> {
    match child(node, name) {
        Ok(found) => if found.attributes.contains_key(attr) {
            Ok(found.attributes[attr])
        } else {
            Err(ErrorView::MissingAttr)
        },
        Err(error) => Err(error),
    }
}

/// The children of a feed that are its entries, in order.
pub open spec fn entries(document: NodeView) -> Seq<NodeView> {
    document.children.filter(named("entry"@))
}

proof fn lemma_first_node_step(nodes: Seq<NodeView>, i: int, wanted: spec_fn(NodeView) -> bool)
    requires
        0 <= i < nodes.len(),
    ensures
        wanted(nodes[i]) ==> first_node(nodes.skip(i), wanted) == Some(nodes[i]),
        !wanted(nodes[i]) ==> first_node(nodes.skip(i), wanted) == first_node(nodes.skip(i + 1), wanted),
{
    assert(nodes.skip(i).drop_first() =~= nodes.skip(i + 1));
}

/// The first match of a sequence satisfies the predicate and nothing before it does; there is no
/// first match exactly where nothing satisfies the predicate.
pub proof fn first_node_is_first(nodes: Seq<NodeView>, wanted: spec_fn(NodeView) -> bool)
    ensures
        match first_node(nodes, wanted) {
            Some(found) => exists|i: int|
                0 <= i < nodes.len() && #[trigger] nodes[i] == found && wanted(found) && forall|j: int|
                    0 <= j < i ==> !wanted(#[trigger] nodes[j]),
            None => forall|j: int| 0 <= j < nodes.len() ==> !wanted(#[trigger] nodes[j]),
        },
    decreases nodes.len(),
{
    if nodes.len() > 0 {
        if wanted(nodes[0]) {
            assert(nodes[0] == first_node(nodes, wanted)->0);
        } else {
            let rest = nodes.drop_first();
            first_node_is_first(rest, wanted);
            match first_node(rest, wanted) {
                Some(found) => {
                    let i = choose|i: int|
                        0 <= i < rest.len() && #[trigger] rest[i] == found && wanted(found)
                            && forall|j: int| 0 <= j < i ==> !wanted(#[trigger] rest[j]);
                    assert(nodes[i + 1] == found);
                    assert forall|j: int| 0 <= j < i + 1 implies !wanted(#[trigger] nodes[j]) by {
                        if j > 0 {
                            assert(nodes[j] == rest[j - 1]);
                        }
                    }
                },
                None => {
                    assert forall|j: int| 0 <= j < nodes.len() implies !wanted(#[trigger] nodes[j]) by {
                        if j > 0 {
                            assert(nodes[j] == rest[j - 1]);
                        }
                    }
                },
            }
        }
    }
}

/// The value of an attribute.
fn attribute<'a>(node: &'a Node, attr: &str) -> (r: Option<&'a String>)
    ensures
        match r {
            Some(value) => node@.attributes.contains_key(attr@) && node@.attributes[attr@] == value@,
            None => !node@.attributes.contains_key(attr@),
        },
{
    let wanted = attr.to_owned();
    let mut found: Option<&'a String> = None;
    let mut i: usize = 0;
    let ghost pairs = node.attributes@;
    assert(pairs.take(0) =~= Seq::empty());
    while i < node.attributes.len()
        invariant
            i <= node.attributes.len(),
            pairs == node.attributes@,
            wanted@ == attr@,
            match found {
                Some(value) => pairs_map(pairs.take(i as int)).contains_key(attr@)
                    && pairs_map(pairs.take(i as int))[attr@] == value@,
                None => !pairs_map(pairs.take(i as int)).contains_key(attr@),
            },
        decreases node.attributes.len() - i,
    {
        assert(pairs.take(i + 1).drop_last() =~= pairs.take(i as int));
        let pair = &node.attributes[i];
        if pair.0 == wanted {
            found = Some(&pair.1);
        }
        i += 1;
    }
    assert(pairs.take(pairs.len() as int) =~= pairs);
    found
}

/// The first child of a name, or an error where there is none.
pub fn get_node_or_err<'a>(node: &'a Node, name: &str) -> (r: Result<&'a Node, ScrapeError>)
    ensures
        result_view(r) == child(node@, name@),
{
    let wanted = name.to_owned();
    let ghost views = node@.children;
    proof {
        lemma_children_view(node);
    }
    let mut i: usize = 0;
    assert(views.skip(0) =~= views);
    while i < node.children.len()
        invariant
            i <= node.children.len(),
            views.len() == node.children@.len(),
            forall|j: int| 0 <= j < views.len() ==> #[trigger] views[j] == node.children@[j]@,
            views == node@.children,
            wanted@ == name@,
            first_node(views, named(name@)) == first_node(views.skip(i as int), named(name@)),
        decreases node.children.len() - i,
    {
        proof {
            lemma_first_node_step(views, i as int, named(name@));
        }
        if node.children[i].name == wanted {
            return Ok(&node.children[i]);
        }
        i += 1;
    }
    Err(ScrapeError::MissingNode { name: wanted })
}

/// The first child of a name whose attribute has a value, or an error where there is none.
pub fn get_node_with_attr<'a>(node: &'a Node, name: &str, attr: &str, value: &str) -> (r: Result<
    &'a Node,
    ScrapeError,
>)
    ensures
        result_view(r) == child_with_attr(node@, name@, attr@, value@),
{
    let wanted_name = name.to_owned();
    let wanted_value = value.to_owned();
    let ghost wanted = named_with_attr(name@, attr@, value@);
    let ghost views = node@.children;
    proof {
        lemma_children_view(node);
    }
    let mut i: usize = 0;
    assert(views.skip(0) =~= views);
    while i < node.children.len()
        invariant
            i <= node.children.len(),
            views.len() == node.children@.len(),
            forall|j: int| 0 <= j < views.len() ==> #[trigger] views[j] == node.children@[j]@,
            views == node@.children,
            wanted == named_with_attr(name@, attr@, value@),
            wanted_name@ == name@,
            wanted_value@ == value@,
            first_node(views, wanted) == first_node(views.skip(i as int), wanted),
        decreases node.children.len() - i,
    {
        proof {
            lemma_first_node_step(views, i as int, wanted);
        }
        let candidate = &node.children[i];
        if candidate.name == wanted_name {
            if let Some(held) = attribute(candidate, attr) {
                if *held == wanted_value {
                    return Ok(candidate);
                }
            }
        }
        i += 1;
    }
    Err(
        ScrapeError::MissingNodeWithAttr {
            name: wanted_name,
            attr: attr.to_owned(),
            value: wanted_value,
        },
    )
}

/// The text of a node, or an error where it has none.
pub fn get_text(node: &Node) -> (r: Result<String, ScrapeError>)
    ensures
        result_view(r) == text(node@),
{
    match &node.text {
        Some(text) => Ok(text.clone()),
        None => Err(ScrapeError::NoText { name: node.name.clone() }),
    }
}

/// The text of the first child of a name.
pub fn get_node_text(node: &Node, name: &str) -> (r: Result<String, ScrapeError>)
    ensures
        result_view(r) == child_text(node@, name@),
{
    get_text(get_node_or_err(node, name)?)
}

/// Reads an RFC 3339 date as an instant in UTC.
pub fn parse_date(date_str: &str) -> (r: Result<Timestamp, ScrapeError>)
    ensures
        result_view(r) == date(date_str@),
{
    erase_err(parse_rfc3339(date_str), ScrapeError::BadDate)
}

/// The instant that the text of the first child of a name stands for.
pub fn get_node_dt(node: &Node, name: &str) -> (r: Result<Timestamp, ScrapeError>)
    ensures
        result_view(r) == child_date(node@, name@),
{
    parse_date(get_node_text(node, name)?.as_str())
}

/// An attribute of the first child of a name.
pub fn get_node_attr(node: &Node, name: &str, attr: &str) -> (r: Result<String, ScrapeError>)
    ensures
        result_view(r) == child_attr(node@, name@, attr@),
{
    match attribute(get_node_or_err(node, name)?, attr) {
        Some(value) => Ok(value.clone()),
        None => Err(ScrapeError::MissingAttr),
    }
}

/// Whether a node is the first of a name in a sequence.
pub open spec fn is_first(nodes: Seq<NodeView>, name: Seq<char>, i: int) -> bool {
    &&& 0 <= i < nodes.len()
    &&& nodes[i].name == name
    &&& forall|j: int| 0 <= j < i ==> (#[trigger] nodes[j]).name != name
}

/// Whether an attribute of a node has a value.
pub open spec fn has_attr(node: NodeView, attr: Seq<char>, value: Seq<char>) -> bool {
    node.attributes.contains_key(attr) && node.attributes[attr] == value
}

/// Whether a node is the first of a name in a sequence whose attribute has a value.
pub open spec fn is_first_with(
    nodes: Seq<NodeView>,
    name: Seq<char>,
    attr: Seq<char>,
    value: Seq<char>,
    i: int,
) -> bool {
    &&& 0 <= i < nodes.len()
    &&& nodes[i].name == name && has_attr(nodes[i], attr, value)
    &&& forall|j: int|
        0 <= j < i ==> !((#[trigger] nodes[j]).name == name && has_attr(nodes[j], attr, value))
}

/// The child of a name is the first of that name among the children. It is missing, under that
/// name, exactly where no child has it.
pub proof fn the_child_is_the_first_of_its_name(node: NodeView, name: Seq<char>, i: int)
    ensures
        is_first(node.children, name, i) ==> child(node, name) == Ok::<NodeView, ErrorView>(
            node.children[i],
        ),
        child(node, name) is Ok <==> exists|k: int| is_first(node.children, name, k),
        child(node, name) is Err <==> forall|j: int|
            0 <= j < node.children.len() ==> (#[trigger] node.children[j]).name != name,
        child(node, name) matches Err(error) ==> error == (ErrorView::MissingNode { name }),
{
    let nodes = node.children;
    first_node_is_first(nodes, named(name));
    if let Some(found) = first_node(nodes, named(name)) {
        let k = choose|k: int|
            0 <= k < nodes.len() && #[trigger] nodes[k] == found && named(name)(found) && forall|j: int|
                0 <= j < k ==> !named(name)(#[trigger] nodes[j]);
        assert forall|j: int| 0 <= j < k implies (#[trigger] nodes[j]).name != name by {
            assert(!named(name)(nodes[j]));
        }
        assert(is_first(nodes, name, k));
        if is_first(nodes, name, i) {
            assert(!(k < i));
            assert(!(i < k));
        }
    } else {
        assert forall|j: int| 0 <= j < nodes.len() implies (#[trigger] nodes[j]).name != name by {
            assert(!named(name)(nodes[j]));
        }
    }
}

/// The child of a name whose attribute has a value is the first such among the children. It is
/// missing, under what was asked for, exactly where there is none.
pub proof fn the_child_with_an_attribute_is_the_first_such(
    node: NodeView,
    name: Seq<char>,
    attr: Seq<char>,
    value: Seq<char>,
    i: int,
)
    ensures
        is_first_with(node.children, name, attr, value, i) ==> child_with_attr(
            node,
            name,
            attr,
            value,
        ) == Ok::<NodeView, ErrorView>(node.children[i]),
        child_with_attr(node, name, attr, value) is Ok <==> exists|k: int|
            is_first_with(node.children, name, attr, value, k),
        child_with_attr(node, name, attr, value) is Err <==> forall|j: int|
            0 <= j < node.children.len() ==> !((#[trigger] node.children[j]).name == name
                && has_attr(node.children[j], attr, value)),
        child_with_attr(node, name, attr, value) matches Err(error) ==> error == (
        ErrorView::MissingNodeWithAttr { name, attr, value }),
{
    let nodes = node.children;
    let wanted = named_with_attr(name, attr, value);
    first_node_is_first(nodes, wanted);
    if let Some(found) = first_node(nodes, wanted) {
        let k = choose|k: int|
            0 <= k < nodes.len() && #[trigger] nodes[k] == found && wanted(found) && forall|j: int|
                0 <= j < k ==> !wanted(#[trigger] nodes[j]);
        assert forall|j: int| 0 <= j < k implies !((#[trigger] nodes[j]).name == name && has_attr(
            nodes[j],
            attr,
            value,
        )) by {
            assert(!wanted(nodes[j]));
        }
        assert(is_first_with(nodes, name, attr, value, k));
        if is_first_with(nodes, name, attr, value, i) {
            assert(!(k < i));
            assert(!(i < k));
        }
    } else {
        assert forall|j: int| 0 <= j < nodes.len() implies !((#[trigger] nodes[j]).name == name
            && has_attr(nodes[j], attr, value)) by {
            assert(!wanted(nodes[j]));
        }
    }
}

/// The text of a node is what it holds, to the character; a node without text fails under its name.
pub proof fn the_text_is_what_the_node_holds(node: NodeView)
    ensures
        node.text matches Some(held) ==> text(node) == Ok::<Seq<char>, ErrorView>(held),
        node.text is None ==> text(node) == Err::<Seq<char>, ErrorView>(
            ErrorView::NoText { name: node.name },
        ),
{
}

/// The text of the child of a name is that of the first child of the name, whatever the others
/// hold. It fails exactly where there is no such child or the first one has no text.
pub proof fn the_child_text_is_that_of_the_first(node: NodeView, name: Seq<char>, i: int)
    ensures
        is_first(node.children, name, i) && node.children[i].text is Some ==> child_text(node, name)
            == Ok::<Seq<char>, ErrorView>(node.children[i].text->0),
        is_first(node.children, name, i) && node.children[i].text is None ==> child_text(node, name)
            == Err::<Seq<char>, ErrorView>(ErrorView::NoText { name }),
        (forall|j: int| 0 <= j < node.children.len() ==> (#[trigger] node.children[j]).name != name)
            ==> child_text(node, name) == Err::<Seq<char>, ErrorView>(
            ErrorView::MissingNode { name },
        ),
{
    the_child_is_the_first_of_its_name(node, name, i);
}

/// A date is the instant that its text stands for, and a text that stands for none is no date.
pub proof fn a_date_is_what_its_text_stands_for(written: Seq<char>)
    ensures
        rfc3339_instant(written) matches Some(at) ==> date(written) == Ok::<Instant, ErrorView>(at),
        rfc3339_instant(written) is None ==> date(written) == Err::<Instant, ErrorView>(
            ErrorView::BadDate,
        ),
{
}

/// The date of the child of a name is what the text of the first child of the name stands for.
pub proof fn the_child_date_is_that_of_the_first(node: NodeView, name: Seq<char>, i: int)
    ensures
        is_first(node.children, name, i) && node.children[i].text is Some ==> child_date(node, name)
            == match rfc3339_instant(node.children[i].text->0) {
            Some(at) => Ok::<Instant, ErrorView>(at),
            None => Err(ErrorView::BadDate),
        },
        is_first(node.children, name, i) && node.children[i].text is None ==> child_date(node, name)
            == Err::<Instant, ErrorView>(ErrorView::NoText { name }),
        (forall|j: int| 0 <= j < node.children.len() ==> (#[trigger] node.children[j]).name != name)
            ==> child_date(node, name) == Err::<Instant, ErrorView>(
            ErrorView::MissingNode { name },
        ),
{
    the_child_is_the_first_of_its_name(node, name, i);
}

/// The attribute of the child of a name is that of the first child of the name.
pub proof fn the_child_attribute_is_that_of_the_first(
    node: NodeView,
    name: Seq<char>,
    attr: Seq<char>,
    i: int,
)
    ensures
        is_first(node.children, name, i) && node.children[i].attributes.contains_key(attr)
            ==> child_attr(node, name, attr) == Ok::<Seq<char>, ErrorView>(
            node.children[i].attributes[attr],
        ),
        is_first(node.children, name, i) && !node.children[i].attributes.contains_key(attr)
            ==> child_attr(node, name, attr) == Err::<Seq<char>, ErrorView>(ErrorView::MissingAttr),
        (forall|j: int| 0 <= j < node.children.len() ==> (#[trigger] node.children[j]).name != name)
            ==> child_attr(node, name, attr) == Err::<Seq<char>, ErrorView>(
            ErrorView::MissingNode { name },
        ),
{
    the_child_is_the_first_of_its_name(node, name, i);
}

/// Whether a sequence is made of the elements of another at the given places, in order.
pub open spec fn picks<A>(all: Seq<A>, places: Seq<int>, part: Seq<A>) -> bool {
    &&& places.len() == part.len()
    &&& forall|k: int|
        0 <= k < places.len() ==> 0 <= #[trigger] places[k] < all.len() && part[k] == all[places[k]]
    &&& forall|k: int, l: int|
        0 <= k < l < places.len() ==> #[trigger] places[k] < #[trigger] places[l]
}

pub(crate) proof fn lemma_filter_picks<A>(all: Seq<A>, wanted: spec_fn(A) -> bool) -> (places: Seq<
    int,
>)
    ensures
        picks(all, places, all.filter(wanted)),
        forall|i: int| 0 <= i < all.len() ==> (places.contains(i) <==> wanted(#[trigger] all[i])),
        forall|k: int| 0 <= k < places.len() ==> wanted(all[#[trigger] places[k]]),
    decreases all.len(),
{
    reveal(Seq::filter);
    if all.len() == 0 {
        Seq::empty()
    } else {
        let before = all.drop_last();
        let last = all.len() - 1;
        let earlier = lemma_filter_picks(before, wanted);
        let places = if wanted(all.last()) {
            earlier.push(last)
        } else {
            earlier
        };
        let part = all.filter(wanted);
        assert forall|k: int| 0 <= k < places.len() implies 0 <= #[trigger] places[k] < all.len()
            && part[k] == all[places[k]] && wanted(all[places[k]]) by {
            if k < earlier.len() {
                assert(places[k] == earlier[k]);
                assert(before[earlier[k]] == all[earlier[k]]);
            }
        }
        assert forall|i: int| 0 <= i < all.len() implies (places.contains(i) <==> wanted(
            #[trigger] all[i],
        )) by {
            if i < last {
                assert(before[i] == all[i]);
                if earlier.contains(i) {
                    let k = choose|k: int| 0 <= k < earlier.len() && earlier[k] == i;
                    assert(places[k] == i);
                }
                if places.contains(i) {
                    let k = choose|k: int| 0 <= k < places.len() && places[k] == i;
                    assert(earlier[k] == i);
                }
            } else {
                if wanted(all[i]) {
                    assert(places[places.len() - 1] == i);
                }
                if places.contains(i) {
                    let k = choose|k: int| 0 <= k < places.len() && places[k] == i;
                    assert(wanted(all[places[k]]));
                }
            }
        }
        places
    }
}

/// The entries of a feed are its children named `entry`: all of them, no others, each once, in the
/// order of the feed.
pub proof fn the_entries_are_the_children_named_entry(document: NodeView) -> (places: Seq<int>)
    ensures
        picks(document.children, places, entries(document)),
        forall|i: int|
            0 <= i < document.children.len() ==> (places.contains(i) <==> (
            #[trigger] document.children[i]).name == "entry"@),
{
    let places = lemma_filter_picks(document.children, named("entry"@));
    assert forall|i: int| 0 <= i < document.children.len() implies (places.contains(i) <==> (
    #[trigger] document.children[i]).name == "entry"@) by {
        assert(named("entry"@)(document.children[i]) <==> document.children[i].name == "entry"@);
    }
    places
}

/// Whether the first node of a name in a sequence holds a text.
pub open spec fn first_holds(nodes: Seq<NodeView>, name: Seq<char>, held: Seq<char>) -> bool {
    exists|i: int| #[trigger] is_first(nodes, name, i) && nodes[i].text == Some(held)
}

/// Whether the first node of a name in a sequence whose attribute has a value holds a text.
pub open spec fn first_with_holds(
    nodes: Seq<NodeView>,
    name: Seq<char>,
    attr: Seq<char>,
    value: Seq<char>,
    held: Seq<char>,
) -> bool {
    exists|i: int| #[trigger]
        is_first_with(nodes, name, attr, value, i) && nodes[i].text == Some(held)
}

/// Whether the first node of a name in a sequence holds a text that stands for an instant.
pub open spec fn first_dates(nodes: Seq<NodeView>, name: Seq<char>, at: Instant) -> bool {
    exists|i: int| #[trigger]
        is_first(nodes, name, i) && (nodes[i].text matches Some(held) && rfc3339_instant(held)
            == Some(at))
}

/// Whether an attribute of the first node of a name in a sequence has a value.
pub open spec fn first_bears(
    nodes: Seq<NodeView>,
    name: Seq<char>,
    attr: Seq<char>,
    value: Seq<char>,
) -> bool {
    exists|i: int| #[trigger] is_first(nodes, name, i) && has_attr(nodes[i], attr, value)
}

/// Whether an error is the one for a text that is asked of the first node of a name in a sequence:
/// there is no such node, or it has no text.
pub open spec fn lacks_text(nodes: Seq<NodeView>, name: Seq<char>, error: ErrorView) -> bool {
    ||| error == (ErrorView::MissingNode { name }) && forall|j: int|
        0 <= j < nodes.len() ==> (#[trigger] nodes[j]).name != name
    ||| error == (ErrorView::NoText { name }) && exists|i: int| #[trigger]
        is_first(nodes, name, i) && nodes[i].text is None
}

/// Whether an error is the one for a date that is asked of the first node of a name in a sequence.
pub open spec fn lacks_date(nodes: Seq<NodeView>, name: Seq<char>, error: ErrorView) -> bool {
    ||| lacks_text(nodes, name, error)
    ||| error == ErrorView::BadDate && exists|i: int| #[trigger]
        is_first(nodes, name, i) && (nodes[i].text matches Some(held) && rfc3339_instant(
            held,
        ) is None)
}

/// Whether an error is the one for an attribute that is asked of the first node of a name in a
/// sequence.
pub open spec fn lacks_attr(
    nodes: Seq<NodeView>,
    name: Seq<char>,
    attr: Seq<char>,
    error: ErrorView,
) -> bool {
    ||| error == (ErrorView::MissingNode { name }) && forall|j: int|
        0 <= j < nodes.len() ==> (#[trigger] nodes[j]).name != name
    ||| error == ErrorView::MissingAttr && exists|i: int| #[trigger]
        is_first(nodes, name, i) && !nodes[i].attributes.contains_key(attr)
}

/// What is asked of the children of a node by a name comes from the first of that name, and from
/// that one alone: its text, the instant that its text stands for, its attribute; and each failure
/// is that of this child.
pub proof fn what_is_asked_comes_from_the_first(
    node: NodeView,
    name: Seq<char>,
    attr: Seq<char>,
)
    ensures
        match child_text(node, name) {
            Ok(held) => first_holds(node.children, name, held),
            Err(error) => lacks_text(node.children, name, error),
        },
        match child_date(node, name) {
            Ok(at) => first_dates(node.children, name, at),
            Err(error) => lacks_date(node.children, name, error),
        },
        match child_attr(node, name, attr) {
            Ok(value) => first_bears(node.children, name, attr, value),
            Err(error) => lacks_attr(node.children, name, attr, error),
        },
        forall|held: Seq<char>| #[trigger]
            first_holds(node.children, name, held) ==> child_text(node, name) == Ok::<
                Seq<char>,
                ErrorView,
            >(held),
        forall|at: Instant| #[trigger]
            first_dates(node.children, name, at) ==> child_date(node, name) == Ok::<
                Instant,
                ErrorView,
            >(at),
        forall|value: Seq<char>| #[trigger]
            first_bears(node.children, name, attr, value) ==> child_attr(node, name, attr) == Ok::<
                Seq<char>,
                ErrorView,
            >(value),
{
    let nodes = node.children;
    assert forall|i: int| is_first(nodes, name, i) implies child(node, name) == Ok::<
        NodeView,
        ErrorView,
    >(nodes[i]) by {
        the_child_is_the_first_of_its_name(node, name, i);
    }
    the_child_is_the_first_of_its_name(node, name, 0);
    if child(node, name) is Ok {
        let k = choose|k: int| is_first(nodes, name, k);
        assert(is_first(nodes, name, k));
    }
}

} // verus!
