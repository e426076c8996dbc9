//! XML documents as trees, and their reading and writing.
use crate::error::{empty_to_err, erase_err, result_view, ErrorView, ScrapeError};
use crate::text::optional_text;
use vstd::prelude::*;
use vstd::utf8::*;
use xmltree::{Element, Namespace};

verus! {

/// An element of an XML document. Where a list of pairs repeats a key, its last entry counts.
#[derive(Debug, PartialEq, Eq)]
pub struct Node {
    pub prefix: Option<String>,
    pub namespace: Option<String>,
    /// The namespaces in scope, by prefix.
    pub namespaces: Option<Vec<(String, String)>>,
    /// The name without its prefix.
    pub name: String,
    pub attributes: Vec<(String, String)>,
    pub children: Vec<Node>,
    pub text: Option<String>,
}

/// A `Node` with character sequences for strings and maps for lists of pairs.
pub struct NodeView {
    pub prefix: Option<Seq<char>>,
    pub namespace: Option<Seq<char>>,
    pub namespaces: Option<Map<Seq<char>, Seq<char>>>,
    pub name: Seq<char>,
    pub attributes: Map<Seq<char>, Seq<char>>,
    pub children: Seq<NodeView>,
    pub text: Option<Seq<char>>,
}

/// The map that a list of pairs stands for: the last entry of a key counts.
pub open spec fn pairs_map(pairs: Seq<(String, String)>) -> Map<Seq<char>, Seq<char>>
    decreases pairs.len(),
{
    if pairs.len() == 0 {
        Map::empty()
    } else {
        pairs_map(pairs.drop_last()).insert(pairs.last().0@, pairs.last().1@)
    }
}

/// The map that a list of pairs stands for, where there is a list.
pub open spec fn optional_map(pairs: Option<Vec<(String, String)>>) -> Option<
    Map<Seq<char>, Seq<char>>,
> {
    match pairs {
        Some(pairs) => Some(pairs_map(pairs@)),
        None => None,
    }
}

/// Whether a list of pairs repeats no key.
pub open spec fn keys_differ(pairs: Seq<(String, String)>) -> bool {
    forall|i: int, j: int|
        0 <= i < j < pairs.len() ==> (#[trigger] pairs[i]).0@ != (#[trigger] pairs[j]).0@
}

impl View for Node {
    type V = NodeView;

    open spec fn view(&self) -> NodeView
        decreases self,
    {
        NodeView {
            prefix: optional_text(self.prefix),
            namespace: optional_text(self.namespace),
            namespaces: optional_map(self.namespaces),
            name: self.name@,
            attributes: pairs_map(self.attributes@),
            children: Seq::new(
                self.children@.len(),
                |i: int|
                    if 0 <= i < self.children@.len() {
                        self.children@[i].view()
                    } else {
                        arbitrary()
                    },
            ),
            text: optional_text(self.text),
        }
    }
}

/// The children of a node's view are the views of its children.
pub proof fn lemma_children_view(node: &Node)
    ensures
        node@.children.len() == node.children@.len(),
        forall|i: int| 0 <= i < node.children@.len() ==> #[trigger] node@.children[i] == node.children@[i]@,
{
    reveal_with_fuel(<Node as View>::view, 2);
}

#[verifier::external_type_specification]
#[verifier::external_body]
pub struct ExElement(Element);

#[verifier::external_type_specification]
#[verifier::external_body]
pub struct ExXmlParseError(xmltree::ParseError);

#[verifier::external_type_specification]
#[verifier::external_body]
pub struct ExXmlWriteError(xmltree::Error);

/// What an `xmltree::Element` holds: its fields, with its maps as maps.
pub uninterp spec fn element_view(element: Element) -> NodeView;

/// Reads the fields of an `xmltree::Element`: all of them but its children as a childless node,
/// and its children in place. The maps come out as lists of their entries, in any order.
#[verifier::external_body]
fn read_element(element: &Element) -> (r: (Node, &Vec<Element>))
    ensures
        r.0@ == (NodeView { children: Seq::empty(), ..element_view(*element) }),
        r.1@.map_values(|child: Element| element_view(child)) == element_view(*element).children,
{
    let node = Node {
        prefix: element.prefix.clone(),
        namespace: element.namespace.clone(),
        namespaces: element.namespaces.clone().map(|scope| scope.0.into_iter().collect()),
        name: element.name.clone(),
        attributes: element.attributes.clone().into_iter().collect(),
        children: Vec::new(),
        text: element.text.clone(),
    };
    (node, &element.children)
}

/// Makes an `xmltree::Element` of the strings of a node, and of the given maps and children, which
/// take the place of the node's own. The lists that stand for maps repeat no key, so that each of
/// their entries is in its map.
#[verifier::external_body]
fn make_element(
    node: &Node,
    namespaces: Option<Vec<(String, String)>>,
    attributes: Vec<(String, String)>,
    children: Vec<Element>,
) -> (r: Element)
    requires
        namespaces matches Some(pairs) ==> keys_differ(pairs@),
        keys_differ(attributes@),
    ensures
        element_view(r) == (NodeView {
            namespaces: optional_map(namespaces),
            attributes: pairs_map(attributes@),
            children: children@.map_values(|child: Element| element_view(child)),
            ..node@
        }),
{
    Element {
        prefix: node.prefix.clone(),
        namespace: node.namespace.clone(),
        namespaces: namespaces.map(|pairs| Namespace(pairs.into_iter().collect())),
        name: node.name.clone(),
        attributes: attributes.into_iter().collect(),
        children,
        text: node.text.clone(),
    }
}

/// The root element that `xmltree::Element::parse` reads in a text, if it reads one.
pub uninterp spec fn xml_document(text: Seq<char>) -> Option<NodeView>;

/// Calls `xmltree::Element::parse` on the bytes of a text. The contract says that the outcome
/// depends on the text alone and names it; what is accepted, and which tree it makes, is left to
/// that function. It calls itself for each level of nesting, so how deep a document can be rests
/// on the stack.
#[verifier::external_body]
fn parse_xml(text: &str) -> (r: Result<Element, xmltree::ParseError>)
    ensures
        match r {
            Ok(element) => xml_document(text@) == Some(element_view(element)),
            Err(_) => xml_document(text@) is None,
        },
{
    Element::parse(text.as_bytes())
}

/// The bytes that `xmltree::Element::write` can write for an element: one sequence for each order
/// in which the attributes of each element can be walked, since they stand in hash maps.
pub uninterp spec fn xml_writings(element: NodeView) -> Set<Seq<u8>>;

/// Calls `xmltree::Element::write` into memory. The contract says that it succeeds, that the bytes
/// are UTF-8, and that they are among those that the call can write for what the element holds.
/// The writer fails only where its sink does or where the ends of elements do not match their
/// starts, and it writes nothing but pieces of strings. Which of the possible bytes it writes
/// rests on the order of a hash map, so no single sequence is named. It calls itself for each level
/// of nesting, so how deep an element can be rests on the stack.
#[verifier::external_body]
fn write_xml(element: &Element) -> (r: Result<Vec<u8>, xmltree::Error>)
    ensures
        r is Ok,
        r matches Ok(bytes) ==> valid_utf8(bytes@),
        r matches Ok(bytes) ==> xml_writings(element_view(*element)).contains(bytes@),
{
    let mut bytes: Vec<u8> = Vec::new();
    match element.write(&mut bytes) {
        Ok(()) => Ok(bytes),
        Err(error) => Err(error),
    }
}

/// Calls `String::from_utf8`: the characters that the bytes encode, where they are UTF-8.
#[verifier::external_body]
fn utf8_string(bytes: Vec<u8>) -> (r: Option<String>)
    ensures
        match r {
            Some(text) => valid_utf8(bytes@) && text@ == decode_utf8(bytes@),
            None => !valid_utf8(bytes@),
        },
{
    String::from_utf8(bytes).ok()
}

/// The node that holds what an element holds.
fn to_node(element: &Element) -> (r: Node)
    ensures
        r@ == element_view(*element),
    decreases element_view(*element),
{
    let (mut node, elements) = read_element(element);
    let ghost views = element_view(*element).children;
    let mut children: Vec<Node> = Vec::new();
    let mut i: usize = 0;
    while i < elements.len()
        invariant
            i <= elements.len(),
            views == element_view(*element).children,
            views == elements@.map_values(|child: Element| element_view(child)),
            children@.len() == i,
            forall|j: int| 0 <= j < i ==> (#[trigger] children@[j])@ == views[j],
        decreases elements.len() - i,
    {
        assert(element_view(elements@[i as int]) == views[i as int]);
        children.push(to_node(&elements[i]));
        i += 1;
    }
    node.children = children;
    assert(node@.children =~= views);
    node
}

proof fn lemma_pairs_map_update(pairs: Seq<(String, String)>, j: int, pair: (String, String))
    requires
        keys_differ(pairs),
        0 <= j < pairs.len(),
        pairs[j].0@ == pair.0@,
    ensures
        pairs_map(pairs.update(j, pair)) == pairs_map(pairs).insert(pair.0@, pair.1@),
    decreases pairs.len(),
{
    let before = pairs.drop_last();
    if j == pairs.len() - 1 {
        assert(pairs.update(j, pair).drop_last() =~= before);
    } else {
        assert(keys_differ(before));
        lemma_pairs_map_update(before, j, pair);
        assert(pairs.update(j, pair).drop_last() =~= before.update(j, pair));
        assert(pairs[j].0@ != pairs[pairs.len() - 1].0@);
    }
    assert(pairs_map(pairs.update(j, pair)) =~= pairs_map(pairs).insert(pair.0@, pair.1@));
}

/// A list of pairs without repeated keys that stands for the same map.
fn without_repeats(pairs: &Vec<(String, String)>) -> (r: Vec<(String, String)>)
    ensures
        keys_differ(r@),
        pairs_map(r@) == pairs_map(pairs@),
{
    let mut r: Vec<(String, String)> = Vec::new();
    let mut i: usize = 0;
    assert(pairs@.take(0) =~= Seq::empty());
    while i < pairs.len()
        invariant
            i <= pairs.len(),
            keys_differ(r@),
            pairs_map(r@) == pairs_map(pairs@.take(i as int)),
        decreases pairs.len() - i,
    {
        assert(pairs@.take(i + 1).drop_last() =~= pairs@.take(i as int));
        let pair = (pairs[i].0.clone(), pairs[i].1.clone());
        let mut j: usize = 0;
        while j < r.len() && r[j].0 != pair.0
            invariant
                j <= r.len(),
                forall|k: int| 0 <= k < j ==> (#[trigger] r@[k]).0@ != pair.0@,
            decreases r.len() - j,
        {
            j += 1;
        }
        let ghost before = r@;
        if j < r.len() {
            proof {
                lemma_pairs_map_update(before, j as int, pair);
            }
            r.set(j, pair);
            assert(r@ =~= before.update(j as int, pair));
        } else {
            r.push(pair);
            assert(r@.drop_last() =~= before);
        }
        i += 1;
    }
    assert(pairs@.take(pairs@.len() as int) =~= pairs@);
    r
}

/// An element that holds what a node holds.
fn to_element(node: &Node) -> (r: Element)
    ensures
        element_view(r) == node@,
    decreases node,
{
    let mut children: Vec<Element> = Vec::new();
    let mut i: usize = 0;
    while i < node.children.len()
        invariant
            i <= node.children.len(),
            children@.len() == i,
            forall|j: int|
                0 <= j < i ==> element_view(#[trigger] children@[j]) == node.children@[j]@,
        decreases node.children.len() - i,
    {
        let element = to_element(&node.children[i]);
        children.push(element);
        i += 1;
    }
    proof {
        let views = children@.map_values(|child: Element| element_view(child));
        lemma_children_view(node);
        assert forall|j: int| 0 <= j < views.len() implies views[j] == node@.children[j] by {
            assert(element_view(children@[j]) == node.children@[j]@);
        }
        assert(views =~= node@.children);
    }
    let namespaces = match &node.namespaces {
        Some(pairs) => Some(without_repeats(pairs)),
        None => None,
    };
    make_element(node, namespaces, without_repeats(&node.attributes), children)
}

/// Reads an XML document. It fails exactly on a text in which no document is read.
pub fn parse_document(text: &str) -> (r: Result<Node, ScrapeError>)
    ensures
        result_view(r) == match xml_document(text@) {
            Some(root) => Ok(root),
            None => Err(ErrorView::ParseXml),
        },
{
    match erase_err(parse_xml(text), ScrapeError::ParseXml) {
        Ok(element) => Ok(to_node(&element)),
        Err(error) => Err(error),
    }
}

/// The text of an outcome of writing an element.
pub open spec fn written_text(outcome: Option<Seq<u8>>) -> Result<Seq<char>, ErrorView> {
    match outcome {
        None => Err(ErrorView::WriteXml),
        Some(bytes) => if valid_utf8(bytes) {
            Ok(decode_utf8(bytes))
        } else {
            Err(ErrorView::Utf8)
        },
    }
}

/// The text that an outcome of writing an element gives.
pub fn read_written(outcome: Option<Vec<u8>>) -> (r: Result<String, ScrapeError>)
    ensures
        result_view(r) == written_text(
            match outcome {
                Some(bytes) => Some(bytes@),
                None => None,
            },
        ),
{
    match outcome {
        None => Err(ScrapeError::WriteXml),
        Some(bytes) => empty_to_err(utf8_string(bytes), ScrapeError::Utf8),
    }
}

/// Whether a text is one that a node can be written as.
pub open spec fn writes_as(node: NodeView, text: Seq<char>) -> bool {
    xml_writings(node).contains(encode_utf8(text))
}

/// Writes a node out as the root of an XML document.
pub(crate) fn write_document(node: &Node) -> (r: Result<String, ScrapeError>)
    ensures
        r matches Ok(text) && writes_as(node@, text@),
{
    match write_xml(&to_element(node)) {
        Ok(bytes) => {
            proof {
                decode_utf8_encode_utf8(bytes@);
            }
            read_written(Some(bytes))
        },
        Err(_) => read_written(None),
    }
}

/// In the map that a list of pairs stands for, a key has the value of its last entry, and the keys
/// are those that have an entry.
pub proof fn the_last_entry_of_a_key_counts(pairs: Seq<(String, String)>, key: Seq<char>, i: int)
    ensures
        0 <= i < pairs.len() && pairs[i].0@ == key && (forall|j: int|
            i < j < pairs.len() ==> (#[trigger] pairs[j]).0@ != key) ==> pairs_map(pairs).contains_key(
            key,
        ) && pairs_map(pairs)[key] == pairs[i].1@,
        pairs_map(pairs).contains_key(key) <==> exists|j: int|
            0 <= j < pairs.len() && (#[trigger] pairs[j]).0@ == key,
    decreases pairs.len(),
{
    if pairs.len() > 0 {
        let before = pairs.drop_last();
        let last = pairs.len() - 1;
        the_last_entry_of_a_key_counts(before, key, i);
        assert forall|j: int| 0 <= j < before.len() implies #[trigger] before[j] == pairs[j] by {}
        if exists|j: int| 0 <= j < pairs.len() && (#[trigger] pairs[j]).0@ == key {
            let j = choose|j: int| 0 <= j < pairs.len() && (#[trigger] pairs[j]).0@ == key;
            if j < last {
                assert(before[j].0@ == key);
            }
        }
        if pairs_map(pairs).contains_key(key) && key != pairs.last().0@ {
            assert(pairs_map(before).contains_key(key));
            let j = choose|j: int| 0 <= j < before.len() && (#[trigger] before[j]).0@ == key;
            assert(pairs[j].0@ == key);
        }
        if key == pairs.last().0@ {
            assert(pairs[last].0@ == key);
        }
        if 0 <= i < last && (forall|j: int| i < j < pairs.len() ==> (#[trigger] pairs[j]).0@ != key) {
            assert(pairs[last].0@ != key);
            assert forall|j: int| i < j < before.len() implies (#[trigger] before[j]).0@ != key by {
                assert(before[j] == pairs[j]);
            }
        }
    }
}

/// The view of a node holds each of its fields: its strings to the character, its lists of pairs as
/// maps, and its children in order.
pub proof fn the_view_of_a_node_is_its_fields(node: Node)
    ensures
        node@.name == node.name@,
        node.text matches Some(held) ==> node@.text == Some(held@),
        node.text is None ==> node@.text is None,
        node.prefix matches Some(prefix) ==> node@.prefix == Some(prefix@),
        node.prefix is None ==> node@.prefix is None,
        node.namespace matches Some(namespace) ==> node@.namespace == Some(namespace@),
        node.namespace is None ==> node@.namespace is None,
        node.namespaces matches Some(pairs) ==> node@.namespaces == Some(pairs_map(pairs@)),
        node.namespaces is None ==> node@.namespaces is None,
        node@.attributes == pairs_map(node.attributes@),
        node@.children.len() == node.children@.len(),
        forall|i: int|
            0 <= i < node.children@.len() ==> #[trigger] node@.children[i] == node.children@[i]@,
{
    lemma_children_view(&node);
}

/// What was written is read as the text that it encodes: every text comes back from its bytes, bytes
/// that are no UTF-8 are refused, and so is what could not be written.
pub proof fn written_texts_come_back(text: Seq<char>, bytes: Seq<u8>)
    ensures
        written_text(Some(encode_utf8(text))) == Ok::<Seq<char>, ErrorView>(text),
        !valid_utf8(bytes) ==> written_text(Some(bytes)) == Err::<Seq<char>, ErrorView>(
            ErrorView::Utf8,
        ),
        written_text(Some(bytes)) matches Ok(read) ==> encode_utf8(read) == bytes,
        written_text(None) == Err::<Seq<char>, ErrorView>(ErrorView::WriteXml),
{
    encode_utf8_valid_utf8(text);
    encode_utf8_decode_utf8(text);
    if valid_utf8(bytes) {
        decode_utf8_encode_utf8(bytes);
    }
}

/// A node can be written as a text exactly where the bytes of the text can be written for it.
pub proof fn a_node_is_written_as_its_bytes(node: NodeView, text: Seq<char>)
    ensures
        writes_as(node, text) <==> xml_writings(node).contains(encode_utf8(text)),
{
}

} // verus!
