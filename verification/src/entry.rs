//! The entries of a feed.
use crate::error::ScrapeError;
use crate::nodes::{entries, named, the_entries_are_the_children_named_entry};
use crate::xml::{
    lemma_children_view, write_document, writes_as, xml_writings, Node, NodeView,
};
use vstd::prelude::*;
use vstd::utf8::*;

verus! {

/// An entry of a feed: its node, and the text that the node was written as. A node becomes an entry
/// once, so whatever is built from it keeps one and the same text.
#[derive(Debug)]
pub struct Entry {
    node: Node,
    xml_raw: String,
}

/// An `Entry` with its node and its text taken by their views.
pub struct EntryView {
    pub node: NodeView,
    pub xml_raw: Seq<char>,
}

impl View for Entry {
    type V = EntryView;

    closed spec fn view(&self) -> EntryView {
        EntryView { node: self.node@, xml_raw: self.xml_raw@ }
    }
}

impl EntryView {
    /// Whether the text is one that the node can be written as.
    pub open spec fn is_written(self) -> bool {
        writes_as(self.node, self.xml_raw)
    }
}

impl Entry {
    #[verifier::type_invariant]
    spec fn well_formed(self) -> bool {
        self@.is_written()
    }

    /// Writes a node out and keeps it with its text.
    pub fn new(node: Node) -> (r: Result<Entry, ScrapeError>)
        ensures
            r matches Ok(entry) && entry@.node == node@ && entry@.is_written(),
    {
        let xml_raw = write_document(&node)?;
        Ok(Entry { node, xml_raw })
    }

    pub fn node(&self) -> (r: &Node)
        ensures
            r@ == self@.node,
    {
        &self.node
    }

    /// The text that the node was written as.
    pub fn xml_raw(&self) -> (r: &String)
        ensures
            r@ == self@.xml_raw,
            self@.is_written(),
    {
        proof {
            use_type_invariant(self);
        }
        &self.xml_raw
    }
}

/// The views of a list of entries.
pub open spec fn entries_view(list: Seq<Entry>) -> Seq<EntryView> {
    list.map_values(|entry: Entry| entry@)
}

/// The nodes of a list of entries.
pub open spec fn entry_nodes(list: Seq<EntryView>) -> Seq<NodeView> {
    list.map_values(|entry: EntryView| entry.node)
}

/// Whether a list is that of a document's entries, in order, each with a text that it can be
/// written as.
pub open spec fn lists_entries(document: NodeView, list: Seq<EntryView>) -> bool {
    &&& entry_nodes(list) == entries(document)
    &&& forall|i: int| 0 <= i < list.len() ==> (#[trigger] list[i]).is_written()
}

/// Takes the entries out of a document, in order.
pub fn take_entries(document: Node) -> (r: Result<Vec<Entry>, ScrapeError>)
    ensures
        r matches Ok(list) && lists_entries(document@, entries_view(list@)),
{
    let wanted = "entry".to_owned();
    let ghost views = document@.children;
    proof {
        lemma_children_view(&document);
        reveal(Seq::filter);
        assert(views.take(0) =~= Seq::empty());
    }
    let ghost children = document.children@;
    let mut list: Vec<Entry> = Vec::new();
    for child in it: document.children.into_iter()
        invariant
            it.seq() == children,
            views.len() == children.len(),
            forall|j: int| 0 <= j < views.len() ==> #[trigger] views[j] == children[j]@,
            wanted@ == "entry"@,
            list@.len() == views.take(it.index()).filter(named("entry"@)).len(),
            forall|j: int|
                0 <= j < list@.len() ==> (#[trigger] list@[j])@.node == views.take(it.index()).filter(
                    named("entry"@),
                )[j] && list@[j]@.is_written(),
    {
        proof {
            reveal(Seq::filter);
            assert(views.take(it.index() + 1).drop_last() =~= views.take(it.index()));
        }
        if child.name == wanted {
            list.push(Entry::new(child)?);
        }
    }
    proof {
        assert(views.take(views.len() as int) =~= views);
        assert(entry_nodes(entries_view(list@)) =~= views.filter(named("entry"@)));
    }
    Ok(list)
}

/// The entries that are taken out of a document are its children named `entry`: all of them, no
/// others, each once and in order, each with a text whose bytes can be written for it.
pub proof fn the_entries_taken_are_those_of_the_document(
    document: NodeView,
    list: Seq<EntryView>,
) -> (places: Seq<int>)
    requires
        lists_entries(document, list),
    ensures
        places.len() == list.len(),
        forall|k: int|
            0 <= k < places.len() ==> 0 <= #[trigger] places[k] < document.children.len()
                && list[k].node == document.children[places[k]] && xml_writings(
                list[k].node,
            ).contains(encode_utf8(list[k].xml_raw)),
        forall|k: int, l: int|
            0 <= k < l < places.len() ==> #[trigger] places[k] < #[trigger] places[l],
        forall|i: int|
            0 <= i < document.children.len() ==> (places.contains(i) <==> (
            #[trigger] document.children[i]).name == "entry"@),
{
    let places = the_entries_are_the_children_named_entry(document);
    assert forall|k: int| 0 <= k < places.len() implies 0 <= #[trigger] places[k]
        < document.children.len() && list[k].node == document.children[places[k]] && xml_writings(
        list[k].node,
    ).contains(encode_utf8(list[k].xml_raw)) by {
        assert(entry_nodes(list)[k] == list[k].node);
        assert(list[k].is_written());
    }
    places
}

/// The views of entries, and their nodes, are those of the entries, in order.
pub proof fn the_views_of_entries_are_theirs(list: Seq<Entry>)
    ensures
        entries_view(list).len() == list.len(),
        entry_nodes(entries_view(list)).len() == list.len(),
        forall|i: int| 0 <= i < list.len() ==> #[trigger] entries_view(list)[i] == list[i]@,
        forall|i: int|
            0 <= i < list.len() ==> #[trigger] entry_nodes(entries_view(list))[i] == list[i]@.node,
{
}

} // verus!
