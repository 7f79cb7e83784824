//! The notes and their links as a graph, drawn in the DOT language.

use petgraph::graph::{Graph, NodeIndex};
use petgraph::Directed;
use vstd::prelude::*;
use crate::note::NoteView;
use crate::storage::Garden;
use crate::text::same_text;

verus! {

/// petgraph's `Directed`, the mark of a graph whose edges have a direction.
#[verifier::external_type_specification]
#[verifier::external_body]
pub struct ExDirected(Directed);

/// petgraph's `Graph`, taken as it is: of a graph the contracts know only its
/// nodes and edges, by `graph_nodes` and `graph_edges`.
#[verifier::external_type_specification]
#[verifier::external_body]
#[verifier::reject_recursive_types(N)]
#[verifier::reject_recursive_types(E)]
#[verifier::reject_recursive_types(Ty)]
#[verifier::reject_recursive_types(Ix)]
pub struct ExGraph<N, E, Ty, Ix>(Graph<N, E, Ty, Ix>);

/// The most nodes, and the most edges, that a graph holds: what 32 bits count.
pub const INDEX_LIMIT: usize = 0xffff_ffff;

/// The labels of the nodes of a graph, in the order of their indices.
pub uninterp spec fn graph_nodes(graph: Graph<String, (), Directed, u32>) -> Seq<Seq<char>>;

/// The edges of a graph in the order of their indices, each as the indices of
/// the node it leaves and of the node it enters.
pub uninterp spec fn graph_edges(graph: Graph<String, (), Directed, u32>) -> Seq<(int, int)>;

/// The text that petgraph's `Dot`, made `with_config` for no edge labels,
/// writes by `Debug` for a directed graph of these nodes and edges.
pub uninterp spec fn dot_text(nodes: Seq<Seq<char>>, edges: Seq<(int, int)>) -> Seq<char>;

/// A graph without nodes and edges, by `Graph::new`.
///
/// Trusted: the new graph holds nothing.
#[verifier::external_body]
fn graph_new() -> (graph: Graph<String, (), Directed, u32>)
    ensures
        graph_nodes(graph) == Seq::<Seq<char>>::empty(),
        graph_edges(graph) == Seq::<(int, int)>::empty(),
{
    Graph::new()
}

/// Adds a node labelled `label`, by `Graph::add_node`, and returns its index.
///
/// Trusted: the node comes after the nodes that were there and gets the next
/// index; the edges stay. `add_node` panics in a graph that holds as many
/// nodes as its index type can tell apart, so that graph is ruled out.
#[verifier::external_body]
fn graph_add_node(graph: &mut Graph<String, (), Directed, u32>, label: String) -> (index: usize)
    requires
        graph_nodes(*old(graph)).len() < u32::MAX,
    ensures
        graph_nodes(*final(graph)) == graph_nodes(*old(graph)).push(label@),
        graph_edges(*final(graph)) == graph_edges(*old(graph)),
        index == graph_nodes(*old(graph)).len(),
{
    graph.add_node(label).index()
}

/// Adds an edge from the node of index `from` to the node of index `to`, by
/// `Graph::add_edge`.
///
/// Trusted: the edge comes after the edges that were there; the nodes stay.
/// `add_edge` panics where one of the nodes is missing, and in a graph that
/// holds as many edges as its index type can tell apart; both are ruled out.
#[verifier::external_body]
fn graph_add_edge(graph: &mut Graph<String, (), Directed, u32>, from: usize, to: usize)
    requires
        from < graph_nodes(*old(graph)).len(),
        to < graph_nodes(*old(graph)).len(),
        graph_edges(*old(graph)).len() < u32::MAX,
    ensures
        graph_nodes(*final(graph)) == graph_nodes(*old(graph)),
        graph_edges(*final(graph)) == graph_edges(*old(graph)).push((from as int, to as int)),
{
    graph.add_edge(NodeIndex::new(from), NodeIndex::new(to), ());
}

/// The graph in the DOT language, as petgraph's `Dot` writes it by `Debug`
/// when it is made `with_config` for no edge labels.
///
/// Trusted: the text is a function of the nodes and edges of the graph.
#[verifier::external_body]
fn graph_dot(graph: &Graph<String, (), Directed, u32>) -> (dot: String)
    ensures
        dot@ == dot_text(graph_nodes(*graph), graph_edges(*graph)),
{
    format!("{:?}", petgraph::dot::Dot::with_config(graph, &[petgraph::dot::Config::EdgeNoLabel]))
}

/// The titles of `notes`, in order.
pub open spec fn titles_of(notes: Seq<NoteView>) -> Seq<Seq<char>> {
    notes.map_values(|note: NoteView| note.title)
}

/// The place of the last of `notes` that is titled `title`, if there is one:
/// the node that stands for that title.
pub open spec fn node_of(notes: Seq<NoteView>, title: Seq<char>) -> Option<int>
    decreases notes.len(),
{
    if notes.len() == 0 {
        None
    } else if notes.last().title == title {
        Some(notes.len() - 1)
    } else {
        node_of(notes.drop_last(), title)
    }
}

/// The edges for the first `count` links of the note at place `k`: one for
/// each link whose title a note has, from the node of the note's own title to
/// the node of the link's.
pub open spec fn edges_of_note(notes: Seq<NoteView>, k: int, count: int) -> Seq<(int, int)>
    decreases count,
{
    if count <= 0 {
        Seq::empty()
    } else {
        let before = edges_of_note(notes, k, count - 1);
        match (node_of(notes, notes[k].title), node_of(notes, notes[k].links[count - 1])) {
            (Some(from), Some(to)) => before.push((from, to)),
            _ => before,
        }
    }
}

/// The edges for the links of the first `count` notes.
pub open spec fn edges_of_notes(notes: Seq<NoteView>, count: int) -> Seq<(int, int)>
    decreases count,
{
    if count <= 0 {
        Seq::empty()
    } else {
        edges_of_notes(notes, count - 1) + edges_of_note(
            notes,
            count - 1,
            notes[count - 1].links.len() as int,
        )
    }
}

/// The edges of the graph of `notes`: those of the links of each note, note
/// by note and link by link.
pub open spec fn link_edges(notes: Seq<NoteView>) -> Seq<(int, int)> {
    edges_of_notes(notes, notes.len() as int)
}

/// Whether the graph of `notes` can be held: it has no more nodes and no
/// more edges than 32 bits can count.
pub open spec fn graph_fits(notes: Seq<NoteView>) -> bool {
    notes.len() <= INDEX_LIMIT && link_edges(notes).len() <= INDEX_LIMIT
}

/// The place of the last note titled `title`, if there is one.
fn find_node(garden: &Garden, title: &str) -> (place: Option<usize>)
    ensures
        match place {
            Some(i) => node_of(garden@, title@) == Some(i as int) && i < garden.notes.len(),
            None => node_of(garden@, title@) is None,
        },
{
    let mut i: usize = garden.notes.len();
    proof {
        assert(garden@.take(i as int) =~= garden@);
    }
    while i > 0
        invariant
            i <= garden.notes.len(),
            node_of(garden@, title@) == node_of(garden@.take(i as int), title@),
        decreases i,
    {
        proof {
            assert(garden@.take(i as int).drop_last() =~= garden@.take(i - 1));
        }
        i -= 1;
        if same_text(garden.notes[i].title.as_str(), title) {
            return Some(i);
        }
    }
    None
}

/// The edges that pairs of places stand for.
pub open spec fn as_edges(pairs: Seq<(usize, usize)>) -> Seq<(int, int)> {
    pairs.map_values(|pair: (usize, usize)| (pair.0 as int, pair.1 as int))
}

/// The edges of the graph of the garden, each as the places of the note it
/// leaves and of the note it enters: for each note in turn, and for each of
/// its links in turn, an edge to the note that the link names, where there is
/// one. A title that several notes share names the last of them.
pub fn link_pairs(garden: &Garden) -> (pairs: Vec<(usize, usize)>)
    ensures
        as_edges(pairs@) == link_edges(garden@),
        forall|i: int|
            0 <= i < pairs@.len() ==> (#[trigger] pairs@[i]).0 < garden@.len() && pairs@[i].1
                < garden@.len(),
{
    let count = garden.notes.len();
    let mut pairs: Vec<(usize, usize)> = Vec::new();
    let mut k: usize = 0;
    proof {
        assert(as_edges(pairs@) =~= edges_of_notes(garden@, 0));
    }
    while k < count
        invariant
            k <= count == garden.notes.len(),
            as_edges(pairs@) == edges_of_notes(garden@, k as int),
            forall|i: int|
                0 <= i < pairs@.len() ==> (#[trigger] pairs@[i]).0 < count && pairs@[i].1 < count,
        decreases count - k,
    {
        let note = &garden.notes[k];
        let from = find_node(garden, note.title.as_str());
        let links = note.links.len();
        let mut l: usize = 0;
        proof {
            assert(as_edges(pairs@) =~= edges_of_notes(garden@, k as int) + edges_of_note(
                garden@,
                k as int,
                0,
            ));
        }
        while l < links
            invariant
                l <= links == note.links.len(),
                k < count == garden.notes.len(),
                *note == garden.notes[k as int],
                as_edges(pairs@) == edges_of_notes(garden@, k as int) + edges_of_note(
                    garden@,
                    k as int,
                    l as int,
                ),
                forall|i: int|
                    0 <= i < pairs@.len() ==> (#[trigger] pairs@[i]).0 < count && pairs@[i].1
                        < count,
                match from {
                    Some(i) => node_of(garden@, garden@[k as int].title) == Some(i as int) && i
                        < count,
                    None => node_of(garden@, garden@[k as int].title) is None,
                },
            decreases links - l,
        {
            let to = find_node(garden, note.links[l].as_str());
            proof {
                assert(garden@[k as int].links[l as int] == note.links[l as int]@);
            }
            match (from, to) {
                (Some(from), Some(to)) => {
                    proof {
                        assert(as_edges(pairs@.push((from, to))) =~= as_edges(pairs@).push(
                            (from as int, to as int),
                        ));
                    }
                    pairs.push((from, to));
                },
                _ => {},
            }
            l += 1;
        }
        k += 1;
    }
    pairs
}

/// Draws the notes of the garden and their links in the DOT language: a node
/// for each note, labelled with its title, and an edge for each link to a
/// title that a note has. Returns nothing where the graph has more nodes or
/// edges than it can hold.
pub fn visualize_notes(garden: &Garden) -> (drawn: Option<String>)
    ensures
        match drawn {
            Some(dot) => graph_fits(garden@) && dot@ == dot_text(
                titles_of(garden@),
                link_edges(garden@),
            ),
            None => !graph_fits(garden@),
        },
{
    let count = garden.notes.len();
    if count > INDEX_LIMIT {
        return None;
    }
    let pairs = link_pairs(garden);
    if pairs.len() > INDEX_LIMIT {
        return None;
    }
    let mut graph = graph_new();
    let mut k: usize = 0;
    while k < count
        invariant
            k <= count == garden.notes.len() <= INDEX_LIMIT,
            graph_nodes(graph) == titles_of(garden@.take(k as int)),
            graph_edges(graph) == Seq::<(int, int)>::empty(),
        decreases count - k,
    {
        proof {
            assert(garden@.take(k + 1) =~= garden@.take(k as int).push(garden@[k as int]));
            assert(titles_of(garden@.take(k as int).push(garden@[k as int])) =~= titles_of(
                garden@.take(k as int),
            ).push(garden@[k as int].title));
        }
        graph_add_node(&mut graph, garden.notes[k].title.clone());
        k += 1;
    }
    proof {
        assert(garden@.take(count as int) =~= garden@);
    }
    let mut e: usize = 0;
    while e < pairs.len()
        invariant
            e <= pairs@.len() <= INDEX_LIMIT,
            graph_nodes(graph) == titles_of(garden@),
            graph_edges(graph) == as_edges(pairs@.take(e as int)),
            forall|i: int|
                0 <= i < pairs@.len() ==> (#[trigger] pairs@[i]).0 < garden@.len() && pairs@[i].1
                    < garden@.len(),
        decreases pairs@.len() - e,
    {
        let (from, to) = pairs[e];
        proof {
            assert(pairs@.take(e + 1) =~= pairs@.take(e as int).push(pairs@[e as int]));
            assert(as_edges(pairs@.take(e as int).push(pairs@[e as int])) =~= as_edges(
                pairs@.take(e as int),
            ).push((from as int, to as int)));
        }
        graph_add_edge(&mut graph, from, to);
        e += 1;
    }
    proof {
        assert(pairs@.take(e as int) =~= pairs@);
    }
    Some(graph_dot(&graph))
}

} // verus!
