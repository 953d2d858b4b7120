//! Embedding markers into the definitions of a walked tree.
use vstd::prelude::*;
use crate::syntax::{Node, NodeKind, NodeModel, nodes_model};
use crate::marker::{filter_markers, kept, lemma_marking_idempotent, marker_text, rewritten, with_marker};
use crate::digest::{digest_of, digest_text};

verus! {

/// Canonicalisation failed for the definition at `index` of the walk.
#[derive(Debug, PartialEq, Eq, Structural, Clone, Copy)]
pub struct TransformError {
    pub index: usize,
}

/// Whether nodes of this kind are marked.
pub open spec fn is_definition_kind(k: NodeKind) -> bool {
    k == NodeKind::Function || k == NodeKind::AsyncFunction || k == NodeKind::Class
}

/// Whether a node is marked: a definition that carries a decorator list.
pub open spec fn needs_marker(n: NodeModel) -> bool {
    is_definition_kind(n.kind) && n.decorators is Some
}

/// The node with its decorator list rewritten for `digest`.
pub open spec fn marked(n: NodeModel, base: Seq<char>, prefix: Seq<char>, digest: Seq<char>) -> NodeModel {
    NodeModel { decorators: Some(rewritten(n.decorators->0, base, prefix, digest)), ..n }
}

/// The node with every stale marker left out of its decorator list.
pub open spec fn stripped(n: NodeModel, prefix: Seq<char>) -> NodeModel {
    match n.decorators {
        Some(ds) => NodeModel { decorators: Some(kept(ds, prefix)), ..n },
        None => n,
    }
}

/// The canonical text handed over for position `i`, if any.
pub open spec fn text_at(texts: Seq<Option<String>>, i: int) -> Option<Seq<char>> {
    if 0 <= i < texts.len() && texts[i] is Some {
        Some(texts[i]->0@)
    } else {
        None
    }
}

/// Whether canonicalisation failed for the node at `i`.
pub open spec fn fails_at(ns: Seq<NodeModel>, texts: Seq<Option<String>>, i: int) -> bool {
    needs_marker(ns[i]) && text_at(texts, i) is None
}

/// What embedding makes of the node at `i`.
pub open spec fn embedded_at(
    ns: Seq<NodeModel>,
    base: Seq<char>,
    prefix: Seq<char>,
    texts: Seq<Option<String>>,
    i: int,
) -> NodeModel {
    if needs_marker(ns[i]) {
        marked(ns[i], base, prefix, digest_of(text_at(texts, i)->0))
    } else {
        ns[i]
    }
}

/// Rewrites the decorator list of a definition for `digest`: the fresh
/// marker `<base>_<digest>` first, then every decorator but the stale
/// markers. Name, kind and everything else stay as they are.
pub fn mark_node(node: &mut Node, base: &str, prefix: &str, digest: &str)
    requires
        needs_marker(old(node)@),
    ensures
        final(node)@ == marked(old(node)@, base@, prefix@, digest@),
{
    let new_list = match &node.decorators {
        Some(ds) => with_marker(ds, base, prefix, digest),
        None => Vec::new(),
    };
    node.decorators = Some(new_list);
}

/// Marks a definition from its canonical text: the digest of the text
/// goes into the marker.
pub fn mark_node_from_text(node: &mut Node, base: &str, prefix: &str, canonical: &str)
    requires
        needs_marker(old(node)@),
    ensures
        final(node)@ == marked(old(node)@, base@, prefix@, digest_of(canonical@)),
{
    let digest = digest_text(canonical);
    mark_node(node, base, prefix, digest.as_str());
}

/// Leaves every stale marker out of every decorator list of a walked tree.
/// Applied to the nodes of a detached copy of a definition, this gives the
/// copy whose printed text is the definition's canonical text.
pub fn strip_markers(nodes: &mut Vec<Node>, prefix: &str)
    ensures
        final(nodes)@.len() == old(nodes)@.len(),
        forall|i: int|
            0 <= i < old(nodes)@.len() ==> #[trigger] final(nodes)@[i]@ == stripped(
                old(nodes)@[i]@,
                prefix@,
            ),
{
    let ghost start = old(nodes)@;
    let mut i: usize = 0;
    while i < nodes.len()
        invariant
            i <= nodes.len(),
            nodes@.len() == start.len(),
            forall|j: int| 0 <= j < i ==> #[trigger] nodes@[j]@ == stripped(start[j]@, prefix@),
            forall|j: int| i <= j < nodes@.len() ==> #[trigger] nodes@[j] == start[j],
        decreases nodes.len() - i,
    {
        let filtered = match &nodes[i].decorators {
            Some(ds) => Some(filter_markers(ds, prefix)),
            None => None,
        };
        if filtered.is_some() {
            nodes[i].decorators = filtered;
        }
        i = i + 1;
    }
}

/// Marks every definition of a walked tree. `canonical[i]` is the canonical
/// text of the node at position `i`, or `None` where it could not be made.
/// If some definition that carries a decorator list has no canonical text,
/// the run fails at the first such position and no node is changed.
/// Otherwise each such definition gets the marker for the digest of its
/// canonical text, and every other node stays as it was.
pub fn embed_markers(
    nodes: &mut Vec<Node>,
    base: &str,
    prefix: &str,
    canonical: &Vec<Option<String>>,
) -> (r: Result<(), TransformError>)
    ensures
        final(nodes)@.len() == old(nodes)@.len(),
        r is Err <==> exists|i: int|
            0 <= i < old(nodes)@.len() && fails_at(nodes_model(old(nodes)@), canonical@, i),
        r matches Err(e) ==> {
            &&& e.index < old(nodes)@.len()
            &&& fails_at(nodes_model(old(nodes)@), canonical@, e.index as int)
            &&& forall|j: int|
                0 <= j < e.index ==> !fails_at(nodes_model(old(nodes)@), canonical@, j)
            &&& final(nodes)@ == old(nodes)@
        },
        r is Ok ==> forall|i: int|
            0 <= i < old(nodes)@.len() ==> #[trigger] final(nodes)@[i]@ == embedded_at(
                nodes_model(old(nodes)@),
                base@,
                prefix@,
                canonical@,
                i,
            ),
{
    let ghost start = nodes@;
    let ghost ns = nodes_model(start);
    let mut i: usize = 0;
    while i < nodes.len()
        invariant
            i <= nodes.len(),
            nodes@ == start,
            ns == nodes_model(start),
            forall|j: int| 0 <= j < i ==> !fails_at(ns, canonical@, j),
        decreases nodes.len() - i,
    {
        let node = &nodes[i];
        let is_def = node.kind == NodeKind::Function || node.kind == NodeKind::AsyncFunction
            || node.kind == NodeKind::Class;
        if is_def && node.decorators.is_some() {
            if i >= canonical.len() || canonical[i].is_none() {
                assert(ns[i as int] == nodes@[i as int]@);
                assert(fails_at(ns, canonical@, i as int));
                return Err(TransformError { index: i });
            }
        }
        i = i + 1;
    }
    let mut i: usize = 0;
    while i < nodes.len()
        invariant
            i <= nodes.len(),
            nodes@.len() == start.len(),
            ns == nodes_model(start),
            forall|j: int| 0 <= j < start.len() ==> !fails_at(ns, canonical@, j),
            forall|j: int|
                0 <= j < i ==> #[trigger] nodes@[j]@ == embedded_at(
                    ns,
                    base@,
                    prefix@,
                    canonical@,
                    j,
                ),
            forall|j: int| i <= j < nodes@.len() ==> #[trigger] nodes@[j] == start[j],
        decreases nodes.len() - i,
    {
        let is_def = nodes[i].kind == NodeKind::Function || nodes[i].kind == NodeKind::AsyncFunction
            || nodes[i].kind == NodeKind::Class;
        if is_def && nodes[i].decorators.is_some() {
            assert(!fails_at(ns, canonical@, i as int));
            match &canonical[i] {
                Some(text) => {
                    mark_node_from_text(&mut nodes[i], base, prefix, text.as_str());
                },
                None => {},
            }
        }
        i = i + 1;
    }
    Ok(())
}

/// A prefix of `<base>_` is a prefix of every marker built on `base`.
proof fn lemma_prefix_of_marker(base: Seq<char>, prefix: Seq<char>, digest: Seq<char>)
    requires
        prefix.is_prefix_of(base + seq!['_']),
    ensures
        prefix.is_prefix_of(marker_text(base, digest)),
{
    let m = marker_text(base, digest);
    assert(m.subrange(0, prefix.len() as int) =~= (base + seq!['_']).subrange(0, prefix.len() as int));
}

/// Marking a definition again with the same digest changes nothing, and the
/// marked definition has the same stripped form, and so the same canonical
/// text and digest, as before marking.
pub proof fn lemma_marked_node_stable(
    n: NodeModel,
    base: Seq<char>,
    prefix: Seq<char>,
    digest: Seq<char>,
)
    requires
        needs_marker(n),
        prefix.is_prefix_of(base + seq!['_']),
    ensures
        needs_marker(marked(n, base, prefix, digest)),
        stripped(marked(n, base, prefix, digest), prefix) == stripped(n, prefix),
        marked(marked(n, base, prefix, digest), base, prefix, digest) == marked(
            n,
            base,
            prefix,
            digest,
        ),
{
    lemma_prefix_of_marker(base, prefix, digest);
    lemma_marking_idempotent(n.decorators->0, base, prefix, digest);
}

/// Embedding twice with the same canonical texts gives what embedding once
/// gave, and every node keeps its stripped form, so the canonical texts
/// handed to the second run are those of the first.
pub proof fn lemma_embedding_idempotent(
    ns: Seq<NodeModel>,
    base: Seq<char>,
    prefix: Seq<char>,
    texts: Seq<Option<String>>,
)
    requires
        prefix.is_prefix_of(base + seq!['_']),
        forall|i: int| 0 <= i < ns.len() ==> !fails_at(ns, texts, i),
    ensures
        ({
            let once = Seq::new(ns.len(), |i: int| embedded_at(ns, base, prefix, texts, i));
            &&& forall|i: int| 0 <= i < ns.len() ==> !fails_at(once, texts, i)
            &&& forall|i: int|
                0 <= i < ns.len() ==> #[trigger] embedded_at(once, base, prefix, texts, i)
                    == once[i]
            &&& forall|i: int|
                0 <= i < ns.len() ==> stripped(#[trigger] once[i], prefix) == stripped(
                    ns[i],
                    prefix,
                )
        }),
{
    let once = Seq::new(ns.len(), |i: int| embedded_at(ns, base, prefix, texts, i));
    assert forall|i: int| 0 <= i < ns.len() implies {
        &&& !fails_at(once, texts, i)
        &&& embedded_at(once, base, prefix, texts, i) == once[i]
        &&& stripped(once[i], prefix) == stripped(ns[i], prefix)
    } by {
        assert(once[i] == embedded_at(ns, base, prefix, texts, i));
        assert(!fails_at(ns, texts, i));
        if needs_marker(ns[i]) {
            lemma_marked_node_stable(ns[i], base, prefix, digest_of(text_at(texts, i)->0));
            assert(!fails_at(once, texts, i));
            assert(embedded_at(once, base, prefix, texts, i) == once[i]);
            assert(stripped(once[i], prefix) == stripped(ns[i], prefix));
        }
    }
}

} // verus!
