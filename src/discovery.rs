//! Finding definitions in a walked tree.
use vstd::prelude::*;
use crate::syntax::{Node, NodeKind, NodeModel, nodes_model};

verus! {

/// The names of the nodes whose kind is in `kinds`, in walk order; a node
/// without a name is passed over.
pub open spec fn names_of(ns: Seq<NodeModel>, kinds: Seq<NodeKind>) -> Seq<Seq<char>>
    decreases ns.len(),
{
    if ns.len() == 0 {
        Seq::empty()
    } else if kinds.contains(ns[0].kind) && ns[0].name is Some {
        seq![ns[0].name->0] + names_of(ns.skip(1), kinds)
    } else {
        names_of(ns.skip(1), kinds)
    }
}

/// The kinds whose names are listed: functions and async functions.
pub open spec fn function_kinds() -> Seq<NodeKind> {
    seq![NodeKind::Function, NodeKind::AsyncFunction]
}

/// The kinds that are marked: functions, async functions and classes.
pub open spec fn definition_kinds() -> Seq<NodeKind> {
    seq![NodeKind::Function, NodeKind::AsyncFunction, NodeKind::Class]
}

/// Whether `kind` is one of `kinds`.
pub fn kind_in(kind: NodeKind, kinds: &Vec<NodeKind>) -> (r: bool)
    ensures
        r == kinds@.contains(kind),
{
    let mut i: usize = 0;
    while i < kinds.len()
        invariant
            i <= kinds.len(),
            forall|j: int| 0 <= j < i ==> kinds@[j] != kind,
        decreases kinds.len() - i,
    {
        if kinds[i] == kind {
            return true;
        }
        i = i + 1;
    }
    false
}

proof fn lemma_names_step(ns: Seq<NodeModel>, kinds: Seq<NodeKind>, i: int)
    requires
        0 <= i < ns.len(),
    ensures
        names_of(ns.take(i + 1), kinds) == names_of(ns.take(i), kinds) + (if kinds.contains(
            ns[i].kind,
        ) && ns[i].name is Some {
            seq![ns[i].name->0]
        } else {
            Seq::empty()
        }),
    decreases i,
{
    if i == 0 {
        let t = ns.take(1);
        assert(t.skip(1) =~= Seq::<NodeModel>::empty());
        assert(ns.take(0) =~= Seq::<NodeModel>::empty());
        assert(names_of(Seq::<NodeModel>::empty(), kinds) == Seq::<Seq<char>>::empty());
        assert(seq![ns[0].name->0] + Seq::<Seq<char>>::empty() =~= seq![ns[0].name->0]);
        assert(Seq::<Seq<char>>::empty() + Seq::<Seq<char>>::empty() =~= Seq::<
            Seq<char>,
        >::empty());
        assert(Seq::<Seq<char>>::empty() + seq![ns[0].name->0] =~= seq![ns[0].name->0]);
    } else {
        let tail = ns.skip(1);
        lemma_names_step(tail, kinds, i - 1);
        assert(ns.take(i + 1).skip(1) =~= tail.take(i));
        assert(ns.take(i).skip(1) =~= tail.take(i - 1));
        assert(ns.take(i + 1)[0] == ns[0]);
        assert(ns.take(i)[0] == ns[0]);
        assert(tail[i - 1] == ns[i]);
        let extra = if kinds.contains(ns[i].kind) && ns[i].name is Some {
            seq![ns[i].name->0]
        } else {
            Seq::<Seq<char>>::empty()
        };
        if kinds.contains(ns[0].kind) && ns[0].name is Some {
            assert(seq![ns[0].name->0] + (names_of(tail.take(i - 1), kinds) + extra) =~= (seq![
                ns[0].name->0,
            ] + names_of(tail.take(i - 1), kinds)) + extra);
        }
    }
}

/// The names of the nodes whose kind is in `kinds`, in walk order; nodes
/// without a name are passed over.
pub fn definition_names(nodes: &Vec<Node>, kinds: &Vec<NodeKind>) -> (r: Vec<String>)
    ensures
        r@.map_values(|s: String| s@) == names_of(nodes_model(nodes@), kinds@),
{
    let ghost ns = nodes_model(nodes@);
    let mut r: Vec<String> = Vec::new();
    let mut i: usize = 0;
    while i < nodes.len()
        invariant
            i <= nodes.len(),
            ns == nodes_model(nodes@),
            r@.map_values(|s: String| s@) == names_of(ns.take(i as int), kinds@),
        decreases nodes.len() - i,
    {
        proof {
            lemma_names_step(ns, kinds@, i as int);
        }
        let ghost before = r@;
        let node = &nodes[i];
        if kind_in(node.kind, kinds) {
            match &node.name {
                Some(n) => {
                    r.push(n.clone());
                    proof {
                        assert(r@.map_values(|s: String| s@) =~= before.map_values(
                            |s: String| s@,
                        ) + seq![n@]);
                    }
                },
                None => {
                    proof {
                        assert(before.map_values(|s: String| s@) + Seq::<Seq<char>>::empty()
                            =~= before.map_values(|s: String| s@));
                    }
                },
            }
        } else {
            proof {
                assert(before.map_values(|s: String| s@) + Seq::<Seq<char>>::empty()
                    =~= before.map_values(|s: String| s@));
            }
        }
        i = i + 1;
    }
    proof {
        assert(ns.take(nodes.len() as int) =~= ns);
    }
    r
}

/// The names of the functions and async functions, in walk order.
pub fn function_names(nodes: &Vec<Node>) -> (r: Vec<String>)
    ensures
        r@.map_values(|s: String| s@) == names_of(nodes_model(nodes@), function_kinds()),
{
    let kinds = vec![NodeKind::Function, NodeKind::AsyncFunction];
    assert(kinds@ =~= function_kinds());
    definition_names(nodes, &kinds)
}

} // verus!
