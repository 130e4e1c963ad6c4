//! Laws of the flattening: every leaf's levels and path are determined by
//! the chain of enclosing nodes between its top-level field and itself, and
//! the leaf list has exactly one entry per primitive node.

use vstd::prelude::*;

use crate::descriptor::{forest_leaves, node_leaves, schema_leaves};
use crate::types::{def_step, rep_step, Repetition, TypeView};

verus! {

broadcast use vstd::seq::group_seq_axioms;

/// For each leaf of the tree, in depth-first order, the (name, repetition)
/// pairs of the nodes from the tree's root down to the leaf, both included.
pub open spec fn leaf_chains(t: TypeView) -> Seq<Seq<(Seq<char>, Repetition)>>
    decreases t,
{
    match t {
        TypeView::Primitive(p) => seq![seq![(p.field_info.name, p.field_info.repetition)]],
        TypeView::Group { field_info, fields, .. } => forest_chains(fields).map_values(
            |c: Seq<(Seq<char>, Repetition)>|
                seq![(field_info.name, field_info.repetition)] + c,
        ),
    }
}

/// The chains of all leaves of a forest, in order.
pub open spec fn forest_chains(ts: Seq<TypeView>) -> Seq<Seq<(Seq<char>, Repetition)>>
    decreases ts,
{
    if ts.len() == 0 {
        Seq::empty()
    } else {
        forest_chains(ts.drop_last()) + leaf_chains(ts.last())
    }
}

/// How many nodes of a chain are Optional or Repeated: the definition level
/// their leaf ends up with.
pub open spec fn chain_def(c: Seq<(Seq<char>, Repetition)>) -> int
    decreases c.len(),
{
    if c.len() == 0 {
        0
    } else {
        def_step(c[0].1) + chain_def(c.drop_first())
    }
}

/// How many nodes of a chain are Repeated: the repetition level their leaf
/// ends up with.
pub open spec fn chain_rep(c: Seq<(Seq<char>, Repetition)>) -> int
    decreases c.len(),
{
    if c.len() == 0 {
        0
    } else {
        rep_step(c[0].1) + chain_rep(c.drop_first())
    }
}

/// The names along a chain: the path their leaf ends up with.
pub open spec fn chain_names(c: Seq<(Seq<char>, Repetition)>) -> Seq<Seq<char>> {
    c.map_values(|p: (Seq<char>, Repetition)| p.0)
}

/// How many primitive nodes a tree holds.
pub open spec fn prim_count(t: TypeView) -> nat
    decreases t,
{
    match t {
        TypeView::Primitive(_) => 1,
        TypeView::Group { fields, .. } => forest_prim_count(fields),
    }
}

/// How many primitive nodes a forest holds.
pub open spec fn forest_prim_count(ts: Seq<TypeView>) -> nat
    decreases ts,
{
    if ts.len() == 0 {
        0
    } else {
        forest_prim_count(ts.drop_last()) + prim_count(ts.last())
    }
}

/// Extending a chain at the front adds that node's contribution to the
/// counts and its name to the names.
proof fn lemma_chain_cons(x: (Seq<char>, Repetition), c: Seq<(Seq<char>, Repetition)>)
    ensures
        chain_def(seq![x] + c) == def_step(x.1) + chain_def(c),
        chain_rep(seq![x] + c) == rep_step(x.1) + chain_rep(c),
        chain_names(seq![x] + c) == seq![x.0] + chain_names(c),
{
    assert((seq![x] + c)[0] == x);
    assert((seq![x] + c).drop_first() =~= c);
    assert(chain_names(seq![x] + c) =~= seq![x.0] + chain_names(c));
}

/// Each leaf a node emits carries levels that are the levels carried into
/// the node plus its chain's counts, a path that is the path carried into
/// the node extended by its chain's names, and the structural context
/// carried into the node.
proof fn lemma_node_leaves_chains(
    t: TypeView,
    rep: int,
    def: int,
    path: Seq<Seq<char>>,
    base: TypeView,
)
    ensures
        node_leaves(t, rep, def, path, base).len() == leaf_chains(t).len(),
        leaf_chains(t).len() == prim_count(t),
        forall|j: int|
            0 <= j < node_leaves(t, rep, def, path, base).len() ==> {
                let l = node_leaves(t, rep, def, path, base)[j];
                let c = #[trigger] leaf_chains(t)[j];
                l.descriptor.max_def_level == def + chain_def(c) && l.descriptor.max_rep_level
                    == rep + chain_rep(c) && l.path_in_schema == path + chain_names(c)
                    && l.base_type == base
            },
    decreases t,
{
    match t {
        TypeView::Primitive(p) => {
            let x = (p.field_info.name, p.field_info.repetition);
            assert(seq![x].drop_first() =~= Seq::<(Seq<char>, Repetition)>::empty());
            assert(chain_def(Seq::<(Seq<char>, Repetition)>::empty()) == 0);
            assert(chain_rep(Seq::<(Seq<char>, Repetition)>::empty()) == 0);
            assert(chain_def(seq![x]) == def_step(x.1));
            assert(chain_rep(seq![x]) == rep_step(x.1));
            assert(chain_names(seq![x]) =~= seq![x.0]);
            assert(path + chain_names(seq![x]) =~= path.push(p.field_info.name));
            assert(leaf_chains(t)[0] == seq![x]);
        },
        TypeView::Group { field_info, fields, .. } => {
            let x = (field_info.name, field_info.repetition);
            let r2 = rep + rep_step(field_info.repetition);
            let d2 = def + def_step(field_info.repetition);
            let p2 = path.push(field_info.name);
            lemma_forest_leaves_chains(fields, r2, d2, p2, base);
            let fl = forest_leaves(fields, r2, d2, p2, base);
            let fc = forest_chains(fields);
            assert forall|j: int| 0 <= j < fl.len() implies {
                let l = fl[j];
                let c = #[trigger] leaf_chains(t)[j];
                l.descriptor.max_def_level == def + chain_def(c) && l.descriptor.max_rep_level
                    == rep + chain_rep(c) && l.path_in_schema == path + chain_names(c)
                    && l.base_type == base
            } by {
                let c0 = fc[j];
                assert(leaf_chains(t)[j] == seq![x] + c0);
                lemma_chain_cons(x, c0);
                assert(fl[j].path_in_schema == p2 + chain_names(c0));
                assert(p2 + chain_names(c0) =~= path + (seq![x.0] + chain_names(c0)));
            }
        },
    }
}

/// The forest version of [`lemma_node_leaves_chains`].
proof fn lemma_forest_leaves_chains(
    ts: Seq<TypeView>,
    rep: int,
    def: int,
    path: Seq<Seq<char>>,
    base: TypeView,
)
    ensures
        forest_leaves(ts, rep, def, path, base).len() == forest_chains(ts).len(),
        forest_chains(ts).len() == forest_prim_count(ts),
        forall|j: int|
            0 <= j < forest_leaves(ts, rep, def, path, base).len() ==> {
                let l = forest_leaves(ts, rep, def, path, base)[j];
                let c = #[trigger] forest_chains(ts)[j];
                l.descriptor.max_def_level == def + chain_def(c) && l.descriptor.max_rep_level
                    == rep + chain_rep(c) && l.path_in_schema == path + chain_names(c)
                    && l.base_type == base
            },
    decreases ts,
{
    if ts.len() > 0 {
        lemma_forest_leaves_chains(ts.drop_last(), rep, def, path, base);
        lemma_node_leaves_chains(ts.last(), rep, def, path, base);
        let fl1 = forest_leaves(ts.drop_last(), rep, def, path, base);
        let fc1 = forest_chains(ts.drop_last());
        let fl2 = node_leaves(ts.last(), rep, def, path, base);
        let fc2 = leaf_chains(ts.last());
        assert forall|j: int| 0 <= j < forest_leaves(ts, rep, def, path, base).len() implies {
            let l = forest_leaves(ts, rep, def, path, base)[j];
            let c = #[trigger] forest_chains(ts)[j];
            l.descriptor.max_def_level == def + chain_def(c) && l.descriptor.max_rep_level == rep
                + chain_rep(c) && l.path_in_schema == path + chain_names(c) && l.base_type == base
        } by {
            if j < fl1.len() {
                assert(forest_chains(ts)[j] == fc1[j]);
            } else {
                assert(forest_chains(ts)[j] == fc2[j - fl1.len()]);
            }
        }
    }
}

/// Characterization of a schema's leaves. For each leaf, its chain is the
/// sequence of (name, repetition) pairs of the nodes from its top-level
/// field down to the leaf itself; then:
/// - the leaf list has exactly one entry per primitive node of the fields,
///   whatever the nesting depth and repetition mix;
/// - a leaf's maximum definition level is the number of Optional-or-Repeated
///   nodes in its chain, the leaf itself counted, and its maximum repetition
///   level is the number of Repeated nodes in its chain, the leaf itself
///   counted;
/// - a leaf's path is the ordered sequence of names along its chain.
pub proof fn lemma_schema_leaves_characterization(fields: Seq<TypeView>)
    ensures
        schema_leaves(fields).len() == forest_prim_count(fields),
        forest_chains(fields).len() == schema_leaves(fields).len(),
        forall|j: int|
            0 <= j < schema_leaves(fields).len() ==> {
                let l = schema_leaves(fields)[j];
                let c = #[trigger] forest_chains(fields)[j];
                l.descriptor.max_def_level == chain_def(c) && l.descriptor.max_rep_level
                    == chain_rep(c) && l.path_in_schema == chain_names(c)
            },
    decreases fields,
{
    if fields.len() > 0 {
        lemma_schema_leaves_characterization(fields.drop_last());
        lemma_node_leaves_chains(fields.last(), 0, 0, Seq::empty(), fields.last());
        let fl1 = schema_leaves(fields.drop_last());
        let fc1 = forest_chains(fields.drop_last());
        let fl2 = node_leaves(fields.last(), 0, 0, Seq::empty(), fields.last());
        let fc2 = leaf_chains(fields.last());
        assert forall|j: int| 0 <= j < schema_leaves(fields).len() implies {
            let l = schema_leaves(fields)[j];
            let c = #[trigger] forest_chains(fields)[j];
            l.descriptor.max_def_level == chain_def(c) && l.descriptor.max_rep_level == chain_rep(
                c,
            ) && l.path_in_schema == chain_names(c)
        } by {
            if j < fl1.len() {
                assert(forest_chains(fields)[j] == fc1[j]);
            } else {
                assert(forest_chains(fields)[j] == fc2[j - fl1.len()]);
                assert(fl2[j - fl1.len()].path_in_schema == Seq::<Seq<char>>::empty()
                    + chain_names(fc2[j - fl1.len()]));
                assert(Seq::<Seq<char>>::empty() + chain_names(fc2[j - fl1.len()]) =~= chain_names(
                    fc2[j - fl1.len()],
                ));
            }
        }
    }
}

} // verus!

