//! Flat boundary representation of a schema: an ordered sequence of schema
//! elements, one per tree node in depth-first pre-order. A group element
//! records how many children follow it; a primitive element records its
//! physical type. Serialization and parsing are exact inverses of each other.

use vstd::prelude::*;

use crate::descriptor::{schema_leaves, SchemaDescriptorView};
use crate::error::{ParquetError, ParquetResult};
use crate::types::{
    depth, lemma_type_views, type_view, type_views, ConvertedType, FieldInfo, FieldInfoView,
    LogicalType, ParquetType, PhysicalType, PrimitiveType, PrimitiveTypeView, Repetition, TypeView,
};

verus! {

broadcast use vstd::seq::group_seq_axioms, vstd::std_specs::vec::group_vec_axioms;

/// One element of the flat schema representation.
#[derive(Debug, PartialEq, Eq)]
pub struct SchemaElement {
    /// The physical type; present exactly for primitive nodes.
    pub type_: Option<PhysicalType>,
    /// The node's repetition; required for every node.
    pub repetition_type: Option<Repetition>,
    /// The node's name.
    pub name: String,
    /// How many children follow; group nodes only.
    pub num_children: Option<usize>,
    /// The node's converted-type annotation, if any.
    pub converted_type: Option<ConvertedType>,
    /// The node's numeric id, if any.
    pub field_id: Option<i32>,
    /// The node's logical-type annotation, if any.
    pub logical_type: Option<LogicalType>,
}

/// Mathematical model of a [`SchemaElement`].
#[verifier::ext_equal]
pub struct SchemaElementView {
    pub type_: Option<PhysicalType>,
    pub repetition_type: Option<Repetition>,
    pub name: Seq<char>,
    pub num_children: Option<int>,
    pub converted_type: Option<ConvertedType>,
    pub field_id: Option<i32>,
    pub logical_type: Option<LogicalType>,
}

impl View for SchemaElement {
    type V = SchemaElementView;

    open spec fn view(&self) -> SchemaElementView {
        SchemaElementView {
            type_: self.type_,
            repetition_type: self.repetition_type,
            name: self.name@,
            num_children: match self.num_children {
                Option::None => Option::None,
                Option::Some(n) => Option::Some(n as int),
            },
            converted_type: self.converted_type,
            field_id: self.field_id,
            logical_type: self.logical_type,
        }
    }
}

impl Clone for SchemaElement {
    /// Clones preserve the model.
    fn clone(&self) -> (r: Self)
        ensures
            r@ == self@,
    {
        SchemaElement {
            type_: self.type_,
            repetition_type: self.repetition_type,
            name: self.name.clone(),
            num_children: self.num_children,
            converted_type: self.converted_type,
            field_id: self.field_id,
            logical_type: self.logical_type,
        }
    }
}

/// The models of a sequence of schema elements.
pub open spec fn elements_view(es: Seq<SchemaElement>) -> Seq<SchemaElementView> {
    Seq::new(es.len(), |i: int| es[i]@)
}

/// The flat elements that one tree serializes to: the node's own element,
/// followed by the elements of its children in order.
pub open spec fn node_elements(t: TypeView) -> Seq<SchemaElementView>
    decreases t,
{
    match t {
        TypeView::Primitive(p) => seq![
            SchemaElementView {
                type_: Option::Some(p.physical_type),
                repetition_type: Option::Some(p.field_info.repetition),
                name: p.field_info.name,
                num_children: Option::None,
                converted_type: p.converted_type,
                field_id: p.field_info.id,
                logical_type: p.logical_type,
            },
        ],
        TypeView::Group { field_info, logical_type, converted_type, fields } => seq![
            SchemaElementView {
                type_: Option::None,
                repetition_type: Option::Some(field_info.repetition),
                name: field_info.name,
                num_children: Option::Some(fields.len() as int),
                converted_type: converted_type,
                field_id: field_info.id,
                logical_type: logical_type,
            },
        ] + forest_elements(fields),
    }
}

/// The flat elements of a forest of sibling trees, in order.
pub open spec fn forest_elements(ts: Seq<TypeView>) -> Seq<SchemaElementView>
    decreases ts,
{
    if ts.len() == 0 {
        Seq::empty()
    } else {
        forest_elements(ts.drop_last()) + node_elements(ts.last())
    }
}

/// Parses one tree out of `elems` starting at position `i`: `None` when the
/// elements there do not encode a tree, otherwise the tree and the position
/// just past it. An element with a physical type is a primitive; any other
/// element opens a group whose child count it carries.
pub open spec fn parse_node(elems: Seq<SchemaElementView>, i: int) -> Option<(TypeView, int)>
    decreases elems.len() - i, 0int,
{
    if i < 0 || i >= elems.len() {
        Option::None
    } else {
        let e = elems[i];
        match e.repetition_type {
            Option::None => Option::None,
            Option::Some(rep) => {
                let fi = FieldInfoView { name: e.name, repetition: rep, id: e.field_id };
                match e.type_ {
                    Option::Some(pt) => Option::Some(
                        (
                            TypeView::Primitive(
                                PrimitiveTypeView {
                                    field_info: fi,
                                    logical_type: e.logical_type,
                                    converted_type: e.converted_type,
                                    physical_type: pt,
                                },
                            ),
                            i + 1,
                        ),
                    ),
                    Option::None => {
                        let k = match e.num_children {
                            Option::None => 0,
                            Option::Some(n) => n,
                        };
                        if k < 0 {
                            Option::None
                        } else {
                            match parse_children(elems, i + 1, k) {
                                Option::None => Option::None,
                                Option::Some((cs, j)) => Option::Some(
                                    (
                                        TypeView::Group {
                                            field_info: fi,
                                            logical_type: e.logical_type,
                                            converted_type: e.converted_type,
                                            fields: cs,
                                        },
                                        j,
                                    ),
                                ),
                            }
                        }
                    },
                }
            },
        }
    }
}

/// Parses `k` consecutive trees out of `elems` starting at position `i`.
pub open spec fn parse_children(elems: Seq<SchemaElementView>, i: int, k: int) -> Option<
    (Seq<TypeView>, int),
>
    decreases elems.len() - i, 1 + k,
{
    if i < 0 || i > elems.len() || k < 0 {
        Option::None
    } else if k == 0 {
        Option::Some((Seq::empty(), i))
    } else {
        match parse_node(elems, i) {
            Option::None => Option::None,
            Option::Some((t, j)) => if i < j && j <= elems.len() {
                match parse_children(elems, j, k - 1) {
                    Option::None => Option::None,
                    Option::Some((cs, j2)) => Option::Some((seq![t] + cs, j2)),
                }
            } else {
                Option::None
            },
        }
    }
}

/// Every top-level field must be shallow enough for the level counters.
pub open spec fn fields_depth_ok(fields: Seq<TypeView>) -> bool {
    forall|i: int| 0 <= i < fields.len() ==> depth(#[trigger] fields[i]) <= i16::MAX
}

/// The synthetic top-level group node that wraps a schema's name and fields
/// for serialization: always Optional, with no id and no annotation.
pub open spec fn root_view(name: Seq<char>, fields: Seq<TypeView>) -> TypeView {
    TypeView::Group {
        field_info: FieldInfoView { name, repetition: Repetition::Optional, id: Option::None },
        logical_type: Option::None,
        converted_type: Option::None,
        fields,
    }
}

/// The flat elements that a whole schema descriptor serializes to.
pub open spec fn schema_elements(d: SchemaDescriptorView) -> Seq<SchemaElementView> {
    node_elements(root_view(d.name, d.fields))
}

/// What parsing a flat element sequence into a schema descriptor yields:
/// the sequence must encode exactly one tree, the tree must be a group, and
/// its fields must be shallow enough for the level counters.
pub open spec fn parse_schema(elems: Seq<SchemaElementView>) -> Option<SchemaDescriptorView> {
    match parse_node(elems, 0) {
        Option::None => Option::None,
        Option::Some((t, j)) => if j == elems.len() {
            match t {
                TypeView::Group { field_info, fields, .. } => if fields_depth_ok(fields) {
                    Option::Some(
                        SchemaDescriptorView {
                            name: field_info.name,
                            fields,
                            leaves: schema_leaves(fields),
                        },
                    )
                } else {
                    Option::None
                },
                _ => Option::None,
            }
        } else {
            Option::None
        },
    }
}

/// The message of the error raised when the top-level node of a parsed
/// schema is not a group.
pub open spec fn group_required_msg() -> Seq<char> {
    "The parquet schema MUST be a group type"@
}

/// A tree serializes to at least one element.
pub proof fn lemma_node_elements_len(t: TypeView)
    ensures
        node_elements(t).len() >= 1,
{
    match t {
        TypeView::Primitive(_) => {},
        TypeView::Group { .. } => {},
    }
}

/// The elements of a forest are the elements of its first tree followed by
/// the elements of the remaining trees.
pub proof fn lemma_forest_elements_cons(ts: Seq<TypeView>)
    requires
        ts.len() > 0,
    ensures
        forest_elements(ts) == node_elements(ts[0]) + forest_elements(ts.drop_first()),
    decreases ts.len(),
{
    let dl = ts.drop_last();
    if ts.len() == 1 {
        assert(dl =~= Seq::<TypeView>::empty());
        assert(ts.drop_first() =~= Seq::<TypeView>::empty());
        assert(ts.last() == ts[0]);
        assert(forest_elements(ts) =~= node_elements(ts[0]) + forest_elements(ts.drop_first()));
    } else {
        lemma_forest_elements_cons(dl);
        assert(dl[0] == ts[0]);
        assert(ts.drop_first().drop_last() =~= dl.drop_first());
        assert(ts.drop_first().last() == ts.last());
        assert(forest_elements(ts.drop_first()) == forest_elements(ts.drop_first().drop_last())
            + node_elements(ts.drop_first().last()));
        assert(forest_elements(ts) =~= node_elements(ts[0]) + forest_elements(ts.drop_first()));
    }
}

/// Parsing picks a serialized tree back out of any surrounding elements:
/// at the position just after `pre`, the elements of `t` parse to exactly
/// `t`, ending just before `post`.
pub proof fn lemma_parse_node_of_elements(
    t: TypeView,
    pre: Seq<SchemaElementView>,
    post: Seq<SchemaElementView>,
)
    ensures
        parse_node(pre + node_elements(t) + post, pre.len() as int) == Option::Some(
            (t, (pre.len() + node_elements(t).len()) as int),
        ),
    decreases t,
{
    let es = pre + node_elements(t) + post;
    let i = pre.len() as int;
    lemma_node_elements_len(t);
    assert(es[i] == node_elements(t)[0]);
    match t {
        TypeView::Primitive(p) => {
            assert(parse_node(es, i) == Option::Some((t, i + 1)));
        },
        TypeView::Group { fields, .. } => {
            let fe = forest_elements(fields);
            let g0 = node_elements(t)[0];
            let pre2 = pre.push(g0);
            lemma_parse_children_of_elements(fields, pre2, post);
            assert(pre2 + fe + post =~= es);
            assert(parse_children(es, i + 1, fields.len() as int) == Option::Some(
                (fields, (pre2.len() + fe.len()) as int),
            ));
            assert(parse_node(es, i) == Option::Some((t, i + node_elements(t).len())));
        },
    }
}

/// Parsing picks a serialized forest back out of any surrounding elements,
/// tree by tree.
pub proof fn lemma_parse_children_of_elements(
    ts: Seq<TypeView>,
    pre: Seq<SchemaElementView>,
    post: Seq<SchemaElementView>,
)
    ensures
        parse_children(pre + forest_elements(ts) + post, pre.len() as int, ts.len() as int)
            == Option::Some((ts, (pre.len() + forest_elements(ts).len()) as int)),
    decreases ts,
{
    let es = pre + forest_elements(ts) + post;
    let i = pre.len() as int;
    if ts.len() == 0 {
        assert(ts =~= Seq::<TypeView>::empty());
        assert(parse_children(es, i, 0) == Option::Some((Seq::<TypeView>::empty(), i)));
    } else {
        lemma_forest_elements_cons(ts);
        let ne0 = node_elements(ts[0]);
        let rest = ts.drop_first();
        lemma_node_elements_len(ts[0]);
        assert(pre + ne0 + (forest_elements(rest) + post) =~= es);
        lemma_parse_node_of_elements(ts[0], pre, forest_elements(rest) + post);
        let j1 = i + ne0.len();
        assert(parse_node(es, i) == Option::Some((ts[0], j1)));
        let pre2 = pre + ne0;
        assert(pre2 + forest_elements(rest) + post =~= es);
        lemma_parse_children_of_elements(rest, pre2, post);
        assert(parse_children(es, j1, rest.len() as int) == Option::Some(
            (rest, (pre2.len() + forest_elements(rest).len()) as int),
        ));
        assert(seq![ts[0]] + rest =~= ts);
        assert(parse_children(es, i, ts.len() as int) == Option::Some(
            (ts, (pre.len() + forest_elements(ts).len()) as int),
        ));
    }
}

/// Round trip: parsing the flat elements that a schema descriptor
/// serializes to yields the same descriptor model — the same name, the same
/// fields shape, and the same derived leaf list.
pub proof fn lemma_round_trip(d: SchemaDescriptorView)
    requires
        d.leaves == schema_leaves(d.fields),
        fields_depth_ok(d.fields),
    ensures
        parse_schema(schema_elements(d)) == Option::Some(d),
{
    let root = root_view(d.name, d.fields);
    let es = node_elements(root);
    lemma_parse_node_of_elements(root, Seq::empty(), Seq::empty());
    assert(Seq::empty() + es + Seq::empty() =~= es);
    assert(parse_node(es, 0) == Option::Some((root, es.len() as int)));
    assert(parse_schema(es) == Option::Some(
        SchemaDescriptorView { name: d.name, fields: d.fields, leaves: schema_leaves(d.fields) },
    ));
    assert(SchemaDescriptorView {
        name: d.name,
        fields: d.fields,
        leaves: schema_leaves(d.fields),
    } =~= d);
}

impl ParquetType {
    /// Serializes this tree, appending its flat elements to `out`.
    fn to_thrift_rec(&self, out: &mut Vec<SchemaElement>)
        ensures
            elements_view(final(out)@) == elements_view(old(out)@) + node_elements(self@),
        decreases self,
    {
        match self {
            ParquetType::PrimitiveType(p) => {
                out.push(
                    SchemaElement {
                        type_: Option::Some(p.physical_type),
                        repetition_type: Option::Some(p.field_info.repetition),
                        name: p.field_info.name.clone(),
                        num_children: Option::None,
                        converted_type: p.converted_type,
                        field_id: p.field_info.id,
                        logical_type: p.logical_type,
                    },
                );
                proof {
                    assert(elements_view(out@) =~= elements_view(old(out)@) + node_elements(
                        self@,
                    ));
                }
            },
            ParquetType::GroupType { field_info, logical_type, converted_type, fields } => {
                out.push(
                    SchemaElement {
                        type_: Option::None,
                        repetition_type: Option::Some(field_info.repetition),
                        name: field_info.name.clone(),
                        num_children: Option::Some(fields.len()),
                        converted_type: *converted_type,
                        field_id: field_info.id,
                        logical_type: *logical_type,
                    },
                );
                let ghost fvs = type_views(fields@);
                let ghost base_es = elements_view(out@);
                proof {
                    lemma_type_views(fields@);
                    assert(base_es =~= elements_view(old(out)@).push(out@.last()@));
                }
                let n = fields.len();
                for i in 0..n
                    invariant
                        *self is GroupType,
                        self->GroupType_fields == *fields,
                        n == fields@.len(),
                        fvs == type_views(fields@),
                        fvs.len() == n,
                        forall|j: int| 0 <= j < n ==> fvs[j] == type_view(fields@[j]),
                        elements_view(out@) == base_es + forest_elements(
                            fvs.subrange(0, i as int),
                        ),
                        base_es == elements_view(old(out)@) + node_elements(self@).subrange(0, 1),
                        node_elements(self@) == node_elements(self@).subrange(0, 1)
                            + forest_elements(fvs),
                {
                    proof {
                        assert(decreases_to!(*self => self->GroupType_fields));
                        assert(self->GroupType_fields == *fields);
                        vstd::std_specs::vec::axiom_vec_decreases_to_view(*fields);
                        vstd::seq::axiom_seq_index_decreases::<ParquetType>(fields@, i as int);
                        assert(decreases_to!(*self => fields@[i as int]));
                    }
                    fields[i].to_thrift_rec(out);
                    proof {
                        assert(fvs.subrange(0, i + 1).drop_last() =~= fvs.subrange(0, i as int));
                        assert(fvs.subrange(0, i + 1).last() == fvs[i as int]);
                        assert(elements_view(out@) =~= base_es + forest_elements(
                            fvs.subrange(0, i + 1),
                        ));
                    }
                }
                proof {
                    assert(fvs.subrange(0, n as int) =~= fvs);
                    assert(elements_view(out@) =~= elements_view(old(out)@) + node_elements(
                        self@,
                    ));
                }
            },
        }
    }

    /// Serializes this tree to its flat elements, in depth-first pre-order.
    pub fn to_thrift(&self) -> (r: Vec<SchemaElement>)
        ensures
            elements_view(r@) == node_elements(self@),
    {
        let mut out: Vec<SchemaElement> = Vec::new();
        proof {
            assert(elements_view(out@) =~= Seq::<SchemaElementView>::empty());
        }
        self.to_thrift_rec(&mut out);
        proof {
            assert(elements_view(out@) =~= node_elements(self@));
        }
        out
    }
}

/// Parses one tree out of `elems` at position `i`, exactly as [`parse_node`]
/// describes; errors carry a message naming what was malformed.
pub(crate) fn parse_node_exec(elems: &[SchemaElement], i: usize) -> (r: ParquetResult<
    (ParquetType, usize),
>)
    ensures
        match r {
            Ok(p) => parse_node(elements_view(elems@), i as int) == Option::Some(
                (p.0@, p.1 as int),
            ) && i < p.1 <= elems@.len(),
            Err(_) => parse_node(elements_view(elems@), i as int) is None,
        },
    decreases elems@.len() - i, 0int,
{
    if i >= elems.len() {
        return Err(ParquetError::oos("unexpected end of schema elements"));
    }
    let e = &elems[i];
    proof {
        assert(elements_view(elems@)[i as int] == elems@[i as int]@);
    }
    match e.repetition_type {
        Option::None => Err(ParquetError::oos("schema element lacks a repetition")),
        Option::Some(rep) => match e.type_ {
            Option::Some(pt) => {
                let fi = FieldInfo { name: e.name.clone(), repetition: rep, id: e.field_id };
                Ok(
                    (
                        ParquetType::PrimitiveType(
                            PrimitiveType {
                                field_info: fi,
                                logical_type: e.logical_type,
                                converted_type: e.converted_type,
                                physical_type: pt,
                            },
                        ),
                        i + 1,
                    ),
                )
            },
            Option::None => {
                let k = match e.num_children {
                    Option::None => 0,
                    Option::Some(n) => n,
                };
                match parse_children_exec(elems, i + 1, k) {
                    Err(err) => Err(err),
                    Ok((cs, j)) => {
                        let fi = FieldInfo {
                            name: e.name.clone(),
                            repetition: rep,
                            id: e.field_id,
                        };
                        Ok(
                            (
                                ParquetType::GroupType {
                                    field_info: fi,
                                    logical_type: e.logical_type,
                                    converted_type: e.converted_type,
                                    fields: cs,
                                },
                                j,
                            ),
                        )
                    },
                }
            },
        },
    }
}

/// Parses `k` consecutive trees out of `elems` at position `i`, exactly as
/// [`parse_children`] describes.
fn parse_children_exec(elems: &[SchemaElement], i: usize, k: usize) -> (r: ParquetResult<
    (Vec<ParquetType>, usize),
>)
    ensures
        match r {
            Ok(p) => parse_children(elements_view(elems@), i as int, k as int) == Option::Some(
                (type_views(p.0@), p.1 as int),
            ) && i <= p.1 <= elems@.len(),
            Err(_) => parse_children(elements_view(elems@), i as int, k as int) is None,
        },
    decreases elems@.len() - i, 1 + k as int,
{
    if i > elems.len() {
        return Err(ParquetError::oos("unexpected end of schema elements"));
    }
    if k == 0 {
        let empty: Vec<ParquetType> = Vec::new();
        proof {
            assert(type_views(empty@) =~= Seq::<TypeView>::empty());
        }
        return Ok((empty, i));
    }
    match parse_node_exec(elems, i) {
        Err(e) => Err(e),
        Ok((t, j)) => match parse_children_exec(elems, j, k - 1) {
            Err(e) => Err(e),
            Ok((rest, j2)) => {
                let ghost rest0 = rest@;
                let mut cs = rest;
                cs.insert(0, t);
                proof {
                    lemma_type_views(cs@);
                    lemma_type_views(rest0);
                    assert(type_views(cs@) =~= seq![t@] + type_views(rest0));
                }
                Ok((cs, j2))
            },
        },
    }
}

} // verus!
