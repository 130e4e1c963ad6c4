//! Flattening of a schema tree into column descriptors, and the schema
//! descriptor aggregate that owns the result.
//!
//! Every primitive node of the tree becomes one [`ColumnDescriptor`], emitted
//! in depth-first pre-order. A node's own repetition raises the running
//! definition level (Optional or Repeated) and repetition level (Repeated)
//! carried into it, and a primitive's own repetition counts toward its own
//! levels.

use vstd::prelude::*;
use std::sync::Arc;

use crate::error::{ParquetError, ParquetResult};
use crate::thrift::{
    elements_view, fields_depth_ok, group_required_msg, parse_node, parse_node_exec, parse_schema,
    schema_elements, SchemaElement,
};
use crate::types::{
    def_step, depth, forest_depth, lemma_depth_pos, lemma_forest_depth_bounds, lemma_type_views,
    rep_step, type_view, type_views, FieldInfo, ParquetType, PrimitiveType, PrimitiveTypeView,
    TypeView,
};

verus! {

broadcast use vstd::seq::group_seq_axioms, vstd::std_specs::vec::group_vec_axioms;

/// The structural context a leaf keeps of the top-level field it descends
/// from: an exclusively owned copy until the first descent into a group's
/// children, a shared handle from then on.
#[derive(Debug, PartialEq, Eq)]
pub enum BaseType {
    Owned(ParquetType),
    Shared(Arc<ParquetType>),
}

impl View for BaseType {
    type V = TypeView;

    open spec fn view(&self) -> TypeView {
        match self {
            BaseType::Owned(t) => type_view(*t),
            BaseType::Shared(a) => type_view(**a),
        }
    }
}

impl BaseType {
    /// Promotes the context to a shared handle; owned contexts are moved into
    /// a freshly allocated handle, shared ones are returned unchanged.
    pub fn into_arc(self) -> (r: BaseType)
        ensures
            r@ == self@,
            r is Shared,
    {
        match self {
            BaseType::Owned(t) => BaseType::Shared(Arc::new(t)),
            BaseType::Shared(a) => BaseType::Shared(a),
        }
    }
}

impl Clone for BaseType {
    /// Cloning a shared handle shares the context; cloning an owned context
    /// copies it. Either way the model is preserved.
    fn clone(&self) -> (r: Self)
        ensures
            r@ == self@,
    {
        match self {
            BaseType::Owned(t) => BaseType::Owned(t.clone()),
            BaseType::Shared(a) => BaseType::Shared(a.clone()),
        }
    }
}

/// A primitive type together with the maximum definition and repetition
/// levels of its column.
#[derive(Debug, PartialEq, Eq)]
pub struct Descriptor {
    pub primitive_type: PrimitiveType,
    pub max_def_level: i16,
    pub max_rep_level: i16,
}

/// One flattened leaf column: its descriptor, its path from the schema root,
/// and the structural context of the top-level field it belongs to.
#[derive(Debug, PartialEq, Eq)]
pub struct ColumnDescriptor {
    pub descriptor: Descriptor,
    pub path_in_schema: Vec<String>,
    pub base_type: BaseType,
}

/// Mathematical model of a [`Descriptor`].
#[verifier::ext_equal]
pub struct DescriptorView {
    pub primitive_type: PrimitiveTypeView,
    pub max_def_level: int,
    pub max_rep_level: int,
}

/// Mathematical model of a [`ColumnDescriptor`].
#[verifier::ext_equal]
pub struct ColumnDescriptorView {
    pub descriptor: DescriptorView,
    pub path_in_schema: Seq<Seq<char>>,
    pub base_type: TypeView,
}

impl View for Descriptor {
    type V = DescriptorView;

    open spec fn view(&self) -> DescriptorView {
        DescriptorView {
            primitive_type: self.primitive_type@,
            max_def_level: self.max_def_level as int,
            max_rep_level: self.max_rep_level as int,
        }
    }
}

impl View for ColumnDescriptor {
    type V = ColumnDescriptorView;

    open spec fn view(&self) -> ColumnDescriptorView {
        ColumnDescriptorView {
            descriptor: self.descriptor@,
            path_in_schema: paths_view(self.path_in_schema@),
            base_type: self.base_type@,
        }
    }
}

impl ColumnDescriptor {
    /// Packs a descriptor, its path and its structural context into one leaf
    /// record.
    pub fn new(descriptor: Descriptor, path_in_schema: Vec<String>, base_type: BaseType) -> (r:
        Self)
        ensures
            r@.descriptor == descriptor@,
            r@.path_in_schema == paths_view(path_in_schema@),
            r@.base_type == base_type@,
    {
        ColumnDescriptor { descriptor, path_in_schema, base_type }
    }
}

impl Clone for Descriptor {
    /// Clones preserve the model.
    fn clone(&self) -> (r: Self)
        ensures
            r@ == self@,
    {
        Descriptor {
            primitive_type: self.primitive_type.clone(),
            max_def_level: self.max_def_level,
            max_rep_level: self.max_rep_level,
        }
    }
}

impl Clone for ColumnDescriptor {
    /// Clones preserve the model.
    fn clone(&self) -> (r: Self)
        ensures
            r@ == self@,
    {
        let r = ColumnDescriptor {
            descriptor: self.descriptor.clone(),
            path_in_schema: clone_path(&self.path_in_schema),
            base_type: self.base_type.clone(),
        };
        proof {
            assert(r@ =~= self@);
        }
        r
    }
}

/// The models of a sequence of path segments.
pub open spec fn paths_view(p: Seq<String>) -> Seq<Seq<char>> {
    Seq::new(p.len(), |i: int| p[i]@)
}

/// The models of a sequence of column descriptors.
pub open spec fn descriptors_view(ds: Seq<ColumnDescriptor>) -> Seq<ColumnDescriptorView> {
    Seq::new(ds.len(), |i: int| ds[i]@)
}

/// The column descriptors that flattening one node emits, given the
/// repetition and definition levels, the path, and the structural context
/// carried into it.
pub open spec fn node_leaves(
    t: TypeView,
    rep: int,
    def: int,
    path: Seq<Seq<char>>,
    base: TypeView,
) -> Seq<ColumnDescriptorView>
    decreases t,
{
    let r2 = rep + rep_step(t.field_info().repetition);
    let d2 = def + def_step(t.field_info().repetition);
    match t {
        TypeView::Primitive(p) => seq![
            ColumnDescriptorView {
                descriptor: DescriptorView {
                    primitive_type: p,
                    max_def_level: d2,
                    max_rep_level: r2,
                },
                path_in_schema: path.push(p.field_info.name),
                base_type: base,
            },
        ],
        TypeView::Group { field_info, fields, .. } => forest_leaves(
            fields,
            r2,
            d2,
            path.push(field_info.name),
            base,
        ),
    }
}

/// The column descriptors that flattening a forest of sibling nodes emits,
/// in order.
pub open spec fn forest_leaves(
    ts: Seq<TypeView>,
    rep: int,
    def: int,
    path: Seq<Seq<char>>,
    base: TypeView,
) -> Seq<ColumnDescriptorView>
    decreases ts,
{
    if ts.len() == 0 {
        Seq::empty()
    } else {
        forest_leaves(ts.drop_last(), rep, def, path, base) + node_leaves(
            ts.last(),
            rep,
            def,
            path,
            base,
        )
    }
}

/// The column descriptors of a whole schema: every top-level field is
/// flattened starting from levels zero and an empty path, with itself as the
/// structural context of its leaves.
pub open spec fn schema_leaves(fields: Seq<TypeView>) -> Seq<ColumnDescriptorView>
    decreases fields,
{
    if fields.len() == 0 {
        Seq::empty()
    } else {
        schema_leaves(fields.drop_last()) + node_leaves(
            fields.last(),
            0,
            0,
            Seq::empty(),
            fields.last(),
        )
    }
}

/// Copies a path so the emitted leaf owns its own name sequence.
fn clone_path(p: &Vec<String>) -> (r: Vec<String>)
    ensures
        paths_view(r@) == paths_view(p@),
{
    let mut r: Vec<String> = Vec::new();
    let n = p.len();
    for i in 0..n
        invariant
            n == p@.len(),
            r@.len() == i,
            forall|j: int| 0 <= j < i ==> r@[j]@ == p@[j]@,
    {
        r.push(p[i].clone());
    }
    proof {
        assert(paths_view(r@) =~= paths_view(p@));
    }
    r
}

/// Depth-first flattening of one node: pushes the node's name onto the path,
/// applies the node's own repetition to the running levels, emits one column
/// descriptor per primitive node of the subtree, and leaves the node's name
/// on the path for the caller to pop.
pub fn build_tree(
    tp: &ParquetType,
    base_tp: BaseType,
    max_rep_level: i16,
    max_def_level: i16,
    leaves: &mut Vec<ColumnDescriptor>,
    path_so_far: &mut Vec<String>,
)
    requires
        max_rep_level + depth(tp@) <= i16::MAX,
        max_def_level + depth(tp@) <= i16::MAX,
    ensures
        descriptors_view(final(leaves)@) == descriptors_view(old(leaves)@) + node_leaves(
            tp@,
            max_rep_level as int,
            max_def_level as int,
            paths_view(old(path_so_far)@),
            base_tp@,
        ),
        paths_view(final(path_so_far)@) == paths_view(old(path_so_far)@).push(
            tp@.field_info().name,
        ),
    decreases tp,
{
    proof {
        lemma_depth_pos(tp@);
    }
    let ghost rep0 = max_rep_level as int;
    let ghost def0 = max_def_level as int;
    let mut max_rep_level = max_rep_level;
    let mut max_def_level = max_def_level;
    path_so_far.push(tp.get_field_info().name.clone());
    proof {
        assert(paths_view(path_so_far@) =~= paths_view(old(path_so_far)@).push(
            tp@.field_info().name,
        ));
    }
    match tp.get_field_info().repetition {
        crate::types::Repetition::Optional => {
            max_def_level = max_def_level + 1;
        },
        crate::types::Repetition::Repeated => {
            max_def_level = max_def_level + 1;
            max_rep_level = max_rep_level + 1;
        },
        crate::types::Repetition::Required => {},
    }
    let ghost bview0 = base_tp@;
    match tp {
        ParquetType::PrimitiveType(p) => {
            let path_in_schema = clone_path(path_so_far);
            leaves.push(
                ColumnDescriptor::new(
                    Descriptor {
                        primitive_type: p.clone(),
                        max_def_level,
                        max_rep_level,
                    },
                    path_in_schema,
                    base_tp,
                ),
            );
            proof {
                assert(descriptors_view(leaves@) =~= descriptors_view(old(leaves)@) + node_leaves(
                    tp@,
                    rep0,
                    def0,
                    paths_view(old(path_so_far)@),
                    bview0,
                ));
            }
        },
        ParquetType::GroupType { fields, .. } => {
            let ghost bview = base_tp@;
            let base_tp = base_tp.into_arc();
            let ghost fvs = type_views(fields@);
            let ghost rep2 = max_rep_level as int;
            let ghost def2 = max_def_level as int;
            let ghost p2 = paths_view(old(path_so_far)@).push(tp@.field_info().name);
            proof {
                lemma_type_views(fields@);
            }
            let n = fields.len();
            for i in 0..n
                invariant
                    *tp is GroupType,
                    tp->GroupType_fields == *fields,
                    n == fields@.len(),
                    fvs == type_views(fields@),
                    fvs.len() == n,
                    forall|j: int| 0 <= j < n ==> fvs[j] == type_view(fields@[j]),
                    rep2 + forest_depth(fvs) <= i16::MAX,
                    def2 + forest_depth(fvs) <= i16::MAX,
                    max_rep_level as int == rep2,
                    max_def_level as int == def2,
                    base_tp@ == bview,
                    paths_view(path_so_far@) == p2,
                    descriptors_view(leaves@) == descriptors_view(old(leaves)@) + forest_leaves(
                        fvs.subrange(0, i as int),
                        rep2,
                        def2,
                        p2,
                        bview,
                    ),
                decreases n - i,
            {
                proof {
                    lemma_forest_depth_bounds(fvs, i as int);
                    assert(decreases_to!(*tp => tp->GroupType_fields));
                    assert(tp->GroupType_fields == *fields);
                    vstd::std_specs::vec::axiom_vec_decreases_to_view(*fields);
                    vstd::seq::axiom_seq_index_decreases::<ParquetType>(fields@, i as int);
                    assert(decreases_to!(*tp => fields@[i as int]));
                }
                build_tree(
                    &fields[i],
                    base_tp.clone(),
                    max_rep_level,
                    max_def_level,
                    leaves,
                    path_so_far,
                );
                let ghost pv = path_so_far@;
                path_so_far.pop();
                proof {
                    assert(paths_view(pv) == p2.push(type_view(fields@[i as int]).field_info().name));
                    assert(pv.len() == p2.len() + 1);
                    assert(path_so_far@ == pv.subrange(0, pv.len() - 1));
                    assert forall|j: int| 0 <= j < p2.len() implies pv[j]@ == p2[j] by {
                        assert(paths_view(pv)[j] == pv[j]@);
                    }
                    assert(paths_view(path_so_far@) =~= p2);
                    assert(fvs.subrange(0, i + 1).drop_last() =~= fvs.subrange(0, i as int));
                    assert(fvs.subrange(0, i + 1).last() == fvs[i as int]);
                    assert(descriptors_view(leaves@) =~= descriptors_view(old(leaves)@)
                        + forest_leaves(fvs.subrange(0, i + 1), rep2, def2, p2, bview));
                }
            }
            proof {
                assert(fvs.subrange(0, n as int) =~= fvs);
            }
        },
    }
}

/// A schema descriptor: the top-level schema fields of one file, together
/// with the derived flat list of column descriptors for all its primitive
/// columns, in depth-first order. Immutable once constructed.
#[derive(Debug)]
pub struct SchemaDescriptor {
    name: String,
    fields: Vec<ParquetType>,
    leaves: Vec<ColumnDescriptor>,
}

/// Mathematical model of a [`SchemaDescriptor`].
#[verifier::ext_equal]
pub struct SchemaDescriptorView {
    pub name: Seq<char>,
    pub fields: Seq<TypeView>,
    pub leaves: Seq<ColumnDescriptorView>,
}

impl View for SchemaDescriptor {
    type V = SchemaDescriptorView;

    closed spec fn view(&self) -> SchemaDescriptorView {
        SchemaDescriptorView {
            name: self.name@,
            fields: type_views(self.fields@),
            leaves: descriptors_view(self.leaves@),
        }
    }
}

impl Clone for SchemaDescriptor {
    /// Clones preserve the model: the name, the fields, and the derived
    /// leaves alike.
    fn clone(&self) -> (r: Self)
        ensures
            r@ == self@,
    {
        let mut fields: Vec<ParquetType> = Vec::new();
        let n = self.fields.len();
        for i in 0..n
            invariant
                n == self.fields@.len(),
                fields@.len() == i,
                forall|j: int| 0 <= j < i ==> fields@[j]@ == self.fields@[j]@,
        {
            fields.push(self.fields[i].clone());
        }
        let mut leaves: Vec<ColumnDescriptor> = Vec::new();
        let m = self.leaves.len();
        for i in 0..m
            invariant
                m == self.leaves@.len(),
                leaves@.len() == i,
                forall|j: int| 0 <= j < i ==> leaves@[j]@ == self.leaves@[j]@,
        {
            leaves.push(self.leaves[i].clone());
        }
        let r = SchemaDescriptor { name: self.name.clone(), fields, leaves };
        proof {
            lemma_type_views(fields@);
            lemma_type_views(self.fields@);
            assert(type_views(fields@) =~= type_views(self.fields@));
            assert(descriptors_view(leaves@) =~= descriptors_view(self.leaves@));
            assert(r@ =~= self@);
        }
        r
    }
}

impl SchemaDescriptor {
    /// The leaf list is exactly the flattening of the top-level fields.
    pub open spec fn wf(self) -> bool {
        self@.leaves == schema_leaves(self@.fields)
    }

    /// Creates a new schema descriptor: flattens `fields` once and stores the
    /// resulting leaves beside the fields. Purely structural; always
    /// succeeds for trees whose depth fits the level counters.
    pub fn new(name: String, fields: Vec<ParquetType>) -> (r: Self)
        requires
            forall|i: int| 0 <= i < fields@.len() ==> depth(#[trigger] fields@[i]@) <= i16::MAX,
        ensures
            r@.name == name@,
            r@.fields == type_views(fields@),
            r@.leaves == schema_leaves(type_views(fields@)),
            r.wf(),
    {
        let ghost fvs = type_views(fields@);
        proof {
            lemma_type_views(fields@);
        }
        let mut leaves: Vec<ColumnDescriptor> = Vec::new();
        let n = fields.len();
        for i in 0..n
            invariant
                n == fields@.len(),
                fvs == type_views(fields@),
                fvs.len() == n,
                forall|j: int| 0 <= j < n ==> fvs[j] == type_view(fields@[j]),
                forall|j: int| 0 <= j < n ==> depth(#[trigger] fields@[j]@) <= i16::MAX,
                descriptors_view(leaves@) == schema_leaves(fvs.subrange(0, i as int)),
        {
            let mut path: Vec<String> = Vec::new();
            build_tree(&fields[i], BaseType::Owned(fields[i].clone()), 0, 0, &mut leaves, &mut path);
            proof {
                assert(paths_view(Seq::<String>::empty()) =~= Seq::<Seq<char>>::empty());
                assert(fvs.subrange(0, i + 1).drop_last() =~= fvs.subrange(0, i as int));
                assert(fvs.subrange(0, i + 1).last() == fvs[i as int]);
                assert(descriptors_view(leaves@) =~= schema_leaves(fvs.subrange(0, i + 1)));
            }
        }
        proof {
            assert(fvs.subrange(0, n as int) =~= fvs);
        }
        let r = SchemaDescriptor { name, fields, leaves };
        r
    }

    /// The column descriptors (leaves) of this schema, in depth-first order.
    /// Nested fields may contribute more than one column each.
    pub fn columns(&self) -> (r: &[ColumnDescriptor])
        ensures
            descriptors_view(r@) == self@.leaves,
    {
        self.leaves.as_slice()
    }

    /// The schema's name.
    pub fn name(&self) -> (r: &str)
        ensures
            r@ == self@.name,
    {
        self.name.as_str()
    }

    /// The schema's top-level fields, unchanged since construction.
    pub fn fields(&self) -> (r: &[ParquetType])
        ensures
            type_views(r@) == self@.fields,
    {
        self.fields.as_slice()
    }

    /// The schema's leaves; the same list as [`Self::columns`].
    pub fn leaves(&self) -> (r: &[ColumnDescriptor])
        ensures
            descriptors_view(r@) == self@.leaves,
    {
        self.leaves.as_slice()
    }

    /// Serializes this descriptor: wraps the name and fields in the
    /// synthetic top-level group (Optional, no id, no annotation) and
    /// linearizes that tree. Consumes the descriptor.
    pub fn into_thrift(self) -> (r: Vec<SchemaElement>)
        ensures
            elements_view(r@) == schema_elements(self@),
    {
        let ghost dv = self@;
        let SchemaDescriptor { name, fields, leaves: _ } = self;
        let root = ParquetType::GroupType {
            field_info: FieldInfo {
                name,
                repetition: crate::types::Repetition::Optional,
                id: Option::None,
            },
            logical_type: Option::None,
            converted_type: Option::None,
            fields,
        };
        proof {
            assert(root@ == crate::thrift::root_view(dv.name, dv.fields));
        }
        root.to_thrift()
    }

    /// Validates that the given node is a group whose fields fit the level
    /// counters, then builds the descriptor from its name and fields; a
    /// non-group node is rejected with the group-required error. Every
    /// boundary that yields a tree — the flat elements here, or a textual
    /// grammar parsed elsewhere — goes through this step.
    pub fn try_from_type(type_: ParquetType) -> (r: ParquetResult<Self>)
        ensures
            match r {
                Ok(d) => type_@ is Group && fields_depth_ok(type_@->Group_fields) && d.wf() && d@
                    == (SchemaDescriptorView {
                    name: type_@.field_info().name,
                    fields: type_@->Group_fields,
                    leaves: schema_leaves(type_@->Group_fields),
                }),
                Err(e) => (!(type_@ is Group) || !fields_depth_ok(type_@->Group_fields)) && (
                e matches ParquetError::OutOfSpec(m) && (!(type_@ is Group) ==> m@
                    == group_required_msg()) && ((type_@ is Group && !fields_depth_ok(
                    type_@->Group_fields,
                )) ==> m@ == "schema tree is too deeply nested"@)),
            },
    {
        match type_ {
            ParquetType::GroupType { field_info, fields, .. } => {
                let ghost fvs = type_views(fields@);
                proof {
                    lemma_type_views(fields@);
                }
                let n = fields.len();
                let mut all_ok = true;
                for i in 0..n
                    invariant
                        n == fields@.len(),
                        fvs == type_views(fields@),
                        fvs.len() == n,
                        forall|j: int| 0 <= j < n ==> fvs[j] == type_view(fields@[j]),
                        all_ok == (forall|j: int|
                            0 <= j < i ==> depth(#[trigger] fvs[j]) <= i16::MAX),
                {
                    let c = crate::types::depth_le(&fields[i], 32767);
                    proof {
                        assert(fvs[i as int] == type_view(fields@[i as int]));
                        assert(c == (depth(fvs[i as int]) <= i16::MAX));
                    }
                    all_ok = all_ok && c;
                }
                if all_ok {
                    proof {
                        assert forall|j: int| 0 <= j < fields@.len() implies depth(
                            #[trigger] fields@[j]@,
                        ) <= i16::MAX by {
                            assert(fvs[j] == type_view(fields@[j]));
                        }
                    }
                    Ok(SchemaDescriptor::new(field_info.name, fields))
                } else {
                    Err(ParquetError::oos("schema tree is too deeply nested"))
                }
            },
            _ => Err(ParquetError::oos("The parquet schema MUST be a group type")),
        }
    }

    /// Parses a flat element sequence into a schema descriptor. The sequence
    /// must encode exactly one tree and its root must be a group; a
    /// primitive root is rejected with the group-required error, and
    /// malformed sequences with the parser's own error.
    pub fn try_from_thrift(elements: &[SchemaElement]) -> (r: ParquetResult<Self>)
        ensures
            match r {
                Ok(d) => d.wf() && parse_schema(elements_view(elements@)) == Option::Some(d@),
                Err(_) => parse_schema(elements_view(elements@)) is None,
            },
            ({
                let pr = parse_node(elements_view(elements@), 0);
                pr matches Option::Some(p) && p.1 == elements@.len() && !(p.0 is Group)
            }) ==> (r matches Err(ParquetError::OutOfSpec(m)) && m@ == group_required_msg()),
    {
        match parse_node_exec(elements, 0) {
            Err(e) => Err(e),
            Ok((t, j)) => {
                if j != elements.len() {
                    Err(ParquetError::oos("trailing schema elements after the root tree"))
                } else {
                    Self::try_from_type(t)
                }
            },
        }
    }
}

} // verus!
