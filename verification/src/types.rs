//! The nested schema tree: nodes are either primitive (leaves) or groups that
//! own an ordered sequence of children. Every node carries a name, a
//! repetition kind and optional annotations.

use vstd::prelude::*;

verus! {

broadcast use vstd::seq::group_seq_axioms, vstd::std_specs::vec::group_vec_axioms;

/// Whether a field is mandatory, nullable, or a repeated (list-like)
/// occurrence within its parent.
#[derive(Debug, Clone, Copy, PartialEq, Eq, Structural)]
pub enum Repetition {
    Required,
    Optional,
    Repeated,
}

/// The physical storage type of a primitive column.
#[derive(Debug, Clone, Copy, PartialEq, Eq, Structural)]
pub enum PhysicalType {
    Boolean,
    Int32,
    Int64,
    Int96,
    Float,
    Double,
    ByteArray,
    FixedLenByteArray(usize),
}

/// Unit of a time or timestamp annotation.
#[derive(Debug, Clone, Copy, PartialEq, Eq, Structural)]
pub enum TimeUnit {
    Millis,
    Micros,
    Nanos,
}

/// Legacy logical annotation attached to a primitive or group node.
#[derive(Debug, Clone, Copy, PartialEq, Eq, Structural)]
pub enum ConvertedType {
    Utf8,
    MapType,
    MapKeyValue,
    List,
    Enum,
    Decimal { precision: i32, scale: i32 },
    Date,
    TimeMillis,
    TimeMicros,
    TimestampMillis,
    TimestampMicros,
    Uint8,
    Uint16,
    Uint32,
    Uint64,
    Int8,
    Int16,
    Int32,
    Int64,
    Json,
    Bson,
    Interval,
}

/// Logical annotation attached to a primitive or group node; the newer form
/// of the converted type.
#[derive(Debug, Clone, Copy, PartialEq, Eq, Structural)]
pub enum LogicalType {
    Utf8,
    MapType,
    List,
    Enum,
    Decimal { precision: i32, scale: i32 },
    Date,
    Time { unit: TimeUnit, is_adjusted_to_utc: bool },
    Timestamp { unit: TimeUnit, is_adjusted_to_utc: bool },
    Integer { bit_width: i8, is_signed: bool },
    Unknown,
    Json,
    Bson,
    Uuid,
    Float16,
}

/// Name, repetition and optional numeric id common to every node.
#[derive(Debug, PartialEq, Eq)]
pub struct FieldInfo {
    pub name: String,
    pub repetition: Repetition,
    pub id: Option<i32>,
}

/// A leaf node of the schema tree.
#[derive(Debug, PartialEq, Eq)]
pub struct PrimitiveType {
    pub field_info: FieldInfo,
    pub logical_type: Option<LogicalType>,
    pub converted_type: Option<ConvertedType>,
    pub physical_type: PhysicalType,
}

/// A node of the schema tree: a primitive leaf, or a group owning an ordered
/// sequence of children.
#[derive(Debug, PartialEq, Eq)]
pub enum ParquetType {
    PrimitiveType(PrimitiveType),
    GroupType {
        field_info: FieldInfo,
        logical_type: Option<LogicalType>,
        converted_type: Option<ConvertedType>,
        fields: Vec<ParquetType>,
    },
}

/// Mathematical model of a [`FieldInfo`].
#[verifier::ext_equal]
pub struct FieldInfoView {
    pub name: Seq<char>,
    pub repetition: Repetition,
    pub id: Option<i32>,
}

/// Mathematical model of a [`PrimitiveType`].
#[verifier::ext_equal]
pub struct PrimitiveTypeView {
    pub field_info: FieldInfoView,
    pub logical_type: Option<LogicalType>,
    pub converted_type: Option<ConvertedType>,
    pub physical_type: PhysicalType,
}

/// Mathematical model of a [`ParquetType`] tree.
#[verifier::ext_equal]
pub enum TypeView {
    Primitive(PrimitiveTypeView),
    Group {
        field_info: FieldInfoView,
        logical_type: Option<LogicalType>,
        converted_type: Option<ConvertedType>,
        fields: Seq<TypeView>,
    },
}

impl TypeView {
    /// The name, repetition and id of this node's own field.
    pub open spec fn field_info(self) -> FieldInfoView {
        match self {
            TypeView::Primitive(p) => p.field_info,
            TypeView::Group { field_info, .. } => field_info,
        }
    }
}

impl View for FieldInfo {
    type V = FieldInfoView;

    open spec fn view(&self) -> FieldInfoView {
        FieldInfoView { name: self.name@, repetition: self.repetition, id: self.id }
    }
}

impl View for PrimitiveType {
    type V = PrimitiveTypeView;

    open spec fn view(&self) -> PrimitiveTypeView {
        PrimitiveTypeView {
            field_info: self.field_info@,
            logical_type: self.logical_type,
            converted_type: self.converted_type,
            physical_type: self.physical_type,
        }
    }
}

/// Mathematical model of one schema tree.
pub open spec fn type_view(t: ParquetType) -> TypeView
    decreases t,
{
    match t {
        ParquetType::PrimitiveType(p) => TypeView::Primitive(p@),
        ParquetType::GroupType { field_info, logical_type, converted_type, fields } => TypeView::Group {
            field_info: field_info@,
            logical_type: logical_type,
            converted_type: converted_type,
            fields: type_views(fields@),
        },
    }
}

/// Mathematical models of a sequence of schema trees, in order.
pub open spec fn type_views(ts: Seq<ParquetType>) -> Seq<TypeView>
    decreases ts,
{
    if ts.len() == 0 {
        Seq::empty()
    } else {
        type_views(ts.drop_last()).push(type_view(ts.last()))
    }
}

/// The model sequence has one entry per tree, each the tree's own model.
pub proof fn lemma_type_views(ts: Seq<ParquetType>)
    ensures
        type_views(ts).len() == ts.len(),
        forall|i: int| 0 <= i < ts.len() ==> type_views(ts)[i] == type_view(ts[i]),
    decreases ts.len(),
{
    if ts.len() > 0 {
        lemma_type_views(ts.drop_last());
    }
}

impl View for ParquetType {
    type V = TypeView;

    open spec fn view(&self) -> TypeView {
        type_view(*self)
    }
}

impl Clone for FieldInfo {
    /// Clones preserve the model.
    fn clone(&self) -> (r: Self)
        ensures
            r@ == self@,
    {
        FieldInfo { name: self.name.clone(), repetition: self.repetition, id: self.id }
    }
}

impl Clone for PrimitiveType {
    /// Clones preserve the model.
    fn clone(&self) -> (r: Self)
        ensures
            r@ == self@,
    {
        PrimitiveType {
            field_info: self.field_info.clone(),
            logical_type: self.logical_type,
            converted_type: self.converted_type,
            physical_type: self.physical_type,
        }
    }
}

impl Clone for ParquetType {
    /// Deep clone: the copy has the same model as the original tree.
    fn clone(&self) -> (r: Self)
        ensures
            r@ == self@,
        decreases self,
    {
        match self {
            ParquetType::PrimitiveType(p) => ParquetType::PrimitiveType(p.clone()),
            ParquetType::GroupType { field_info, logical_type, converted_type, fields } => {
                let mut cloned_fields: Vec<ParquetType> = Vec::new();
                let n = fields.len();
                for i in 0..n
                    invariant
                        *self is GroupType,
                        self->GroupType_fields == *fields,
                        n == fields.len(),
                        cloned_fields@.len() == i,
                        forall|j: int| 0 <= j < i ==> cloned_fields@[j]@ == fields@[j]@,
                {
                    proof {
                        assert(decreases_to!(*self => self->GroupType_fields));
                        assert(self->GroupType_fields == *fields);
                        vstd::std_specs::vec::axiom_vec_decreases_to_view(*fields);
                        assert(decreases_to!(*fields => fields@));
                        vstd::seq::axiom_seq_index_decreases::<ParquetType>(fields@, i as int);
                        assert(decreases_to!(fields@ => fields@[i as int]));
                        assert(decreases_to!(*self => fields@[i as int]));
                    }
                    cloned_fields.push(fields[i].clone());
                }
                let r = ParquetType::GroupType {
                    field_info: field_info.clone(),
                    logical_type: *logical_type,
                    converted_type: *converted_type,
                    fields: cloned_fields,
                };
                proof {
                    lemma_type_views(cloned_fields@);
                    lemma_type_views(fields@);
                    assert(type_views(cloned_fields@) =~= type_views(fields@));
                    assert(r@ =~= self@);
                }
                r
            },
        }
    }
}

impl ParquetType {
    /// The node's own name.
    pub fn name(&self) -> (r: &str)
        ensures
            r@ == self@.field_info().name,
    {
        match self {
            ParquetType::PrimitiveType(p) => p.field_info.name.as_str(),
            ParquetType::GroupType { field_info, .. } => field_info.name.as_str(),
        }
    }

    /// The node's own field information.
    pub fn get_field_info(&self) -> (r: &FieldInfo)
        ensures
            r@ == self@.field_info(),
    {
        match self {
            ParquetType::PrimitiveType(p) => &p.field_info,
            ParquetType::GroupType { field_info, .. } => field_info,
        }
    }
}

/// How much a node's own repetition adds to the definition level of every
/// leaf at or below it: one for Optional or Repeated, nothing for Required.
pub open spec fn def_step(r: Repetition) -> int {
    match r {
        Repetition::Required => 0,
        Repetition::Optional => 1,
        Repetition::Repeated => 1,
    }
}

/// How much a node's own repetition adds to the repetition level of every
/// leaf at or below it: one for Repeated, nothing otherwise.
pub open spec fn rep_step(r: Repetition) -> int {
    match r {
        Repetition::Required => 0,
        Repetition::Optional => 0,
        Repetition::Repeated => 1,
    }
}

/// Number of nodes on the longest root-to-leaf chain of the tree.
pub open spec fn depth(t: TypeView) -> nat
    decreases t,
{
    match t {
        TypeView::Primitive(_) => 1,
        TypeView::Group { fields, .. } => 1 + forest_depth(fields),
    }
}

/// Largest depth among the trees of a forest; zero for an empty forest.
pub open spec fn forest_depth(ts: Seq<TypeView>) -> nat
    decreases ts,
{
    if ts.len() == 0 {
        0
    } else if depth(ts.last()) > forest_depth(ts.drop_last()) {
        depth(ts.last())
    } else {
        forest_depth(ts.drop_last())
    }
}

/// Every tree of a forest is at most as deep as the forest.
pub proof fn lemma_forest_depth_bounds(ts: Seq<TypeView>, i: int)
    requires
        0 <= i < ts.len(),
    ensures
        depth(ts[i]) <= forest_depth(ts),
    decreases ts.len(),
{
    if i == ts.len() - 1 {
        assert(ts.last() == ts[i]);
    } else {
        lemma_forest_depth_bounds(ts.drop_last(), i);
    }
}

/// Trees are at least one node deep.
pub proof fn lemma_depth_pos(t: TypeView)
    ensures
        depth(t) >= 1,
{
}

/// Whether the tree is at most `budget` levels deep.
pub fn depth_le(t: &ParquetType, budget: usize) -> (r: bool)
    ensures
        r == (depth(t@) <= budget as int),
    decreases t,
{
    proof {
        lemma_depth_pos(t@);
    }
    if budget == 0 {
        return false;
    }
    match t {
        ParquetType::PrimitiveType(_) => true,
        ParquetType::GroupType { fields, .. } => {
            let ghost fvs = type_views(fields@);
            proof {
                lemma_type_views(fields@);
            }
            let n = fields.len();
            let mut ok = true;
            for i in 0..n
                invariant
                    *t is GroupType,
                    t->GroupType_fields == *fields,
                    n == fields@.len(),
                    fvs == type_views(fields@),
                    fvs.len() == n,
                    forall|j: int| 0 <= j < n ==> fvs[j] == type_view(fields@[j]),
                    budget >= 1,
                    ok == (forest_depth(fvs.subrange(0, i as int)) <= budget - 1),
            {
                proof {
                    assert(decreases_to!(*t => t->GroupType_fields));
                    assert(t->GroupType_fields == *fields);
                    vstd::std_specs::vec::axiom_vec_decreases_to_view(*fields);
                    vstd::seq::axiom_seq_index_decreases::<ParquetType>(fields@, i as int);
                    assert(decreases_to!(*t => fields@[i as int]));
                }
                let c = depth_le(&fields[i], budget - 1);
                ok = ok && c;
                proof {
                    assert(fvs.subrange(0, i + 1).drop_last() =~= fvs.subrange(0, i as int));
                    assert(fvs.subrange(0, i + 1).last() == fvs[i as int]);
                }
            }
            proof {
                assert(fvs.subrange(0, n as int) =~= fvs);
            }
            ok
        },
    }
}

} // verus!
