//! The resolved output model: enums and classes under their final names, and
//! the root fields.

use vstd::prelude::*;
use crate::text::deep;

verus! {

/// The primitive types of the output model.
#[derive(Clone, Copy, Debug, PartialEq, Eq, Structural)]
pub enum Primitive {
    String,
    Int,
    Float,
    Bool,
    Null,
}

/// The resolved type of a field, a list element or a union branch. Enums and
/// classes are named by their final name.
#[derive(Debug, PartialEq, Eq)]
pub enum ResolvedField {
    Primitive(Primitive),
    Enum(String),
    Class(String),
    List(Box<ResolvedField>),
    Union(Vec<ResolvedField>),
}

/// A named field of a record with its type and whether it may be absent.
#[derive(Debug, PartialEq, Eq)]
pub struct ResolvedProperty {
    pub name: String,
    pub field: ResolvedField,
    pub optional: bool,
}

/// An enum of the output model with its values in canonical order.
#[derive(Debug, PartialEq, Eq)]
pub struct ResolvedEnum {
    pub name: String,
    pub values: Vec<String>,
}

/// A class of the output model with its fields in declared order.
#[derive(Debug, PartialEq, Eq)]
pub struct ResolvedClass {
    pub name: String,
    pub fields: Vec<ResolvedProperty>,
}

/// What resolution returns: the enums, the classes and the root fields.
#[derive(Debug, PartialEq, Eq)]
pub struct OutputModel {
    pub enums: Vec<ResolvedEnum>,
    pub classes: Vec<ResolvedClass>,
    pub fields: Vec<ResolvedProperty>,
}

/// Mathematical model of a resolved field type.
pub enum FieldView {
    Primitive(Primitive),
    Enum(Seq<char>),
    Class(Seq<char>),
    List(Box<FieldView>),
    Union(Seq<FieldView>),
}

/// Mathematical model of a record field.
pub struct PropertyView {
    pub name: Seq<char>,
    pub field: FieldView,
    pub optional: bool,
}

/// Mathematical model of an enum.
pub struct EnumView {
    pub name: Seq<char>,
    pub values: Seq<Seq<char>>,
}

/// Mathematical model of a class.
pub struct ClassView {
    pub name: Seq<char>,
    pub fields: Seq<PropertyView>,
}

/// Mathematical model of the output model.
pub struct ModelView {
    pub enums: Seq<EnumView>,
    pub classes: Seq<ClassView>,
    pub fields: Seq<PropertyView>,
}

/// The model of a resolved field type.
pub open spec fn field_view(field: ResolvedField) -> FieldView
    decreases field,
{
    match field {
        ResolvedField::Primitive(p) => FieldView::Primitive(p),
        ResolvedField::Enum(n) => FieldView::Enum(n@),
        ResolvedField::Class(n) => FieldView::Class(n@),
        ResolvedField::List(f) => FieldView::List(Box::new(field_view(*f))),
        ResolvedField::Union(fs) => FieldView::Union(
            Seq::new(
                fs@.len(),
                |i: int|
                    if 0 <= i < fs@.len() {
                        field_view(fs@[i])
                    } else {
                        arbitrary()
                    },
            ),
        ),
    }
}

impl View for ResolvedField {
    type V = FieldView;

    open spec fn view(&self) -> FieldView {
        field_view(*self)
    }
}

/// The views of a list of resolved fields.
pub open spec fn fields_view(v: Seq<ResolvedField>) -> Seq<FieldView> {
    Seq::new(v.len(), |i: int| v[i]@)
}

impl View for ResolvedProperty {
    type V = PropertyView;

    open spec fn view(&self) -> PropertyView {
        PropertyView { name: self.name@, field: self.field@, optional: self.optional }
    }
}

/// The views of a list of record fields.
pub open spec fn record_view(v: Seq<ResolvedProperty>) -> Seq<PropertyView> {
    Seq::new(v.len(), |i: int| v[i]@)
}

impl View for ResolvedEnum {
    type V = EnumView;

    open spec fn view(&self) -> EnumView {
        EnumView { name: self.name@, values: deep(self.values@) }
    }
}

impl View for ResolvedClass {
    type V = ClassView;

    open spec fn view(&self) -> ClassView {
        ClassView { name: self.name@, fields: record_view(self.fields@) }
    }
}

/// The views of a list of enums.
pub open spec fn enums_view(v: Seq<ResolvedEnum>) -> Seq<EnumView> {
    Seq::new(v.len(), |i: int| v[i]@)
}

/// The views of a list of classes.
pub open spec fn classes_view(v: Seq<ResolvedClass>) -> Seq<ClassView> {
    Seq::new(v.len(), |i: int| v[i]@)
}

impl View for OutputModel {
    type V = ModelView;

    open spec fn view(&self) -> ModelView {
        ModelView {
            enums: enums_view(self.enums@),
            classes: classes_view(self.classes@),
            fields: record_view(self.fields@),
        }
    }
}

/// The names of `enums`, in order.
pub open spec fn enum_names(enums: Seq<EnumView>) -> Seq<Seq<char>> {
    Seq::new(enums.len(), |i: int| enums[i].name)
}

/// The names of `classes`, in order.
pub open spec fn class_names(classes: Seq<ClassView>) -> Seq<Seq<char>> {
    Seq::new(classes.len(), |i: int| classes[i].name)
}

/// `record` has one field for each of `properties`, in their order and
/// under their names, and a field is optional unless `required` holds its
/// name.
pub open spec fn record_shaped<T>(
    record: Seq<PropertyView>,
    properties: Seq<(Seq<char>, T)>,
    required: Seq<Seq<char>>,
) -> bool {
    &&& record.len() == properties.len()
    &&& forall|k: int|
        0 <= k < record.len() ==> (#[trigger] record[k]).name == properties[k].0 && record[k].optional
            == !required.contains(properties[k].0)
}

/// Class `c` of `classes` is named `name` and has the fields that
/// `properties` and `required` declare; see [`record_shaped`].
pub open spec fn holds_class<T>(
    classes: Seq<ClassView>,
    c: int,
    name: Seq<char>,
    properties: Seq<(Seq<char>, T)>,
    required: Seq<Seq<char>>,
) -> bool {
    &&& 0 <= c < classes.len()
    &&& classes[c].name == name
    &&& record_shaped(classes[c].fields, properties, required)
}

/// Enum `e` of `enums` is named `name` and has the values `values`, in
/// their order.
pub open spec fn holds_enum(
    enums: Seq<EnumView>,
    e: int,
    name: Seq<char>,
    values: Seq<Seq<char>>,
) -> bool {
    0 <= e < enums.len() && enums[e] == (EnumView { name, values })
}

/// Every union in `field` has a branch, and none of its branches is itself
/// a union.
pub open spec fn field_flat(field: FieldView) -> bool
    decreases field,
{
    match field {
        FieldView::List(f) => field_flat(*f),
        FieldView::Union(fs) => fs.len() > 0 && forall|i: int|
            0 <= i < fs.len() ==> !((#[trigger] fs[i]) is Union) && field_flat(fs[i]),
        _ => true,
    }
}

/// Each field of `record` is flat; see [`field_flat`].
pub open spec fn record_flat(record: Seq<PropertyView>) -> bool {
    forall|i: int| 0 <= i < record.len() ==> field_flat(#[trigger] record[i].field)
}

/// Every enum or class that `field` names is among `enums` or `classes`.
pub open spec fn field_closed(
    field: FieldView,
    enums: Set<Seq<char>>,
    classes: Set<Seq<char>>,
) -> bool
    decreases field,
{
    match field {
        FieldView::Primitive(_) => true,
        FieldView::Enum(n) => enums.contains(n),
        FieldView::Class(n) => classes.contains(n),
        FieldView::List(f) => field_closed(*f, enums, classes),
        FieldView::Union(fs) => forall|i: int|
            0 <= i < fs.len() ==> field_closed(#[trigger] fs[i], enums, classes),
    }
}

/// Each field of `record` is closed; see [`field_closed`].
pub open spec fn record_closed(
    record: Seq<PropertyView>,
    enums: Set<Seq<char>>,
    classes: Set<Seq<char>>,
) -> bool {
    forall|i: int| 0 <= i < record.len() ==> field_closed(#[trigger] record[i].field, enums, classes)
}

/// A field that is closed stays closed where more names are known.
pub proof fn lemma_closed_grows(
    field: FieldView,
    enums: Set<Seq<char>>,
    classes: Set<Seq<char>>,
    more_enums: Set<Seq<char>>,
    more_classes: Set<Seq<char>>,
)
    requires
        field_closed(field, enums, classes),
        enums.subset_of(more_enums),
        classes.subset_of(more_classes),
    ensures
        field_closed(field, more_enums, more_classes),
    decreases field,
{
    match field {
        FieldView::List(f) => {
            lemma_closed_grows(*f, enums, classes, more_enums, more_classes);
        },
        FieldView::Union(fs) => {
            assert forall|i: int| 0 <= i < fs.len() implies field_closed(
                #[trigger] fs[i],
                more_enums,
                more_classes,
            ) by {
                lemma_closed_grows(fs[i], enums, classes, more_enums, more_classes);
            }
        },
        _ => {},
    }
}

/// A record that is closed stays closed where more names are known.
pub proof fn lemma_record_closed_grows(
    record: Seq<PropertyView>,
    enums: Set<Seq<char>>,
    classes: Set<Seq<char>>,
    more_enums: Set<Seq<char>>,
    more_classes: Set<Seq<char>>,
)
    requires
        record_closed(record, enums, classes),
        enums.subset_of(more_enums),
        classes.subset_of(more_classes),
    ensures
        record_closed(record, more_enums, more_classes),
{
    assert forall|i: int| 0 <= i < record.len() implies field_closed(
        #[trigger] record[i].field,
        more_enums,
        more_classes,
    ) by {
        lemma_closed_grows(record[i].field, enums, classes, more_enums, more_classes);
    }
}

impl ModelView {
    /// No two entries, enums and classes taken together, have the same name.
    pub open spec fn names_unique(self) -> bool {
        (enum_names(self.enums) + class_names(self.classes)).no_duplicates()
    }

    /// Every name that a root field or a field of a class refers to belongs to
    /// an entry of the kind that the reference asks for.
    pub open spec fn closed(self) -> bool {
        &&& record_closed(
            self.fields,
            enum_names(self.enums).to_set(),
            class_names(self.classes).to_set(),
        )
        &&& forall|c: int|
            0 <= c < self.classes.len() ==> record_closed(
                #[trigger] self.classes[c].fields,
                enum_names(self.enums).to_set(),
                class_names(self.classes).to_set(),
            )
    }

    /// Every union in a root field or in a field of a class has a branch, and
    /// no union is a branch of a union.
    pub open spec fn flat(self) -> bool {
        &&& record_flat(self.fields)
        &&& forall|c: int| 0 <= c < self.classes.len() ==> record_flat(#[trigger] self.classes[c].fields)
    }

    /// The model is well formed: names are unique, references are closed and
    /// unions are flat.
    pub open spec fn wf(self) -> bool {
        self.names_unique() && self.closed() && self.flat()
    }
}

/// The view of a union is the union of the views of its branches.
pub proof fn lemma_union_view(fs: Vec<ResolvedField>)
    ensures
        ResolvedField::Union(fs)@ == FieldView::Union(fields_view(fs@)),
{
    assert(ResolvedField::Union(fs)@->Union_0 =~= fields_view(fs@));
}

impl ResolvedField {
    /// A copy of this field type.
    pub fn duplicate(&self) -> (r: ResolvedField)
        ensures
            r@ == self@,
        decreases self,
    {
        match self {
            ResolvedField::Primitive(p) => ResolvedField::Primitive(*p),
            ResolvedField::Enum(n) => ResolvedField::Enum(n.clone()),
            ResolvedField::Class(n) => ResolvedField::Class(n.clone()),
            ResolvedField::List(f) => ResolvedField::List(Box::new(f.duplicate())),
            ResolvedField::Union(fs) => {
                let out = duplicate_fields(fs);
                proof {
                    lemma_union_view(out);
                    lemma_union_view(*fs);
                }
                ResolvedField::Union(out)
            },
        }
    }
}

/// Copies of the field types in `fields`, in order.
pub fn duplicate_fields(fields: &Vec<ResolvedField>) -> (out: Vec<ResolvedField>)
    ensures
        fields_view(out@) == fields_view(fields@),
    decreases fields,
{
    let mut out: Vec<ResolvedField> = Vec::new();
    let mut i: usize = 0;
    while i < fields.len()
        invariant
            i <= fields.len(),
            out.len() == i,
            forall|j: int| 0 <= j < i ==> out[j]@ == fields[j]@,
        decreases fields.len() - i,
    {
        assert(decreases_to!(*fields => fields[i as int]));
        out.push(fields[i].duplicate());
        i += 1;
    }
    assert(fields_view(out@) =~= fields_view(fields@));
    out
}

} // verus!
