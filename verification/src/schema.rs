//! Schema descriptors: immutable per-type metadata that drives the generic
//! reader and writer.

use vstd::prelude::*;
use crate::scalar::ScalarKind;

verus! {

/// Whether an attribute must be present.
#[derive(Clone, Copy, Debug, PartialEq, Eq, Structural)]
pub enum Presence {
    Required,
    Optional,
}

/// The role of one record field.
#[derive(Debug, PartialEq)]
pub enum Field {
    /// Bound to the XML attribute `name`, coerced to `kind`.
    Attribute { name: String, kind: ScalarKind, presence: Presence },
    /// Bound to the element's own text content.
    Text,
    /// Bound to the text content of a uniquely named wrapper child.
    FlattenText { tag: String },
    /// Bound to a single optional child element.
    Child { tag: String, schema: Box<Schema> },
    /// Bound to zero or more child elements, in order.
    Children { tag: String, schema: Box<Schema> },
}

/// The descriptor of one record type.
#[derive(Debug, PartialEq)]
pub struct Schema {
    /// The element name this record binds to.
    pub tag: String,
    /// A leaf record stops reading after its attributes: its body, if any,
    /// is never inspected.
    pub leaf: bool,
    /// Field roles in declaration order; the order is significant for
    /// writing.
    pub fields: Vec<Field>,
}

/// Mathematical model of a field role.
#[verifier::ext_equal]
pub enum FieldModel {
    Attribute { name: Seq<char>, kind: ScalarKind, presence: Presence },
    Text,
    FlattenText { tag: Seq<char> },
    Child { tag: Seq<char>, schema: SchemaModel },
    Children { tag: Seq<char>, schema: SchemaModel },
}

/// Mathematical model of a schema.
#[verifier::ext_equal]
pub struct SchemaModel {
    pub tag: Seq<char>,
    pub leaf: bool,
    pub fields: Seq<FieldModel>,
}

pub open spec fn field_model(f: Field) -> FieldModel
    decreases f,
{
    match f {
        Field::Attribute { name, kind, presence } => FieldModel::Attribute {
            name: name@,
            kind,
            presence,
        },
        Field::Text => FieldModel::Text,
        Field::FlattenText { tag } => FieldModel::FlattenText { tag: tag@ },
        Field::Child { tag, schema } => FieldModel::Child {
            tag: tag@,
            schema: schema_model(*schema),
        },
        Field::Children { tag, schema } => FieldModel::Children {
            tag: tag@,
            schema: schema_model(*schema),
        },
    }
}

pub open spec fn fields_model(fs: Seq<Field>) -> Seq<FieldModel>
    decreases fs,
{
    if fs.len() == 0 {
        Seq::empty()
    } else {
        seq![field_model(fs[0])] + fields_model(fs.drop_first())
    }
}

pub open spec fn schema_model(s: Schema) -> SchemaModel
    decreases s,
{
    SchemaModel { tag: s.tag@, leaf: s.leaf, fields: fields_model(s.fields@) }
}

/// The model of a field list is the field models, in order.
pub broadcast proof fn lemma_fields_model(fs: Seq<Field>)
    ensures
        #![trigger fields_model(fs)]
        fields_model(fs).len() == fs.len(),
        forall|i: int| 0 <= i < fs.len() ==> fields_model(fs)[i] == field_model(fs[i]),
    decreases fs.len(),
{
    if fs.len() > 0 {
        lemma_fields_model(fs.drop_first());
    }
}

impl View for Schema {
    type V = SchemaModel;

    open spec fn view(&self) -> SchemaModel {
        schema_model(*self)
    }
}

impl View for Field {
    type V = FieldModel;

    open spec fn view(&self) -> FieldModel {
        field_model(*self)
    }
}

/// The tag a body role answers to; attributes and text have none.
pub open spec fn body_tag(f: FieldModel) -> Option<Seq<char>> {
    match f {
        FieldModel::FlattenText { tag } => Some(tag),
        FieldModel::Child { tag, .. } => Some(tag),
        FieldModel::Children { tag, .. } => Some(tag),
        _ => None,
    }
}

/// The first field whose body tag is `name`, if any.
pub open spec fn body_field_index(fields: Seq<FieldModel>, name: Seq<char>) -> Option<int>
    decreases fields.len(),
{
    if fields.len() == 0 {
        None
    } else if body_tag(fields[0]) == Some(name) {
        Some(0int)
    } else {
        match body_field_index(fields.drop_first(), name) {
            Some(i) => Some(i + 1),
            None => None,
        }
    }
}

/// The first `Text` field, if any.
pub open spec fn text_field_index(fields: Seq<FieldModel>) -> Option<int>
    decreases fields.len(),
{
    if fields.len() == 0 {
        None
    } else if fields[0] is Text {
        Some(0int)
    } else {
        match text_field_index(fields.drop_first()) {
            Some(i) => Some(i + 1),
            None => None,
        }
    }
}

/// A schema an author may register: attribute names are distinct, body
/// tags are distinct, at most one `Text` field, every nested schema is
/// well formed and carries the tag its field dispatches on, and a leaf
/// schema binds attributes only.
pub open spec fn wf_schema(s: SchemaModel) -> bool
    decreases s,
{
    &&& (forall|i: int, j: int|
        0 <= i < j < s.fields.len() ==> !(#[trigger] s.fields[i] is Attribute
            && #[trigger] s.fields[j] is Attribute && s.fields[i]->Attribute_name
            == s.fields[j]->Attribute_name))
    &&& (forall|i: int, j: int|
        0 <= i < j < s.fields.len() ==> !((#[trigger] body_tag(s.fields[i])) is Some && (
        #[trigger] body_tag(s.fields[j])) is Some && body_tag(s.fields[i]) == body_tag(
            s.fields[j],
        )))
    &&& (forall|i: int, j: int|
        0 <= i < j < s.fields.len() ==> !(#[trigger] s.fields[i] is Text
            && #[trigger] s.fields[j] is Text))
    &&& (forall|i: int|
        0 <= i < s.fields.len() ==> match #[trigger] s.fields[i] {
            FieldModel::Child { tag, schema } => schema.tag == tag && wf_schema(schema),
            FieldModel::Children { tag, schema } => schema.tag == tag && wf_schema(schema),
            _ => true,
        })
    &&& (s.leaf ==> forall|i: int| 0 <= i < s.fields.len() ==> #[trigger] s.fields[i] is Attribute)
}

} // verus!
