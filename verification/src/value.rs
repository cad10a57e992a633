//! Record values: what a read produces and a write consumes.  A record's
//! field values stand in declaration order, parallel to its schema's field
//! roles.

use vstd::prelude::*;
use crate::scalar::{Scalar, ScalarModel, kind_of, scalar_fits};
use crate::schema::{FieldModel, SchemaModel, Presence};

verus! {

/// The value of one field.
#[derive(Debug, PartialEq)]
pub enum FieldValue {
    /// An attribute's scalar; `None` when an optional attribute is absent.
    Attr(Option<Scalar>),
    /// The element's own text content; empty when none was read.
    Text(String),
    /// The text hoisted from a wrapper child; `None` when the wrapper is
    /// absent.
    Flatten(Option<String>),
    /// A single optional child record.
    Child(Option<Box<Record>>),
    /// Zero or more child records, in input order.
    Children(Vec<Record>),
}

/// A populated record: one value per schema field, in declaration order.
#[derive(Debug, PartialEq)]
pub struct Record {
    pub fields: Vec<FieldValue>,
}

/// Mathematical model of a field value.
#[verifier::ext_equal]
pub enum FieldValueModel {
    Attr(Option<ScalarModel>),
    Text(Seq<char>),
    Flatten(Option<Seq<char>>),
    Child(Option<RecordModel>),
    Children(Seq<RecordModel>),
}

/// Mathematical model of a record.
#[verifier::ext_equal]
pub struct RecordModel {
    pub fields: Seq<FieldValueModel>,
}

pub open spec fn field_value_model(v: FieldValue) -> FieldValueModel
    decreases v,
{
    match v {
        FieldValue::Attr(o) => FieldValueModel::Attr(
            match o {
                Some(s) => Some(s@),
                None => None,
            },
        ),
        FieldValue::Text(s) => FieldValueModel::Text(s@),
        FieldValue::Flatten(o) => FieldValueModel::Flatten(
            match o {
                Some(s) => Some(s@),
                None => None,
            },
        ),
        FieldValue::Child(o) => FieldValueModel::Child(
            match o {
                Some(r) => Some(record_model(*r)),
                None => None,
            },
        ),
        FieldValue::Children(rs) => FieldValueModel::Children(records_model(rs@)),
    }
}

pub open spec fn records_model(rs: Seq<Record>) -> Seq<RecordModel>
    decreases rs,
{
    if rs.len() == 0 {
        Seq::empty()
    } else {
        seq![record_model(rs[0])] + records_model(rs.drop_first())
    }
}

pub open spec fn values_model(vs: Seq<FieldValue>) -> Seq<FieldValueModel>
    decreases vs,
{
    if vs.len() == 0 {
        Seq::empty()
    } else {
        seq![field_value_model(vs[0])] + values_model(vs.drop_first())
    }
}

pub open spec fn record_model(r: Record) -> RecordModel
    decreases r,
{
    RecordModel { fields: values_model(r.fields@) }
}

/// The model of a record list is the record models, in order.
pub broadcast proof fn lemma_records_model(rs: Seq<Record>)
    ensures
        #![trigger records_model(rs)]
        records_model(rs).len() == rs.len(),
        forall|i: int| 0 <= i < rs.len() ==> records_model(rs)[i] == record_model(rs[i]),
    decreases rs.len(),
{
    if rs.len() > 0 {
        lemma_records_model(rs.drop_first());
    }
}

/// The model of a value list is the value models, in order.
pub broadcast proof fn lemma_values_model(vs: Seq<FieldValue>)
    ensures
        #![trigger values_model(vs)]
        values_model(vs).len() == vs.len(),
        forall|i: int| 0 <= i < vs.len() ==> values_model(vs)[i] == field_value_model(vs[i]),
    decreases vs.len(),
{
    if vs.len() > 0 {
        lemma_values_model(vs.drop_first());
    }
}

impl View for Record {
    type V = RecordModel;

    open spec fn view(&self) -> RecordModel {
        record_model(*self)
    }
}

impl View for FieldValue {
    type V = FieldValueModel;

    open spec fn view(&self) -> FieldValueModel {
        field_value_model(*self)
    }
}

/// The default value a field takes when its role finds nothing in the
/// input: absent option, empty text, empty sequence.
pub open spec fn default_value(f: FieldModel) -> FieldValueModel {
    match f {
        FieldModel::Attribute { .. } => FieldValueModel::Attr(None),
        FieldModel::Text => FieldValueModel::Text(Seq::empty()),
        FieldModel::FlattenText { .. } => FieldValueModel::Flatten(None),
        FieldModel::Child { .. } => FieldValueModel::Child(None),
        FieldModel::Children { .. } => FieldValueModel::Children(Seq::empty()),
    }
}

/// Whether `v` has the shape and scalar kind the role `f` declares, every
/// nested record matching its nested schema, and a required attribute
/// being present.
pub open spec fn wf_field_value(v: FieldValueModel, f: FieldModel) -> bool
    decreases v,
{
    match f {
        FieldModel::Attribute { kind, presence, .. } => match v {
            FieldValueModel::Attr(o) => match o {
                Some(s) => kind_of(s) == kind && scalar_fits(s),
                None => presence == Presence::Optional,
            },
            _ => false,
        },
        FieldModel::Text => v is Text,
        FieldModel::FlattenText { .. } => v is Flatten,
        FieldModel::Child { schema, .. } => match v {
            FieldValueModel::Child(o) => match o {
                Some(r) => wf_record(r, schema),
                None => true,
            },
            _ => false,
        },
        FieldModel::Children { schema, .. } => match v {
            FieldValueModel::Children(rs) => forall|i: int|
                0 <= i < rs.len() ==> wf_record(#[trigger] rs[i], schema),
            _ => false,
        },
    }
}

/// Nesting height of one field value: how deep its records reach.
pub open spec fn value_height(v: FieldValueModel) -> nat
    decreases v,
{
    match v {
        FieldValueModel::Child(o) => match o {
            Some(r) => 1 + record_height(r),
            None => 0,
        },
        FieldValueModel::Children(rs) => records_height(rs),
        _ => 0,
    }
}

/// Nesting height of a record list: one more than the deepest entry.
pub open spec fn records_height(rs: Seq<RecordModel>) -> nat
    decreases rs,
{
    if rs.len() == 0 {
        0
    } else {
        let h0 = 1 + record_height(rs[0]);
        let hr = records_height(rs.drop_first());
        if h0 > hr {
            h0
        } else {
            hr
        }
    }
}

/// Nesting height of a record.
pub open spec fn record_height(r: RecordModel) -> nat
    decreases r,
{
    1 + heights(r.fields)
}

/// Nesting height of a value list: the deepest value.
pub open spec fn heights(vs: Seq<FieldValueModel>) -> nat
    decreases vs,
{
    if vs.len() == 0 {
        0
    } else {
        let h0 = value_height(vs[0]);
        let hr = heights(vs.drop_first());
        if h0 > hr {
            h0
        } else {
            hr
        }
    }
}

/// A list is at least as high as each of its values.
pub proof fn lemma_heights(vs: Seq<FieldValueModel>, i: int)
    requires
        0 <= i < vs.len(),
    ensures
        heights(vs) >= value_height(vs[i]),
    decreases vs.len(),
{
    if i > 0 {
        lemma_heights(vs.drop_first(), i - 1);
    }
}

/// A record list is higher than each of its entries.
pub proof fn lemma_records_height(rs: Seq<RecordModel>, i: int)
    requires
        0 <= i < rs.len(),
    ensures
        records_height(rs) >= 1 + record_height(rs[i]),
    decreases rs.len(),
{
    if i > 0 {
        lemma_records_height(rs.drop_first(), i - 1);
    }
}

/// A nested single child is strictly lower than its record.
pub proof fn lemma_child_height(r: RecordModel, i: int, c: RecordModel)
    requires
        0 <= i < r.fields.len(),
        r.fields[i] == FieldValueModel::Child(Some(c)),
    ensures
        record_height(c) < record_height(r),
{
    lemma_heights(r.fields, i);
}

/// A nested repeated child is strictly lower than its record.
pub proof fn lemma_children_height(r: RecordModel, i: int, rs: Seq<RecordModel>, j: int)
    requires
        0 <= i < r.fields.len(),
        r.fields[i] == FieldValueModel::Children(rs),
        0 <= j < rs.len(),
    ensures
        record_height(rs[j]) < record_height(r),
{
    lemma_heights(r.fields, i);
    lemma_records_height(rs, j);
}

/// A record the schema `s` describes: exactly one value per field, each of
/// the declared shape.
pub open spec fn wf_record(r: RecordModel, s: SchemaModel) -> bool
    decreases r,
{
    &&& r.fields.len() == s.fields.len()
    &&& forall|i: int|
        0 <= i < r.fields.len() ==> wf_field_value(#[trigger] r.fields[i], s.fields[i])
}

} // verus!
