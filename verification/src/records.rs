//! Concrete document records bound through the engine: each type carries
//! its schema and converts to and from the generic record shape.

use vstd::prelude::*;
use crate::error::{Error, ErrorModel};
use crate::scalar::{Scalar, ScalarModel, ScalarKind};
use crate::schema::{Field, FieldModel, Schema, SchemaModel, Presence, lemma_fields_model};
use crate::value::{FieldValue, FieldValueModel, Record, RecordModel, lemma_values_model};

verus! {

/// Specifies the break type of a break.
///
/// The default value is `TextWrapping`.
#[derive(Debug, Clone, Copy, PartialEq, Eq, Structural)]
pub enum BreakType {
    /// Text restarts on the next column.
    Column,
    /// Text restarts on the next page.
    Page,
    /// Text restarts on the next line.
    TextWrapping,
}

/// The attribute text of a break type.
pub open spec fn break_ty_chars(t: BreakType) -> Seq<char> {
    match t {
        BreakType::Column => "column"@,
        BreakType::Page => "page"@,
        BreakType::TextWrapping => "textWrapping"@,
    }
}

impl BreakType {
    /// The attribute text of this break type.
    pub fn as_str(&self) -> (r: &'static str)
        ensures
            r@ == break_ty_chars(*self),
    {
        match self {
            BreakType::Column => "column",
            BreakType::Page => "page",
            BreakType::TextWrapping => "textWrapping",
        }
    }

    /// The break type an attribute text names, or `UnknownValue`.
    pub fn parse(s: &str) -> (r: Result<BreakType, Error>)
        ensures
            match r {
                Ok(t) => break_ty_chars(t) == s@,
                Err(e) => s@ != "column"@ && s@ != "page"@ && s@ != "textWrapping"@ && e@ == (
                ErrorModel::UnknownValue { found: s@ }),
            },
    {
        if crate::token::str_eq(s, "column") {
            Ok(BreakType::Column)
        } else if crate::token::str_eq(s, "page") {
            Ok(BreakType::Page)
        } else if crate::token::str_eq(s, "textWrapping") {
            Ok(BreakType::TextWrapping)
        } else {
            Err(Error::UnknownValue { found: s.to_owned() })
        }
    }
}

/// Break: a text, column or page break inside a run.
#[derive(Debug, PartialEq)]
pub struct Break {
    /// Specifies the break type of this break.
    pub ty: Option<BreakType>,
}

/// The schema a break binds to: the `w:br` element with one optional
/// string attribute `w:type` and no body fields.
pub open spec fn break_schema_model() -> SchemaModel {
    SchemaModel {
        tag: "w:br"@,
        leaf: false,
        fields: seq![
            FieldModel::Attribute {
                name: "w:type"@,
                kind: ScalarKind::Str,
                presence: Presence::Optional,
            },
        ],
    }
}

/// The generic record a break holds.
pub open spec fn break_record_model(b: Break) -> RecordModel {
    RecordModel {
        fields: seq![
            FieldValueModel::Attr(
                match b.ty {
                    Some(t) => Some(ScalarModel::Str(break_ty_chars(t))),
                    None => None,
                },
            ),
        ],
    }
}

/// The break a generic record holds, or a typed error.
pub open spec fn break_of_record(r: RecordModel) -> Result<Break, ErrorModel> {
    if r.fields.len() != 1 {
        Err(ErrorModel::UnexpectedEvent)
    } else {
        match r.fields[0] {
            FieldValueModel::Attr(o) => match o {
                None => Ok(Break { ty: None }),
                Some(sc) => match sc {
                    ScalarModel::Str(s) => if s == "column"@ {
                        Ok(Break { ty: Some(BreakType::Column) })
                    } else if s == "page"@ {
                        Ok(Break { ty: Some(BreakType::Page) })
                    } else if s == "textWrapping"@ {
                        Ok(Break { ty: Some(BreakType::TextWrapping) })
                    } else {
                        Err(ErrorModel::UnknownValue { found: s })
                    },
                    _ => Err(ErrorModel::UnexpectedEvent),
                },
            },
            _ => Err(ErrorModel::UnexpectedEvent),
        }
    }
}

impl Break {
    /// This type's schema descriptor.
    pub fn schema() -> (r: Schema)
        ensures
            r@ == break_schema_model(),
    {
        let fields: Vec<Field> = vec![
            Field::Attribute {
                name: String::from_str("w:type"),
                kind: ScalarKind::Str,
                presence: Presence::Optional,
            },
        ];
        let r = Schema { tag: String::from_str("w:br"), leaf: false, fields };
        proof {
            lemma_fields_model(r.fields@);
            assert(r@.fields =~= break_schema_model().fields);
            assert(r@ =~= break_schema_model());
        }
        r
    }

    /// The generic record this break writes as.
    pub fn to_record(&self) -> (r: Record)
        ensures
            r@ == break_record_model(*self),
    {
        let value: Option<Scalar> = match &self.ty {
            Some(t) => Some(Scalar::Str(t.as_str().to_owned())),
            None => None,
        };
        let fields: Vec<FieldValue> = vec![FieldValue::Attr(value)];
        let r = Record { fields };
        proof {
            lemma_values_model(r.fields@);
            assert(r@.fields =~= break_record_model(*self).fields);
            assert(r@ =~= break_record_model(*self));
        }
        r
    }

    /// The break a generic record holds.
    pub fn from_record(r: &Record) -> (out: Result<Break, Error>)
        ensures
            match out {
                Ok(b) => break_of_record(r@) == Ok::<_, ErrorModel>(b),
                Err(e) => break_of_record(r@) == Err::<Break, _>(e@),
            },
    {
        proof {
            lemma_values_model(r.fields@);
            reveal_strlit("column");
            reveal_strlit("page");
            reveal_strlit("textWrapping");
            assert("column"@.len() == 6 && "page"@.len() == 4 && "textWrapping"@.len() == 12);
        }
        if r.fields.len() != 1 {
            return Err(Error::UnexpectedEvent);
        }
        match &r.fields[0] {
            FieldValue::Attr(o) => match o {
                None => Ok(Break { ty: None }),
                Some(sc) => match sc {
                    Scalar::Str(s) => match BreakType::parse(s.as_str()) {
                        Ok(t) => Ok(Break { ty: Some(t) }),
                        Err(e) => Err(e),
                    },
                    _ => Err(Error::UnexpectedEvent),
                },
            },
            _ => Err(Error::UnexpectedEvent),
        }
    }
}

impl Default for Break {
    /// A break with no type set.
    fn default() -> (r: Break)
        ensures
            r == (Break { ty: None::<BreakType> }),
    {
        Break { ty: None }
    }
}

impl From<BreakType> for Break {
    fn from(val: BreakType) -> (r: Break) {
        Break { ty: Some(val) }
    }
}

impl vstd::std_specs::convert::FromSpecImpl<BreakType> for Break {
    open spec fn obeys_from_spec() -> bool {
        true
    }

    open spec fn from_spec(val: BreakType) -> Break {
        Break { ty: Some(val) }
    }
}

/// LastRenderedPageBreak: where the last rendering placed a page break.
#[derive(Debug, PartialEq)]
pub struct LastRenderedPageBreak {}

/// The schema of the `w:lastRenderedPageBreak` element, without fields.
pub open spec fn last_rendered_page_break_schema_model() -> SchemaModel {
    SchemaModel { tag: "w:lastRenderedPageBreak"@, leaf: false, fields: Seq::empty() }
}

impl LastRenderedPageBreak {
    /// This type's schema descriptor.
    pub fn schema() -> (r: Schema)
        ensures
            r@ == last_rendered_page_break_schema_model(),
    {
        let r = Schema {
            tag: String::from_str("w:lastRenderedPageBreak"),
            leaf: false,
            fields: Vec::new(),
        };
        proof {
            lemma_fields_model(r.fields@);
            assert(r@.fields =~= last_rendered_page_break_schema_model().fields);
            assert(r@ =~= last_rendered_page_break_schema_model());
        }
        r
    }

    /// The generic record this value writes as: no fields.
    pub fn to_record(&self) -> (r: Record)
        ensures
            r@ == (RecordModel { fields: Seq::<FieldValueModel>::empty() }),
    {
        let r = Record { fields: Vec::new() };
        proof {
            lemma_values_model(r.fields@);
            assert(r@.fields =~= Seq::<FieldValueModel>::empty());
        }
        r
    }
}

impl Default for LastRenderedPageBreak {
    fn default() -> (r: LastRenderedPageBreak)
        ensures
            r == (LastRenderedPageBreak {  }),
    {
        LastRenderedPageBreak {  }
    }
}

/// Double strike formatting.
#[derive(Debug, PartialEq)]
pub struct Dstrike {
    pub value: Option<bool>,
}

/// The schema of the `w:dstrike` element: one optional boolean attribute
/// `w:val` and no body fields.
pub open spec fn dstrike_schema_model() -> SchemaModel {
    SchemaModel {
        tag: "w:dstrike"@,
        leaf: false,
        fields: seq![
            FieldModel::Attribute {
                name: "w:val"@,
                kind: ScalarKind::Boolean,
                presence: Presence::Optional,
            },
        ],
    }
}

/// The generic record a double strike holds.
pub open spec fn dstrike_record_model(d: Dstrike) -> RecordModel {
    RecordModel {
        fields: seq![
            FieldValueModel::Attr(
                match d.value {
                    Some(b) => Some(ScalarModel::Boolean(b)),
                    None => None,
                },
            ),
        ],
    }
}

/// The double strike a generic record holds.
pub open spec fn dstrike_of_record(r: RecordModel) -> Result<Dstrike, ErrorModel> {
    if r.fields.len() != 1 {
        Err(ErrorModel::UnexpectedEvent)
    } else {
        match r.fields[0] {
            FieldValueModel::Attr(o) => match o {
                None => Ok(Dstrike { value: None }),
                Some(sc) => match sc {
                    ScalarModel::Boolean(b) => Ok(Dstrike { value: Some(b) }),
                    _ => Err(ErrorModel::UnexpectedEvent),
                },
            },
            _ => Err(ErrorModel::UnexpectedEvent),
        }
    }
}

impl Dstrike {
    /// This type's schema descriptor.
    pub fn schema() -> (r: Schema)
        ensures
            r@ == dstrike_schema_model(),
    {
        let fields: Vec<Field> = vec![
            Field::Attribute {
                name: String::from_str("w:val"),
                kind: ScalarKind::Boolean,
                presence: Presence::Optional,
            },
        ];
        let r = Schema { tag: String::from_str("w:dstrike"), leaf: false, fields };
        proof {
            lemma_fields_model(r.fields@);
            assert(r@.fields =~= dstrike_schema_model().fields);
            assert(r@ =~= dstrike_schema_model());
        }
        r
    }

    /// The generic record this value writes as.
    pub fn to_record(&self) -> (r: Record)
        ensures
            r@ == dstrike_record_model(*self),
    {
        let value: Option<Scalar> = match &self.value {
            Some(b) => Some(Scalar::Boolean(*b)),
            None => None,
        };
        let fields: Vec<FieldValue> = vec![FieldValue::Attr(value)];
        let r = Record { fields };
        proof {
            lemma_values_model(r.fields@);
            assert(r@.fields =~= dstrike_record_model(*self).fields);
            assert(r@ =~= dstrike_record_model(*self));
        }
        r
    }

    /// The double strike a generic record holds.
    pub fn from_record(r: &Record) -> (out: Result<Dstrike, Error>)
        ensures
            match out {
                Ok(d) => dstrike_of_record(r@) == Ok::<_, ErrorModel>(d),
                Err(e) => dstrike_of_record(r@) == Err::<Dstrike, _>(e@),
            },
    {
        proof {
            lemma_values_model(r.fields@);
        }
        if r.fields.len() != 1 {
            return Err(Error::UnexpectedEvent);
        }
        match &r.fields[0] {
            FieldValue::Attr(o) => match o {
                None => Ok(Dstrike { value: None }),
                Some(sc) => match sc {
                    Scalar::Boolean(b) => Ok(Dstrike { value: Some(*b) }),
                    _ => Err(Error::UnexpectedEvent),
                },
            },
            _ => Err(Error::UnexpectedEvent),
        }
    }
}

impl Default for Dstrike {
    /// A double strike with no value set.
    fn default() -> (r: Dstrike)
        ensures
            r == (Dstrike { value: None::<bool> }),
    {
        Dstrike { value: None }
    }
}

impl From<bool> for Dstrike {
    fn from(val: bool) -> (r: Dstrike) {
        Dstrike { value: Some(val) }
    }
}

impl vstd::std_specs::convert::FromSpecImpl<bool> for Dstrike {
    open spec fn obeys_from_spec() -> bool {
        true
    }

    open spec fn from_spec(val: bool) -> Dstrike {
        Dstrike { value: Some(val) }
    }
}

/// Vertical position formatting, in half-points.
#[derive(Debug, PartialEq)]
pub struct Position {
    pub value: Option<i64>,
}

/// The schema of the `w:position` element: one optional integer attribute
/// `w:val` and no body fields.
pub open spec fn position_schema_model() -> SchemaModel {
    SchemaModel {
        tag: "w:position"@,
        leaf: false,
        fields: seq![
            FieldModel::Attribute {
                name: "w:val"@,
                kind: ScalarKind::Int,
                presence: Presence::Optional,
            },
        ],
    }
}

/// The generic record a position holds.
pub open spec fn position_record_model(p: Position) -> RecordModel {
    RecordModel {
        fields: seq![
            FieldValueModel::Attr(
                match p.value {
                    Some(n) => Some(ScalarModel::Int(n as int)),
                    None => None,
                },
            ),
        ],
    }
}

/// The position a generic record holds.
pub open spec fn position_of_record(r: RecordModel) -> Result<Position, ErrorModel> {
    if r.fields.len() != 1 {
        Err(ErrorModel::UnexpectedEvent)
    } else {
        match r.fields[0] {
            FieldValueModel::Attr(o) => match o {
                None => Ok(Position { value: None }),
                Some(sc) => match sc {
                    ScalarModel::Int(n) => if i64::MIN as int <= n <= i64::MAX as int {
                        Ok(Position { value: Some(n as i64) })
                    } else {
                        Err(ErrorModel::UnexpectedEvent)
                    },
                    _ => Err(ErrorModel::UnexpectedEvent),
                },
            },
            _ => Err(ErrorModel::UnexpectedEvent),
        }
    }
}

impl Position {
    /// This type's schema descriptor.
    pub fn schema() -> (r: Schema)
        ensures
            r@ == position_schema_model(),
    {
        let fields: Vec<Field> = vec![
            Field::Attribute {
                name: String::from_str("w:val"),
                kind: ScalarKind::Int,
                presence: Presence::Optional,
            },
        ];
        let r = Schema { tag: String::from_str("w:position"), leaf: false, fields };
        proof {
            lemma_fields_model(r.fields@);
            assert(r@.fields =~= position_schema_model().fields);
            assert(r@ =~= position_schema_model());
        }
        r
    }

    /// The generic record this value writes as.
    pub fn to_record(&self) -> (r: Record)
        ensures
            r@ == position_record_model(*self),
    {
        let value: Option<Scalar> = match &self.value {
            Some(n) => Some(Scalar::Int(*n)),
            None => None,
        };
        let fields: Vec<FieldValue> = vec![FieldValue::Attr(value)];
        let r = Record { fields };
        proof {
            lemma_values_model(r.fields@);
            assert(r@.fields =~= position_record_model(*self).fields);
            assert(r@ =~= position_record_model(*self));
        }
        r
    }

    /// The position a generic record holds.
    pub fn from_record(r: &Record) -> (out: Result<Position, Error>)
        ensures
            match out {
                Ok(p) => position_of_record(r@) == Ok::<_, ErrorModel>(p),
                Err(e) => position_of_record(r@) == Err::<Position, _>(e@),
            },
    {
        proof {
            lemma_values_model(r.fields@);
        }
        if r.fields.len() != 1 {
            return Err(Error::UnexpectedEvent);
        }
        match &r.fields[0] {
            FieldValue::Attr(o) => match o {
                None => Ok(Position { value: None }),
                Some(sc) => match sc {
                    Scalar::Int(n) => Ok(Position { value: Some(*n) }),
                    _ => Err(Error::UnexpectedEvent),
                },
            },
            _ => Err(Error::UnexpectedEvent),
        }
    }
}

impl Default for Position {
    /// A position with no value set.
    fn default() -> (r: Position)
        ensures
            r == (Position { value: None::<i64> }),
    {
        Position { value: None }
    }
}

} // verus!
