//! The record reader: consumes a token stream against a schema and produces
//! a populated record or a typed error.  Unknown sibling elements are
//! skipped whole; a leaf schema or a self-closing tag stops after the
//! attributes.

use vstd::prelude::*;
use vstd::pervasive::VecAdditionalExecFns;
use crate::error::{Error, ErrorModel};
use crate::token::{Attr, AttrModel, Token, TokenModel, attrs_model, tokens_model, attr_lookup,
    find_attr, string_eq};
use crate::scalar::coerce_chars;
use crate::scalar::coerce_scalar;
use crate::schema::{Field, FieldModel, Schema, SchemaModel, Presence, fields_model,
    lemma_fields_model, body_field_index, text_field_index, body_tag};
use crate::value::{FieldValue, FieldValueModel, Record, RecordModel, values_model,
    lemma_values_model, default_value};

verus! {

/// Where reading continues after a nested read that returned `next`.  A
/// successful nested read always moves forward and never past `hi`, the
/// stream's length, so this equals `next`; the guards keep the definitions
/// below visibly well founded.
pub open spec fn resume(pos: int, next: int, hi: int) -> int {
    let n = if next <= pos {
        pos + 1
    } else {
        next
    };
    if n > hi {
        hi
    } else {
        n
    }
}

/// The initial field values: each attribute field looked up in the start
/// tag's attribute list and coerced to its kind, every other field at its
/// default.  `tag` only names the element in a `MissingField` error.
pub open spec fn read_attrs(
    fields: Seq<FieldModel>,
    attrs: Seq<AttrModel>,
    tag: Seq<char>,
) -> Result<Seq<FieldValueModel>, ErrorModel>
    decreases fields.len(),
{
    if fields.len() == 0 {
        Ok(Seq::empty())
    } else {
        let head: Result<FieldValueModel, ErrorModel> = match fields[0] {
            FieldModel::Attribute { name, kind, presence } => match attr_lookup(attrs, name) {
                Some(text) => match coerce_chars(text, kind) {
                    Ok(v) => Ok(FieldValueModel::Attr(Some(v))),
                    Err(e) => Err(e),
                },
                None => if presence == Presence::Required {
                    Err(ErrorModel::MissingField { name: tag, field: name })
                } else {
                    Ok(FieldValueModel::Attr(None))
                },
            },
            f => Ok(default_value(f)),
        };
        match head {
            Err(e) => Err(e),
            Ok(v) => match read_attrs(fields.drop_first(), attrs, tag) {
                Ok(rest) => Ok(seq![v] + rest),
                Err(e) => Err(e),
            },
        }
    }
}

/// Text concatenated onto the `Text` field at `i`.
pub open spec fn append_text(
    acc: Seq<FieldValueModel>,
    i: int,
    content: Seq<char>,
) -> Seq<FieldValueModel> {
    if 0 <= i < acc.len() && acc[i] is Text {
        acc.update(i, FieldValueModel::Text(acc[i]->Text_0 + content))
    } else {
        acc
    }
}

/// Text assigned to the `FlattenText` field at `i`; a later wrapper
/// occurrence overwrites an earlier one.
pub open spec fn set_flatten(
    acc: Seq<FieldValueModel>,
    i: int,
    text: Seq<char>,
) -> Seq<FieldValueModel> {
    if 0 <= i < acc.len() && acc[i] is Flatten {
        acc.update(i, FieldValueModel::Flatten(Some(text)))
    } else {
        acc
    }
}

/// A record assigned to the `Child` field at `i`.
pub open spec fn set_child(
    acc: Seq<FieldValueModel>,
    i: int,
    rec: RecordModel,
) -> Seq<FieldValueModel> {
    if 0 <= i < acc.len() && acc[i] is Child {
        acc.update(i, FieldValueModel::Child(Some(rec)))
    } else {
        acc
    }
}

/// A record appended to the `Children` field at `i`.
pub open spec fn push_child(
    acc: Seq<FieldValueModel>,
    i: int,
    rec: RecordModel,
) -> Seq<FieldValueModel> {
    if 0 <= i < acc.len() && acc[i] is Children {
        acc.update(i, FieldValueModel::Children(acc[i]->Children_0.push(rec)))
    } else {
        acc
    }
}

/// Reading one element at `pos`: its tag must equal the schema's; its
/// attributes fill the attribute fields; a self-closing tag or a leaf
/// schema stops there, otherwise the body is consumed up to the matching
/// end tag.
pub open spec fn read_elem(ts: Seq<TokenModel>, pos: int, s: SchemaModel) -> Result<
    (RecordModel, int),
    ErrorModel,
>
    decreases ts.len() - pos, 1int,
{
    if pos < 0 || pos >= ts.len() {
        Err(ErrorModel::UnexpectedEof)
    } else {
        match ts[pos] {
            TokenModel::Empty { name, attrs } => if name != s.tag {
                Err(ErrorModel::UnexpectedTag { expected: s.tag, found: name })
            } else {
                match read_attrs(s.fields, attrs, s.tag) {
                    Ok(vals) => Ok((RecordModel { fields: vals }, pos + 1)),
                    Err(e) => Err(e),
                }
            },
            TokenModel::Start { name, attrs } => if name != s.tag {
                Err(ErrorModel::UnexpectedTag { expected: s.tag, found: name })
            } else {
                match read_attrs(s.fields, attrs, s.tag) {
                    Err(e) => Err(e),
                    Ok(vals) => if s.leaf {
                        Ok((RecordModel { fields: vals }, pos + 1))
                    } else {
                        read_body(ts, pos + 1, s, vals)
                    },
                }
            },
            _ => Err(ErrorModel::UnexpectedEvent),
        }
    }
}

/// Reading body tokens until the matching end tag: text accumulates into
/// the `Text` field, known child tags dispatch to their fields, unknown
/// elements are skipped whole, and end of input is an error.
pub open spec fn read_body(
    ts: Seq<TokenModel>,
    pos: int,
    s: SchemaModel,
    acc: Seq<FieldValueModel>,
) -> Result<(RecordModel, int), ErrorModel>
    decreases ts.len() - pos, 3int,
{
    if pos < 0 || pos >= ts.len() {
        Err(ErrorModel::UnexpectedEof)
    } else {
        match ts[pos] {
            TokenModel::End { name } => if name == s.tag {
                Ok((RecordModel { fields: acc }, pos + 1))
            } else {
                Err(ErrorModel::UnexpectedTag { expected: s.tag, found: name })
            },
            TokenModel::Text { content } => match text_field_index(s.fields) {
                Some(i) => read_body(ts, pos + 1, s, append_text(acc, i, content)),
                None => Err(ErrorModel::UnexpectedEvent),
            },
            TokenModel::Start { name, .. } => read_body_elem(ts, pos, s, acc, name),
            TokenModel::Empty { name, .. } => read_body_elem(ts, pos, s, acc, name),
        }
    }
}

/// One body element: dispatched to the first field whose tag is `name`, or
/// skipped whole when no field answers to it.
pub open spec fn read_body_elem(
    ts: Seq<TokenModel>,
    pos: int,
    s: SchemaModel,
    acc: Seq<FieldValueModel>,
    name: Seq<char>,
) -> Result<(RecordModel, int), ErrorModel>
    decreases ts.len() - pos, 2int,
{
    if pos < 0 || pos >= ts.len() {
        Err(ErrorModel::UnexpectedEof)
    } else {
        match body_field_index(s.fields, name) {
            None => match skip_elem(ts, pos) {
                Ok(next) => read_body(ts, resume(pos, next, ts.len() as int), s, acc),
                Err(e) => Err(e),
            },
            Some(i) => match s.fields[i] {
                FieldModel::FlattenText { .. } => match read_flatten(ts, pos) {
                    Ok((text, next)) => read_body(
                        ts,
                        resume(pos, next, ts.len() as int),
                        s,
                        set_flatten(acc, i, text),
                    ),
                    Err(e) => Err(e),
                },
                FieldModel::Child { schema, .. } => if 0 <= i < acc.len() && acc[i] matches
                    FieldValueModel::Child(Some(_)) {
                    Err(ErrorModel::UnexpectedEvent)
                } else {
                    match read_elem(ts, pos, schema) {
                        Ok((rec, next)) => read_body(
                            ts,
                            resume(pos, next, ts.len() as int),
                            s,
                            set_child(acc, i, rec),
                        ),
                        Err(e) => Err(e),
                    }
                },
                FieldModel::Children { schema, .. } => match read_elem(ts, pos, schema) {
                    Ok((rec, next)) => read_body(
                        ts,
                        resume(pos, next, ts.len() as int),
                        s,
                        push_child(acc, i, rec),
                    ),
                    Err(e) => Err(e),
                },
                _ => Err(ErrorModel::UnexpectedEvent),
            },
        }
    }
}

/// The position just past the element starting at `pos`, whatever it
/// holds.
pub open spec fn skip_elem(ts: Seq<TokenModel>, pos: int) -> Result<int, ErrorModel>
    decreases ts.len() - pos,
{
    if pos < 0 || pos >= ts.len() {
        Err(ErrorModel::UnexpectedEof)
    } else {
        match ts[pos] {
            TokenModel::Empty { .. } => Ok(pos + 1),
            TokenModel::Start { .. } => skip_rest(ts, pos + 1, 0),
            _ => Err(ErrorModel::UnexpectedEvent),
        }
    }
}

/// Skipping forward past `depth` nested open elements and the current one.
pub open spec fn skip_rest(ts: Seq<TokenModel>, pos: int, depth: nat) -> Result<int, ErrorModel>
    decreases ts.len() - pos,
{
    if pos < 0 || pos >= ts.len() {
        Err(ErrorModel::UnexpectedEof)
    } else {
        match ts[pos] {
            TokenModel::Start { .. } => skip_rest(ts, pos + 1, depth + 1),
            TokenModel::End { .. } => if depth == 0 {
                Ok(pos + 1)
            } else {
                skip_rest(ts, pos + 1, (depth - 1) as nat)
            },
            _ => skip_rest(ts, pos + 1, depth),
        }
    }
}

/// Reading a flattened-text wrapper at `pos`: its inner text runs,
/// concatenated; nested elements are structurally invalid there.
pub open spec fn read_flatten(ts: Seq<TokenModel>, pos: int) -> Result<
    (Seq<char>, int),
    ErrorModel,
>
    decreases ts.len() - pos,
{
    if pos < 0 || pos >= ts.len() {
        Err(ErrorModel::UnexpectedEof)
    } else {
        match ts[pos] {
            TokenModel::Empty { .. } => Ok((Seq::empty(), pos + 1)),
            TokenModel::Start { name, .. } => read_flatten_text(ts, pos + 1, name, Seq::empty()),
            _ => Err(ErrorModel::UnexpectedEvent),
        }
    }
}

/// The text runs up to the wrapper's end tag.
pub open spec fn read_flatten_text(
    ts: Seq<TokenModel>,
    pos: int,
    name: Seq<char>,
    acc: Seq<char>,
) -> Result<(Seq<char>, int), ErrorModel>
    decreases ts.len() - pos,
{
    if pos < 0 || pos >= ts.len() {
        Err(ErrorModel::UnexpectedEof)
    } else {
        match ts[pos] {
            TokenModel::Text { content } => read_flatten_text(ts, pos + 1, name, acc + content),
            TokenModel::End { name: n } => if n == name {
                Ok((acc, pos + 1))
            } else {
                Err(ErrorModel::UnexpectedTag { expected: name, found: n })
            },
            _ => Err(ErrorModel::UnexpectedEvent),
        }
    }
}

/// The first field whose body tag is `name`.
fn body_index(fields: &Vec<Field>, name: &String) -> (r: Option<usize>)
    ensures
        match r {
            Some(i) => body_field_index(fields_model(fields@), name@) == Some(i as int) && i
                < fields@.len(),
            None => body_field_index(fields_model(fields@), name@) is None,
        },
{
    let ghost fm = fields_model(fields@);
    let n = fields.len();
    proof {
        lemma_fields_model(fields@);
        assert(fm.skip(0) =~= fm);
    }
    for i in 0..n
        invariant
            n == fields.len(),
            fm == fields_model(fields@),
            fm.len() == fields@.len(),
            body_field_index(fm, name@) == match body_field_index(fm.skip(i as int), name@) {
                Some(k) => Some(k + i),
                None => None,
            },
    {
        proof {
            lemma_fields_model(fields@);
            assert(fm.skip(i as int)[0] == fm[i as int]);
            assert(fm.skip(i as int).drop_first() =~= fm.skip(i + 1));
        }
        let hit = match &fields[i] {
            Field::FlattenText { tag } => string_eq(tag, name),
            Field::Child { tag, .. } => string_eq(tag, name),
            Field::Children { tag, .. } => string_eq(tag, name),
            _ => false,
        };
        proof {
            assert(hit == (body_tag(fm[i as int]) == Some(name@)));
        }
        if hit {
            return Some(i);
        }
    }
    proof {
        assert(fm.skip(n as int) =~= Seq::<FieldModel>::empty());
    }
    None
}

/// The first `Text` field.
fn text_index(fields: &Vec<Field>) -> (r: Option<usize>)
    ensures
        match r {
            Some(i) => text_field_index(fields_model(fields@)) == Some(i as int) && i
                < fields@.len(),
            None => text_field_index(fields_model(fields@)) is None,
        },
{
    let ghost fm = fields_model(fields@);
    let n = fields.len();
    proof {
        lemma_fields_model(fields@);
        assert(fm.skip(0) =~= fm);
    }
    for i in 0..n
        invariant
            n == fields.len(),
            fm == fields_model(fields@),
            fm.len() == fields@.len(),
            text_field_index(fm) == match text_field_index(fm.skip(i as int)) {
                Some(k) => Some(k + i),
                None => None,
            },
    {
        proof {
            lemma_fields_model(fields@);
            assert(fm.skip(i as int)[0] == fm[i as int]);
            assert(fm.skip(i as int).drop_first() =~= fm.skip(i + 1));
        }
        let hit = match &fields[i] {
            Field::Text => true,
            _ => false,
        };
        if hit {
            return Some(i);
        }
    }
    proof {
        assert(fm.skip(n as int) =~= Seq::<FieldModel>::empty());
    }
    None
}

/// Fills the initial field values from a start tag's attribute list.
fn take_attrs(fields: &Vec<Field>, attrs: &Vec<Attr>, tag: &String) -> (r: Result<
    Vec<FieldValue>,
    Error,
>)
    ensures
        match r {
            Ok(vals) => read_attrs(fields_model(fields@), attrs_model(attrs@), tag@) == Ok::<
                _,
                ErrorModel,
            >(values_model(vals@)) && vals@.len() == fields@.len(),
            Err(e) => read_attrs(fields_model(fields@), attrs_model(attrs@), tag@) == Err::<
                Seq<FieldValueModel>,
                _,
            >(e@),
        },
{
    let ghost fm = fields_model(fields@);
    let ghost am = attrs_model(attrs@);
    let n = fields.len();
    let mut out: Vec<FieldValue> = Vec::new();
    proof {
        lemma_fields_model(fields@);
        assert(fm.skip(0) =~= fm);
        assert(values_model(out@) =~= Seq::<FieldValueModel>::empty());
    }
    for i in 0..n
        invariant
            n == fields.len(),
            fm == fields_model(fields@),
            am == attrs_model(attrs@),
            fm.len() == fields@.len(),
            out@.len() == i,
            read_attrs(fm.skip(i as int), am, tag@) is Ok ==> read_attrs(fm, am, tag@)
                == Ok::<_, ErrorModel>(
                values_model(out@) + read_attrs(fm.skip(i as int), am, tag@)->Ok_0,
            ),
            read_attrs(fm.skip(i as int), am, tag@) is Err ==> read_attrs(fm, am, tag@)
                == read_attrs(fm.skip(i as int), am, tag@),
    {
        proof {
            lemma_fields_model(fields@);
            lemma_values_model(out@);
            assert(fm.skip(i as int)[0] == fm[i as int]);
            assert(fm.skip(i as int).drop_first() =~= fm.skip(i + 1));
        }
        let ghost out_pre = out@;
        match &fields[i] {
            Field::Attribute { name, kind, presence } => {
                match find_attr(attrs, name.as_str()) {
                    Some(text) => match coerce_scalar(text.as_str(), *kind) {
                        Ok(v) => out.push(FieldValue::Attr(Some(v))),
                        Err(e) => {
                            return Err(e);
                        },
                    },
                    None => {
                        if *presence == Presence::Required {
                            return Err(
                                Error::MissingField { name: tag.clone(), field: name.clone() },
                            );
                        }
                        out.push(FieldValue::Attr(None));
                    },
                }
            },
            Field::Text => out.push(FieldValue::Text(String::new())),
            Field::FlattenText { .. } => out.push(FieldValue::Flatten(None)),
            Field::Child { .. } => out.push(FieldValue::Child(None)),
            Field::Children { .. } => out.push(FieldValue::Children(Vec::new())),
        }
        proof {
            lemma_values_model(out@);
            lemma_values_model(out_pre);
            assert(values_model(out@) =~= values_model(out_pre) + seq![out@[i as int]@]);
            if read_attrs(fm.skip(i + 1), am, tag@) is Ok {
                assert(values_model(out_pre) + (seq![out@[i as int]@] + read_attrs(
                    fm.skip(i + 1),
                    am,
                    tag@,
                )->Ok_0) =~= values_model(out@) + read_attrs(fm.skip(i + 1), am, tag@)->Ok_0);
            }
        }
    }
    proof {
        assert(fm.skip(n as int) =~= Seq::<FieldModel>::empty());
        assert(values_model(out@) + Seq::<FieldValueModel>::empty() =~= values_model(out@));
    }
    Ok(out)
}

/// Skips the element starting at `pos`, however deep.
fn skip_element(ts: &Vec<Token>, pos: usize) -> (r: Result<usize, Error>)
    ensures
        match r {
            Ok(next) => skip_elem(tokens_model(ts@), pos as int) == Ok::<int, ErrorModel>(
                next as int,
            ) && pos < next <= ts@.len(),
            Err(e) => skip_elem(tokens_model(ts@), pos as int) == Err::<int, ErrorModel>(e@),
        },
{
    let ghost tm = tokens_model(ts@);
    if pos >= ts.len() {
        return Err(Error::UnexpectedEof);
    }
    match &ts[pos] {
        Token::Empty { .. } => Ok(pos + 1),
        Token::Start { .. } => {
            let mut cur = pos + 1;
            let mut depth: usize = 0;
            loop
                invariant
                    tm == tokens_model(ts@),
                    tm.len() == ts@.len(),
                    pos < cur,
                    depth < cur - pos,
                    skip_elem(tm, pos as int) == skip_rest(tm, cur as int, depth as nat),
                decreases ts@.len() - cur,
            {
                if cur >= ts.len() {
                    return Err(Error::UnexpectedEof);
                }
                match &ts[cur] {
                    Token::Start { .. } => {
                        depth = depth + 1;
                    },
                    Token::End { .. } => {
                        if depth == 0 {
                            return Ok(cur + 1);
                        }
                        depth = depth - 1;
                    },
                    _ => {},
                }
                cur = cur + 1;
            }
        },
        _ => Err(Error::UnexpectedEvent),
    }
}

/// Reads a flattened-text wrapper element.
fn flatten_element(ts: &Vec<Token>, pos: usize) -> (r: Result<(String, usize), Error>)
    ensures
        match r {
            Ok((text, next)) => read_flatten(tokens_model(ts@), pos as int) == Ok::<
                _,
                ErrorModel,
            >((text@, next as int)) && pos < next <= ts@.len(),
            Err(e) => read_flatten(tokens_model(ts@), pos as int) == Err::<
                (Seq<char>, int),
                _,
            >(e@),
        },
{
    let ghost tm = tokens_model(ts@);
    if pos >= ts.len() {
        return Err(Error::UnexpectedEof);
    }
    match &ts[pos] {
        Token::Empty { .. } => {
            let text = String::new();
            proof {
                assert(text@ =~= Seq::<char>::empty());
            }
            Ok((text, pos + 1))
        },
        Token::Start { name, .. } => {
            let mut cur = pos + 1;
            let mut acc = String::new();
            proof {
                assert(acc@ =~= Seq::<char>::empty());
            }
            loop
                invariant
                    tm == tokens_model(ts@),
                    tm.len() == ts@.len(),
                    pos < cur,
                    read_flatten(tm, pos as int) == read_flatten_text(
                        tm,
                        cur as int,
                        name@,
                        acc@,
                    ),
                decreases ts@.len() - cur,
            {
                if cur >= ts.len() {
                    return Err(Error::UnexpectedEof);
                }
                match &ts[cur] {
                    Token::Text { content } => {
                        acc.append(content.as_str());
                    },
                    Token::End { name: n } => {
                        if string_eq(n, name) {
                            return Ok((acc, cur + 1));
                        }
                        return Err(
                            Error::UnexpectedTag { expected: name.clone(), found: n.clone() },
                        );
                    },
                    _ => {
                        return Err(Error::UnexpectedEvent);
                    },
                }
                cur = cur + 1;
            }
        },
        _ => Err(Error::UnexpectedEvent),
    }
}

/// Reads one element at `pos` against `s`; `Ok` carries the record and the
/// position just past it.
pub fn read_element(ts: &Vec<Token>, pos: usize, s: &Schema) -> (r: Result<
    (Record, usize),
    Error,
>)
    ensures
        match r {
            Ok(p) => read_elem(tokens_model(ts@), pos as int, s@) == Ok::<_, ErrorModel>(
                (p.0@, p.1 as int),
            ) && pos < p.1 <= ts@.len(),
            Err(e) => read_elem(tokens_model(ts@), pos as int, s@) == Err::<
                (RecordModel, int),
                _,
            >(e@),
        },
    decreases ts@.len() - pos, 1int,
{
    let ghost tm = tokens_model(ts@);
    if pos >= ts.len() {
        return Err(Error::UnexpectedEof);
    }
    match &ts[pos] {
        Token::Empty { name, attrs } => {
            if !string_eq(name, &s.tag) {
                return Err(Error::UnexpectedTag { expected: s.tag.clone(), found: name.clone() });
            }
            match take_attrs(&s.fields, attrs, &s.tag) {
                Ok(vals) => Ok((Record { fields: vals }, pos + 1)),
                Err(e) => Err(e),
            }
        },
        Token::Start { name, attrs } => {
            if !string_eq(name, &s.tag) {
                return Err(Error::UnexpectedTag { expected: s.tag.clone(), found: name.clone() });
            }
            match take_attrs(&s.fields, attrs, &s.tag) {
                Err(e) => Err(e),
                Ok(vals) => {
                    if s.leaf {
                        return Ok((Record { fields: vals }, pos + 1));
                    }
                    read_element_body(ts, pos + 1, s, vals)
                },
            }
        },
        _ => Err(Error::UnexpectedEvent),
    }
}

/// Reads body tokens from `pos` until the matching end tag, starting from
/// the attribute-filled values `vals`.
fn read_element_body(ts: &Vec<Token>, pos: usize, s: &Schema, vals: Vec<FieldValue>) -> (r: Result<
    (Record, usize),
    Error,
>)
    requires
        pos <= ts@.len(),
    ensures
        match r {
            Ok(p) => read_body(tokens_model(ts@), pos as int, s@, values_model(vals@)) == Ok::<
                _,
                ErrorModel,
            >((p.0@, p.1 as int)) && pos < p.1 <= ts@.len(),
            Err(e) => read_body(tokens_model(ts@), pos as int, s@, values_model(vals@)) == Err::<
                (RecordModel, int),
                _,
            >(e@),
        },
    decreases ts@.len() - pos, 3int,
{
    let ghost tm = tokens_model(ts@);
    let ghost accm = values_model(vals@);
    proof {
        lemma_values_model(vals@);
    }
    let mut vals = vals;
    if pos >= ts.len() {
        return Err(Error::UnexpectedEof);
    }
    match &ts[pos] {
        Token::End { name } => {
            if string_eq(name, &s.tag) {
                return Ok((Record { fields: vals }, pos + 1));
            }
            Err(Error::UnexpectedTag { expected: s.tag.clone(), found: name.clone() })
        },
        Token::Text { content } => {
            match text_index(&s.fields) {
                None => Err(Error::UnexpectedEvent),
                Some(i) => {
                    if i < vals.len() {
                        let mut taken = FieldValue::Child(None);
                        vals.set_and_swap(i, &mut taken);
                        match taken {
                            FieldValue::Text(mut t) => {
                                let ghost t_old: Seq<char> = t@;
                                t.append(content.as_str());
                                vals.set(i, FieldValue::Text(t));
                                proof {
                                    lemma_values_model(vals@);
                                    assert(accm[i as int] == FieldValueModel::Text(t_old));
                                    assert(values_model(vals@) =~= append_text(
                                        accm,
                                        i as int,
                                        content@,
                                    ));
                                }
                            },
                            other => {
                                vals.set(i, other);
                                proof {
                                    lemma_values_model(vals@);
                                    assert(values_model(vals@) =~= append_text(
                                        accm,
                                        i as int,
                                        content@,
                                    ));
                                }
                            },
                        }
                    }
                    read_element_body(ts, pos + 1, s, vals)
                },
            }
        },
        Token::Start { name, .. } => {
            match read_body_element(ts, pos, s, &mut vals, name) {
                Ok(next) => read_element_body(ts, next, s, vals),
                Err(e) => Err(e),
            }
        },
        Token::Empty { name, .. } => {
            match read_body_element(ts, pos, s, &mut vals, name) {
                Ok(next) => read_element_body(ts, next, s, vals),
                Err(e) => Err(e),
            }
        },
    }
}

/// Handles one body element at `cur`: dispatches it to its field or skips
/// it; `Ok` is the position to continue from.
fn read_body_element(
    ts: &Vec<Token>,
    cur: usize,
    s: &Schema,
    vals: &mut Vec<FieldValue>,
    name: &String,
) -> (r: Result<usize, Error>)
    requires
        cur < ts@.len(),
        (tokens_model(ts@)[cur as int] matches TokenModel::Start { name: n, .. } && n == name@)
            || (tokens_model(ts@)[cur as int] matches TokenModel::Empty { name: n, .. } && n
            == name@),
    ensures
        match r {
            Ok(next) => cur < next <= ts@.len() && read_body_elem(
                tokens_model(ts@),
                cur as int,
                s@,
                values_model(old(vals)@),
                name@,
            ) == read_body(tokens_model(ts@), next as int, s@, values_model(final(vals)@)),
            Err(e) => read_body_elem(
                tokens_model(ts@),
                cur as int,
                s@,
                values_model(old(vals)@),
                name@,
            ) == Err::<(RecordModel, int), _>(e@),
        },
    decreases ts@.len() - cur, 2int,
{
    let ghost tm = tokens_model(ts@);
    let ghost accm = values_model(vals@);
    proof {
        lemma_values_model(vals@);
    }
    match body_index(&s.fields, name) {
        None => {
            match skip_element(ts, cur) {
                Ok(next) => {
                    proof {
                        assert(resume(cur as int, next as int, ts@.len() as int) == next as int);
                    }
                    Ok(next)
                },
                Err(e) => Err(e),
            }
        },
        Some(i) => {
            proof {
                lemma_fields_model(s.fields@);
            }
            match &s.fields[i] {
                Field::FlattenText { .. } => {
                    match flatten_element(ts, cur) {
                        Ok((text, next)) => {
                            proof {
                                assert(resume(cur as int, next as int, ts@.len() as int)
                                    == next as int);
                            }
                            if i < vals.len() {
                                let shape_ok = match &vals[i] {
                                    FieldValue::Flatten(_) => true,
                                    _ => false,
                                };
                                if shape_ok {
                                    vals.set(i, FieldValue::Flatten(Some(text)));
                                }
                            }
                            proof {
                                lemma_values_model(vals@);
                                assert(values_model(vals@) =~= set_flatten(accm, i as int, text@));
                            }
                            Ok(next)
                        },
                        Err(e) => Err(e),
                    }
                },
                Field::Child { schema, .. } => {
                    let dup = if i < vals.len() {
                        match &vals[i] {
                            FieldValue::Child(o) => match o {
                                Some(_) => true,
                                None => false,
                            },
                            _ => false,
                        }
                    } else {
                        false
                    };
                    if dup {
                        return Err(Error::UnexpectedEvent);
                    }
                    match read_element(ts, cur, schema) {
                        Ok((rec, next)) => {
                            proof {
                                assert(resume(cur as int, next as int, ts@.len() as int)
                                    == next as int);
                            }
                            if i < vals.len() {
                                let shape_ok = match &vals[i] {
                                    FieldValue::Child(_) => true,
                                    _ => false,
                                };
                                if shape_ok {
                                    vals.set(i, FieldValue::Child(Some(Box::new(rec))));
                                }
                            }
                            proof {
                                lemma_values_model(vals@);
                                assert(values_model(vals@) =~= set_child(accm, i as int, rec@));
                            }
                            Ok(next)
                        },
                        Err(e) => Err(e),
                    }
                },
                Field::Children { schema, .. } => {
                    match read_element(ts, cur, schema) {
                        Ok((rec, next)) => {
                            proof {
                                assert(resume(cur as int, next as int, ts@.len() as int) == next as int);
                            }
                            if i < vals.len() {
                                let mut taken = FieldValue::Child(None);
                                vals.set_and_swap(i, &mut taken);
                                match taken {
                                    FieldValue::Children(mut rs) => {
                                        let ghost rs_old: Seq<Record> = rs@;
                                        rs.push(rec);
                                        proof {
                                            crate::value::lemma_records_model(rs_old);
                                            crate::value::lemma_records_model(rs@);
                                            assert(crate::value::records_model(rs@)
                                                =~= crate::value::records_model(rs_old).push(
                                                rec@,
                                            ));
                                        }
                                        vals.set(i, FieldValue::Children(rs));
                                        proof {
                                            lemma_values_model(vals@);
                                            assert(accm[i as int] == FieldValueModel::Children(
                                                crate::value::records_model(rs_old),
                                            ));
                                            assert(values_model(vals@) =~= push_child(
                                                accm,
                                                i as int,
                                                rec@,
                                            ));
                                        }
                                    },
                                    other => {
                                        vals.set(i, other);
                                        proof {
                                            lemma_values_model(vals@);
                                            assert(values_model(vals@) =~= push_child(
                                                accm,
                                                i as int,
                                                rec@,
                                            ));
                                        }
                                    },
                                }
                            } else {
                                proof {
                                    assert(values_model(vals@) =~= push_child(
                                        accm,
                                        i as int,
                                        rec@,
                                    ));
                                }
                            }
                            Ok(next)
                        },
                        Err(e) => Err(e),
                    }
                },
                _ => Err(Error::UnexpectedEvent),
            }
        },
    }
}

} // verus!
