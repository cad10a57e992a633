//! The record writer: turns a populated record and its schema into a token
//! stream.  Attributes come first, in field order; body items follow in
//! declared order; an element without body content is a single
//! self-closing token.

use vstd::prelude::*;
use crate::token::{Attr, AttrModel, Token, TokenModel, attrs_model, tokens_model};
use crate::scalar::{scalar_chars, render_scalar};
use crate::schema::{Field, FieldModel, Schema, SchemaModel, fields_model, lemma_fields_model};
use crate::value::{
    FieldValue,
    FieldValueModel,
    Record,
    RecordModel,
    values_model,
    records_model,
    lemma_values_model,
    lemma_records_model,
    record_height,
    lemma_child_height,
    lemma_children_height,
};

verus! {

/// The attributes a record writes: one per present attribute field, in
/// declaration order, with the scalar rendered as text.
pub open spec fn write_attrs(fields: Seq<FieldModel>, values: Seq<FieldValueModel>) -> Seq<
    AttrModel,
>
    decreases values.len(),
{
    if fields.len() == 0 || values.len() == 0 {
        Seq::empty()
    } else {
        attr_head(fields[0], values[0]) + write_attrs(fields.drop_first(), values.drop_first())
    }
}

/// The attribute one field writes: nothing unless an attribute field holds
/// a present value.
pub open spec fn attr_head(f: FieldModel, v: FieldValueModel) -> Seq<AttrModel> {
    match f {
        FieldModel::Attribute { name, .. } => match v {
            FieldValueModel::Attr(o) => match o {
                Some(sc) => seq![AttrModel { name: name, value: scalar_chars(sc) }],
                None => Seq::empty(),
            },
            _ => Seq::empty(),
        },
        _ => Seq::empty(),
    }
}

/// The tokens a whole record writes.
pub open spec fn write_record(r: RecordModel, s: SchemaModel) -> Seq<TokenModel>
    decreases r, 3int,
{
    let attrs = write_attrs(s.fields, r.fields);
    let body = write_body(s.fields, r.fields);
    if body.len() == 0 {
        seq![TokenModel::Empty { name: s.tag, attrs: attrs }]
    } else {
        seq![TokenModel::Start { name: s.tag, attrs: attrs }] + body + seq![
            TokenModel::End { name: s.tag },
        ]
    }
}

/// The body tokens of all fields, in declaration order.
pub open spec fn write_body(fields: Seq<FieldModel>, values: Seq<FieldValueModel>) -> Seq<
    TokenModel,
>
    decreases values, 2int,
{
    if fields.len() == 0 || values.len() == 0 {
        Seq::empty()
    } else {
        write_field_body(fields[0], values[0]) + write_body(
            fields.drop_first(),
            values.drop_first(),
        )
    }
}

/// The body tokens of one field: nothing for attributes, absent options,
/// and empty text.
pub open spec fn write_field_body(f: FieldModel, v: FieldValueModel) -> Seq<TokenModel>
    decreases v, 2int,
{
    match f {
        FieldModel::Attribute { .. } => Seq::empty(),
        FieldModel::Text => match v {
            FieldValueModel::Text(content) => if content.len() == 0 {
                Seq::empty()
            } else {
                seq![TokenModel::Text { content: content }]
            },
            _ => Seq::empty(),
        },
        FieldModel::FlattenText { tag } => match v {
            FieldValueModel::Flatten(o) => match o {
                Some(text) => seq![TokenModel::Start { name: tag, attrs: Seq::empty() }] + (
                if text.len() == 0 {
                    Seq::<TokenModel>::empty()
                } else {
                    seq![TokenModel::Text { content: text }]
                }) + seq![TokenModel::End { name: tag }],
                None => Seq::empty(),
            },
            _ => Seq::empty(),
        },
        FieldModel::Child { schema, .. } => match v {
            FieldValueModel::Child(o) => match o {
                Some(rec) => write_record(rec, schema),
                None => Seq::empty(),
            },
            _ => Seq::empty(),
        },
        FieldModel::Children { schema, .. } => match v {
            FieldValueModel::Children(rs) => write_records(rs, schema),
            _ => Seq::empty(),
        },
    }
}

/// The tokens of a repeated-child sequence: each entry in order.
pub open spec fn write_records(rs: Seq<RecordModel>, s: SchemaModel) -> Seq<TokenModel>
    decreases rs, 1int,
{
    if rs.len() == 0 {
        Seq::empty()
    } else {
        write_record(rs[0], s) + write_records(rs.drop_first(), s)
    }
}

/// Collects the attribute list a record writes.
pub fn collect_attrs(fields: &Vec<Field>, values: &Vec<FieldValue>) -> (out: Vec<Attr>)
    ensures
        attrs_model(out@) == write_attrs(fields_model(fields@), values_model(values@)),
{
    broadcast use lemma_fields_model, lemma_values_model;

    let ghost fm = fields_model(fields@);
    let ghost vm = values_model(values@);
    let n = if fields.len() < values.len() {
        fields.len()
    } else {
        values.len()
    };
    let mut out: Vec<Attr> = Vec::new();
    proof {
        assert(fm.skip(0) =~= fm);
        assert(vm.skip(0) =~= vm);
        assert(attrs_model(out@) =~= Seq::<AttrModel>::empty());
        assert(Seq::<AttrModel>::empty() + write_attrs(fm, vm) =~= write_attrs(fm, vm));
    }
    proof {
        lemma_fields_model(fields@);
        lemma_values_model(values@);
    }
    for i in 0..n
        invariant
            n <= fields.len() && n <= values.len(),
            fm == fields_model(fields@),
            vm == values_model(values@),
            fm.len() == fields@.len(),
            vm.len() == values@.len(),
            write_attrs(fm, vm) == attrs_model(out@) + write_attrs(
                fm.skip(i as int),
                vm.skip(i as int),
            ),
    {
        proof {
            lemma_fields_model(fields@);
            lemma_values_model(values@);
            assert(fm.skip(i as int)[0] == fm[i as int]);
            assert(vm.skip(i as int)[0] == vm[i as int]);
            assert(fm.skip(i as int).drop_first() =~= fm.skip(i + 1));
            assert(vm.skip(i as int).drop_first() =~= vm.skip(i + 1));
        }
        let ghost out_pre = out@;
        match (&fields[i], &values[i]) {
            (Field::Attribute { name, .. }, FieldValue::Attr(o)) => {
                match o {
                    Some(sc) => {
                        let a = Attr { name: name.clone(), value: render_scalar(sc) };
                        out.push(a);
                        proof {
                            assert(attrs_model(out@) =~= attrs_model(out_pre) + attr_head(
                                fm[i as int],
                                vm[i as int],
                            ));
                        }
                    },
                    None => {
                        proof {
                            assert(attr_head(fm[i as int], vm[i as int]) =~= Seq::<
                                AttrModel,
                            >::empty());
                        }
                    },
                }
            },
            _ => {
                proof {
                    assert(attr_head(fm[i as int], vm[i as int]) =~= Seq::<AttrModel>::empty());
                }
            },
        }
        proof {
            assert(attrs_model(out_pre) + (attr_head(fm[i as int], vm[i as int]) + write_attrs(
                fm.skip(i + 1),
                vm.skip(i + 1),
            )) =~= attrs_model(out@) + write_attrs(fm.skip(i + 1), vm.skip(i + 1)));
        }
    }
    proof {
        assert(write_attrs(fm.skip(n as int), vm.skip(n as int)) =~= Seq::<AttrModel>::empty());
        assert(attrs_model(out@) + Seq::<AttrModel>::empty() =~= attrs_model(out@));
    }
    out
}

/// Appends the body tokens of `r` under schema `s` to `out`.
fn write_body_into(r: &Record, s: &Schema, out: &mut Vec<Token>)
    ensures
        tokens_model(final(out)@) == tokens_model(old(out)@) + write_body(s@.fields, r@.fields),
    decreases record_height(r@), 0int,
{
    broadcast use lemma_fields_model, lemma_values_model, lemma_records_model;

    let ghost fm = s@.fields;
    let ghost vm = r@.fields;
    let n = if s.fields.len() < r.fields.len() {
        s.fields.len()
    } else {
        r.fields.len()
    };
    let ghost mut done: Seq<TokenModel> = Seq::empty();
    proof {
        assert(fm.skip(0) =~= fm);
        assert(vm.skip(0) =~= vm);
        assert(tokens_model(out@) =~= tokens_model(out@) + done);
        assert(done + write_body(fm, vm) =~= write_body(fm, vm));
    }
    proof {
        lemma_fields_model(s.fields@);
        lemma_values_model(r.fields@);
    }
    for i in 0..n
        invariant
            n <= s.fields.len() && n <= r.fields.len(),
            fm == s@.fields,
            vm == r@.fields,
            fm.len() == s.fields@.len(),
            vm.len() == r.fields@.len(),
            tokens_model(out@) == tokens_model(old(out)@) + done,
            write_body(fm, vm) == done + write_body(fm.skip(i as int), vm.skip(i as int)),
    {
        proof {
            lemma_fields_model(s.fields@);
            lemma_values_model(r.fields@);
            assert(fm.skip(i as int)[0] == fm[i as int]);
            assert(vm.skip(i as int)[0] == vm[i as int]);
            assert(fm.skip(i as int).drop_first() =~= fm.skip(i + 1));
            assert(vm.skip(i as int).drop_first() =~= vm.skip(i + 1));
        }
        let ghost out_pre = tokens_model(out@);
        let ghost head = write_field_body(fm[i as int], vm[i as int]);
        match (&s.fields[i], &r.fields[i]) {
            (Field::Text, FieldValue::Text(content)) => {
                if !content.as_str().is_empty() {
                    out.push(Token::Text { content: content.clone() });
                    proof {
                        assert(tokens_model(out@) =~= out_pre + head);
                    }
                } else {
                    proof {
                        assert(head =~= Seq::<TokenModel>::empty());
                        assert(out_pre + head =~= out_pre);
                    }
                }
            },
            (Field::FlattenText { tag }, FieldValue::Flatten(o)) => {
                match o {
                    Some(text) => {
                        out.push(Token::Start { name: tag.clone(), attrs: Vec::new() });
                        if !text.as_str().is_empty() {
                            out.push(Token::Text { content: text.clone() });
                        }
                        out.push(Token::End { name: tag.clone() });
                        proof {
                            assert(attrs_model(Seq::<Attr>::empty()) =~= Seq::<AttrModel>::empty());
                            assert(tokens_model(out@) =~= out_pre + head);
                        }
                    },
                    None => {
                        proof {
                            assert(out_pre + head =~= out_pre);
                        }
                    },
                }
            },
            (Field::Child { schema, .. }, FieldValue::Child(o)) => {
                match o {
                    Some(b) => {
                        proof {
                            lemma_child_height(r@, i as int, b@);
                        }
                        write_element(b, schema, out);
                        proof {
                            assert(tokens_model(out@) =~= out_pre + head);
                        }
                    },
                    None => {
                        proof {
                            assert(out_pre + head =~= out_pre);
                        }
                    },
                }
            },
            (Field::Children { schema, .. }, FieldValue::Children(rs)) => {
                let ghost rm = records_model(rs@);
                let ghost mut cdone: Seq<TokenModel> = Seq::empty();
                let m = rs.len();
                proof {
                    assert(rm.skip(0) =~= rm);
                    assert(tokens_model(out@) =~= out_pre + cdone);
                    assert(cdone + write_records(rm, schema@) =~= write_records(rm, schema@));
                }
                proof {
                    lemma_records_model(rs@);
                }
                for j in 0..m
                    invariant
                        m == rs.len(),
                        rm == records_model(rs@),
                        rm.len() == rs@.len(),
                        vm == r@.fields,
                        i < vm.len(),
                        vm[i as int] == FieldValueModel::Children(rm),
                        tokens_model(out@) == out_pre + cdone,
                        write_records(rm, schema@) == cdone + write_records(
                            rm.skip(j as int),
                            schema@,
                        ),
                {
                    proof {
                        lemma_records_model(rs@);
                        assert(rm.skip(j as int)[0] == rm[j as int]);
                        assert(rm.skip(j as int).drop_first() =~= rm.skip(j + 1));
                        lemma_children_height(r@, i as int, rm, j as int);
                    }
                    write_element(&rs[j], schema, out);
                    proof {
                        cdone = cdone + write_record(rm[j as int], schema@);
                        assert(tokens_model(out@) =~= out_pre + cdone);
                        assert(cdone + write_records(rm.skip(j + 1), schema@) =~= write_records(
                            rm,
                            schema@,
                        ));
                    }
                }
                proof {
                    assert(write_records(rm.skip(m as int), schema@) =~= Seq::<
                        TokenModel,
                    >::empty());
                    assert(cdone =~= write_records(rm, schema@));
                    assert(tokens_model(out@) =~= out_pre + head);
                }
            },
            _ => {
                proof {
                    assert(head =~= Seq::<TokenModel>::empty());
                    assert(out_pre + head =~= out_pre);
                }
            },
        }
        proof {
            done = done + head;
            assert(tokens_model(out@) =~= tokens_model(old(out)@) + done);
            assert(done + write_body(fm.skip(i + 1), vm.skip(i + 1)) =~= write_body(fm, vm));
        }
    }
    proof {
        assert(write_body(fm.skip(n as int), vm.skip(n as int)) =~= Seq::<TokenModel>::empty());
        assert(done =~= write_body(fm, vm));
    }
}

/// Appends the tokens of one record under schema `s` to `out`.
pub fn write_element(r: &Record, s: &Schema, out: &mut Vec<Token>)
    ensures
        tokens_model(final(out)@) == tokens_model(old(out)@) + write_record(r@, s@),
    decreases record_height(r@), 1int,
{
    let attrs = collect_attrs(&s.fields, &r.fields);
    let mut body: Vec<Token> = Vec::new();
    proof {
        assert(tokens_model(body@) =~= Seq::<TokenModel>::empty());
    }
    write_body_into(r, s, &mut body);
    let ghost body_m = tokens_model(body@);
    proof {
        assert(body_m =~= Seq::<TokenModel>::empty() + write_body(s@.fields, r@.fields));
        assert(body_m =~= write_body(s@.fields, r@.fields));
        assert(body_m.len() == body@.len());
    }
    if body.len() == 0 {
        out.push(Token::Empty { name: s.tag.clone(), attrs });
        proof {
            assert(tokens_model(out@) =~= tokens_model(old(out)@) + write_record(r@, s@));
        }
    } else {
        out.push(Token::Start { name: s.tag.clone(), attrs });
        out.append(&mut body);
        out.push(Token::End { name: s.tag.clone() });
        proof {
            assert(tokens_model(out@) =~= tokens_model(old(out)@) + (seq![
                TokenModel::Start { name: s@.tag, attrs: write_attrs(s@.fields, r@.fields) },
            ] + body_m + seq![TokenModel::End { name: s@.tag }]));
            assert(tokens_model(out@) =~= tokens_model(old(out)@) + write_record(r@, s@));
        }
    }
}

/// Writes one record as a fresh token stream.
pub fn write_tokens(r: &Record, s: &Schema) -> (out: Vec<Token>)
    ensures
        tokens_model(out@) == write_record(r@, s@),
{
    let mut out: Vec<Token> = Vec::new();
    proof {
        assert(tokens_model(out@) =~= Seq::<TokenModel>::empty());
    }
    write_element(r, s, &mut out);
    proof {
        assert(Seq::<TokenModel>::empty() + write_record(r@, s@) =~= write_record(r@, s@));
    }
    out
}

} // verus!
