//! Laws the engine obeys, stated over the writer's and reader's
//! mathematical models and proved once for all schemas and records.

use vstd::prelude::*;
use crate::error::ErrorModel;
use crate::token::{AttrModel, TokenModel, attr_lookup};
use crate::scalar::{ScalarModel, scalar_chars, kind_of, lemma_coerce_render};
use crate::schema::{FieldModel, SchemaModel, wf_schema, text_field_index};
use crate::value::{FieldValueModel, RecordModel, wf_record, wf_field_value, default_value};
use crate::writer::{write_attrs, write_body, write_field_body, write_record, write_records,
    attr_head};
use crate::reader::{read_attrs, read_elem};
use crate::union::{read_union_at, variant_index, wf_union};

verus! {

/// A record of attribute-only fields writes no attribute under a name that
/// every field either does not carry or carries with an absent value.
proof fn lemma_write_attrs_absent(
    fields: Seq<FieldModel>,
    values: Seq<FieldValueModel>,
    name: Seq<char>,
)
    requires
        forall|k: int|
            0 <= k < fields.len() ==> match #[trigger] fields[k] {
                FieldModel::Attribute { name: n, .. } => (k < values.len() && values[k] matches
                    FieldValueModel::Attr(Some(_))) ==> n != name,
                _ => true,
            },
    ensures
        forall|j: int|
            0 <= j < write_attrs(fields, values).len() ==> (#[trigger] write_attrs(
                fields,
                values,
            )[j]).name != name,
    decreases values.len(),
{
    if fields.len() == 0 || values.len() == 0 {
    } else {
        lemma_write_attrs_absent(fields.drop_first(), values.drop_first(), name);
        assert forall|j: int| 0 <= j < write_attrs(fields, values).len() implies (
        #[trigger] write_attrs(fields, values)[j]).name != name by {
            let head = attr_head(fields[0], values[0]);
            if j < head.len() {
                assert(write_attrs(fields, values)[j] == head[j]);
            } else {
                assert(write_attrs(fields, values)[j] == write_attrs(
                    fields.drop_first(),
                    values.drop_first(),
                )[j - head.len()]);
            }
        }
    }
}

/// A present attribute is found under its name, stringified per its kind,
/// provided no earlier attribute field shares the name.
proof fn lemma_write_attrs_lookup(
    fields: Seq<FieldModel>,
    values: Seq<FieldValueModel>,
    i: int,
    name: Seq<char>,
    v: ScalarModel,
)
    requires
        0 <= i < fields.len(),
        i < values.len(),
        fields[i] matches FieldModel::Attribute { name: n, .. } && n == name,
        values[i] == FieldValueModel::Attr(Some(v)),
        forall|k: int|
            0 <= k < i ==> ((#[trigger] fields[k]) matches FieldModel::Attribute { name: n, .. }
                ==> n != name),
    ensures
        attr_lookup(write_attrs(fields, values), name) == Some(scalar_chars(v)),
    decreases i,
{
    let out = write_attrs(fields, values);
    let head = attr_head(fields[0], values[0]);
    let rest = write_attrs(fields.drop_first(), values.drop_first());
    if i == 0 {
        assert(head == seq![AttrModel { name: name, value: scalar_chars(v) }]);
        assert(out[0] == head[0]);
        assert(attr_lookup(out, name) == Some(out[0].value));
    } else {
        lemma_write_attrs_lookup(fields.drop_first(), values.drop_first(), i - 1, name, v);
        if head.len() == 0 {
            assert(out =~= rest);
        } else {
            assert(head.len() == 1);
            assert(out[0] == head[0]);
            assert(head[0].name != name);
            assert(out.drop_first() =~= rest);
        }
    }
}

/// The value a field starts a read with: the attribute value it wrote, or
/// its default when it plays no attribute role.
pub open spec fn attr_init(f: FieldModel, v: FieldValueModel) -> FieldValueModel {
    if f is Attribute {
        v
    } else {
        default_value(f)
    }
}

/// Reading attributes inverts writing them: each attribute field gets back
/// exactly the value it wrote, every other field its default.
proof fn lemma_read_attrs_general(
    fields: Seq<FieldModel>,
    values: Seq<FieldValueModel>,
    attrs: Seq<AttrModel>,
    tag: Seq<char>,
)
    requires
        fields.len() == values.len(),
        forall|i: int|
            0 <= i < fields.len() ==> ((#[trigger] fields[i]) is Attribute ==> wf_field_value(
                values[i],
                fields[i],
            )),
        forall|i: int|
            0 <= i < fields.len() ==> match #[trigger] fields[i] {
                FieldModel::Attribute { name, .. } => match values[i] {
                    FieldValueModel::Attr(o) => match o {
                        Some(v) => attr_lookup(attrs, name) == Some(scalar_chars(v)),
                        None => attr_lookup(attrs, name) is None,
                    },
                    _ => true,
                },
                _ => true,
            },
    ensures
        read_attrs(fields, attrs, tag) == Ok::<_, ErrorModel>(
            Seq::new(fields.len(), |i: int| attr_init(fields[i], values[i])),
        ),
    decreases fields.len(),
{
    let want = Seq::new(fields.len(), |i: int| attr_init(fields[i], values[i]));
    if fields.len() == 0 {
        assert(want =~= Seq::<FieldValueModel>::empty());
    } else {
        lemma_read_attrs_general(fields.drop_first(), values.drop_first(), attrs, tag);
        let head: FieldValueModel = attr_init(fields[0], values[0]);
        match fields[0] {
            FieldModel::Attribute { name, kind, presence } => {
                match values[0] {
                    FieldValueModel::Attr(o) => match o {
                        Some(v) => {
                            assert(kind_of(v) == kind);
                            lemma_coerce_render(v);
                        },
                        None => {},
                    },
                    _ => {
                        assert(false);
                    },
                }
            },
            _ => {},
        }
        let rest_want = Seq::new(
            fields.drop_first().len(),
            |i: int| attr_init(fields.drop_first()[i], values.drop_first()[i]),
        );
        assert(want =~= seq![head] + rest_want);
    }
}

/// Writing a record whose every field is an absent optional attribute
/// emits no attributes.
proof fn lemma_write_attrs_all_absent(fields: Seq<FieldModel>, values: Seq<FieldValueModel>)
    requires
        forall|i: int|
            0 <= i < values.len() ==> (#[trigger] values[i]) == FieldValueModel::Attr(
                None::<ScalarModel>,
            ),
    ensures
        write_attrs(fields, values) == Seq::<AttrModel>::empty(),
    decreases values.len(),
{
    if fields.len() == 0 || values.len() == 0 {
    } else {
        lemma_write_attrs_all_absent(fields.drop_first(), values.drop_first());
        assert(write_attrs(fields, values) =~= Seq::<AttrModel>::empty());
    }
}

/// A record of attribute-only fields writes no body.
proof fn lemma_write_body_attrs_only(fields: Seq<FieldModel>, values: Seq<FieldValueModel>)
    requires
        forall|i: int| 0 <= i < fields.len() ==> (#[trigger] fields[i]) is Attribute,
    ensures
        write_body(fields, values) == Seq::<TokenModel>::empty(),
    decreases values.len(),
{
    if fields.len() == 0 || values.len() == 0 {
    } else {
        lemma_write_body_attrs_only(fields.drop_first(), values.drop_first());
        reveal_with_fuel(write_field_body, 2);
        assert(write_field_body(fields[0], values[0]) =~= Seq::<TokenModel>::empty());
        assert(write_body(fields, values) =~= Seq::<TokenModel>::empty());
    }
}

/// Idempotence of leaf elements: a leaf record with no attributes set
/// writes exactly one bare self-closing tag, and reading that token back
/// under the same schema restores the record, with every attribute absent.
pub proof fn lemma_leaf_idempotence(s: SchemaModel, r: RecordModel)
    requires
        wf_schema(s),
        s.leaf,
        wf_record(r, s),
        forall|i: int|
            0 <= i < r.fields.len() ==> (#[trigger] r.fields[i]) == FieldValueModel::Attr(
                None::<ScalarModel>,
            ),
    ensures
        write_record(r, s) == seq![
            TokenModel::Empty { name: s.tag, attrs: Seq::<AttrModel>::empty() },
        ],
        read_elem(write_record(r, s), 0, s) == Ok::<_, ErrorModel>((r, 1int)),
{
    lemma_write_attrs_all_absent(s.fields, r.fields);
    lemma_write_body_attrs_only(s.fields, r.fields);
    let ts = write_record(r, s);
    assert(ts =~= seq![TokenModel::Empty { name: s.tag, attrs: Seq::<AttrModel>::empty() }]);
    lemma_read_attrs_general(s.fields, r.fields, Seq::empty(), s.tag);
    let want = Seq::new(s.fields.len(), |i: int| attr_init(s.fields[i], r.fields[i]));
    assert(want =~= r.fields);
    assert(read_elem(ts, 0, s) == Ok::<_, ErrorModel>((RecordModel { fields: want }, 1int)));
    assert(RecordModel { fields: want } =~= r);
}

/// A name no attribute carries is found nowhere in the list.
proof fn lemma_attr_lookup_none(attrs: Seq<AttrModel>, name: Seq<char>)
    requires
        forall|j: int| 0 <= j < attrs.len() ==> (#[trigger] attrs[j]).name != name,
    ensures
        attr_lookup(attrs, name) is None,
    decreases attrs.len(),
{
    if attrs.len() > 0 {
        lemma_attr_lookup_none(attrs.drop_first(), name);
    }
}

/// Omission law: an absent optional attribute never appears in the
/// writer's output; a present one always appears under its name, its value
/// stringified per its scalar kind.
pub proof fn lemma_attr_omission(s: SchemaModel, r: RecordModel, i: int)
    requires
        wf_schema(s),
        wf_record(r, s),
        0 <= i < s.fields.len(),
        s.fields[i] is Attribute,
    ensures
        match r.fields[i] {
            FieldValueModel::Attr(o) => match o {
                None => attr_lookup(write_attrs(s.fields, r.fields), s.fields[i]->Attribute_name)
                    is None && forall|j: int|
                    0 <= j < write_attrs(s.fields, r.fields).len() ==> (#[trigger] write_attrs(
                        s.fields,
                        r.fields,
                    )[j]).name != s.fields[i]->Attribute_name,
                Some(v) => attr_lookup(write_attrs(s.fields, r.fields), s.fields[i]->Attribute_name)
                    == Some(scalar_chars(v)),
            },
            _ => true,
        },
{
    let name = s.fields[i]->Attribute_name;
    match r.fields[i] {
        FieldValueModel::Attr(o) => match o {
            None => {
                assert forall|k: int| 0 <= k < s.fields.len() implies match #[trigger] s.fields[k] {
                    FieldModel::Attribute { name: n, .. } => (k < r.fields.len() && r.fields[k]
                        matches FieldValueModel::Attr(Some(_))) ==> n != name,
                    _ => true,
                } by {
                    if k == i {
                    } else if k < i {
                    } else {
                    }
                }
                lemma_write_attrs_absent(s.fields, r.fields, name);
                lemma_attr_lookup_none(write_attrs(s.fields, r.fields), name);
            },
            Some(v) => {
                lemma_write_attrs_lookup(s.fields, r.fields, i, name, v);
            },
        },
        _ => {},
    }
}

/// Order preservation, writer side: a `Children` field with entries
/// `[a, b]` emits the whole element of `a` before the whole element of
/// `b`, and a repeated-child sequence writes its entries in order.
pub proof fn lemma_children_order(
    tag: Seq<char>,
    schema: SchemaModel,
    a: RecordModel,
    b: RecordModel,
)
    ensures
        write_field_body(
            FieldModel::Children { tag, schema },
            FieldValueModel::Children(seq![a, b]),
        ) == write_record(a, schema) + write_record(b, schema),
{
    let rs = seq![a, b];
    reveal_with_fuel(write_records, 3);
    reveal_with_fuel(write_field_body, 2);
    assert(rs.drop_first() =~= seq![b]);
    assert(rs.drop_first().drop_first() =~= Seq::<RecordModel>::empty());
    assert(write_records(seq![b].drop_first(), schema) =~= Seq::<TokenModel>::empty());
    assert(write_records(seq![b], schema) =~= write_record(b, schema));
    assert(write_records(rs, schema) =~= write_record(a, schema) + write_record(b, schema));
}

/// With unique tags, the variant whose tag stands first is found at its
/// own index.
proof fn lemma_variant_index_hit(vs: Seq<SchemaModel>, i: int)
    requires
        wf_union(vs),
        0 <= i < vs.len(),
    ensures
        variant_index(vs, vs[i].tag) == Some(i),
    decreases i,
{
    if i > 0 {
        assert(vs[0].tag != vs[i].tag);
        lemma_variant_index_hit(vs.drop_first(), i - 1);
        assert(vs.drop_first()[i - 1] == vs[i]);
    }
}

/// A name no variant carries is found nowhere.
proof fn lemma_variant_index_miss(vs: Seq<SchemaModel>, name: Seq<char>)
    requires
        forall|k: int| 0 <= k < vs.len() ==> (#[trigger] vs[k]).tag != name,
    ensures
        variant_index(vs, name) is None,
    decreases vs.len(),
{
    if vs.len() > 0 {
        lemma_variant_index_miss(vs.drop_first(), name);
    }
}

/// Union dispatch, hit: when the next tag equals the tag of variant `i` of
/// a union with unique tags, the union read is exactly variant `i`'s read,
/// wrapped with its index.
pub proof fn lemma_union_dispatch_hit(ts: Seq<TokenModel>, pos: int, vs: Seq<SchemaModel>, i: int)
    requires
        wf_union(vs),
        0 <= pos < ts.len(),
        0 <= i < vs.len(),
        (ts[pos] matches TokenModel::Start { name, .. } && name == vs[i].tag) || (ts[pos] matches
            TokenModel::Empty { name, .. } && name == vs[i].tag),
    ensures
        read_union_at(ts, pos, vs) == match read_elem(ts, pos, vs[i]) {
            Ok((rec, next)) => Ok::<_, ErrorModel>(((i, rec), next)),
            Err(e) => Err(e),
        },
{
    lemma_variant_index_hit(vs, i);
}

/// Union dispatch, miss: a tag no variant carries fails with
/// `UnexpectedTag` carrying the found name.
pub proof fn lemma_union_dispatch_miss(
    ts: Seq<TokenModel>,
    pos: int,
    vs: Seq<SchemaModel>,
    name: Seq<char>,
)
    requires
        0 <= pos < ts.len(),
        (ts[pos] matches TokenModel::Start { name: n, .. } && n == name) || (ts[pos] matches
            TokenModel::Empty { name: n, .. } && n == name),
        forall|k: int| 0 <= k < vs.len() ==> (#[trigger] vs[k]).tag != name,
    ensures
        read_union_at(ts, pos, vs) == Err::<((int, RecordModel), int), _>(
            ErrorModel::UnexpectedTag { expected: "union"@, found: name },
        ),
{
    lemma_variant_index_miss(vs, name);
}

/// Where the first `Text` field stands, and that none stands earlier.
proof fn lemma_text_field_index(fields: Seq<FieldModel>)
    ensures
        match text_field_index(fields) {
            Some(i) => 0 <= i < fields.len() && fields[i] is Text && forall|j: int|
                0 <= j < i ==> !((#[trigger] fields[j]) is Text),
            None => forall|j: int| 0 <= j < fields.len() ==> !((#[trigger] fields[j]) is Text),
        },
    decreases fields.len(),
{
    if fields.len() > 0 && !(fields[0] is Text) {
        lemma_text_field_index(fields.drop_first());
        match text_field_index(fields.drop_first()) {
            Some(i) => {
                assert(fields.drop_first()[i] == fields[i + 1]);
                assert forall|j: int| 0 <= j < i + 1 implies !((#[trigger] fields[j]) is Text) by {
                    if j > 0 {
                        assert(fields.drop_first()[j - 1] == fields[j]);
                    }
                }
            },
            None => {
                assert forall|j: int|
                    0 <= j < fields.len() implies !((#[trigger] fields[j]) is Text) by {
                    if j > 0 {
                        assert(fields.drop_first()[j - 1] == fields[j]);
                    }
                }
            },
        }
    }
}

/// The attribute lookups a record's own written attribute list answers.
proof fn lemma_attrs_invert(s: SchemaModel, r: RecordModel)
    requires
        wf_schema(s),
        wf_record(r, s),
    ensures
        forall|i: int|
            0 <= i < s.fields.len() ==> match #[trigger] s.fields[i] {
                FieldModel::Attribute { name, .. } => match r.fields[i] {
                    FieldValueModel::Attr(o) => match o {
                        Some(v) => attr_lookup(write_attrs(s.fields, r.fields), name) == Some(
                            scalar_chars(v),
                        ),
                        None => attr_lookup(write_attrs(s.fields, r.fields), name) is None,
                    },
                    _ => true,
                },
                _ => true,
            },
{
    assert forall|i: int| 0 <= i < s.fields.len() implies match #[trigger] s.fields[i] {
        FieldModel::Attribute { name, .. } => match r.fields[i] {
            FieldValueModel::Attr(o) => match o {
                Some(v) => attr_lookup(write_attrs(s.fields, r.fields), name) == Some(
                    scalar_chars(v),
                ),
                None => attr_lookup(write_attrs(s.fields, r.fields), name) is None,
            },
            _ => true,
        },
        _ => true,
    } by {
        if s.fields[i] is Attribute {
            lemma_attr_omission(s, r, i);
        }
    }
}

/// Skipping an element always moves forward and never past the end.
proof fn lemma_skip_rest_advances(ts: Seq<TokenModel>, pos: int, depth: nat)
    requires
        crate::reader::skip_rest(ts, pos, depth) is Ok,
    ensures
        pos < crate::reader::skip_rest(ts, pos, depth)->Ok_0 <= ts.len(),
    decreases ts.len() - pos,
{
    if pos < 0 || pos >= ts.len() {
    } else {
        match ts[pos] {
            TokenModel::Start { .. } => {
                lemma_skip_rest_advances(ts, pos + 1, depth + 1);
            },
            TokenModel::End { .. } => {
                if depth != 0 {
                    lemma_skip_rest_advances(ts, pos + 1, (depth - 1) as nat);
                }
            },
            _ => {
                lemma_skip_rest_advances(ts, pos + 1, depth);
            },
        }
    }
}

/// Unknown-element tolerance: a body element whose tag no field answers to
/// is skipped whole, however deep, and changes nothing of the record being
/// assembled but the position.
pub proof fn lemma_unknown_sibling_skipped(
    ts: Seq<TokenModel>,
    pos: int,
    s: SchemaModel,
    acc: Seq<FieldValueModel>,
    name: Seq<char>,
)
    requires
        0 <= pos < ts.len(),
        (ts[pos] matches TokenModel::Start { name: n, .. } && n == name) || (ts[pos] matches
            TokenModel::Empty { name: n, .. } && n == name),
        crate::schema::body_field_index(s.fields, name) is None,
        crate::reader::skip_elem(ts, pos) is Ok,
    ensures
        crate::reader::read_body(ts, pos, s, acc) == crate::reader::read_body(
            ts,
            crate::reader::skip_elem(ts, pos)->Ok_0,
            s,
            acc,
        ),
{
    let next = crate::reader::skip_elem(ts, pos)->Ok_0;
    reveal_with_fuel(crate::reader::read_body, 2);
    reveal_with_fuel(crate::reader::read_body_elem, 2);
    match ts[pos] {
        TokenModel::Start { .. } => {
            lemma_skip_rest_advances(ts, pos + 1, 0);
        },
        _ => {},
    }
    assert(crate::reader::resume(pos, next, ts.len() as int) == next);
    assert(crate::reader::read_body(ts, pos, s, acc) == crate::reader::read_body_elem(
        ts,
        pos,
        s,
        acc,
        name,
    ));
}


/// A written element always holds at least one token, and its first token
/// is a start or self-closing tag carrying the schema's tag name.
proof fn lemma_write_record_first(r: RecordModel, s: SchemaModel)
    ensures
        write_record(r, s).len() >= 1,
        (write_record(r, s)[0] matches TokenModel::Start { name, .. } && name == s.tag)
            || (write_record(r, s)[0] matches TokenModel::Empty { name, .. } && name == s.tag),
{
    let body = write_body(s.fields, r.fields);
    if body.len() == 0 {
    } else {
        assert(write_record(r, s)[0] == (TokenModel::Start {
            name: s.tag,
            attrs: write_attrs(s.fields, r.fields),
        }));
    }
}

/// A repeated-child sequence that writes nothing is empty.
proof fn lemma_write_records_empty(rs: Seq<RecordModel>, s: SchemaModel)
    requires
        write_records(rs, s).len() == 0,
    ensures
        rs =~= Seq::<RecordModel>::empty(),
{
    if rs.len() > 0 {
        lemma_write_record_first(rs[0], s);
    }
}

/// The first field whose body tag is `name` is `k`, when `k` carries it
/// and no earlier field does.
proof fn lemma_body_field_index_hit(fields: Seq<FieldModel>, k: int, name: Seq<char>)
    requires
        0 <= k < fields.len(),
        crate::schema::body_tag(fields[k]) == Some(name),
        forall|j: int| 0 <= j < k ==> crate::schema::body_tag(#[trigger] fields[j]) != Some(name),
    ensures
        crate::schema::body_field_index(fields, name) == Some(k),
    decreases k,
{
    if k > 0 {
        assert(fields.drop_first()[k - 1] == fields[k]);
        assert forall|j: int|
            0 <= j < k - 1 implies crate::schema::body_tag(#[trigger] fields.drop_first()[j])
            != Some(name) by {
            assert(fields.drop_first()[j] == fields[j + 1]);
        }
        lemma_body_field_index_hit(fields.drop_first(), k - 1, name);
    }
}

/// A field whose body segment is empty holds its default value.
proof fn lemma_empty_segment_default(f: FieldModel, v: FieldValueModel)
    requires
        wf_field_value(v, f),
        write_field_body(f, v).len() == 0,
        !(f is Attribute),
    ensures
        v == default_value(f),
{
    reveal_with_fuel(write_field_body, 2);
    match f {
        FieldModel::Text => {
            assert(v->Text_0 =~= Seq::<char>::empty());
        },
        FieldModel::FlattenText { tag } => {
            match v->Flatten_0 {
                Some(text) => {
                    assert(write_field_body(f, v).len() >= 2);
                },
                None => {},
            }
        },
        FieldModel::Child { schema, .. } => {
            match v->Child_0 {
                Some(rec) => {
                    lemma_write_record_first(rec, schema);
                },
                None => {},
            }
        },
        FieldModel::Children { schema, .. } => {
            lemma_write_records_empty(v->Children_0, schema);
            assert(v =~= default_value(f));
        },
        _ => {},
    }
}


/// Splitting a known subrange at a concatenation boundary.
proof fn lemma_subrange_concat(ts: Seq<TokenModel>, pos: int, a: Seq<TokenModel>, b: Seq<TokenModel>)
    requires
        0 <= pos,
        pos + a.len() + b.len() <= ts.len(),
        ts.subrange(pos, pos + a.len() + b.len()) == a + b,
    ensures
        ts.subrange(pos, pos + a.len() as int) == a,
        ts.subrange(pos + a.len() as int, pos + a.len() + b.len()) == b,
{
    assert forall|i: int|
        0 <= i < a.len() implies ts.subrange(pos, pos + a.len() as int)[i] == a[i] by {
        assert(ts.subrange(pos, pos + a.len() + b.len())[i] == (a + b)[i]);
    }
    assert(ts.subrange(pos, pos + a.len() as int) =~= a);
    assert forall|i: int|
        0 <= i < b.len() implies ts.subrange(pos + a.len() as int, pos + a.len() + b.len())[i]
        == b[i] by {
        assert(ts.subrange(pos, pos + a.len() + b.len())[a.len() + i] == (a + b)[a.len() + i]);
    }
    assert(ts.subrange(pos + a.len() as int, pos + a.len() + b.len()) =~= b);
}

/// The values a read holds after the body fields before `k` have been
/// filled: attribute fields carry their final values throughout, body
/// fields from `k` on still their defaults.
pub open spec fn merged(
    fields: Seq<FieldModel>,
    values: Seq<FieldValueModel>,
    k: int,
) -> Seq<FieldValueModel> {
    Seq::new(
        values.len(),
        |j: int|
            if fields[j] is Attribute || j < k {
                values[j]
            } else {
                default_value(fields[j])
            },
    )
}

/// Round trip, element form: reading at the start of what a record wrote,
/// inside any larger stream, returns that record and stops exactly past
/// its tokens.
proof fn lemma_rt_elem(ts: Seq<TokenModel>, pos: int, r: RecordModel, s: SchemaModel)
    requires
        wf_schema(s),
        wf_record(r, s),
        0 <= pos,
        pos + write_record(r, s).len() <= ts.len(),
        ts.subrange(pos, pos + write_record(r, s).len() as int) == write_record(r, s),
    ensures
        read_elem(ts, pos, s) == Ok::<_, ErrorModel>(
            (r, pos + write_record(r, s).len() as int),
        ),
    decreases crate::value::record_height(r), 1int, 0int, 0int,
{
    let fields = s.fields;
    let values = r.fields;
    let attrs = write_attrs(fields, values);
    let body = write_body(fields, values);
    let w = write_record(r, s);
    lemma_attrs_invert(s, r);
    lemma_read_attrs_general(fields, values, attrs, s.tag);
    let init = Seq::new(fields.len(), |i: int| attr_init(fields[i], values[i]));
    assert(init =~= merged(fields, values, 0));
    if body.len() == 0 {
        assert(w == seq![TokenModel::Empty { name: s.tag, attrs: attrs }]);
        assert(ts[pos] == w[0]);
        assert forall|k: int|
            0 <= k < fields.len() && !((#[trigger] fields[k]) is Attribute) implies values[k]
            == default_value(fields[k]) by {
            assert(wf_field_value(values[k], fields[k]));
            lemma_write_body_segment_empty(fields, values, k);
            lemma_empty_segment_default(fields[k], values[k]);
        }
        assert(init =~= values);
        assert(RecordModel { fields: init } =~= r);
    } else {
        assert(w == seq![TokenModel::Start { name: s.tag, attrs: attrs }] + body + seq![
            TokenModel::End { name: s.tag },
        ]);
        assert(ts[pos] == w[0]);
        assert(w[0] == (TokenModel::Start { name: s.tag, attrs: attrs }));
        if s.leaf {
            lemma_write_body_attrs_only(fields, values);
            assert(false);
        }
        assert(fields.skip(0) =~= fields);
        assert(values.skip(0) =~= values);
        let start_tok = seq![TokenModel::Start { name: s.tag, attrs: attrs }];
        let tail = body + seq![TokenModel::End { name: s.tag }];
        assert(w == start_tok + tail);
        lemma_subrange_concat(ts, pos, start_tok, tail);
        lemma_subrange_concat(ts, pos + 1, body, seq![TokenModel::End { name: s.tag }]);
        assert(ts.subrange(pos + 1 + body.len(), pos + 1 + body.len() + 1)[0] == ts[pos + 1
            + body.len()]);
        assert(ts[pos + 1 + body.len()] == (TokenModel::End { name: s.tag }));
        lemma_rt_body(ts, pos + 1, r, s, 0);
        assert(read_elem(ts, pos, s) == crate::reader::read_body(ts, pos + 1, s, init));
    }
}

/// A segment of the whole body is empty when the whole body is.
proof fn lemma_write_body_segment_empty(
    fields: Seq<FieldModel>,
    values: Seq<FieldValueModel>,
    k: int,
)
    requires
        0 <= k < fields.len(),
        k < values.len(),
        write_body(fields, values).len() == 0,
    ensures
        write_field_body(fields[k], values[k]).len() == 0,
    decreases k,
{
    if k == 0 {
    } else {
        assert(fields.drop_first()[k - 1] == fields[k]);
        assert(values.drop_first()[k - 1] == values[k]);
        lemma_write_body_segment_empty(fields.drop_first(), values.drop_first(), k - 1);
    }
}

/// Round trip, body form: reading the body segments of the fields from `k`
/// on, followed by the matching end tag, fills exactly the remaining body
/// fields and stops past the end tag.
proof fn lemma_rt_body(ts: Seq<TokenModel>, pos: int, r: RecordModel, s: SchemaModel, k: int)
    requires
        wf_schema(s),
        wf_record(r, s),
        !s.leaf,
        0 <= k <= s.fields.len(),
        0 <= pos,
        pos + write_body(s.fields.skip(k), r.fields.skip(k)).len() + 1 <= ts.len(),
        ts.subrange(pos, pos + write_body(s.fields.skip(k), r.fields.skip(k)).len() as int)
            == write_body(s.fields.skip(k), r.fields.skip(k)),
        ts[pos + write_body(s.fields.skip(k), r.fields.skip(k)).len() as int]
            == (TokenModel::End { name: s.tag }),
    ensures
        crate::reader::read_body(ts, pos, s, merged(s.fields, r.fields, k)) == Ok::<
            _,
            ErrorModel,
        >((r, pos + write_body(s.fields.skip(k), r.fields.skip(k)).len() + 1)),
    decreases crate::value::record_height(r), 0int, s.fields.len() - k + 1, 0int,
{
    let fields = s.fields;
    let values = r.fields;
    let rest = write_body(fields.skip(k), values.skip(k));
    let acc = merged(fields, values, k);
    if k == fields.len() {
        assert(fields.skip(k).len() == 0);
        assert(rest.len() == 0);
        assert(ts[pos] == (TokenModel::End { name: s.tag }));
        assert(acc =~= values);
        assert(RecordModel { fields: acc } =~= r);
    } else {
        assert(wf_field_value(values[k], fields[k]));
        assert(fields.skip(k)[0] == fields[k]);
        assert(values.skip(k)[0] == values[k]);
        assert(fields.skip(k).drop_first() =~= fields.skip(k + 1));
        assert(values.skip(k).drop_first() =~= values.skip(k + 1));
        let seg = write_field_body(fields[k], values[k]);
        let rest2 = write_body(fields.skip(k + 1), values.skip(k + 1));
        reveal_with_fuel(write_field_body, 2);
        reveal_with_fuel(crate::reader::read_body, 2);
        reveal_with_fuel(crate::reader::read_body_elem, 2);
        assert(rest == seg + rest2);
        lemma_subrange_concat(ts, pos, seg, rest2);
        if seg.len() == 0 {
            if !(fields[k] is Attribute) {
                lemma_empty_segment_default(fields[k], values[k]);
            }
            assert(merged(fields, values, k + 1) =~= acc);
            assert(rest =~= rest2);
            lemma_rt_body(ts, pos, r, s, k + 1);
        } else {
            assert(ts.subrange(pos, pos + seg.len() as int)[0] == ts[pos]);
            assert(ts[pos] == seg[0]);
            match fields[k] {
                FieldModel::Text => {
                    let content = values[k]->Text_0;
                    reveal_with_fuel(write_field_body, 2);
                    assert(seg == seq![TokenModel::Text { content: content }]);
                    lemma_text_field_index(fields);
                    match text_field_index(fields) {
                        Some(ti) => {
                            if ti != k {
                                assert(false);
                            }
                        },
                        None => {
                            assert(false);
                        },
                    }
                    let acc2 = crate::reader::append_text(acc, k, content);
                    assert(acc[k] == FieldValueModel::Text(Seq::<char>::empty()));
                    assert(Seq::<char>::empty() + content =~= content);
                    assert(acc2 =~= merged(fields, values, k + 1));
                    lemma_rt_body(ts, pos + 1, r, s, k + 1);
                },
                FieldModel::FlattenText { tag } => {
                    assert(values[k] matches FieldValueModel::Flatten(Some(_)));
                    let text = values[k]->Flatten_0->0;
                    lemma_body_index_at(fields, k, tag);
                    reveal_with_fuel(write_field_body, 2);
                    let next = pos + seg.len();
                    if text.len() == 0 {
                        assert(seg == seq![
                            TokenModel::Start { name: tag, attrs: Seq::<AttrModel>::empty() },
                        ] + Seq::<TokenModel>::empty() + seq![TokenModel::End { name: tag }]);
                        assert(ts[pos] == seg[0]);
                        assert(ts.subrange(pos, pos + rest.len() as int)[1] == ts[pos + 1]);
                        assert(rest[1] == seg[1]);
                        assert(ts[pos + 1] == seg[1]);
                        assert(seg[1] == (TokenModel::End { name: tag }));
                        assert(text =~= Seq::<char>::empty());
                        assert(crate::reader::read_flatten(ts, pos) == Ok::<_, ErrorModel>(
                            (text, next),
                        ));
                    } else {
                        assert(seg == seq![
                            TokenModel::Start { name: tag, attrs: Seq::<AttrModel>::empty() },
                        ] + seq![TokenModel::Text { content: text }] + seq![
                            TokenModel::End { name: tag },
                        ]);
                        assert(ts[pos] == seg[0]);
                        assert(ts.subrange(pos, pos + rest.len() as int)[1] == ts[pos + 1]);
                        assert(rest[1] == seg[1]);
                        assert(ts[pos + 1] == seg[1]);
                        assert(ts.subrange(pos, pos + rest.len() as int)[2] == ts[pos + 2]);
                        assert(rest[2] == seg[2]);
                        assert(ts[pos + 2] == seg[2]);
                        assert(Seq::<char>::empty() + text =~= text);
                        reveal_with_fuel(crate::reader::read_flatten_text, 3);
                        assert(crate::reader::read_flatten(ts, pos) == Ok::<_, ErrorModel>(
                            (text, next),
                        ));
                    }
                    assert(crate::reader::resume(pos, next, ts.len() as int) == next);
                    let acc2 = acc.update(k, FieldValueModel::Flatten(Some(text)));
                    assert(acc2 =~= merged(fields, values, k + 1));
                    lemma_rt_body(ts, next, r, s, k + 1);
                },
                FieldModel::Child { tag, schema } => {
                    assert(values[k] matches FieldValueModel::Child(Some(_)));
                    let child = values[k]->Child_0->0;
                    lemma_body_index_at(fields, k, tag);
                    assert(seg == write_record(child, schema));
                    lemma_write_record_first(child, schema);
                    assert(ts.subrange(pos, pos + seg.len()) =~= seg);
                    crate::value::lemma_child_height(r, k, child);
                    lemma_rt_elem(ts, pos, child, schema);
                    let next = pos + seg.len();
                    assert(crate::reader::resume(pos, next, ts.len() as int) == next);
                    assert(acc[k] == FieldValueModel::Child(None::<RecordModel>));
                    let acc2 = acc.update(k, FieldValueModel::Child(Some(child)));
                    assert(acc2 =~= merged(fields, values, k + 1));
                    lemma_rt_body(ts, next, r, s, k + 1);
                },
                FieldModel::Children { tag, schema } => {
                    assert(values[k] matches FieldValueModel::Children(_));
                    let entries = values[k]->Children_0;
                    assert(entries.skip(0) =~= entries);
                    assert(entries.take(0) =~= Seq::<RecordModel>::empty());
                    assert(acc.update(k, FieldValueModel::Children(entries.take(0))) =~= acc);
                    lemma_rt_children(ts, pos, r, s, k, 0);
                    let next = pos + seg.len();
                    assert(acc.update(k, FieldValueModel::Children(entries.take(entries.len() as int)))
                        =~= merged(fields, values, k + 1));
                    lemma_rt_body(ts, next, r, s, k + 1);
                },
                _ => {
                    assert(false);
                },
            }
        }
    }
}

/// The body tag of field `k` dispatches to `k` itself under a well-formed
/// schema.
proof fn lemma_body_index_at(fields: Seq<FieldModel>, k: int, tag: Seq<char>)
    requires
        0 <= k < fields.len(),
        crate::schema::body_tag(fields[k]) == Some(tag),
        forall|i: int, j: int|
            0 <= i < j < fields.len() ==> !((#[trigger] crate::schema::body_tag(fields[i]))
                is Some && (#[trigger] crate::schema::body_tag(fields[j])) is Some
                && crate::schema::body_tag(fields[i]) == crate::schema::body_tag(fields[j])),
    ensures
        crate::schema::body_field_index(fields, tag) == Some(k),
{
    assert forall|j: int|
        0 <= j < k implies crate::schema::body_tag(#[trigger] fields[j]) != Some(tag) by {
        assert(!(crate::schema::body_tag(fields[j]) is Some && crate::schema::body_tag(fields[k])
            is Some && crate::schema::body_tag(fields[j]) == crate::schema::body_tag(fields[k])));
    }
    lemma_body_field_index_hit(fields, k, tag);
}

/// Round trip, repeated children: reading the elements the entries from
/// `j` on wrote appends them, in order, to the `Children` field at `k`.
proof fn lemma_rt_children(ts: Seq<TokenModel>, pos: int, r: RecordModel, s: SchemaModel, k: int, j: int)
    requires
        wf_schema(s),
        wf_record(r, s),
        !s.leaf,
        0 <= k < s.fields.len(),
        k < r.fields.len(),
        s.fields[k] matches FieldModel::Children { .. },
        0 <= j <= r.fields[k]->Children_0.len(),
        0 <= pos,
        pos + write_records(
            r.fields[k]->Children_0.skip(j),
            s.fields[k]->Children_schema,
        ).len() < ts.len(),
        ts.subrange(
            pos,
            pos + write_records(
                r.fields[k]->Children_0.skip(j),
                s.fields[k]->Children_schema,
            ).len() as int,
        ) == write_records(r.fields[k]->Children_0.skip(j), s.fields[k]->Children_schema),
    ensures
        crate::reader::read_body(
            ts,
            pos,
            s,
            merged(s.fields, r.fields, k).update(
                k,
                FieldValueModel::Children(r.fields[k]->Children_0.take(j)),
            ),
        ) == crate::reader::read_body(
            ts,
            pos + write_records(
                r.fields[k]->Children_0.skip(j),
                s.fields[k]->Children_schema,
            ).len() as int,
            s,
            merged(s.fields, r.fields, k).update(
                k,
                FieldValueModel::Children(
                    r.fields[k]->Children_0.take(r.fields[k]->Children_0.len() as int),
                ),
            ),
        ),
    decreases
            crate::value::record_height(r),
            0int,
            s.fields.len() - k,
            r.fields[k]->Children_0.len() - j,
{
    let fields = s.fields;
    let values = r.fields;
    let entries = values[k]->Children_0;
    let cs = fields[k]->Children_schema;
    let tag = fields[k]->Children_tag;
    let m = entries.len() as int;
    let w = write_records(entries.skip(j), cs);
    if j == m {
        assert(entries.skip(j).len() == 0);
        assert(w.len() == 0);
        assert(entries.take(j) =~= entries.take(m));
    } else {
        assert(wf_field_value(values[k], fields[k]));
        assert(entries.skip(j)[0] == entries[j]);
        assert(entries.skip(j).drop_first() =~= entries.skip(j + 1));
        let entry = entries[j];
        let we = write_record(entry, cs);
        let w2 = write_records(entries.skip(j + 1), cs);
        reveal_with_fuel(crate::reader::read_body, 2);
        reveal_with_fuel(crate::reader::read_body_elem, 2);
        assert(w == we + w2);
        lemma_subrange_concat(ts, pos, we, w2);
        lemma_write_record_first(entry, cs);
        assert(ts.subrange(pos, pos + we.len() as int)[0] == ts[pos]);
        assert(ts[pos] == we[0]);
        lemma_body_index_at(fields, k, tag);
        crate::value::lemma_children_height(r, k, entries, j);
        lemma_rt_elem(ts, pos, entry, cs);
        let next = pos + we.len();
        assert(crate::reader::resume(pos, next, ts.len() as int) == next);
        let acc_j = merged(fields, values, k).update(
            k,
            FieldValueModel::Children(entries.take(j)),
        );
        assert(acc_j[k] == FieldValueModel::Children(entries.take(j)));
        let acc_j1 = crate::reader::push_child(acc_j, k, entry);
        assert(entries.take(j).push(entry) =~= entries.take(j + 1));
        assert(acc_j1 =~= merged(fields, values, k).update(
            k,
            FieldValueModel::Children(entries.take(j + 1)),
        ));
        lemma_rt_children(ts, next, r, s, k, j + 1);
    }
}

/// Round trip: for every record type, reading what a record wrote yields
/// the record back, whenever the record holds only engine-representable
/// values as `wf_record` states them.
pub proof fn lemma_round_trip(r: RecordModel, s: SchemaModel)
    requires
        wf_schema(s),
        wf_record(r, s),
    ensures
        read_elem(write_record(r, s), 0, s) == Ok::<_, ErrorModel>(
            (r, write_record(r, s).len() as int),
        ),
{
    let w = write_record(r, s);
    assert(w.subrange(0, w.len() as int) =~= w);
    lemma_rt_elem(w, 0, r, s);
}

} // verus!
