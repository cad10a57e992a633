//! The union dispatcher: a closed, ordered set of record alternatives told
//! apart by tag name alone.

use vstd::prelude::*;
use crate::error::{Error, ErrorModel};
use crate::token::{Token, TokenModel, tokens_model, string_eq};
use crate::schema::{Schema, SchemaModel, schema_model};
use crate::value::{Record, RecordModel};
use crate::reader::{read_elem, read_element};
use crate::writer::{write_record, write_element};

verus! {

/// A tagged union: the variants in declaration order.  Tags across
/// variants must be unique for dispatch to be unambiguous.
pub struct Union {
    pub variants: Vec<Schema>,
}

/// A value of a tagged union: which variant, and its record.
#[derive(Debug, PartialEq)]
pub struct UnionValue {
    pub variant: usize,
    pub record: Record,
}

pub open spec fn schemas_model(vs: Seq<Schema>) -> Seq<SchemaModel>
    decreases vs,
{
    if vs.len() == 0 {
        Seq::empty()
    } else {
        seq![schema_model(vs[0])] + schemas_model(vs.drop_first())
    }
}

/// The model of a schema list is the schema models, in order.
pub broadcast proof fn lemma_schemas_model(vs: Seq<Schema>)
    ensures
        #![trigger schemas_model(vs)]
        schemas_model(vs).len() == vs.len(),
        forall|i: int| 0 <= i < vs.len() ==> schemas_model(vs)[i] == schema_model(vs[i]),
    decreases vs.len(),
{
    if vs.len() > 0 {
        lemma_schemas_model(vs.drop_first());
    }
}

impl View for Union {
    type V = Seq<SchemaModel>;

    open spec fn view(&self) -> Seq<SchemaModel> {
        schemas_model(self.variants@)
    }
}

/// The first variant whose tag is `name`.
pub open spec fn variant_index(vs: Seq<SchemaModel>, name: Seq<char>) -> Option<int>
    decreases vs.len(),
{
    if vs.len() == 0 {
        None
    } else if vs[0].tag == name {
        Some(0int)
    } else {
        match variant_index(vs.drop_first(), name) {
            Some(i) => Some(i + 1),
            None => None,
        }
    }
}

/// Union tags are unique: no two variants share one.
pub open spec fn wf_union(vs: Seq<SchemaModel>) -> bool {
    forall|i: int, j: int| 0 <= i < j < vs.len() ==> vs[i].tag != vs[j].tag
}

/// What dispatching a read over a union yields: the next tag picks the
/// variant whose schema reads the element; a tag no variant carries is an
/// `UnexpectedTag` whose expectation names the whole union.
pub open spec fn read_union_at(ts: Seq<TokenModel>, pos: int, vs: Seq<SchemaModel>) -> Result<
    ((int, RecordModel), int),
    ErrorModel,
> {
    if pos < 0 || pos >= ts.len() {
        Err(ErrorModel::UnexpectedEof)
    } else {
        let name = match ts[pos] {
            TokenModel::Start { name, .. } => Some(name),
            TokenModel::Empty { name, .. } => Some(name),
            _ => None,
        };
        match name {
            None => Err(ErrorModel::UnexpectedEvent),
            Some(name) => match variant_index(vs, name) {
                None => Err(ErrorModel::UnexpectedTag { expected: "union"@, found: name }),
                Some(i) => match read_elem(ts, pos, vs[i]) {
                    Ok((rec, next)) => Ok(((i, rec), next)),
                    Err(e) => Err(e),
                },
            },
        }
    }
}

/// Reads one element of a tagged union at `pos`: the peeked tag selects
/// the variant.
pub fn read_union(ts: &Vec<Token>, pos: usize, u: &Union) -> (r: Result<(UnionValue, usize), Error>)
    ensures
        match r {
            Ok(p) => read_union_at(tokens_model(ts@), pos as int, u@) == Ok::<_, ErrorModel>(
                ((p.0.variant as int, p.0.record@), p.1 as int),
            ) && pos < p.1 <= ts@.len(),
            Err(e) => read_union_at(tokens_model(ts@), pos as int, u@) == Err::<
                ((int, RecordModel), int),
                _,
            >(e@),
        },
{
    if pos >= ts.len() {
        return Err(Error::UnexpectedEof);
    }
    let name = match &ts[pos] {
        Token::Start { name, .. } => name,
        Token::Empty { name, .. } => name,
        _ => {
            return Err(Error::UnexpectedEvent);
        },
    };
    let ghost um = u@;
    let n = u.variants.len();
    proof {
        lemma_schemas_model(u.variants@);
        assert(um.skip(0) =~= um);
    }
    for i in 0..n
        invariant
            n == u.variants.len(),
            um == u@,
            um.len() == u.variants@.len(),
            pos < ts@.len(),
            (tokens_model(ts@)[pos as int] matches TokenModel::Start { name: nm, .. } && nm
                == name@) || (tokens_model(ts@)[pos as int] matches TokenModel::Empty {
                name: nm,
                ..
            } && nm == name@),
            variant_index(um, name@) == match variant_index(um.skip(i as int), name@) {
                Some(k) => Some(k + i),
                None => None,
            },
    {
        proof {
            lemma_schemas_model(u.variants@);
            assert(um.skip(i as int)[0] == um[i as int]);
            assert(um.skip(i as int).drop_first() =~= um.skip(i + 1));
        }
        if string_eq(&u.variants[i].tag, name) {
            match read_element(ts, pos, &u.variants[i]) {
                Ok((rec, next)) => {
                    return Ok((UnionValue { variant: i, record: rec }, next));
                },
                Err(e) => {
                    return Err(e);
                },
            }
        }
    }
    proof {
        assert(um.skip(n as int) =~= Seq::<SchemaModel>::empty());
    }
    Err(Error::UnexpectedTag { expected: String::from_str("union"), found: name.clone() })
}

/// Writes a union value: the writer of its runtime variant applies; no
/// other variant can.
pub fn write_union(v: &UnionValue, u: &Union, out: &mut Vec<Token>)
    requires
        v.variant < u.variants@.len(),
    ensures
        tokens_model(final(out)@) == tokens_model(old(out)@) + write_record(
            v.record@,
            u@[v.variant as int],
        ),
{
    proof {
        lemma_schemas_model(u.variants@);
    }
    write_element(&v.record, &u.variants[v.variant], out);
}

} // verus!
