//! XML stream tokens: the event shapes the reader consumes and the writer
//! produces.  Attributes are an ordered list of name/value pairs.

use vstd::prelude::*;

verus! {

/// One attribute of a start or self-closing tag.
pub struct Attr {
    pub name: String,
    pub value: String,
}

/// Mathematical model of an attribute.
#[verifier::ext_equal]
pub struct AttrModel {
    pub name: Seq<char>,
    pub value: Seq<char>,
}

impl View for Attr {
    type V = AttrModel;

    open spec fn view(&self) -> AttrModel {
        AttrModel { name: self.name@, value: self.value@ }
    }
}

/// One XML stream event.  End of input is represented by running off the
/// end of the token sequence, not by a token of its own.
pub enum Token {
    /// `<name a="v" ...>`
    Start { name: String, attrs: Vec<Attr> },
    /// `<name a="v" .../>`: an element with an empty body.
    Empty { name: String, attrs: Vec<Attr> },
    /// `</name>`
    End { name: String },
    /// A run of character data.
    Text { content: String },
}

/// Mathematical model of a token.
#[verifier::ext_equal]
pub enum TokenModel {
    Start { name: Seq<char>, attrs: Seq<AttrModel> },
    Empty { name: Seq<char>, attrs: Seq<AttrModel> },
    End { name: Seq<char> },
    Text { content: Seq<char> },
}

pub open spec fn attrs_model(attrs: Seq<Attr>) -> Seq<AttrModel> {
    attrs.map_values(|a: Attr| a@)
}

impl View for Token {
    type V = TokenModel;

    open spec fn view(&self) -> TokenModel {
        match self {
            Token::Start { name, attrs } => TokenModel::Start {
                name: name@,
                attrs: attrs_model(attrs@),
            },
            Token::Empty { name, attrs } => TokenModel::Empty {
                name: name@,
                attrs: attrs_model(attrs@),
            },
            Token::End { name } => TokenModel::End { name: name@ },
            Token::Text { content } => TokenModel::Text { content: content@ },
        }
    }
}

pub open spec fn tokens_model(tokens: Seq<Token>) -> Seq<TokenModel> {
    tokens.map_values(|t: Token| t@)
}

/// The value of the first attribute named `name`, if any.
pub open spec fn attr_lookup(attrs: Seq<AttrModel>, name: Seq<char>) -> Option<Seq<char>>
    decreases attrs.len(),
{
    if attrs.len() == 0 {
        None
    } else if attrs[0].name == name {
        Some(attrs[0].value)
    } else {
        attr_lookup(attrs.drop_first(), name)
    }
}

/// Finds the value of the attribute named `name` in an attribute list.
pub fn find_attr<'a>(attrs: &'a Vec<Attr>, name: &str) -> (r: Option<&'a String>)
    ensures
        match r {
            Some(v) => attr_lookup(attrs_model(attrs@), name@) == Some(v@),
            None => attr_lookup(attrs_model(attrs@), name@) is None,
        },
{
    let n = attrs.len();
    proof {
        assert(attrs_model(attrs@).skip(0) =~= attrs_model(attrs@));
    }
    for i in 0..n
        invariant
            n == attrs.len(),
            attr_lookup(attrs_model(attrs@), name@) == attr_lookup(
                attrs_model(attrs@).skip(i as int),
                name@,
            ),
    {
        proof {
            assert(attrs_model(attrs@).skip(i as int)[0] == attrs@[i as int]@);
        }
        if str_eq(attrs[i].name.as_str(), name) {
            return Some(&attrs[i].value);
        }
        proof {
            assert(attrs_model(attrs@).skip(i as int).drop_first() =~= attrs_model(attrs@).skip(
                i + 1,
            ));
        }
    }
    None
}

/// Character-by-character string equality, exposed to contracts as equality
/// of the views.
pub fn str_eq(a: &str, b: &str) -> (r: bool)
    ensures
        r == (a@ == b@),
{
    let an = a.unicode_len();
    let bn = b.unicode_len();
    if an != bn {
        proof {
            assert(a@ != b@);
        }
        return false;
    }
    for i in 0..an
        invariant
            an == a@.len(),
            an == b@.len(),
            forall|j: int| 0 <= j < i ==> a@[j] == b@[j],
    {
        if a.get_char(i) != b.get_char(i) {
            proof {
                assert(a@[i as int] != b@[i as int]);
            }
            return false;
        }
    }
    proof {
        assert(a@ =~= b@);
    }
    true
}

/// String equality for owned strings.
pub fn string_eq(a: &String, b: &String) -> (r: bool)
    ensures
        r == (a@ == b@),
{
    str_eq(a.as_str(), b.as_str())
}

} // verus!
