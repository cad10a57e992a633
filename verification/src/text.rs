//! The character layer: serializing tokens as XML text and tokenizing XML
//! text, with the whitespace-trimming policy applied to text runs.

use vstd::prelude::*;
use crate::error::{Error, ErrorModel};
use crate::token::{Attr, AttrModel, Token, TokenModel, attrs_model, tokens_model};
use crate::schema::{Schema, SchemaModel};
use crate::value::{Record, RecordModel};
use crate::reader::{read_elem, read_element};
use crate::writer::{write_record, write_tokens};

verus! {

/// Relies on `String::push`: appends one character at the end.
#[verifier::external_body]
fn push_char(s: &mut String, c: char)
    ensures
        final(s)@ == old(s)@ + seq![c],
{
    s.push(c)
}

/// An XML whitespace character.
pub open spec fn is_ws(c: char) -> bool {
    c == ' ' || c == '\t' || c == '\n' || c == '\r'
}

/// A character that may stand in a tag or attribute name.
pub open spec fn is_name_char(c: char) -> bool {
    !is_ws(c) && c != '<' && c != '>' && c != '/' && c != '=' && c != '"'
}

/// The run without its leading whitespace.
pub open spec fn trim_front(s: Seq<char>) -> Seq<char>
    decreases s.len(),
{
    if s.len() > 0 && is_ws(s[0]) {
        trim_front(s.drop_first())
    } else {
        s
    }
}

/// The run without its trailing whitespace.
pub open spec fn trim_back(s: Seq<char>) -> Seq<char>
    decreases s.len(),
{
    if s.len() > 0 && is_ws(s.last()) {
        trim_back(s.drop_last())
    } else {
        s
    }
}

/// The run without leading and trailing whitespace.
pub open spec fn trim(s: Seq<char>) -> Seq<char> {
    trim_back(trim_front(s))
}

/// Trims whitespace from both ends of a text run.
pub fn trim_exec(s: &String) -> (r: String)
    ensures
        r@ == trim(s@),
{
    let sv = s.as_str();
    let n = sv.unicode_len();
    let mut start: usize = 0;
    proof {
        assert(s@.skip(0) =~= s@);
    }
    loop
        invariant
            start <= n,
            n == s@.len(),
            sv@ == s@,
            trim_front(s@) == trim_front(s@.skip(start as int)),
        ensures
            start <= n,
            trim_front(s@) == s@.skip(start as int),
        decreases n - start,
    {
        if start >= n {
            break ;
        }
        let c = sv.get_char(start);
        proof {
            assert(s@.skip(start as int)[0] == s@[start as int]);
        }
        if !is_ws_exec(c) {
            proof {
                assert(trim_front(s@.skip(start as int)) =~= s@.skip(start as int));
            }
            break ;
        }
        proof {
            assert(s@.skip(start as int).drop_first() =~= s@.skip(start + 1));
        }
        start = start + 1;
    }
    proof {
        assert(s@.skip(start as int) =~= s@.subrange(start as int, n as int));
    }
    let mut end: usize = n;
    loop
        invariant
            start <= end <= n,
            n == s@.len(),
            sv@ == s@,
            trim_front(s@) == s@.skip(start as int),
            trim_back(s@.skip(start as int)) == trim_back(s@.subrange(start as int, end as int)),
        ensures
            start <= end <= n,
            trim_back(s@.skip(start as int)) == s@.subrange(start as int, end as int),
        decreases end,
    {
        if end <= start {
            proof {
                assert(s@.subrange(start as int, end as int).len() == 0);
                assert(trim_back(s@.subrange(start as int, end as int)) =~= s@.subrange(
                    start as int,
                    end as int,
                ));
            }
            break ;
        }
        let c = sv.get_char(end - 1);
        proof {
            assert(s@.subrange(start as int, end as int).last() == s@[end - 1]);
        }
        if !is_ws_exec(c) {
            proof {
                assert(trim_back(s@.subrange(start as int, end as int)) =~= s@.subrange(
                    start as int,
                    end as int,
                ));
            }
            break ;
        }
        proof {
            assert(s@.subrange(start as int, end as int).drop_last() =~= s@.subrange(
                start as int,
                end - 1,
            ));
        }
        end = end - 1;
    }
    let out = sv.substring_char(start, end).to_owned();
    out
}

/// Whether `c` is XML whitespace.
pub fn is_ws_exec(c: char) -> (r: bool)
    ensures
        r == is_ws(c),
{
    c == ' ' || c == '\t' || c == '\n' || c == '\r'
}

/// Whether `c` may stand in a name.
pub fn is_name_char_exec(c: char) -> (r: bool)
    ensures
        r == is_name_char(c),
{
    !is_ws_exec(c) && c != '<' && c != '>' && c != '/' && c != '=' && c != '"'
}

/// The text an attribute list serializes as: one leading space per
/// attribute, the value in double quotes.
pub open spec fn render_attrs(attrs: Seq<AttrModel>) -> Seq<char>
    decreases attrs.len(),
{
    if attrs.len() == 0 {
        Seq::empty()
    } else {
        seq![' '] + attrs[0].name + seq!['=', '"'] + attrs[0].value + seq!['"'] + render_attrs(
            attrs.drop_first(),
        )
    }
}

/// The text one token serializes as.
pub open spec fn render_token(t: TokenModel) -> Seq<char> {
    match t {
        TokenModel::Start { name, attrs } => seq!['<'] + name + render_attrs(attrs) + seq!['>'],
        TokenModel::Empty { name, attrs } => seq!['<'] + name + render_attrs(attrs) + seq![
            '/',
            '>',
        ],
        TokenModel::End { name } => seq!['<', '/'] + name + seq!['>'],
        TokenModel::Text { content } => content,
    }
}

/// The text a token stream serializes as.
pub open spec fn render_tokens(ts: Seq<TokenModel>) -> Seq<char>
    decreases ts.len(),
{
    if ts.len() == 0 {
        Seq::empty()
    } else {
        render_token(ts[0]) + render_tokens(ts.drop_first())
    }
}

/// Serializes a token stream as XML text.  No whitespace is inserted
/// between siblings; values are emitted verbatim.
pub fn render(tokens: &Vec<Token>) -> (r: String)
    ensures
        r@ == render_tokens(tokens_model(tokens@)),
{
    let ghost tm = tokens_model(tokens@);
    let mut out = String::new();
    let n = tokens.len();
    proof {
        assert(tm.skip(0) =~= tm);
        assert(out@ + render_tokens(tm) =~= render_tokens(tm));
    }
    for i in 0..n
        invariant
            n == tokens.len(),
            tm == tokens_model(tokens@),
            tm.len() == tokens@.len(),
            render_tokens(tm) == out@ + render_tokens(tm.skip(i as int)),
    {
        proof {
            assert(tm.skip(i as int)[0] == tm[i as int]);
            assert(tm.skip(i as int).drop_first() =~= tm.skip(i + 1));
        }
        let ghost pre = out@;
        match &tokens[i] {
            Token::Start { name, attrs } => {
                out.append("<");
                out.append(name.as_str());
                push_attrs(attrs, &mut out);
                out.append(">");
                proof {
                    reveal_strlit("<");
                    reveal_strlit(">");
                    assert(out@ =~= pre + render_token(tm[i as int]));
                }
            },
            Token::Empty { name, attrs } => {
                out.append("<");
                out.append(name.as_str());
                push_attrs(attrs, &mut out);
                out.append("/>");
                proof {
                    reveal_strlit("<");
                    reveal_strlit("/>");
                    assert(out@ =~= pre + render_token(tm[i as int]));
                }
            },
            Token::End { name } => {
                out.append("</");
                out.append(name.as_str());
                out.append(">");
                proof {
                    reveal_strlit("</");
                    reveal_strlit(">");
                    assert(out@ =~= pre + render_token(tm[i as int]));
                }
            },
            Token::Text { content } => {
                out.append(content.as_str());
                proof {
                    assert(out@ =~= pre + render_token(tm[i as int]));
                }
            },
        }
        proof {
            assert(pre + (render_token(tm[i as int]) + render_tokens(tm.skip(i + 1))) =~= out@
                + render_tokens(tm.skip(i + 1)));
        }
    }
    proof {
        assert(render_tokens(tm.skip(n as int)) =~= Seq::<char>::empty());
        assert(out@ + Seq::<char>::empty() =~= out@);
    }
    out
}

/// Appends the serialized attribute list to `out`.
fn push_attrs(attrs: &Vec<Attr>, out: &mut String)
    ensures
        final(out)@ == old(out)@ + render_attrs(attrs_model(attrs@)),
{
    let ghost am = attrs_model(attrs@);
    let n = attrs.len();
    proof {
        assert(am.skip(0) =~= am);
        assert(old(out)@ + render_attrs(am) =~= out@ + render_attrs(am.skip(0)));
    }
    for i in 0..n
        invariant
            n == attrs.len(),
            am == attrs_model(attrs@),
            am.len() == attrs@.len(),
            old(out)@ + render_attrs(am) == out@ + render_attrs(am.skip(i as int)),
    {
        proof {
            assert(am.skip(i as int)[0] == am[i as int]);
            assert(am.skip(i as int).drop_first() =~= am.skip(i + 1));
        }
        let ghost pre = out@;
        out.append(" ");
        out.append(attrs[i].name.as_str());
        out.append("=\"");
        out.append(attrs[i].value.as_str());
        out.append("\"");
        proof {
            reveal_strlit(" ");
            reveal_strlit("=\"");
            reveal_strlit("\"");
            assert(out@ =~= pre + (seq![' '] + am[i as int].name + seq!['=', '"']
                + am[i as int].value + seq!['"']));
            assert(pre + ((seq![' '] + am[i as int].name + seq!['=', '"'] + am[i as int].value
                + seq!['"']) + render_attrs(am.skip(i + 1))) =~= out@ + render_attrs(
                am.skip(i + 1),
            ));
        }
    }
    proof {
        assert(render_attrs(am.skip(n as int)) =~= Seq::<char>::empty());
        assert(out@ + Seq::<char>::empty() =~= out@);
    }
}


/// The tokenizer's state between characters.
pub enum LexState {
    /// Between markup, accumulating a text run.
    Run { buf: String },
    /// Just after `<`.
    Open,
    /// Inside `</...`, accumulating the name.
    CloseName { name: String },
    /// Inside `<...`, accumulating the name.
    OpenName { name: String },
    /// Inside a tag after its name, between attributes.
    InTag { name: String, attrs: Vec<Attr> },
    /// Accumulating an attribute name.
    AttrName { name: String, attrs: Vec<Attr>, aname: String },
    /// Just after `=`, expecting the opening quote.
    AttrEq { name: String, attrs: Vec<Attr>, aname: String },
    /// Inside a quoted attribute value.
    AttrVal { name: String, attrs: Vec<Attr>, aname: String, aval: String },
    /// Just after `/`, expecting `>`.
    Slash { name: String, attrs: Vec<Attr> },
}

/// Mathematical model of the tokenizer's state.
#[verifier::ext_equal]
pub enum LexStateModel {
    Run { buf: Seq<char> },
    Open,
    CloseName { name: Seq<char> },
    OpenName { name: Seq<char> },
    InTag { name: Seq<char>, attrs: Seq<AttrModel> },
    AttrName { name: Seq<char>, attrs: Seq<AttrModel>, aname: Seq<char> },
    AttrEq { name: Seq<char>, attrs: Seq<AttrModel>, aname: Seq<char> },
    AttrVal { name: Seq<char>, attrs: Seq<AttrModel>, aname: Seq<char>, aval: Seq<char> },
    Slash { name: Seq<char>, attrs: Seq<AttrModel> },
}

impl View for LexState {
    type V = LexStateModel;

    open spec fn view(&self) -> LexStateModel {
        match self {
            LexState::Run { buf } => LexStateModel::Run { buf: buf@ },
            LexState::Open => LexStateModel::Open,
            LexState::CloseName { name } => LexStateModel::CloseName { name: name@ },
            LexState::OpenName { name } => LexStateModel::OpenName { name: name@ },
            LexState::InTag { name, attrs } => LexStateModel::InTag {
                name: name@,
                attrs: attrs_model(attrs@),
            },
            LexState::AttrName { name, attrs, aname } => LexStateModel::AttrName {
                name: name@,
                attrs: attrs_model(attrs@),
                aname: aname@,
            },
            LexState::AttrEq { name, attrs, aname } => LexStateModel::AttrEq {
                name: name@,
                attrs: attrs_model(attrs@),
                aname: aname@,
            },
            LexState::AttrVal { name, attrs, aname, aval } => LexStateModel::AttrVal {
                name: name@,
                attrs: attrs_model(attrs@),
                aname: aname@,
                aval: aval@,
            },
            LexState::Slash { name, attrs } => LexStateModel::Slash {
                name: name@,
                attrs: attrs_model(attrs@),
            },
        }
    }
}

/// One tokenizer step: the next state and at most one emitted token.
pub open spec fn lex_step(st: LexStateModel, c: char) -> Result<
    (LexStateModel, Option<TokenModel>),
    ErrorModel,
> {
    match st {
        LexStateModel::Run { buf } => if c == '<' {
            if trim(buf).len() == 0 {
                Ok((LexStateModel::Open, None))
            } else {
                Ok((LexStateModel::Open, Some(TokenModel::Text { content: trim(buf) })))
            }
        } else {
            Ok((LexStateModel::Run { buf: buf + seq![c] }, None))
        },
        LexStateModel::Open => if c == '/' {
            Ok((LexStateModel::CloseName { name: Seq::empty() }, None))
        } else if is_name_char(c) {
            Ok((LexStateModel::OpenName { name: seq![c] }, None))
        } else {
            Err(ErrorModel::Syntax)
        },
        LexStateModel::CloseName { name } => if c == '>' {
            if name.len() == 0 {
                Err(ErrorModel::Syntax)
            } else {
                Ok((LexStateModel::Run { buf: Seq::empty() }, Some(TokenModel::End { name })))
            }
        } else if is_name_char(c) {
            Ok((LexStateModel::CloseName { name: name + seq![c] }, None))
        } else {
            Err(ErrorModel::Syntax)
        },
        LexStateModel::OpenName { name } => if c == '>' {
            if name.len() == 0 {
                Err(ErrorModel::Syntax)
            } else {
                Ok(
                    (
                        LexStateModel::Run { buf: Seq::empty() },
                        Some(TokenModel::Start { name, attrs: Seq::empty() }),
                    ),
                )
            }
        } else if c == '/' {
            if name.len() == 0 {
                Err(ErrorModel::Syntax)
            } else {
                Ok((LexStateModel::Slash { name, attrs: Seq::empty() }, None))
            }
        } else if is_ws(c) {
            if name.len() == 0 {
                Err(ErrorModel::Syntax)
            } else {
                Ok((LexStateModel::InTag { name, attrs: Seq::empty() }, None))
            }
        } else if is_name_char(c) {
            Ok((LexStateModel::OpenName { name: name + seq![c] }, None))
        } else {
            Err(ErrorModel::Syntax)
        },
        LexStateModel::InTag { name, attrs } => if is_ws(c) {
            Ok((LexStateModel::InTag { name, attrs }, None))
        } else if c == '>' {
            Ok(
                (
                    LexStateModel::Run { buf: Seq::empty() },
                    Some(TokenModel::Start { name, attrs }),
                ),
            )
        } else if c == '/' {
            Ok((LexStateModel::Slash { name, attrs }, None))
        } else if is_name_char(c) {
            Ok((LexStateModel::AttrName { name, attrs, aname: seq![c] }, None))
        } else {
            Err(ErrorModel::Syntax)
        },
        LexStateModel::AttrName { name, attrs, aname } => if c == '=' {
            Ok((LexStateModel::AttrEq { name, attrs, aname }, None))
        } else if is_name_char(c) {
            Ok((LexStateModel::AttrName { name, attrs, aname: aname + seq![c] }, None))
        } else {
            Err(ErrorModel::Syntax)
        },
        LexStateModel::AttrEq { name, attrs, aname } => if c == '"' {
            Ok((LexStateModel::AttrVal { name, attrs, aname, aval: Seq::empty() }, None))
        } else {
            Err(ErrorModel::Syntax)
        },
        LexStateModel::AttrVal { name, attrs, aname, aval } => if c == '"' {
            Ok(
                (
                    LexStateModel::InTag {
                        name,
                        attrs: attrs.push(AttrModel { name: aname, value: aval }),
                    },
                    None,
                ),
            )
        } else {
            Ok((LexStateModel::AttrVal { name, attrs, aname, aval: aval + seq![c] }, None))
        },
        LexStateModel::Slash { name, attrs } => if c == '>' {
            Ok(
                (
                    LexStateModel::Run { buf: Seq::empty() },
                    Some(TokenModel::Empty { name, attrs }),
                ),
            )
        } else {
            Err(ErrorModel::Syntax)
        },
    }
}

/// What end of input yields: a final trimmed text run, or a syntax error
/// inside unfinished markup.
pub open spec fn lex_finish(st: LexStateModel) -> Result<Option<TokenModel>, ErrorModel> {
    match st {
        LexStateModel::Run { buf } => if trim(buf).len() == 0 {
            Ok(None)
        } else {
            Ok(Some(TokenModel::Text { content: trim(buf) }))
        },
        _ => Err(ErrorModel::Syntax),
    }
}

/// An emitted token as a sequence.
pub open spec fn opt_seq(o: Option<TokenModel>) -> Seq<TokenModel> {
    match o {
        Some(t) => seq![t],
        None => Seq::empty(),
    }
}

/// The tokens of `s` from position `i` onwards, starting in state `st`.
pub open spec fn lex_from(s: Seq<char>, i: int, st: LexStateModel) -> Result<
    Seq<TokenModel>,
    ErrorModel,
>
    decreases s.len() - i,
{
    if i < 0 || i >= s.len() {
        match lex_finish(st) {
            Ok(o) => Ok(opt_seq(o)),
            Err(e) => Err(e),
        }
    } else {
        match lex_step(st, s[i]) {
            Err(e) => Err(e),
            Ok((st2, o)) => match lex_from(s, i + 1, st2) {
                Ok(rest) => Ok(opt_seq(o) + rest),
                Err(e) => Err(e),
            },
        }
    }
}

/// The token stream of a whole character run.
pub open spec fn tokenize_chars(s: Seq<char>) -> Result<Seq<TokenModel>, ErrorModel> {
    lex_from(s, 0, LexStateModel::Run { buf: Seq::empty() })
}

/// The model of an optional token.
pub open spec fn opt_model(o: Option<Token>) -> Option<TokenModel> {
    match o {
        Some(t) => Some(t@),
        None => None,
    }
}

/// One executable tokenizer step.
fn lex_step_exec(st: LexState, c: char) -> (r: Result<(LexState, Option<Token>), Error>)
    ensures
        match r {
            Ok(p) => lex_step(st@, c) == Ok::<_, ErrorModel>((p.0@, opt_model(p.1))),
            Err(e) => lex_step(st@, c) == Err::<(LexStateModel, Option<TokenModel>), _>(e@),
        },
{
    match st {
        LexState::Run { mut buf } => {
            if c == '<' {
                let t = trim_exec(&buf);
                if t.as_str().is_empty() {
                    Ok((LexState::Open, None))
                } else {
                    Ok((LexState::Open, Some(Token::Text { content: t })))
                }
            } else {
                push_char(&mut buf, c);
                Ok((LexState::Run { buf }, None))
            }
        },
        LexState::Open => {
            if c == '/' {
                let r = (LexState::CloseName { name: String::new() }, None);
                proof {
                    assert(r.0@->CloseName_name =~= Seq::<char>::empty());
                }
                Ok(r)
            } else if is_name_char_exec(c) {
                let mut name = String::new();
                push_char(&mut name, c);
                proof {
                    assert(name@ =~= seq![c]);
                }
                Ok((LexState::OpenName { name }, None))
            } else {
                Err(Error::Syntax)
            }
        },
        LexState::CloseName { mut name } => {
            if c == '>' {
                if name.as_str().is_empty() {
                    Err(Error::Syntax)
                } else {
                    let r = (LexState::Run { buf: String::new() }, Some(Token::End { name }));
                    proof {
                        assert(r.0@->Run_buf =~= Seq::<char>::empty());
                    }
                    Ok(r)
                }
            } else if is_name_char_exec(c) {
                push_char(&mut name, c);
                Ok((LexState::CloseName { name }, None))
            } else {
                Err(Error::Syntax)
            }
        },
        LexState::OpenName { mut name } => {
            if c == '>' {
                if name.as_str().is_empty() {
                    Err(Error::Syntax)
                } else {
                    let r = (
                        LexState::Run { buf: String::new() },
                        Some(Token::Start { name, attrs: Vec::new() }),
                    );
                    proof {
                        assert(r.0@->Run_buf =~= Seq::<char>::empty());
                        assert(attrs_model(Seq::<Attr>::empty()) =~= Seq::<AttrModel>::empty());
                    }
                    Ok(r)
                }
            } else if c == '/' {
                if name.as_str().is_empty() {
                    Err(Error::Syntax)
                } else {
                    let r = (LexState::Slash { name, attrs: Vec::new() }, None);
                    proof {
                        assert(attrs_model(Seq::<Attr>::empty()) =~= Seq::<AttrModel>::empty());
                    }
                    Ok(r)
                }
            } else if is_ws_exec(c) {
                if name.as_str().is_empty() {
                    Err(Error::Syntax)
                } else {
                    let r = (LexState::InTag { name, attrs: Vec::new() }, None);
                    proof {
                        assert(attrs_model(Seq::<Attr>::empty()) =~= Seq::<AttrModel>::empty());
                    }
                    Ok(r)
                }
            } else if is_name_char_exec(c) {
                push_char(&mut name, c);
                Ok((LexState::OpenName { name }, None))
            } else {
                Err(Error::Syntax)
            }
        },
        LexState::InTag { name, attrs } => {
            if is_ws_exec(c) {
                Ok((LexState::InTag { name, attrs }, None))
            } else if c == '>' {
                let r = (LexState::Run { buf: String::new() }, Some(Token::Start { name, attrs }));
                proof {
                    assert(r.0@->Run_buf =~= Seq::<char>::empty());
                }
                Ok(r)
            } else if c == '/' {
                Ok((LexState::Slash { name, attrs }, None))
            } else if is_name_char_exec(c) {
                let mut aname = String::new();
                push_char(&mut aname, c);
                proof {
                    assert(aname@ =~= seq![c]);
                }
                Ok((LexState::AttrName { name, attrs, aname }, None))
            } else {
                Err(Error::Syntax)
            }
        },
        LexState::AttrName { name, attrs, mut aname } => {
            if c == '=' {
                Ok((LexState::AttrEq { name, attrs, aname }, None))
            } else if is_name_char_exec(c) {
                push_char(&mut aname, c);
                Ok((LexState::AttrName { name, attrs, aname }, None))
            } else {
                Err(Error::Syntax)
            }
        },
        LexState::AttrEq { name, attrs, aname } => {
            if c == '"' {
                let r = (LexState::AttrVal { name, attrs, aname, aval: String::new() }, None);
                proof {
                    assert(r.0@->AttrVal_aval =~= Seq::<char>::empty());
                }
                Ok(r)
            } else {
                Err(Error::Syntax)
            }
        },
        LexState::AttrVal { name, mut attrs, aname, mut aval } => {
            if c == '"' {
                let ghost attrs_old = attrs@;
                attrs.push(Attr { name: aname, value: aval });
                proof {
                    assert(attrs_model(attrs@) =~= attrs_model(attrs_old).push(
                        attrs@[attrs@.len() - 1]@,
                    ));
                }
                Ok((LexState::InTag { name, attrs }, None))
            } else {
                push_char(&mut aval, c);
                Ok((LexState::AttrVal { name, attrs, aname, aval }, None))
            }
        },
        LexState::Slash { name, attrs } => {
            if c == '>' {
                let r = (LexState::Run { buf: String::new() }, Some(Token::Empty { name, attrs }));
                proof {
                    assert(r.0@->Run_buf =~= Seq::<char>::empty());
                }
                Ok(r)
            } else {
                Err(Error::Syntax)
            }
        },
    }
}

/// Tokenizes XML text: start, self-closing and end tags with quoted
/// attributes, and text runs with surrounding whitespace trimmed and
/// whitespace-only runs dropped.
pub fn tokenize(s: &str) -> (r: Result<Vec<Token>, Error>)
    ensures
        match r {
            Ok(ts) => tokenize_chars(s@) == Ok::<_, ErrorModel>(tokens_model(ts@)),
            Err(e) => tokenize_chars(s@) == Err::<Seq<TokenModel>, _>(e@),
        },
{
    let n = s.unicode_len();
    let mut st = LexState::Run { buf: String::new() };
    let mut out: Vec<Token> = Vec::new();
    proof {
        assert(st@->Run_buf =~= Seq::<char>::empty());
        assert(tokens_model(out@) =~= Seq::<TokenModel>::empty());
        assert(st@ == (LexStateModel::Run { buf: Seq::<char>::empty() }));
        if lex_from(s@, 0, st@) is Ok {
            assert(tokens_model(out@) + lex_from(s@, 0, st@)->Ok_0 =~= lex_from(
                s@,
                0,
                st@,
            )->Ok_0);
        }
    }
    for i in 0..n
        invariant
            n == s@.len(),
            lex_from(s@, i as int, st@) is Ok ==> tokenize_chars(s@) == Ok::<_, ErrorModel>(
                tokens_model(out@) + lex_from(s@, i as int, st@)->Ok_0,
            ),
            lex_from(s@, i as int, st@) is Err ==> tokenize_chars(s@) == lex_from(
                s@,
                i as int,
                st@,
            ),
    {
        let c = s.get_char(i);
        let ghost st_pre = st@;
        let ghost out_pre = out@;
        match lex_step_exec(st, c) {
            Err(e) => {
                return Err(e);
            },
            Ok((st2, o)) => {
                st = st2;
                match o {
                    Some(t) => {
                        out.push(t);
                        proof {
                            assert(tokens_model(out@) =~= tokens_model(out_pre) + opt_seq(
                                lex_step(st_pre, c)->Ok_0.1,
                            ));
                        }
                    },
                    None => {
                        proof {
                            assert(tokens_model(out@) + opt_seq(lex_step(st_pre, c)->Ok_0.1)
                                =~= tokens_model(out@));
                        }
                    },
                }
                proof {
                    if lex_from(s@, i + 1, st@) is Ok {
                        assert(tokens_model(out_pre) + (opt_seq(lex_step(st_pre, c)->Ok_0.1)
                            + lex_from(s@, i + 1, st@)->Ok_0) =~= tokens_model(out@) + lex_from(
                            s@,
                            i + 1,
                            st@,
                        )->Ok_0);
                    }
                }
            },
        }
    }
    let last = match st {
        LexState::Run { buf } => {
            let t = trim_exec(&buf);
            if t.as_str().is_empty() {
                None
            } else {
                Some(Token::Text { content: t })
            }
        },
        _ => {
            return Err(Error::Syntax);
        },
    };
    match last {
        Some(t) => {
            let ghost out_pre = out@;
            out.push(t);
            proof {
                assert(tokens_model(out@) =~= tokens_model(out_pre) + opt_seq(Some(t@)));
            }
            Ok(out)
        },
        None => {
            proof {
                assert(tokens_model(out@) + opt_seq(None) =~= tokens_model(out@));
            }
            Ok(out)
        },
    }
}

/// What reading a document from text yields: tokenize, then read one
/// element at the start of the stream.
pub open spec fn read_document_chars(s: Seq<char>, sm: SchemaModel) -> Result<
    RecordModel,
    ErrorModel,
> {
    match tokenize_chars(s) {
        Err(e) => Err(e),
        Ok(ts) => match read_elem(ts, 0, sm) {
            Ok((r, _)) => Ok(r),
            Err(e) => Err(e),
        },
    }
}

/// Reads one record from XML text.
pub fn read_document(s: &str, schema: &Schema) -> (r: Result<Record, Error>)
    ensures
        match r {
            Ok(rec) => read_document_chars(s@, schema@) == Ok::<_, ErrorModel>(rec@),
            Err(e) => read_document_chars(s@, schema@) == Err::<RecordModel, _>(e@),
        },
{
    match tokenize(s) {
        Err(e) => Err(e),
        Ok(ts) => match read_element(&ts, 0, schema) {
            Ok((rec, _)) => Ok(rec),
            Err(e) => Err(e),
        },
    }
}

/// Writes one record as XML text.
pub fn write_document(r: &Record, s: &Schema) -> (out: String)
    ensures
        out@ == render_tokens(write_record(r@, s@)),
{
    let ts = write_tokens(r, s);
    render(&ts)
}

} // verus!
