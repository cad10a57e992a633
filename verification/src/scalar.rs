//! Scalar coercion: text to and from strings, booleans, and signed
//! integers, with typed parse failures.

use vstd::prelude::*;
use crate::error::{Error, ErrorModel};

verus! {

/// The scalar kinds a field can carry.
#[derive(Clone, Copy, Debug, PartialEq, Eq, Structural)]
pub enum ScalarKind {
    Str,
    Boolean,
    Int,
}

/// A scalar field value.
#[derive(Debug, PartialEq)]
pub enum Scalar {
    Str(String),
    Boolean(bool),
    Int(i64),
}

/// Mathematical model of a scalar.
#[verifier::ext_equal]
pub enum ScalarModel {
    Str(Seq<char>),
    Boolean(bool),
    Int(int),
}

impl View for Scalar {
    type V = ScalarModel;

    open spec fn view(&self) -> ScalarModel {
        match self {
            Scalar::Str(s) => ScalarModel::Str(s@),
            Scalar::Boolean(b) => ScalarModel::Boolean(*b),
            Scalar::Int(i) => ScalarModel::Int(*i as int),
        }
    }
}

/// The kind a scalar value belongs to.
pub open spec fn kind_of(v: ScalarModel) -> ScalarKind {
    match v {
        ScalarModel::Str(_) => ScalarKind::Str,
        ScalarModel::Boolean(_) => ScalarKind::Boolean,
        ScalarModel::Int(_) => ScalarKind::Int,
    }
}

/// A scalar value the engine can hold at run time: integers fit in `i64`.
pub open spec fn scalar_fits(v: ScalarModel) -> bool {
    match v {
        ScalarModel::Int(n) => i64::MIN as int <= n <= i64::MAX as int,
        _ => true,
    }
}

/// The canonical digit character for `d`.
pub open spec fn digit_char(d: int) -> char {
    if d == 0 {
        '0'
    } else if d == 1 {
        '1'
    } else if d == 2 {
        '2'
    } else if d == 3 {
        '3'
    } else if d == 4 {
        '4'
    } else if d == 5 {
        '5'
    } else if d == 6 {
        '6'
    } else if d == 7 {
        '7'
    } else if d == 8 {
        '8'
    } else {
        '9'
    }
}

/// The value of a decimal digit character, or `None`.
pub open spec fn digit_value(c: char) -> Option<int> {
    if c == '0' {
        Some(0int)
    } else if c == '1' {
        Some(1int)
    } else if c == '2' {
        Some(2int)
    } else if c == '3' {
        Some(3int)
    } else if c == '4' {
        Some(4int)
    } else if c == '5' {
        Some(5int)
    } else if c == '6' {
        Some(6int)
    } else if c == '7' {
        Some(7int)
    } else if c == '8' {
        Some(8int)
    } else if c == '9' {
        Some(9int)
    } else {
        None
    }
}

/// The decimal digits of `n` without a leading zero; empty for zero.
pub open spec fn udec_chars(n: int) -> Seq<char>
    decreases n,
{
    if n <= 0 {
        Seq::empty()
    } else {
        udec_chars(n / 10) + seq![digit_char(n % 10)]
    }
}

/// The canonical decimal rendering of an integer.
pub open spec fn int_chars(n: int) -> Seq<char> {
    if n == 0 {
        seq!['0']
    } else if n > 0 {
        udec_chars(n)
    } else {
        seq!['-'] + udec_chars(-n)
    }
}

/// The boolean literals.
pub open spec fn bool_chars(b: bool) -> Seq<char> {
    if b {
        "true"@
    } else {
        "false"@
    }
}

/// The text a scalar is rendered as.
pub open spec fn scalar_chars(v: ScalarModel) -> Seq<char> {
    match v {
        ScalarModel::Str(s) => s,
        ScalarModel::Boolean(b) => bool_chars(b),
        ScalarModel::Int(n) => int_chars(n),
    }
}

/// The value of an unsigned digit run, `Some(0)` when empty, `None` on any
/// non-digit character.
pub open spec fn parse_udec(s: Seq<char>) -> Option<int>
    decreases s.len(),
{
    if s.len() == 0 {
        Some(0int)
    } else {
        match (parse_udec(s.drop_last()), digit_value(s.last())) {
            (Some(h), Some(d)) => Some(h * 10 + d),
            _ => None,
        }
    }
}

/// Standard base-10 parsing of a signed integer: an optional sign, then one
/// or more digits; `None` on other content or when the value does not fit
/// in `i64`.
pub open spec fn parse_int_chars(s: Seq<char>) -> Option<int> {
    if s.len() == 0 {
        None
    } else {
        let neg = s[0] == '-';
        let ds = if s[0] == '-' || s[0] == '+' {
            s.drop_first()
        } else {
            s
        };
        if ds.len() == 0 {
            None
        } else {
            match parse_udec(ds) {
                Some(m) => {
                    let v = if neg {
                        -m
                    } else {
                        m
                    };
                    if i64::MIN as int <= v <= i64::MAX as int {
                        Some(v)
                    } else {
                        None
                    }
                },
                None => None,
            }
        }
    }
}

/// What coercing text to a scalar of kind `k` yields: the text itself for
/// strings, exactly the literals `true`/`false` for booleans, base-10
/// parsing for integers.
pub open spec fn coerce_chars(s: Seq<char>, k: ScalarKind) -> Result<ScalarModel, ErrorModel> {
    match k {
        ScalarKind::Str => Ok(ScalarModel::Str(s)),
        ScalarKind::Boolean => if s == "true"@ {
            Ok(ScalarModel::Boolean(true))
        } else if s == "false"@ {
            Ok(ScalarModel::Boolean(false))
        } else {
            Err(ErrorModel::ParseBool { found: s })
        },
        ScalarKind::Int => match parse_int_chars(s) {
            Some(v) => Ok(ScalarModel::Int(v)),
            None => Err(ErrorModel::ParseInt { found: s }),
        },
    }
}

/// The digit character for `d`, as a one-character string.
fn digit_str(d: u64) -> (r: &'static str)
    requires
        d < 10,
    ensures
        r@ =~= seq![digit_char(d as int)],
{
    proof {
        reveal_strlit("0");
        reveal_strlit("1");
        reveal_strlit("2");
        reveal_strlit("3");
        reveal_strlit("4");
        reveal_strlit("5");
        reveal_strlit("6");
        reveal_strlit("7");
        reveal_strlit("8");
        reveal_strlit("9");
    }
    match d {
        0 => "0",
        1 => "1",
        2 => "2",
        3 => "3",
        4 => "4",
        5 => "5",
        6 => "6",
        7 => "7",
        8 => "8",
        _ => "9",
    }
}

/// Appends the digits of `m` to `out`; nothing for zero.
fn push_udec(m: u64, out: &mut String)
    ensures
        final(out)@ == old(out)@ + udec_chars(m as int),
    decreases m,
{
    if m == 0 {
        proof {
            assert(out@ + udec_chars(0) =~= out@);
        }
        return ;
    }
    push_udec(m / 10, out);
    out.append(digit_str(m % 10));
    proof {
        assert(old(out)@ + udec_chars(m as int) =~= old(out)@ + udec_chars(m as int / 10) + seq![
            digit_char(m as int % 10),
        ]);
    }
}

/// Renders an integer in canonical decimal.
pub fn render_i64(i: i64) -> (r: String)
    ensures
        r@ == int_chars(i as int),
{
    if i == 0 {
        let r = String::from_str("0");
        proof {
            reveal_strlit("0");
            assert(r@ =~= seq!['0']);
        }
        return r;
    }
    let mut out = String::new();
    let m: u64;
    if i < 0 {
        out.append("-");
        if i == i64::MIN {
            m = 9223372036854775808u64;
        } else {
            m = (-i) as u64;
        }
        proof {
            reveal_strlit("-");
            assert(out@ =~= seq!['-']);
            assert(m as int == -(i as int));
        }
    } else {
        m = i as u64;
    }
    push_udec(m, &mut out);
    proof {
        if i < 0 {
            assert(out@ =~= seq!['-'] + udec_chars(-(i as int)));
        } else {
            assert(out@ =~= udec_chars(i as int));
        }
    }
    out
}

/// The value of one digit character.
fn digit_of(c: char) -> (r: Option<u64>)
    ensures
        match r {
            Some(d) => digit_value(c) == Some(d as int) && d < 10,
            None => digit_value(c) is None,
        },
{
    match c {
        '0' => Some(0),
        '1' => Some(1),
        '2' => Some(2),
        '3' => Some(3),
        '4' => Some(4),
        '5' => Some(5),
        '6' => Some(6),
        '7' => Some(7),
        '8' => Some(8),
        '9' => Some(9),
        _ => None,
    }
}

/// A run containing a non-digit has no unsigned value.
proof fn lemma_parse_udec_none(s: Seq<char>, j: int)
    requires
        0 <= j < s.len(),
        digit_value(s[j]) is None,
    ensures
        parse_udec(s) is None,
    decreases s.len(),
{
    if j == s.len() - 1 {
    } else {
        lemma_parse_udec_none(s.drop_last(), j);
    }
}

/// The value of a digit run bounds the value of each of its prefixes.
proof fn lemma_parse_udec_prefix(s: Seq<char>, k: int)
    requires
        0 <= k <= s.len(),
        parse_udec(s) is Some,
    ensures
        parse_udec(s.take(k)) is Some,
        parse_udec(s.take(k)).unwrap() <= parse_udec(s).unwrap(),
        parse_udec(s).unwrap() >= 0,
    decreases s.len(),
{
    if s.len() == 0 {
        assert(s.take(k) =~= s);
    } else if k == s.len() {
        assert(s.take(k) =~= s);
        lemma_parse_udec_prefix(s.drop_last(), s.len() - 1);
    } else {
        lemma_parse_udec_prefix(s.drop_last(), k);
        assert(s.take(k) =~= s.drop_last().take(k));
    }
}

/// Parses a signed base-10 integer as `str::parse::<i64>` does.
pub fn parse_i64(s: &str) -> (r: Result<i64, Error>)
    ensures
        match r {
            Ok(n) => parse_int_chars(s@) == Some(n as int),
            Err(e) => parse_int_chars(s@) is None && e@ == (ErrorModel::ParseInt { found: s@ }),
        },
{
    let n = s.unicode_len();
    if n == 0 {
        return Err(Error::ParseInt { found: s.to_owned() });
    }
    let c0 = s.get_char(0);
    let neg = c0 == '-';
    let start: usize = if c0 == '-' || c0 == '+' {
        1
    } else {
        0
    };
    let ghost ds: Seq<char> = if start == 1 {
        s@.drop_first()
    } else {
        s@
    };
    if n == start {
        return Err(Error::ParseInt { found: s.to_owned() });
    }
    let mut acc: u64 = 0;
    let mut i = start;
    proof {
        assert(ds.take(0) =~= Seq::<char>::empty());
    }
    while i < n
        invariant
            start <= i <= n,
            n == s@.len(),
            start == 0 || start == 1,
            n > start,
            neg == (s@[0] == '-'),
            (start == 1) == (s@[0] == '-' || s@[0] == '+'),
            ds == if start == 1 {
                s@.drop_first()
            } else {
                s@
            },
            n - start == ds.len(),
            forall|j: int| 0 <= j < ds.len() ==> ds[j] == s@[j + start],
            parse_udec(ds.take(i - start)) == Some(acc as int),
        decreases n - i,
    {
        let c = s.get_char(i);
        match digit_of(c) {
            None => {
                proof {
                    lemma_parse_udec_none(ds, i - start);
                }
                return Err(Error::ParseInt { found: s.to_owned() });
            },
            Some(d) => {
                proof {
                    assert(ds.take(i - start + 1).drop_last() =~= ds.take(i - start));
                    assert(ds.take(i - start + 1).last() == c);
                }
                if acc > 1844674407370955161u64 || (acc == 1844674407370955161u64 && d > 5) {
                    // The magnitude already exceeds `u64`, so it cannot fit
                    // in `i64` either way.
                    proof {
                        let v = (acc as int) * 10 + d;
                        assert(parse_udec(ds.take(i - start + 1)) == Some(v));
                        assert(v > u64::MAX as int);
                        if parse_udec(ds) is Some {
                            lemma_parse_udec_prefix(ds, i - start + 1);
                            assert(parse_udec(ds).unwrap() >= v);
                            assert(parse_udec(ds).unwrap() > i64::MAX as int);
                            assert(-parse_udec(ds).unwrap() < i64::MIN as int);
                        }
                    }
                    return Err(Error::ParseInt { found: s.to_owned() });
                }
                acc = acc * 10 + d;
            },
        }
        i += 1;
    }
    proof {
        assert(ds.take(n - start) =~= ds);
    }
    if neg {
        if acc > 9223372036854775808u64 {
            return Err(Error::ParseInt { found: s.to_owned() });
        }
        if acc == 9223372036854775808u64 {
            return Ok(i64::MIN);
        }
        return Ok(-(acc as i64));
    }
    if acc > 9223372036854775807u64 {
        return Err(Error::ParseInt { found: s.to_owned() });
    }
    Ok(acc as i64)
}

/// Renders a scalar as text: strings pass through, booleans become the
/// literals `true`/`false`, integers canonical decimal.
pub fn render_scalar(v: &Scalar) -> (r: String)
    ensures
        r@ == scalar_chars(v@),
{
    match v {
        Scalar::Str(s) => s.clone(),
        Scalar::Boolean(b) => {
            if *b {
                String::from_str("true")
            } else {
                String::from_str("false")
            }
        },
        Scalar::Int(i) => render_i64(*i),
    }
}

/// Coerces text to a scalar of kind `k`, with a typed parse failure.
pub fn coerce_scalar(value: &str, kind: ScalarKind) -> (r: Result<Scalar, Error>)
    ensures
        match r {
            Ok(v) => coerce_chars(value@, kind) == Ok::<ScalarModel, ErrorModel>(v@),
            Err(e) => coerce_chars(value@, kind) == Err::<ScalarModel, ErrorModel>(e@),
        },
{
    match kind {
        ScalarKind::Str => Ok(Scalar::Str(value.to_owned())),
        ScalarKind::Boolean => {
            if crate::token::str_eq(value, "true") {
                Ok(Scalar::Boolean(true))
            } else if crate::token::str_eq(value, "false") {
                Ok(Scalar::Boolean(false))
            } else {
                Err(Error::ParseBool { found: value.to_owned() })
            }
        },
        ScalarKind::Int => match parse_i64(value) {
            Ok(n) => Ok(Scalar::Int(n)),
            Err(e) => Err(e),
        },
    }
}

/// Every character a positive decimal rendering holds is a digit.
proof fn lemma_udec_digits(n: int)
    requires
        n >= 0,
    ensures
        forall|i: int|
            0 <= i < udec_chars(n).len() ==> (#[trigger] digit_value(udec_chars(n)[i])) is Some,
        n >= 1 ==> udec_chars(n).len() >= 1,
    decreases n,
{
    if n > 0 {
        lemma_udec_digits(n / 10);
        assert(0 <= n % 10 < 10);
        assert(digit_value(digit_char(n % 10)) is Some);
    }
}

/// Parsing inverts rendering for unsigned digit runs.
proof fn lemma_parse_udec_round(n: int)
    requires
        n >= 0,
    ensures
        parse_udec(udec_chars(n)) == Some(n) || n == 0,
    decreases n,
{
    if n > 0 {
        lemma_parse_udec_round(n / 10);
        let s = udec_chars(n);
        assert(s.drop_last() =~= udec_chars(n / 10));
        assert(s.last() == digit_char(n % 10));
        assert(0 <= n % 10 < 10);
        assert(digit_value(digit_char(n % 10)) == Some(n % 10));
        if n / 10 == 0 {
            assert(udec_chars(n / 10) =~= Seq::<char>::empty());
            assert(parse_udec(s.drop_last()) == Some(0int));
        }
        assert(parse_udec(s) == Some((n / 10) * 10 + n % 10));
        assert((n / 10) * 10 + n % 10 == n);
    }
}

/// Parsing inverts canonical decimal rendering on every `i64` value.
pub proof fn lemma_parse_int_round(n: int)
    requires
        i64::MIN as int <= n <= i64::MAX as int,
    ensures
        parse_int_chars(int_chars(n)) == Some(n),
{
    if n == 0 {
        let s = int_chars(0);
        assert(s[0] == '0');
        assert(s.drop_first() =~= Seq::<char>::empty());
        assert(s.drop_last() =~= Seq::<char>::empty());
        assert(s.last() == '0');
        assert(parse_udec(s) == Some(0int));
    } else if n > 0 {
        let s = udec_chars(n);
        lemma_udec_digits(n);
        lemma_parse_udec_round(n);
        assert(digit_value(s[0]) is Some);
        assert(digit_value('-') is None);
        assert(digit_value('+') is None);
        assert(s[0] != '-' && s[0] != '+');
    } else {
        let m = -n;
        let s = int_chars(n);
        assert(s[0] == '-');
        lemma_udec_digits(m);
        lemma_parse_udec_round(m);
        assert(s.drop_first() =~= udec_chars(m));
    }
}

/// Coercion inverts rendering on every value the engine can hold.
pub proof fn lemma_coerce_render(v: ScalarModel)
    requires
        scalar_fits(v),
    ensures
        coerce_chars(scalar_chars(v), kind_of(v)) == Ok::<ScalarModel, ErrorModel>(v),
{
    match v {
        ScalarModel::Str(_) => {},
        ScalarModel::Boolean(b) => {
            reveal_strlit("true");
            reveal_strlit("false");
            assert("true"@.len() == 4);
            assert("false"@.len() == 5);
        },
        ScalarModel::Int(n) => {
            lemma_parse_int_round(n);
        },
    }
}

} // verus!
