//! The selector grammar, and the construction of a [`Path`] from the text.
//!
//! ```text
//! selector         = "$" matcher*
//! matcher          = "." "*" | "." childName | union
//! childName        = nameChar+
//! union            = "[" unionElement ("," unionElement)* "]"
//! unionElement     = unionChild | unionArraySlice | unionArrayIndex
//! unionChild       = '"' doubleChar* '"' | "'" singleChar* "'"
//! unionArrayIndex  = integer
//! unionArraySlice  = integer? ":" integer? (":" integer?)?
//! integer          = "-"? digit+
//! ```
//!
//! A name character is an ASCII letter or digit, `_`, or any character
//! outside ASCII. Inside quotes, a backslash takes the next character with it;
//! the body is then decoded with JSON's escapes.
use crate::ast::{elements_model, opt_int, ElementModel, Path, PathModel, Selector, SelectorModel, UnionElement};
use crate::json::{chars_of, push_char};
use vstd::prelude::*;

verus! {

// ---------------------------------------------------------------------------
// Lexical classes

pub open spec fn is_digit(c: char) -> bool {
    '0' <= c && c <= '9'
}

pub open spec fn is_name_char(c: char) -> bool {
    ||| ('a' <= c && c <= 'z')
    ||| ('A' <= c && c <= 'Z')
    ||| is_digit(c)
    ||| c == '_'
    ||| c >= '\u{80}'
}

/// The end of the run of digits that starts at `i`.
pub open spec fn digits_end(s: Seq<char>, i: int) -> int
    decreases s.len() - i,
{
    if 0 <= i < s.len() && is_digit(s[i]) {
        digits_end(s, i + 1)
    } else {
        i
    }
}

/// The end of the run of name characters that starts at `i`.
pub open spec fn name_end(s: Seq<char>, i: int) -> int
    decreases s.len() - i,
{
    if 0 <= i < s.len() && is_name_char(s[i]) {
        name_end(s, i + 1)
    } else {
        i
    }
}

/// The end of the integer that starts at `i`, if one does.
pub open spec fn int_end(s: Seq<char>, i: int) -> Option<int> {
    let d = if 0 <= i < s.len() && s[i] == '-' { i + 1 } else { i };
    let k = digits_end(s, d);
    if k > d {
        Some(k)
    } else {
        None
    }
}

pub open spec fn digit_value(c: char) -> int {
    (c as u32) as int - ('0' as u32) as int
}

/// The number that a string of decimal digits denotes.
pub open spec fn decimal(ds: Seq<char>) -> int
    decreases ds.len(),
{
    if ds.len() == 0 {
        0
    } else {
        decimal(ds.drop_last()) * 10 + digit_value(ds.last())
    }
}

/// The magnitude of the number that an integer's text denotes.
pub open spec fn magnitude(t: Seq<char>) -> int {
    if t.len() > 0 && t[0] == '-' {
        decimal(t.drop_first())
    } else {
        decimal(t)
    }
}

/// The number that an integer's text denotes.
pub open spec fn signed_value(t: Seq<char>) -> int {
    if t.len() > 0 && t[0] == '-' {
        -magnitude(t)
    } else {
        magnitude(t)
    }
}

/// Where the quoted body that starts at `i` ends: the position of the
/// closing quote `q`. A backslash takes the character after it along.
pub open spec fn quoted_end(s: Seq<char>, i: int, q: char) -> Option<int>
    decreases s.len() - i,
{
    if !(0 <= i < s.len()) {
        None
    } else if s[i] == q {
        Some(i)
    } else if s[i] == '\\' {
        if i + 1 < s.len() {
            quoted_end(s, i + 2, q)
        } else {
            None
        }
    } else {
        quoted_end(s, i + 1, q)
    }
}

proof fn lemma_digits_run(s: Seq<char>, i: int)
    requires
        0 <= i <= s.len(),
    ensures
        i <= digits_end(s, i) <= s.len(),
        forall|p: int| i <= p < digits_end(s, i) ==> is_digit(s[p]),
    decreases s.len() - i,
{
    if i < s.len() && is_digit(s[i]) {
        lemma_digits_run(s, i + 1);
    }
}

proof fn lemma_decimal_prefix(ds: Seq<char>, n: int)
    requires
        0 <= n <= ds.len(),
        forall|p: int| 0 <= p < ds.len() ==> is_digit(ds[p]),
    ensures
        0 <= decimal(ds.subrange(0, n)) <= decimal(ds),
    decreases ds.len(),
{
    if ds.len() > 0 {
        let n2 = if n == ds.len() { n - 1 } else { n };
        lemma_decimal_prefix(ds.drop_last(), n2);
        assert(ds.drop_last().subrange(0, n2) =~= ds.subrange(0, n2));
        assert(ds.drop_last().subrange(0, ds.len() - 1) =~= ds.drop_last());
        if n == ds.len() {
            assert(ds.subrange(0, n) =~= ds);
        }
    } else {
        assert(ds.subrange(0, n) =~= ds);
    }
}

proof fn same_digits(s: Seq<char>, i: int, d: int, k: int, neg: bool)
    requires
        0 <= i <= d <= k <= s.len(),
        neg ==> d == i + 1,
        !neg ==> d == i,
    ensures
        neg ==> s.subrange(i, k).drop_first() == s.subrange(d, k),
        !neg ==> s.subrange(i, k) == s.subrange(d, k),
{
    assert(neg ==> s.subrange(i, k).drop_first() =~= s.subrange(d, k));
}

// ---------------------------------------------------------------------------
// Scanners

fn digits_end_at(cs: &Vec<char>, i: usize) -> (r: usize)
    requires
        i <= cs@.len(),
    ensures
        r == digits_end(cs@, i as int),
        i <= r <= cs@.len(),
        forall|p: int| i <= p < r ==> is_digit(cs@[p]),
{
    let mut k = i;
    while k < cs.len() && '0' <= cs[k] && cs[k] <= '9'
        invariant
            i <= k <= cs@.len(),
            digits_end(cs@, i as int) == digits_end(cs@, k as int),
            forall|p: int| i <= p < k ==> is_digit(cs@[p]),
        decreases cs@.len() - k,
    {
        k += 1;
    }
    k
}

fn name_end_at(cs: &Vec<char>, i: usize) -> (r: usize)
    requires
        i <= cs@.len(),
    ensures
        r == name_end(cs@, i as int),
        i <= r <= cs@.len(),
{
    let mut k = i;
    while k < cs.len() && (('a' <= cs[k] && cs[k] <= 'z') || ('A' <= cs[k] && cs[k] <= 'Z') || (
    '0' <= cs[k] && cs[k] <= '9') || cs[k] == '_' || cs[k] >= '\u{80}')
        invariant
            i <= k <= cs@.len(),
            name_end(cs@, i as int) == name_end(cs@, k as int),
        decreases cs@.len() - k,
    {
        k += 1;
    }
    k
}

fn int_end_at(cs: &Vec<char>, i: usize) -> (r: Option<usize>)
    requires
        i <= cs@.len(),
    ensures
        match r {
            Some(k) => int_end(cs@, i as int) == Some(k as int) && k <= cs@.len(),
            None => int_end(cs@, i as int) is None,
        },
{
    let d = if i < cs.len() && cs[i] == '-' { i + 1 } else { i };
    let k = digits_end_at(cs, d);
    if k > d {
        Some(k)
    } else {
        None
    }
}

/// The value of the integer written from `i` to `k`, or `None` where its
/// magnitude does not fit in 64 bits.
fn int_value(cs: &Vec<char>, i: usize, k: usize) -> (r: Option<i128>)
    requires
        int_end(cs@, i as int) == Some(k as int),
        k <= cs@.len(),
    ensures
        match r {
            Some(v) => v == signed_value(cs@.subrange(i as int, k as int)),
            None => magnitude(cs@.subrange(i as int, k as int)) > u64::MAX,
        },
{
    let neg = cs[i] == '-';
    let d = if neg { i + 1 } else { i };
    proof {
        lemma_digits_run(cs@, d as int);
    }
    let ghost ds = cs@.subrange(d as int, k as int);
    let mut mag: u64 = 0;
    let mut p = d;
    while p < k
        invariant
            i <= d <= p <= k <= cs@.len(),
            neg == (cs@[i as int] == '-'),
            neg ==> d == i + 1,
            !neg ==> d == i,
            ds == cs@.subrange(d as int, k as int),
            forall|q: int| d <= q < k ==> is_digit(cs@[q]),
            mag == decimal(cs@.subrange(d as int, p as int)),
        decreases k - p,
    {
        let digit = ((cs[p] as u32) - ('0' as u32)) as u64;
        assert(cs@.subrange(d as int, p + 1).drop_last() =~= cs@.subrange(d as int, p as int));
        assert(ds.subrange(0, p + 1 - d) =~= cs@.subrange(d as int, p + 1));
        match mag.checked_mul(10) {
            Some(m) => match m.checked_add(digit) {
                Some(m2) => {
                    mag = m2;
                },
                None => {
                    proof {
                        lemma_decimal_prefix(ds, p + 1 - d);
                    }
                    proof {
                        same_digits(cs@, i as int, d as int, k as int, neg);
                    }
                    return None;
                },
            },
            None => {
                proof {
                    lemma_decimal_prefix(ds, p + 1 - d);
                }
                proof {
                    same_digits(cs@, i as int, d as int, k as int, neg);
                }
                return None;
            },
        }
        p += 1;
    }
    proof {
        same_digits(cs@, i as int, d as int, k as int, neg);
    }
    if neg {
        Some(-(mag as i128))
    } else {
        Some(mag as i128)
    }
}

fn quoted_end_at(cs: &Vec<char>, i: usize, q: char) -> (r: Option<usize>)
    requires
        i <= cs@.len(),
    ensures
        match r {
            Some(j) => quoted_end(cs@, i as int, q) == Some(j as int) && i <= j < cs@.len(),
            None => quoted_end(cs@, i as int, q) is None,
        },
{
    let mut k = i;
    while k < cs.len()
        invariant
            i <= k,
            quoted_end(cs@, i as int, q) == quoted_end(cs@, k as int, q),
        decreases cs@.len() - k,
    {
        if cs[k] == q {
            return Some(k);
        } else if cs[k] == '\\' {
            if k + 1 >= cs.len() {
                return None;
            }
            k += 2;
        } else {
            k += 1;
        }
    }
    None
}

// ---------------------------------------------------------------------------
// Quoted names

/// A single-quoted body rewritten for the double-quoted decoder: `\'`
/// becomes `'`, a bare `"` gains a backslash, and every other escape is
/// kept as it is. A lone backslash at the very end is dropped.
pub open spec fn to_double(s: Seq<char>) -> Seq<char>
    decreases s.len(),
{
    if s.len() == 0 {
        seq![]
    } else if s[0] == '\\' {
        if s.len() == 1 {
            seq![]
        } else if s[1] == '\'' {
            seq!['\''] + to_double(s.subrange(2, s.len() as int))
        } else {
            seq!['\\', s[1]] + to_double(s.subrange(2, s.len() as int))
        }
    } else if s[0] == '"' {
        seq!['\\', '"'] + to_double(s.drop_first())
    } else {
        seq![s[0]] + to_double(s.drop_first())
    }
}

/// A body between double quotes.
pub open spec fn quoted(body: Seq<char>) -> Seq<char> {
    seq!['"'] + body + seq!['"']
}

/// The string that a JSON text denotes, if the text is a JSON string.
pub uninterp spec fn json_string(text: Seq<char>) -> Option<Seq<char>>;

/// Relies on serde_json::from_str, read as a String: it decodes a JSON
/// string literal (all of JSON's escapes, `\uXXXX` included), and fails on
/// any other text.
#[verifier::external_body]
fn decode_json_string(text: &str) -> (r: Option<String>)
    ensures
        match r {
            Some(v) => json_string(text@) == Some(v@),
            None => json_string(text@) is None,
        },
{
    serde_json::from_str::<String>(text).ok()
}

/// The characters `cs[from..to]` as a string.
fn string_of(cs: &Vec<char>, from: usize, to: usize) -> (r: String)
    requires
        from <= to <= cs@.len(),
    ensures
        r@ == cs@.subrange(from as int, to as int),
{
    let mut r = String::new();
    let mut k = from;
    while k < to
        invariant
            from <= k <= to <= cs@.len(),
            r@ == cs@.subrange(from as int, k as int),
        decreases to - k,
    {
        push_char(&mut r, cs[k]);
        assert(r@ =~= cs@.subrange(from as int, k + 1));
        k += 1;
    }
    r
}

/// Decodes the body of a double-quoted name; `None` where an escape is
/// malformed.
pub fn unescape(contents: &str) -> (r: Option<String>)
    ensures
        match r {
            Some(v) => json_string(quoted(contents@)) == Some(v@),
            None => json_string(quoted(contents@)) is None,
        },
{
    let cs = chars_of(contents);
    let mut text = String::new();
    push_char(&mut text, '"');
    let mut k: usize = 0;
    while k < cs.len()
        invariant
            k <= cs@.len(),
            cs@ == contents@,
            text@ == seq!['"'] + cs@.subrange(0, k as int),
        decreases cs@.len() - k,
    {
        push_char(&mut text, cs[k]);
        assert(text@ =~= seq!['"'] + cs@.subrange(0, k + 1));
        k += 1;
    }
    push_char(&mut text, '"');
    assert(text@ =~= quoted(contents@));
    decode_json_string(text.as_str())
}

proof fn lemma_to_double_step(s: Seq<char>, i: int)
    requires
        0 <= i < s.len(),
    ensures
        s.subrange(i, s.len() as int).drop_first() == s.subrange(i + 1, s.len() as int),
        i + 1 < s.len() ==> s.subrange(i, s.len() as int).subrange(2, s.len() - i)
            == s.subrange(i + 2, s.len() as int),
{
    assert(s.subrange(i, s.len() as int).drop_first() =~= s.subrange(i + 1, s.len() as int));
    if i + 1 < s.len() {
        assert(s.subrange(i, s.len() as int).subrange(2, s.len() - i) =~= s.subrange(
            i + 2,
            s.len() as int,
        ));
    }
}

/// Rewrites a single-quoted body into a double-quoted one: unescapes single
/// quotes and escapes double quotes, leaving everything else untouched.
pub fn to_double_quoted(contents: &str) -> (r: String)
    ensures
        r@ == to_double(contents@),
{
    let cs = chars_of(contents);
    let ghost s = cs@;
    let mut output = String::new();
    let mut escaping = false;
    let mut k: usize = 0;
    assert(s.subrange(0, s.len() as int) =~= s);
    assert(output@ + to_double(s) =~= to_double(s));
    while k < cs.len()
        invariant
            k <= s.len(),
            s == cs@,
            s == contents@,
            !escaping ==> output@ + to_double(s.subrange(k as int, s.len() as int)) == to_double(s),
            escaping ==> k >= 1 && s[k - 1] == '\\' && output@ + to_double(
                s.subrange(k - 1, s.len() as int),
            ) == to_double(s),
        decreases s.len() - k,
    {
        let ch = cs[k];
        proof {
            lemma_to_double_step(s, k as int);
            if escaping {
                lemma_to_double_step(s, k - 1);
            }
        }
        if !escaping {
            if ch == '\\' {
                escaping = true;
            } else {
                if ch == '"' {
                    push_char(&mut output, '\\');
                }
                push_char(&mut output, ch);
                assert(output@ + to_double(s.subrange(k + 1, s.len() as int)) =~= to_double(s));
            }
        } else {
            escaping = false;
            if ch != '\'' {
                push_char(&mut output, '\\');
            }
            push_char(&mut output, ch);
            assert(output@ + to_double(s.subrange(k + 1, s.len() as int)) =~= to_double(s));
        }
        k += 1;
    }
    proof {
        if escaping {
            assert(s.subrange(k - 1, s.len() as int) =~= seq!['\\']);
        }
        assert(to_double(s.subrange(k as int, s.len() as int)) =~= seq![]);
    }
    assert(output@ =~= to_double(s));
    output
}

/// Decodes the body of a single-quoted name; `None` where an escape is
/// malformed.
pub fn unescape_single(contents: &str) -> (r: Option<String>)
    ensures
        match r {
            Some(v) => json_string(quoted(to_double(contents@))) == Some(v@),
            None => json_string(quoted(to_double(contents@))) is None,
        },
{
    let d = to_double_quoted(contents);
    unescape(d.as_str())
}

// ---------------------------------------------------------------------------
// The grammar

/// The integer that starts at `i`, if any, and where the text after it
/// starts.
pub open spec fn int_at(s: Seq<char>, i: int) -> (Option<int>, int) {
    match int_end(s, i) {
        Some(k) => (Some(signed_value(s.subrange(i, k))), k),
        None => (None, i),
    }
}

pub open spec fn fits_isize(x: Option<int>) -> bool {
    match x {
        Some(v) => isize::MIN <= v <= isize::MAX,
        None => true,
    }
}

/// The member of a union that starts at `i`, and where the text after it
/// starts.
pub open spec fn parse_element(s: Seq<char>, i: int) -> Option<(ElementModel, int)> {
    if !(0 <= i < s.len()) {
        None
    } else if s[i] == '"' || s[i] == '\'' {
        match quoted_end(s, i + 1, s[i]) {
            Some(j) => {
                let body = s.subrange(i + 1, j);
                let text = if s[i] == '"' { body } else { to_double(body) };
                match json_string(quoted(text)) {
                    Some(n) => Some((ElementModel::Name(n), j + 1)),
                    None => None,
                }
            },
            None => None,
        }
    } else {
        let (start, j1) = int_at(s, i);
        if j1 < s.len() && s[j1] == ':' {
            let (end, j2) = int_at(s, j1 + 1);
            let (step, j3) = if j2 < s.len() && s[j2] == ':' {
                int_at(s, j2 + 1)
            } else {
                (None, j2)
            };
            if fits_isize(start) && fits_isize(end) && fits_isize(step) {
                Some((ElementModel::Slice(start, end, step), j3))
            } else {
                None
            }
        } else {
            match start {
                Some(v) => if i64::MIN <= v <= i64::MAX {
                    Some((ElementModel::Index(v), j1))
                } else {
                    None
                },
                None => None,
            }
        }
    }
}

/// The members of a union from `i` up to and past its closing bracket,
/// after those already read in `acc`.
pub open spec fn parse_union(s: Seq<char>, i: int, acc: Seq<ElementModel>) -> Option<(Seq<ElementModel>, int)>
    decreases s.len() - i,
{
    match parse_element(s, i) {
        Some((e, j)) => if i < j < s.len() && s[j] == ',' {
            parse_union(s, j + 1, acc.push(e))
        } else if i < j < s.len() && s[j] == ']' {
            Some((acc.push(e), j + 1))
        } else {
            None
        },
        None => None,
    }
}

/// The matcher that starts at `i`, and where the text after it starts.
pub open spec fn parse_matcher(s: Seq<char>, i: int) -> Option<(SelectorModel, int)> {
    if 0 <= i < s.len() && s[i] == '.' {
        if i + 1 < s.len() && s[i + 1] == '*' {
            Some((SelectorModel::DotWildcard, i + 2))
        } else {
            let k = name_end(s, i + 1);
            if k > i + 1 {
                Some((SelectorModel::DotName(s.subrange(i + 1, k)), k))
            } else {
                None
            }
        }
    } else if 0 <= i < s.len() && s[i] == '[' {
        match parse_union(s, i + 1, seq![]) {
            Some((es, j)) => Some((SelectorModel::Union(es), j)),
            None => None,
        }
    } else {
        None
    }
}

/// The matchers from `i` to the end of the text, applied after `acc`.
pub open spec fn parse_matchers(s: Seq<char>, i: int, acc: PathModel) -> Option<PathModel>
    decreases s.len() - i,
{
    if !(i < s.len()) {
        Some(acc)
    } else {
        match parse_matcher(s, i) {
            Some((sel, j)) => if i < j <= s.len() {
                parse_matchers(s, j, PathModel::Sel(Box::new(acc), sel))
            } else {
                None
            },
            None => None,
        }
    }
}

/// The path that a selector's text denotes, or `None` where the text does
/// not follow the grammar.
pub open spec fn parse_model(s: Seq<char>) -> Option<PathModel> {
    if s.len() > 0 && s[0] == '$' {
        parse_matchers(s, 1, PathModel::Root)
    } else {
        None
    }
}

pub open spec fn opt_i128(x: Option<i128>) -> Option<int> {
    match x {
        Some(v) => Some(v as int),
        None => None,
    }
}

/// The integer that starts at `i`, if any; `Err` where its magnitude does
/// not fit in 64 bits.
fn int_at_exec(cs: &Vec<char>, i: usize) -> (r: Result<(Option<i128>, usize), usize>)
    requires
        i <= cs@.len(),
    ensures
        match r {
            Ok((v, j)) => int_at(cs@, i as int) == (opt_i128(v), j as int) && i <= j <= cs@.len()
                && (v is Some ==> i < j),
            Err(_) => int_at(cs@, i as int).0 is Some && !fits_isize(int_at(cs@, i as int).0)
                && !(i64::MIN <= int_at(cs@, i as int).0->0 <= i64::MAX),
        },
{
    match int_end_at(cs, i) {
        Some(k) => {
            proof {
                lemma_digits_run(cs@, i as int);
                lemma_digits_run(cs@, i + 1);
            }
            match int_value(cs, i, k) {
                Some(v) => Ok((Some(v), k)),
                None => Err(i),
            }
        },
        None => Ok((None, i)),
    }
}

/// A slice bound narrowed to `isize`; `None` where it does not fit.
fn narrow_bound(x: Option<i128>) -> (r: Option<Option<isize>>)
    ensures
        r is Some == fits_isize(opt_i128(x)),
        r is Some ==> opt_int(r->0) == opt_i128(x),
{
    match x {
        None => Some(None),
        Some(v) => if isize::MIN as i128 <= v && v <= isize::MAX as i128 {
            Some(Some(v as isize))
        } else {
            None
        },
    }
}

/// The member of a union that starts at `i`; `Err` holds the position where
/// reading failed.
fn parse_element_at(cs: &Vec<char>, i: usize) -> (r: Result<(UnionElement, usize), usize>)
    requires
        i <= cs@.len(),
    ensures
        match r {
            Ok((e, j)) => parse_element(cs@, i as int) == Some((e@, j as int)) && i < j <= cs@.len(),
            Err(_) => parse_element(cs@, i as int) is None,
        },
{
    if i >= cs.len() {
        return Err(i);
    }
    let c = cs[i];
    if c == '"' || c == '\'' {
        match quoted_end_at(cs, i + 1, c) {
            Some(j) => {
                let body = string_of(cs, i + 1, j);
                let name = if c == '"' {
                    unescape(body.as_str())
                } else {
                    unescape_single(body.as_str())
                };
                match name {
                    Some(n) => Ok((UnionElement::Name(n), j + 1)),
                    None => Err(i),
                }
            },
            None => Err(i),
        }
    } else {
        let (start, j1) = int_at_exec(cs, i)?;
        if j1 < cs.len() && cs[j1] == ':' {
            let (end, j2) = int_at_exec(cs, j1 + 1)?;
            let (step, j3) = if j2 < cs.len() && cs[j2] == ':' {
                int_at_exec(cs, j2 + 1)?
            } else {
                (None, j2)
            };
            match (narrow_bound(start), narrow_bound(end), narrow_bound(step)) {
                (Some(start), Some(end), Some(step)) => Ok((UnionElement::Slice { start, end, step }, j3)),
                _ => Err(i),
            }
        } else {
            match start {
                Some(v) => if i64::MIN as i128 <= v && v <= i64::MAX as i128 {
                    Ok((UnionElement::Index(v as i64), j1))
                } else {
                    Err(i)
                },
                None => Err(i),
            }
        }
    }
}

/// The members of the union whose first member starts at `i`, and the
/// position after its closing bracket.
fn parse_union_at(cs: &Vec<char>, i: usize) -> (r: Result<(Vec<UnionElement>, usize), usize>)
    requires
        i <= cs@.len(),
    ensures
        match r {
            Ok((es, j)) => parse_union(cs@, i as int, seq![]) == Some((elements_model(es@), j as int))
                && i < j <= cs@.len(),
            Err(_) => parse_union(cs@, i as int, seq![]) is None,
        },
{
    let mut es: Vec<UnionElement> = Vec::new();
    let mut k = i;
    assert(elements_model(es@) =~= seq![]);
    loop
        invariant
            i <= k <= cs@.len(),
            parse_union(cs@, i as int, seq![]) == parse_union(cs@, k as int, elements_model(es@)),
        decreases cs@.len() - k,
    {
        let (e, j) = parse_element_at(cs, k)?;
        let ghost before = elements_model(es@);
        es.push(e);
        assert(elements_model(es@) =~= before.push(e@));
        if j < cs.len() && cs[j] == ',' {
            k = j + 1;
        } else if j < cs.len() && cs[j] == ']' {
            return Ok((es, j + 1));
        } else {
            return Err(j);
        }
    }
}

/// The matcher that starts at `i`, and the position after it.
fn parse_matcher_at(cs: &Vec<char>, i: usize) -> (r: Result<(Selector, usize), usize>)
    requires
        i < cs@.len(),
    ensures
        match r {
            Ok((sel, j)) => parse_matcher(cs@, i as int) == Some((sel@, j as int)) && i < j <= cs@.len(),
            Err(_) => parse_matcher(cs@, i as int) is None,
        },
{
    let n = cs.len();
    if cs[i] == '.' {
        if i + 1 < n && cs[i + 1] == '*' {
            Ok((Selector::DotWildcard, i + 2))
        } else {
            let k = name_end_at(cs, i + 1);
            if k > i + 1 {
                Ok((Selector::DotName(string_of(cs, i + 1, k)), k))
            } else {
                Err(i + 1)
            }
        }
    } else if cs[i] == '[' {
        let (es, j) = parse_union_at(cs, i + 1)?;
        Ok((Selector::Union(es), j))
    } else {
        Err(i)
    }
}

/// Reads a selector into its syntax tree. `Err` holds the position at which
/// the text stops following the grammar.
fn parse_at(cs: &Vec<char>) -> (r: Result<Path, usize>)
    ensures
        match r {
            Ok(p) => parse_model(cs@) == Some(p@),
            Err(_) => parse_model(cs@) is None,
        },
{
    if cs.len() == 0 || cs[0] != '$' {
        return Err(0);
    }
    let mut acc = Path::Root;
    let mut k: usize = 1;
    while k < cs.len()
        invariant
            1 <= k <= cs@.len(),
            parse_model(cs@) == parse_matchers(cs@, k as int, acc@),
        decreases cs@.len() - k,
    {
        let (sel, j) = parse_matcher_at(cs, k)?;
        let ghost before = acc@;
        acc = Path::Sel(Box::new(acc), sel);
        assert(acc@ == PathModel::Sel(Box::new(before), sel@));
        k = j;
    }
    Ok(acc)
}

/// Reads a selector into its syntax tree, or says where it stops following
/// the grammar.
pub fn parse(selector: &str) -> (r: Result<Path, String>)
    ensures
        match r {
            Ok(p) => parse_model(selector@) == Some(p@),
            Err(_) => parse_model(selector@) is None,
        },
{
    let cs = chars_of(selector);
    match parse_at(&cs) {
        Ok(p) => Ok(p),
        Err(pos) => {
            let mut message = "syntax error: unexpected input at character ".to_owned();
            message.append(pos.to_string().as_str());
            Err(message)
        },
    }
}

} // verus!
