//! Builds expression trees from a stream of lexemes.
use crate::scanner::{chars_of, string_push, views_of};
use crate::types::{terms_of, Expression, Term};
use vstd::prelude::*;

verus! {

broadcast use {crate::types::group_terms, vstd::seq::group_seq_axioms};

pub open spec fn is_digit(c: char) -> bool {
    48 <= (c as u32) && (c as u32) <= 57
}

/// The value of a sequence of decimal digits.
pub open spec fn digits_value(ds: Seq<char>) -> int
    decreases ds.len(),
{
    if ds.len() == 0 {
        0
    } else {
        digits_value(ds.drop_last()) * 10 + ((ds.last() as u32) - 48)
    }
}

/// The integer that `s` writes in decimal, with an optional sign, where it
/// fits in `i64`.
pub open spec fn decimal_value(s: Seq<char>) -> Option<i64> {
    let signed = s.len() > 0 && (s[0] == '+' || s[0] == '-');
    let ds = if signed {
        s.drop_first()
    } else {
        s
    };
    let v = if signed && s[0] == '-' {
        -digits_value(ds)
    } else {
        digits_value(ds)
    };
    if ds.len() == 0 || !(forall|i: int| 0 <= i < ds.len() ==> is_digit(#[trigger] ds[i])) {
        None
    } else if i64::MIN <= v <= i64::MAX {
        Some(v as i64)
    } else {
        None
    }
}

/// Relies on `<i64 as FromStr>::from_str`: an optional sign and decimal
/// digits, and nothing else, whose value fits in `i64`.
#[verifier::external_body]
fn parse_i64(s: &str) -> (r: Option<i64>)
    ensures
        r == decimal_value(s@),
{
    s.parse::<i64>().ok()
}

pub uninterp spec fn alphabetic(c: char) -> bool;

pub uninterp spec fn alphanumeric(c: char) -> bool;

/// Relies on `char::is_alphabetic`: whether `c` has the Unicode Alphabetic property.
#[verifier::external_body]
fn is_alphabetic(c: char) -> (r: bool)
    ensures
        r == alphabetic(c),
{
    c.is_alphabetic()
}

/// Relies on `char::is_alphanumeric`: whether `c` is alphabetic or numeric in Unicode.
#[verifier::external_body]
fn is_alphanumeric(c: char) -> (r: bool)
    ensures
        r == alphanumeric(c),
{
    c.is_alphanumeric()
}

/// One of the operator chars on its own.
pub open spec fn is_operator_name(s: Seq<char>) -> bool {
    s.len() == 1 && (s[0] == '+' || s[0] == '-' || s[0] == '*' || s[0] == '/' || s[0] == '%'
        || s[0] == '=')
}

/// A name: a letter followed by letters and digits, or one operator char.
pub open spec fn is_name(s: Seq<char>) -> bool {
    (s.len() > 0 && alphabetic(s[0]) && forall|i: int|
        0 <= i < s.len() ==> alphanumeric(#[trigger] s[i])) || is_operator_name(s)
}

/// What one lexeme stands for.
pub enum Lexeme {
    Open,
    Quote,
    Unquote,
    True,
    False,
    Nil,
    Str,
    Number(i64),
    Name,
    Other,
}

pub open spec fn lexeme_of(s: Seq<char>) -> Lexeme {
    if s == seq!['('] {
        Lexeme::Open
    } else if s == seq!['\''] {
        Lexeme::Quote
    } else if s == seq![','] {
        Lexeme::Unquote
    } else if s == seq!['t', 'r', 'u', 'e'] || s == seq!['t'] {
        Lexeme::True
    } else if s == seq!['f', 'a', 'l', 's', 'e'] || s == seq!['f'] {
        Lexeme::False
    } else if s == seq!['n', 'i', 'l'] {
        Lexeme::Nil
    } else if s.len() >= 2 && s[0] == '"' && s.last() == '"' {
        Lexeme::Str
    } else if decimal_value(s) is Some {
        Lexeme::Number(decimal_value(s)->0)
    } else if is_name(s) {
        Lexeme::Name
    } else {
        Lexeme::Other
    }
}

/// The expression that starts at lexeme `i`, and the index after it.
pub open spec fn parse_expr_spec(toks: Seq<Seq<char>>, i: int) -> (Term, int)
    decreases toks.len() + 1 - i, 0int,
{
    if i < 0 || i >= toks.len() {
        (Term::Nil, i)
    } else {
        let s = toks[i];
        match lexeme_of(s) {
            Lexeme::Open => parse_list_spec(toks, i + 1, seq![]),
            Lexeme::Quote => {
                let (t, j) = parse_expr_spec(toks, i + 1);
                (Term::Quote(Box::new(t)), j)
            },
            Lexeme::Unquote => {
                let (t, j) = parse_expr_spec(toks, i + 1);
                (Term::Unquote(Box::new(t)), j)
            },
            Lexeme::True => (Term::Boolean(true), i + 1),
            Lexeme::False => (Term::Boolean(false), i + 1),
            Lexeme::Nil => (Term::Nil, i + 1),
            Lexeme::Str => (Term::Str(s.subrange(1, s.len() - 1)), i + 1),
            Lexeme::Number(n) => (Term::Number(n), i + 1),
            Lexeme::Name => (Term::Symbol(s), i + 1),
            Lexeme::Other => (Term::Nil, i + 1),
        }
    }
}

/// The rest of a list whose elements so far are `acc`, from lexeme `i`
/// to its closing parenthesis. An empty or unclosed list is `Nil`.
pub open spec fn parse_list_spec(toks: Seq<Seq<char>>, i: int, acc: Seq<Term>) -> (Term, int)
    decreases toks.len() + 1 - i, 1int,
{
    if 0 <= i < toks.len() && toks[i] != seq![')'] {
        let (t, j) = parse_expr_spec(toks, i);
        if i < j <= toks.len() + 1 {
            parse_list_spec(toks, j, acc.push(t))
        } else {
            (Term::Nil, j)
        }
    } else {
        let j = if i >= toks.len() {
            toks.len() + 1int
        } else {
            i + 1
        };
        if acc.len() == 0 || j > toks.len() {
            (Term::Nil, j)
        } else {
            (Term::List(acc), j)
        }
    }
}

/// The expressions from lexeme `i` to the end, after `acc`.
pub open spec fn parse_from(toks: Seq<Seq<char>>, i: int, acc: Seq<Term>) -> Seq<Term>
    decreases toks.len() + 1 - i,
{
    if 0 <= i < toks.len() {
        let (t, j) = parse_expr_spec(toks, i);
        if i < j <= toks.len() + 1 {
            parse_from(toks, j, acc.push(t))
        } else {
            acc
        }
    } else {
        acc
    }
}

/// The expression forest of `toks`; no lexemes give one `Nil`.
pub open spec fn parse_spec(toks: Seq<Seq<char>>) -> Seq<Term> {
    if toks.len() == 0 {
        seq![Term::Nil]
    } else {
        parse_from(toks, 0, seq![])
    }
}

/// Whether `s` writes a number.
fn is_number(s: &str) -> (r: bool)
    ensures
        r == (decimal_value(s@) is Some),
{
    parse_i64(s).is_some()
}

fn is_name_token(v: &Vec<char>) -> (r: bool)
    ensures
        r == is_name(v@),
{
    if v.len() == 1 {
        let c = v[0];
        if c == '+' || c == '-' || c == '*' || c == '/' || c == '%' || c == '=' {
            return true;
        }
    }
    if v.len() == 0 || !is_alphabetic(v[0]) {
        return false;
    }
    let mut i: usize = 0;
    while i < v.len()
        invariant
            i <= v.len(),
            !is_operator_name(v@),
            forall|j: int| 0 <= j < i ==> alphanumeric(#[trigger] v@[j]),
        decreases v.len() - i,
    {
        if !is_alphanumeric(v[i]) {
            return false;
        }
        i = i + 1;
    }
    true
}

fn lexeme(s: &String) -> (r: Lexeme)
    ensures
        r == lexeme_of(s@),
{
    let v = chars_of(s.as_str());
    let n = v.len();
    if n == 1 && v[0] == '(' {
        assert(v@ =~= seq!['(']);
        return Lexeme::Open;
    }
    if n == 1 && v[0] == '\'' {
        assert(v@ =~= seq!['\'']);
        return Lexeme::Quote;
    }
    if n == 1 && v[0] == ',' {
        assert(v@ =~= seq![',']);
        return Lexeme::Unquote;
    }
    if n == 4 && v[0] == 't' && v[1] == 'r' && v[2] == 'u' && v[3] == 'e' {
        assert(v@ =~= seq!['t', 'r', 'u', 'e']);
        return Lexeme::True;
    }
    if n == 1 && v[0] == 't' {
        assert(v@ =~= seq!['t']);
        return Lexeme::True;
    }
    if n == 5 && v[0] == 'f' && v[1] == 'a' && v[2] == 'l' && v[3] == 's' && v[4] == 'e' {
        assert(v@ =~= seq!['f', 'a', 'l', 's', 'e']);
        return Lexeme::False;
    }
    if n == 1 && v[0] == 'f' {
        assert(v@ =~= seq!['f']);
        return Lexeme::False;
    }
    if n == 3 && v[0] == 'n' && v[1] == 'i' && v[2] == 'l' {
        assert(v@ =~= seq!['n', 'i', 'l']);
        return Lexeme::Nil;
    }
    proof {
        assert(n != 1 || v@ != seq!['('] && v@ != seq!['\''] && v@ != seq![','] && v@ != seq!['t']
            && v@ != seq!['f']) by {
            if n == 1 {
                assert(v@ =~= seq![v@[0]]);
            }
        }
        assert(n != 4 || v@ != seq!['t', 'r', 'u', 'e']) by {
            if n == 4 && v@ == seq!['t', 'r', 'u', 'e'] {
                assert(v@[0] == 't' && v@[1] == 'r' && v@[2] == 'u' && v@[3] == 'e');
            }
        }
        assert(n != 5 || v@ != seq!['f', 'a', 'l', 's', 'e']) by {
            if n == 5 && v@ == seq!['f', 'a', 'l', 's', 'e'] {
                assert(v@[0] == 'f' && v@[1] == 'a' && v@[2] == 'l' && v@[3] == 's' && v@[4]
                    == 'e');
            }
        }
        assert(n != 3 || v@ != seq!['n', 'i', 'l']) by {
            if n == 3 && v@ == seq!['n', 'i', 'l'] {
                assert(v@[0] == 'n' && v@[1] == 'i' && v@[2] == 'l');
            }
        }
        assert(v@.len() == 1 ==> (v@ == seq!['('] <==> v@[0] == '('));
    }
    if n >= 2 && v[0] == '"' && v[n - 1] == '"' {
        return Lexeme::Str;
    }
    match parse_i64(s.as_str()) {
        Some(k) => Lexeme::Number(k),
        None => if is_name_token(&v) {
            Lexeme::Name
        } else {
            Lexeme::Other
        },
    }
}

/// The parser's state: where it stands in the lexemes, and the forest so far.
struct Parser {
    index: usize,
    asf: Vec<Expression>,
}

impl Parser {
    fn new() -> (r: Parser)
        ensures
            r.index == 0,
            r.asf@.len() == 0,
    {
        Parser { index: 0, asf: Vec::new() }
    }

    fn push_expr(&mut self, e: Expression)
        ensures
            final(self).index == old(self).index,
            final(self).asf@ == old(self).asf@.push(e),
    {
        self.asf.push(e);
    }
}

/// The chars of `s` between its first and its last.
fn inner_text(s: &Vec<char>) -> (r: String)
    requires
        s.len() >= 2,
    ensures
        r@ == s@.subrange(1, s.len() - 1),
{
    let mut out = String::new();
    let mut i: usize = 1;
    while i < s.len() - 1
        invariant
            s.len() >= 2,
            1 <= i <= s.len() - 1,
            out@ == s@.subrange(1, i as int),
        decreases s.len() - 1 - i,
    {
        string_push(&mut out, s[i]);
        assert(out@ =~= s@.subrange(1, i + 1));
        i = i + 1;
    }
    out
}

fn parse_list(tokens: &Vec<String>, parser: &mut Parser) -> (r: Expression)
    requires
        old(parser).index <= tokens.len(),
        tokens.len() < usize::MAX,
    ensures
        (r@, final(parser).index as int) == parse_list_spec(views_of(tokens@), old(parser).index as int, seq![]),
        old(parser).index < final(parser).index <= tokens.len() + 1,
        final(parser).asf == old(parser).asf,
    decreases tokens.len() + 1 - old(parser).index, 1int,
{
    let ghost toks = views_of(tokens@);
    let ghost i0 = parser.index as int;
    let mut l: Vec<Expression> = Vec::new();
    assert(terms_of(l@) =~= seq![]);
    while parser.index < tokens.len() && !is_close(&tokens[parser.index])
        invariant
            toks == views_of(tokens@),
            i0 == old(parser).index,
            parser.asf == old(parser).asf,
            i0 <= parser.index <= tokens.len() + 1,
            tokens.len() < usize::MAX,
            parse_list_spec(toks, i0, seq![]) == parse_list_spec(toks, parser.index as int, terms_of(l@)),
        decreases tokens.len() + 1 - parser.index,
    {
        let e = parse_expression(tokens, parser);
        l.push(e);
    }
    if parser.index >= tokens.len() {
        parser.index = tokens.len() + 1;
    } else {
        parser.index = parser.index + 1;
    }
    if l.len() == 0 || parser.index > tokens.len() {
        Expression::Nil
    } else {
        Expression::List(l)
    }
}

fn is_close(s: &String) -> (r: bool)
    ensures
        r == (s@ == seq![')']),
{
    let v = chars_of(s.as_str());
    if v.len() == 1 && v[0] == ')' {
        assert(v@ =~= seq![')']);
        true
    } else {
        assert(v.len() == 1 ==> v@ =~= seq![v@[0]]);
        false
    }
}

fn parse_expression(tokens: &Vec<String>, parser: &mut Parser) -> (r: Expression)
    requires
        old(parser).index <= tokens.len() + 1,
        tokens.len() < usize::MAX,
    ensures
        (r@, final(parser).index as int) == parse_expr_spec(views_of(tokens@), old(parser).index as int),
        old(parser).index <= final(parser).index <= tokens.len() + 1,
        old(parser).index < tokens.len() ==> old(parser).index < final(parser).index,
        final(parser).asf == old(parser).asf,
    decreases tokens.len() + 1 - old(parser).index, 0int,
{
    if parser.index >= tokens.len() {
        return Expression::Nil;
    }
    let s = &tokens[parser.index];
    assert(views_of(tokens@)[parser.index as int] == s@);
    match lexeme(s) {
        Lexeme::Open => {
            parser.index = parser.index + 1;
            parse_list(tokens, parser)
        },
        Lexeme::Quote => {
            parser.index = parser.index + 1;
            Expression::Quote(Box::new(parse_expression(tokens, parser)))
        },
        Lexeme::Unquote => {
            parser.index = parser.index + 1;
            Expression::Unquote(Box::new(parse_expression(tokens, parser)))
        },
        Lexeme::True => {
            parser.index = parser.index + 1;
            Expression::Boolean(true)
        },
        Lexeme::False => {
            parser.index = parser.index + 1;
            Expression::Boolean(false)
        },
        Lexeme::Nil => {
            parser.index = parser.index + 1;
            Expression::Nil
        },
        Lexeme::Str => {
            let v = chars_of(s.as_str());
            parser.index = parser.index + 1;
            Expression::String(inner_text(&v))
        },
        Lexeme::Number(n) => {
            parser.index = parser.index + 1;
            Expression::Number(n)
        },
        Lexeme::Name => {
            parser.index = parser.index + 1;
            Expression::Symbol(s.clone())
        },
        Lexeme::Other => {
            parser.index = parser.index + 1;
            Expression::Nil
        },
    }
}

/// Parses the lexemes into a forest of expressions, one for each top-level
/// expression; no lexemes at all give a single `Nil`.
pub fn parse(tokens: Vec<String>) -> (r: Vec<Expression>)
    requires
        tokens.len() < usize::MAX,
    ensures
        terms_of(r@) == parse_spec(views_of(tokens@)),
{
    if tokens.len() == 0 {
        let r = vec![Expression::Nil];
        assert(terms_of(r@) =~= seq![Term::Nil]);
        return r;
    }
    let ghost toks = views_of(tokens@);
    let mut parser = Parser::new();
    assert(terms_of(parser.asf@) =~= seq![]);
    while parser.index < tokens.len()
        invariant
            toks == views_of(tokens@),
            0 < tokens.len() < usize::MAX,
            parser.index <= tokens.len() + 1,
            parse_spec(toks) == parse_from(toks, parser.index as int, terms_of(parser.asf@)),
        decreases tokens.len() + 1 - parser.index,
    {
        let ghost before = parser.asf@;
        let ghost i = parser.index as int;
        let e = parse_expression(&tokens, &mut parser);
        let ghost t = e@;
        parser.push_expr(e);
        proof {
            crate::types::lemma_terms_push(before, e);
            assert(parse_from(toks, i, terms_of(before)) == parse_from(
                toks,
                parser.index as int,
                terms_of(before).push(t),
            ));
        }
    }
    parser.asf
}

} // verus!
