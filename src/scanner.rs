//! A finite-state scanner that splits source text into lexemes.
use vstd::prelude::*;

verus! {

/// The states of the scanner.
pub enum ScanState {
    Normal,
    Str,
    Backslash,
    Comment,
}

/// The scanner's whole state, as a spec value: the state, the finished
/// tokens and the token being built.
pub struct ScanModel {
    pub state: ScanState,
    pub tokens: Seq<Seq<char>>,
    pub current: Seq<char>,
}

/// A char that always forms a lexeme on its own.
pub open spec fn spec_is_single(c: char) -> bool {
    c == '(' || c == ')' || c == '/' || c == '*' || c == '%' || c == '\'' || c == ','
        || c == '=' || c == '\\'
}

/// A char that may start a word (a sign or a decimal point).
pub open spec fn spec_is_prefix(c: char) -> bool {
    c == '+' || c == '-' || c == '.'
}

pub open spec fn spec_is_whitespace(c: char) -> bool {
    c == ' ' || c == '\n' || c == '\t' || c == '\r'
}

/// Ends the token being built, if it is not empty.
pub open spec fn flush_tokens(tokens: Seq<Seq<char>>, current: Seq<char>) -> Seq<Seq<char>> {
    if current.len() == 0 {
        tokens
    } else {
        tokens.push(current)
    }
}

pub open spec fn model(state: ScanState, tokens: Seq<Seq<char>>, current: Seq<char>) -> ScanModel {
    ScanModel { state, tokens, current }
}

/// What a backslash followed by `c` stands for inside a string literal.
pub open spec fn escaped(c: char) -> Seq<char> {
    if c == 'n' {
        seq!['\n']
    } else if c == 't' {
        seq!['\t']
    } else if c == 'r' {
        seq!['\r']
    } else if c == '\\' {
        seq!['\\']
    } else if c == '"' {
        seq!['"']
    } else {
        seq!['\\', c]
    }
}

/// One transition of the scanner on the char `c`.
pub open spec fn step(m: ScanModel, c: char) -> ScanModel {
    match m.state {
        ScanState::Normal => {
            if spec_is_single(c) {
                model(ScanState::Normal, flush_tokens(m.tokens, m.current).push(seq![c]), seq![])
            } else if spec_is_prefix(c) && m.current.len() == 0 {
                model(ScanState::Normal, m.tokens, m.current.push(c))
            } else if c == '"' {
                model(ScanState::Str, flush_tokens(m.tokens, m.current), seq![c])
            } else if c == ';' {
                model(ScanState::Comment, m.tokens, m.current)
            } else if spec_is_whitespace(c) {
                model(ScanState::Normal, flush_tokens(m.tokens, m.current), seq![])
            } else {
                model(ScanState::Normal, m.tokens, m.current.push(c))
            }
        },
        ScanState::Str => {
            if c == '"' {
                model(ScanState::Normal, flush_tokens(m.tokens, m.current.push(c)), seq![])
            } else if c == '\\' {
                model(ScanState::Backslash, m.tokens, m.current)
            } else {
                model(ScanState::Str, m.tokens, m.current.push(c))
            }
        },
        ScanState::Backslash => model(ScanState::Str, m.tokens, m.current + escaped(c)),
        ScanState::Comment => {
            if c == '\n' {
                model(ScanState::Normal, m.tokens, m.current)
            } else {
                m
            }
        },
    }
}

/// The scanner's state after reading all of `input` from the start state.
pub open spec fn run(input: Seq<char>) -> ScanModel
    decreases input.len(),
{
    if input.len() == 0 {
        model(ScanState::Normal, seq![], seq![])
    } else {
        step(run(input.drop_last()), input.last())
    }
}

/// The lexemes of `input`: the tokens after the last char, with the token
/// still being built flushed.
pub open spec fn scan_spec(input: Seq<char>) -> Seq<Seq<char>> {
    let m = run(input);
    flush_tokens(m.tokens, m.current)
}

/// The views of a list of strings.
pub open spec fn views_of(v: Seq<String>) -> Seq<Seq<char>> {
    v.map_values(|s: String| s@)
}

/// Relies on `String::push`, which appends one char.
#[verifier::external_body]
pub(crate) fn string_push(s: &mut String, c: char)
    ensures
        final(s)@ == old(s)@.push(c),
{
    s.push(c);
}

/// The chars of `s`.
pub(crate) fn chars_of(s: &str) -> (r: Vec<char>)
    ensures
        r@ == s@,
{
    let mut v: Vec<char> = Vec::new();
    for c in it: s.chars()
        invariant
            it.seq() == s@,
            v@ == s@.subrange(0, it.index() as int),
    {
        v.push(c);
        assert(v@ =~= s@.subrange(0, it.index() + 1));
    }
    assert(s@.subrange(0, s@.len() as int) =~= s@);
    v
}

struct Scanner {
    state: ScanState,
    tokens: Vec<String>,
    current: String,
}

impl Scanner {
    spec fn view_model(&self) -> ScanModel {
        model(self.state, views_of(self.tokens@), self.current@)
    }

    fn new() -> (r: Scanner)
        ensures
            r.view_model() == model(ScanState::Normal, seq![], seq![]),
    {
        let r = Scanner { state: ScanState::Normal, tokens: Vec::new(), current: String::new() };
        assert(views_of(r.tokens@) =~= seq![]);
        r
    }

    fn flush(&mut self)
        ensures
            final(self).view_model() == model(
                old(self).state,
                flush_tokens(views_of(old(self).tokens@), old(self).current@),
                seq![],
            ),
    {
        let empty = self.current.as_str().is_empty();
        proof {
            assert(self.current@.len() == 0 <==> empty);
        }
        if !empty {
            let t = self.current.clone();
            self.current = String::new();
            self.tokens.push(t);
            assert(views_of(self.tokens@) =~= views_of(old(self).tokens@).push(t@));
        } else {
            assert(self.current@ =~= seq![]);
        }
    }

    fn push_char(&mut self, c: char)
        ensures
            final(self).view_model() == model(
                old(self).state,
                views_of(old(self).tokens@),
                old(self).current@.push(c),
            ),
    {
        string_push(&mut self.current, c);
    }

    fn push_token(&mut self, s: String)
        ensures
            final(self).view_model() == model(
                old(self).state,
                views_of(old(self).tokens@).push(s@),
                old(self).current@,
            ),
    {
        self.tokens.push(s);
        assert(views_of(self.tokens@) =~= views_of(old(self).tokens@).push(s@));
    }
}

/// Whether `c` always forms a lexeme on its own.
fn is_single(c: char) -> (r: bool)
    ensures
        r == spec_is_single(c),
{
    match c {
        '(' | ')' | '/' | '*' | '%' | '\'' | ',' | '=' | '\\' => true,
        _ => false,
    }
}

/// Whether `c` may start a word.
fn is_prefix(c: char) -> (r: bool)
    ensures
        r == spec_is_prefix(c),
{
    match c {
        '+' | '-' | '.' => true,
        _ => false,
    }
}

/// Whether `c` separates lexemes.
fn is_whitespace(c: char) -> (r: bool)
    ensures
        r == spec_is_whitespace(c),
{
    match c {
        ' ' | '\n' | '\t' | '\r' => true,
        _ => false,
    }
}

fn char_string(c: char) -> (r: String)
    ensures
        r@ == seq![c],
{
    let mut s = String::new();
    string_push(&mut s, c);
    assert(s@ =~= seq![c]);
    s
}

/// Splits `input` into lexemes: parentheses and operator chars on their own,
/// words separated by whitespace, string literals (quotes kept, escapes
/// decoded) as one lexeme, and comments from `;` to the end of the line dropped.
pub fn scan(input: &str) -> (r: Vec<String>)
    ensures
        views_of(r@) == scan_spec(input@),
{
    let mut scanner = Scanner::new();
    for c in it: input.chars()
        invariant
            it.seq() == input@,
            scanner.view_model() == run(input@.subrange(0, it.index() as int)),
    {
        proof {
            let pre = input@.subrange(0, it.index() as int);
            let next = input@.subrange(0, it.index() + 1);
            assert(next.drop_last() =~= pre);
        }
        match scanner.state {
            ScanState::Normal => {
                if is_single(c) {
                    scanner.flush();
                    scanner.push_token(char_string(c));
                } else if is_prefix(c) && scanner.current.as_str().is_empty() {
                    scanner.push_char(c);
                } else if c == '"' {
                    scanner.flush();
                    scanner.push_char(c);
                    scanner.state = ScanState::Str;
                } else if c == ';' {
                    scanner.state = ScanState::Comment;
                } else if is_whitespace(c) {
                    scanner.flush();
                } else {
                    scanner.push_char(c);
                }
            },
            ScanState::Str => {
                if c == '"' {
                    scanner.push_char(c);
                    scanner.flush();
                    scanner.state = ScanState::Normal;
                } else if c == '\\' {
                    scanner.state = ScanState::Backslash;
                } else {
                    scanner.push_char(c);
                }
            },
            ScanState::Backslash => {
                let ghost before = scanner.current@;
                match c {
                    'n' => scanner.push_char('\n'),
                    't' => scanner.push_char('\t'),
                    'r' => scanner.push_char('\r'),
                    '\\' => scanner.push_char('\\'),
                    '"' => scanner.push_char('"'),
                    _ => {
                        scanner.push_char('\\');
                        scanner.push_char(c);
                    },
                };
                assert(scanner.current@ =~= before + escaped(c));
                scanner.state = ScanState::Str;
            },
            ScanState::Comment => {
                if c == '\n' {
                    scanner.state = ScanState::Normal;
                }
            },
        }
    }
    proof {
        assert(input@.subrange(0, input@.len() as int) =~= input@);
    }
    scanner.flush();
    scanner.tokens
}

} // verus!
