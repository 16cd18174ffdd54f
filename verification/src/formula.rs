//! Formula expressions: the lexer, the dependency scan and the static
//! validation that run before a formula is stored or evaluated.
use vstd::prelude::*;
use crate::error::{bad_request, bad_request_with, message_of, AppError};
use crate::numbers::{float_literal, is_float_literal};
use crate::text::{
    chars_of, eq_ignore_case, find_char, find_char_from, is_alnum, is_alnum_char, is_alpha,
    is_alpha_char, is_digit, is_digit_char, is_ws, is_ws_char, seq_eq, seq_eq_ignore_case,
    slice_chars, string_of, trim, trim_vec, utf8_len, utf8_len_exceeds,
};

verus! {

broadcast use vstd::string::group_string_axioms;

/// Longest expression accepted, in bytes.
pub const MAX_EXPR: usize = 2048;

/// A lexical token of a formula. Number tokens keep their literal text.
pub enum Token {
    Num(String),
    Str(String),
    Ref(String),
    Id(String),
    Plus,
    Minus,
    Star,
    Slash,
    Eq,
    Ne,
    Lt,
    Le,
    Gt,
    Ge,
    And,
    Or,
    Not,
    LParen,
    RParen,
    Comma,
}

/// Abstract tokens, with character sequences in place of strings.
pub enum Tok {
    Num(Seq<char>),
    Str(Seq<char>),
    Ref(Seq<char>),
    Id(Seq<char>),
    Plus,
    Minus,
    Star,
    Slash,
    Eq,
    Ne,
    Lt,
    Le,
    Gt,
    Ge,
    And,
    Or,
    Not,
    LParen,
    RParen,
    Comma,
}

impl View for Token {
    type V = Tok;

    open spec fn view(&self) -> Tok {
        match self {
            Token::Num(s) => Tok::Num(s@),
            Token::Str(s) => Tok::Str(s@),
            Token::Ref(s) => Tok::Ref(s@),
            Token::Id(s) => Tok::Id(s@),
            Token::Plus => Tok::Plus,
            Token::Minus => Tok::Minus,
            Token::Star => Tok::Star,
            Token::Slash => Tok::Slash,
            Token::Eq => Tok::Eq,
            Token::Ne => Tok::Ne,
            Token::Lt => Tok::Lt,
            Token::Le => Tok::Le,
            Token::Gt => Tok::Gt,
            Token::Ge => Tok::Ge,
            Token::And => Tok::And,
            Token::Or => Tok::Or,
            Token::Not => Tok::Not,
            Token::LParen => Tok::LParen,
            Token::RParen => Tok::RParen,
            Token::Comma => Tok::Comma,
        }
    }
}

pub open spec fn toks(v: Seq<Token>) -> Seq<Tok> {
    v.map_values(|t: Token| t@)
}

// ---------------------------------------------------------------------------
// Lexical grammar
// ---------------------------------------------------------------------------

pub open spec fn ident_char(c: char) -> bool {
    is_alnum(c) || c == '_'
}

pub open spec fn num_char(c: char) -> bool {
    is_digit(c) || c == '.'
}

/// A field name: not blank, and made of ASCII letters, digits and `_`.
pub open spec fn valid_name(s: Seq<char>) -> bool {
    trim(s).len() > 0 && forall|i: int| 0 <= i < s.len() ==> ident_char(#[trigger] s[i])
}

/// End of the run of number characters that starts at `i`.
pub open spec fn num_run_end(s: Seq<char>, i: int) -> int
    decreases s.len() - i,
{
    if 0 <= i < s.len() && num_char(s[i]) {
        num_run_end(s, i + 1)
    } else {
        i
    }
}

/// End of the run of identifier characters that starts at `i`.
pub open spec fn ident_run_end(s: Seq<char>, i: int) -> int
    decreases s.len() - i,
{
    if 0 <= i < s.len() && ident_char(s[i]) {
        ident_run_end(s, i + 1)
    } else {
        i
    }
}

/// The body of a string literal that starts at `i` (after the opening quote
/// `q`), with `\` escaping the next character, and the index of the closing
/// quote; `None` when the literal is not closed.
pub open spec fn scan_quoted(s: Seq<char>, i: int, q: char) -> Option<(Seq<char>, int)>
    decreases s.len() - i,
{
    if i < 0 || i >= s.len() {
        None
    } else if s[i] == q {
        Some((Seq::empty(), i))
    } else {
        let escaped = s[i] == '\\' && i + 1 < s.len();
        let c = if escaped {
            s[i + 1]
        } else {
            s[i]
        };
        let j = if escaped {
            i + 2
        } else {
            i + 1
        };
        match scan_quoted(s, j, q) {
            Some((rest, k)) => Some((seq![c] + rest, k)),
            None => None,
        }
    }
}

/// A two-character operator `c` followed by `=`.
pub open spec fn followed_by(s: Seq<char>, i: int, c: char) -> bool {
    i + 1 < s.len() && s[i + 1] == c
}

/// One lexical step at `i`: the token read (none for whitespace) and the
/// index after it, or `None` for a lexical error.
pub open spec fn lex_step(s: Seq<char>, i: int) -> Option<(Option<Tok>, int)> {
    let c = s[i];
    if is_ws(c) {
        Some((None, i + 1))
    } else if c == '{' {
        let k = find_char_from(s, i + 1, '}');
        if k >= s.len() {
            None
        } else if valid_name(s.subrange(i + 1, k)) {
            Some((Some(Tok::Ref(s.subrange(i + 1, k))), k + 1))
        } else {
            None
        }
    } else if c == '"' || c == '\'' {
        match scan_quoted(s, i + 1, c) {
            Some((body, k)) => Some((Some(Tok::Str(body)), k + 1)),
            None => None,
        }
    } else if num_char(c) {
        let k = num_run_end(s, i + 1);
        if float_literal(s.subrange(i, k)) {
            Some((Some(Tok::Num(s.subrange(i, k))), k))
        } else {
            None
        }
    } else if is_alpha(c) || c == '_' {
        let k = ident_run_end(s, i + 1);
        Some((Some(Tok::Id(s.subrange(i, k))), k))
    } else if c == '+' {
        Some((Some(Tok::Plus), i + 1))
    } else if c == '-' {
        Some((Some(Tok::Minus), i + 1))
    } else if c == '*' {
        Some((Some(Tok::Star), i + 1))
    } else if c == '/' {
        Some((Some(Tok::Slash), i + 1))
    } else if c == '(' {
        Some((Some(Tok::LParen), i + 1))
    } else if c == ')' {
        Some((Some(Tok::RParen), i + 1))
    } else if c == ',' {
        Some((Some(Tok::Comma), i + 1))
    } else if c == '!' {
        if followed_by(s, i, '=') {
            Some((Some(Tok::Ne), i + 2))
        } else {
            Some((Some(Tok::Not), i + 1))
        }
    } else if c == '=' {
        if followed_by(s, i, '=') {
            Some((Some(Tok::Eq), i + 2))
        } else {
            Some((Some(Tok::Eq), i + 1))
        }
    } else if c == '<' {
        if followed_by(s, i, '=') {
            Some((Some(Tok::Le), i + 2))
        } else {
            Some((Some(Tok::Lt), i + 1))
        }
    } else if c == '>' {
        if followed_by(s, i, '=') {
            Some((Some(Tok::Ge), i + 2))
        } else {
            Some((Some(Tok::Gt), i + 1))
        }
    } else if c == '&' {
        if followed_by(s, i, '&') {
            Some((Some(Tok::And), i + 2))
        } else {
            None
        }
    } else if c == '|' {
        if followed_by(s, i, '|') {
            Some((Some(Tok::Or), i + 2))
        } else {
            None
        }
    } else {
        None
    }
}

pub open spec fn opt_seq(t: Option<Tok>) -> Seq<Tok> {
    match t {
        Some(x) => seq![x],
        None => Seq::empty(),
    }
}

pub open spec fn prepend(a: Seq<Tok>, r: Option<Seq<Tok>>) -> Option<Seq<Tok>> {
    match r {
        Some(x) => Some(a + x),
        None => None,
    }
}

/// The tokens of `s` from index `i` on, or `None` for a lexical error.
pub open spec fn lex_from(s: Seq<char>, i: int) -> Option<Seq<Tok>>
    decreases s.len() - i,
{
    if i < 0 {
        None
    } else if i >= s.len() {
        Some(Seq::empty())
    } else {
        match lex_step(s, i) {
            None => None,
            Some((t, j)) => if i < j <= s.len() {
                prepend(opt_seq(t), lex_from(s, j))
            } else {
                None
            },
        }
    }
}

/// The tokens of an expression: `None` when it is longer than `MAX_EXPR`
/// bytes or holds a lexical error.
pub open spec fn lex_spec(s: Seq<char>) -> Option<Seq<Tok>> {
    if utf8_len(s) > MAX_EXPR {
        None
    } else {
        lex_from(s, 0)
    }
}

/// Why the lexical step at `i` fails, where it does.
pub open spec fn step_error(s: Seq<char>, i: int) -> Seq<char> {
    let c = s[i];
    if c == '{' {
        if find_char_from(s, i + 1, '}') >= s.len() {
            "unclosed field reference"@
        } else {
            "invalid field reference"@
        }
    } else if c == '"' || c == '\'' {
        "unclosed string"@
    } else if num_char(c) {
        "invalid number"@
    } else if c == '&' {
        "expected &&"@
    } else if c == '|' {
        "expected ||"@
    } else {
        "unsupported character: "@ + seq![c]
    }
}

/// The message of the first lexical error from index `i` on.
pub open spec fn lex_error_from(s: Seq<char>, i: int) -> Option<Seq<char>>
    decreases s.len() - i,
{
    if i < 0 || i >= s.len() {
        None
    } else {
        match lex_step(s, i) {
            None => Some(step_error(s, i)),
            Some((t, j)) => if i < j <= s.len() {
                lex_error_from(s, j)
            } else {
                None
            },
        }
    }
}

/// Why an expression does not lex.
pub open spec fn lex_error(s: Seq<char>) -> Seq<char> {
    if utf8_len(s) > MAX_EXPR {
        "formula expression is too long"@
    } else {
        match lex_error_from(s, 0) {
            Some(m) => m,
            None => Seq::empty(),
        }
    }
}

// ---------------------------------------------------------------------------
// Lexer
// ---------------------------------------------------------------------------

/// Whether `v` is a valid field name.
pub fn valid_name_exec(v: &Vec<char>) -> (r: bool)
    ensures
        r == valid_name(v@),
{
    let t = trim_vec(v);
    if t.len() == 0 {
        return false;
    }
    let mut i: usize = 0;
    while i < v.len()
        invariant
            i <= v.len(),
            forall|k: int| 0 <= k < i ==> ident_char(#[trigger] v@[k]),
        decreases v.len() - i,
    {
        if !(is_alnum_char(v[i]) || v[i] == '_') {
            return false;
        }
        i += 1;
    }
    true
}

fn num_run(v: &Vec<char>, start: usize) -> (k: usize)
    requires
        start <= v.len(),
    ensures
        k == num_run_end(v@, start as int),
        start <= k <= v.len(),
{
    let mut k = start;
    while k < v.len() && (is_digit_char(v[k]) || v[k] == '.')
        invariant
            start <= k <= v.len(),
            num_run_end(v@, k as int) == num_run_end(v@, start as int),
        decreases v.len() - k,
    {
        k += 1;
    }
    k
}

fn ident_run(v: &Vec<char>, start: usize) -> (k: usize)
    requires
        start <= v.len(),
    ensures
        k == ident_run_end(v@, start as int),
        start <= k <= v.len(),
{
    let mut k = start;
    while k < v.len() && (is_alnum_char(v[k]) || v[k] == '_')
        invariant
            start <= k <= v.len(),
            ident_run_end(v@, k as int) == ident_run_end(v@, start as int),
        decreases v.len() - k,
    {
        k += 1;
    }
    k
}

fn scan_quoted_exec(v: &Vec<char>, start: usize, q: char) -> (r: Option<(Vec<char>, usize)>)
    requires
        start <= v.len(),
    ensures
        match r {
            Some((body, k)) => scan_quoted(v@, start as int, q) == Some((body@, k as int)) && start
                <= k < v.len(),
            None => scan_quoted(v@, start as int, q) is None,
        },
{
    let mut body: Vec<char> = Vec::new();
    let mut i = start;
    while i < v.len() && v[i] != q
        invariant
            start <= i <= v.len(),
            scan_quoted(v@, start as int, q) == match scan_quoted(v@, i as int, q) {
                Some((rest, k)) => Some((body@ + rest, k)),
                None => None,
            },
        decreases v.len() - i,
    {
        let ghost old_body = body@;
        if v[i] == '\\' && i + 1 < v.len() {
            i += 1;
        }
        body.push(v[i]);
        i += 1;
        proof {
            match scan_quoted(v@, i as int, q) {
                Some((rest, k)) => {
                    assert(old_body + (seq![v@[i - 1]] + rest) =~= body@ + rest);
                },
                None => {},
            }
        }
    }
    if i >= v.len() {
        return None;
    }
    proof {
        assert(body@ + Seq::<char>::empty() =~= body@);
    }
    Some((body, i))
}

/// Splits an expression into tokens. Fails with a bad request when the
/// expression is longer than `MAX_EXPR` bytes or holds a character sequence
/// outside the lexical grammar (`lex_spec`).
pub fn lex(input: &str) -> (r: Result<Vec<Token>, AppError>)
    ensures
        r is Ok <==> lex_spec(input@) is Some,
        r matches Ok(t) ==> lex_spec(input@) == Some(toks(t@)),
        r matches Err(e) ==> e is BadRequest && message_of(e) == lex_error(input@),
{
    let s = chars_of(input);
    if utf8_len_exceeds(&s, MAX_EXPR) {
        return Err(bad_request("formula expression is too long"));
    }
    let mut i: usize = 0;
    let mut out: Vec<Token> = Vec::new();
    while i < s.len()
        invariant
            i <= s.len(),
            s@ == input@,
            lex_from(s@, 0) == prepend(toks(out@), lex_from(s@, i as int)),
            utf8_len(s@) <= MAX_EXPR,
            lex_error_from(s@, 0) == lex_error_from(s@, i as int),
        decreases s.len() - i,
    {
        let ghost gi = i as int;
        let ghost before = out@;
        let c = s[i];
        let mut tok: Option<Token> = None;
        let next: usize;
        if is_ws_char(c) {
            next = i + 1;
        } else if c == '{' {
            let k = find_char(&s, i + 1, '}');
            if k >= s.len() {
                assert(lex_step(s@, gi) is None);
                return Err(bad_request("unclosed field reference"));
            }
            let n = slice_chars(&s, i + 1, k);
            if !valid_name_exec(&n) {
                assert(lex_step(s@, gi) is None);
                return Err(bad_request("invalid field reference"));
            }
            tok = Some(Token::Ref(string_of(n.as_slice())));
            next = k + 1;
        } else if c == '"' || c == '\'' {
            match scan_quoted_exec(&s, i + 1, c) {
                Some((body, k)) => {
                    tok = Some(Token::Str(string_of(body.as_slice())));
                    next = k + 1;
                },
                None => {
                    assert(lex_step(s@, gi) is None);
                    return Err(bad_request("unclosed string"));
                },
            }
        } else if is_digit_char(c) || c == '.' {
            let k = num_run(&s, i + 1);
            let n = slice_chars(&s, i, k);
            if !is_float_literal(&n) {
                assert(lex_step(s@, gi) is None);
                return Err(bad_request("invalid number"));
            }
            tok = Some(Token::Num(string_of(n.as_slice())));
            next = k;
        } else if is_alpha_char(c) || c == '_' {
            let k = ident_run(&s, i + 1);
            let n = slice_chars(&s, i, k);
            tok = Some(Token::Id(string_of(n.as_slice())));
            next = k;
        } else if c == '+' {
            tok = Some(Token::Plus);
            next = i + 1;
        } else if c == '-' {
            tok = Some(Token::Minus);
            next = i + 1;
        } else if c == '*' {
            tok = Some(Token::Star);
            next = i + 1;
        } else if c == '/' {
            tok = Some(Token::Slash);
            next = i + 1;
        } else if c == '(' {
            tok = Some(Token::LParen);
            next = i + 1;
        } else if c == ')' {
            tok = Some(Token::RParen);
            next = i + 1;
        } else if c == ',' {
            tok = Some(Token::Comma);
            next = i + 1;
        } else if c == '!' {
            if i + 1 < s.len() && s[i + 1] == '=' {
                tok = Some(Token::Ne);
                next = i + 2;
            } else {
                tok = Some(Token::Not);
                next = i + 1;
            }
        } else if c == '=' {
            tok = Some(Token::Eq);
            if i + 1 < s.len() && s[i + 1] == '=' {
                next = i + 2;
            } else {
                next = i + 1;
            }
        } else if c == '<' {
            if i + 1 < s.len() && s[i + 1] == '=' {
                tok = Some(Token::Le);
                next = i + 2;
            } else {
                tok = Some(Token::Lt);
                next = i + 1;
            }
        } else if c == '>' {
            if i + 1 < s.len() && s[i + 1] == '=' {
                tok = Some(Token::Ge);
                next = i + 2;
            } else {
                tok = Some(Token::Gt);
                next = i + 1;
            }
        } else if c == '&' {
            if i + 1 < s.len() && s[i + 1] == '&' {
                tok = Some(Token::And);
                next = i + 2;
            } else {
                assert(lex_step(s@, gi) is None);
                return Err(bad_request("expected &&"));
            }
        } else if c == '|' {
            if i + 1 < s.len() && s[i + 1] == '|' {
                tok = Some(Token::Or);
                next = i + 2;
            } else {
                assert(lex_step(s@, gi) is None);
                return Err(bad_request("expected ||"));
            }
        } else {
            let mut detail: Vec<char> = Vec::new();
            detail.push(c);
            assert(lex_step(s@, gi) is None);
            assert(detail@ =~= seq![c]);
            return Err(bad_request_with("unsupported character: ", &detail));
        }
        let ghost t = match &tok {
            Some(x) => Some(x@),
            None => None,
        };
        assert(lex_step(s@, gi) == Some((t, next as int)));
        assert(gi < next <= s.len());
        assert(lex_error_from(s@, gi) == lex_error_from(s@, next as int));
        assert(lex_from(s@, gi) == prepend(opt_seq(t), lex_from(s@, next as int)));
        match tok {
            Some(x) => {
                out.push(x);
            },
            None => {},
        }
        proof {
            assert(toks(out@) =~= toks(before) + opt_seq(t));
            match lex_from(s@, next as int) {
                Some(rest) => {
                    assert(toks(before) + (opt_seq(t) + rest) =~= toks(out@) + rest);
                },
                None => {},
            }
        }
        i = next;
    }
    proof {
        assert(lex_from(s@, i as int) == Some(Seq::<Tok>::empty()));
        assert(toks(out@) + Seq::<Tok>::empty() =~= toks(out@));
    }
    Ok(out)
}

// ---------------------------------------------------------------------------
// Dependencies and static validation
// ---------------------------------------------------------------------------

/// `n` is referenced as `{n}` in the tokens.
pub open spec fn references(ts: Seq<Tok>, n: Seq<char>) -> bool {
    exists|i: int| 0 <= i < ts.len() && ts[i] == Tok::Ref(n)
}

pub open spec fn names(v: Seq<String>) -> Seq<Seq<char>> {
    v.map_values(|s: String| s@)
}

pub open spec fn distinct(v: Seq<Seq<char>>) -> bool {
    forall|i: int, j: int| 0 <= i < j < v.len() ==> v[i] != v[j]
}

fn contains_name(v: &Vec<String>, n: &Vec<char>) -> (r: bool)
    ensures
        r == names(v@).contains(n@),
{
    let mut i: usize = 0;
    while i < v.len()
        invariant
            i <= v.len(),
            forall|k: int| 0 <= k < i ==> v@[k]@ != n@,
        decreases v.len() - i,
    {
        let c = chars_of(v[i].as_str());
        if seq_eq(&c, n) {
            assert(names(v@)[i as int] == n@);
            return true;
        }
        i += 1;
    }
    proof {
        if names(v@).contains(n@) {
            let k = choose|k: int| 0 <= k < names(v@).len() && #[trigger] names(v@)[k] == n@;
            assert(v@[k]@ == n@);
        }
    }
    false
}

/// The field names referenced among the first `n` tokens, each once, in
/// order of first reference.
pub open spec fn ref_names(ts: Seq<Tok>, n: int) -> Seq<Seq<char>>
    decreases n,
{
    if n <= 0 {
        Seq::empty()
    } else {
        let prev = ref_names(ts, n - 1);
        match ts[n - 1] {
            Tok::Ref(x) => if prev.contains(x) {
                prev
            } else {
                prev.push(x)
            },
            _ => prev,
        }
    }
}

/// The distinct field names an expression references, in order of first
/// reference. Fails as `lex` does.
pub fn dependencies(expr: &str) -> (r: Result<Vec<String>, AppError>)
    ensures
        r is Ok <==> lex_spec(expr@) is Some,
        r matches Ok(v) ==> distinct(names(v@)) && forall|n: Seq<char>|
            names(v@).contains(n) <==> references(lex_spec(expr@)->Some_0, n),
        r matches Ok(v) ==> names(v@) == ref_names(
            lex_spec(expr@)->Some_0,
            lex_spec(expr@)->Some_0.len() as int,
        ),
        r matches Err(e) ==> e is BadRequest && message_of(e) == lex_error(expr@),
{
    let tokens = lex(expr)?;
    let ghost ts = toks(tokens@);
    let mut out: Vec<String> = Vec::new();
    let mut i: usize = 0;
    while i < tokens.len()
        invariant
            i <= tokens.len(),
            ts == toks(tokens@),
            distinct(names(out@)),
            forall|n: Seq<char>|
                names(out@).contains(n) <==> references(ts.take(i as int), n),
            names(out@) == ref_names(ts, i as int),
        decreases tokens.len() - i,
    {
        let ghost before = out@;
        proof {
            assert(ts[i as int] == tokens@[i as int]@);
            assert forall|n: Seq<char>| references(ts.take(i + 1), n) <==> (references(
                ts.take(i as int),
                n,
            ) || ts[i as int] == Tok::Ref(n)) by {
                if references(ts.take(i + 1), n) {
                    let k = choose|k: int| 0 <= k < i + 1 && #[trigger] ts.take(i + 1)[k] == Tok::Ref(n);
                    if k < i {
                        assert(ts.take(i as int)[k] == Tok::Ref(n));
                    }
                }
                if references(ts.take(i as int), n) {
                    let k = choose|k: int| 0 <= k < i && #[trigger] ts.take(i as int)[k] == Tok::Ref(n);
                    assert(ts.take(i + 1)[k] == Tok::Ref(n));
                }
                if ts[i as int] == Tok::Ref(n) {
                    assert(ts.take(i + 1)[i as int] == Tok::Ref(n));
                }
            }
        }
        match &tokens[i] {
            Token::Ref(n) => {
                let c = chars_of(n.as_str());
                if !contains_name(&out, &c) {
                    out.push(n.clone());
                    proof {
                        assert(names(out@) =~= names(before).push(n@));
                        assert forall|m: Seq<char>| names(out@).contains(m) <==> (names(
                            before,
                        ).contains(m) || m == n@) by {
                            if names(out@).contains(m) {
                                let k = choose|k: int| 0 <= k < names(out@).len() && #[trigger] names(out@)[k] == m;
                                if k < before.len() {
                                    assert(names(before)[k] == m);
                                }
                            }
                            if names(before).contains(m) {
                                let k = choose|k: int| 0 <= k < names(before).len() && #[trigger] names(before)[k] == m;
                                assert(names(out@)[k] == m);
                            }
                            if m == n@ {
                                assert(names(out@)[before.len() as int] == m);
                            }
                        }
                        assert forall|a: int, b: int| 0 <= a < b < names(out@).len() implies names(
                            out@,
                        )[a] != names(out@)[b] by {
                            if b == before.len() {
                                assert(names(before).contains(names(before)[a]));
                            }
                        }
                    }
                }
            },
            _ => {
                assert(forall|n: Seq<char>| ts[i as int] != Tok::Ref(n));
            },
        }
        assert forall|m: Seq<char>| names(out@).contains(m) <==> references(ts.take(i + 1), m) by {
            assert(names(before).contains(m) <==> references(ts.take(i as int), m));
            assert(references(ts.take(i + 1), m) <==> (references(ts.take(i as int), m) || ts[i as int]
                == Tok::Ref(m)));
            match &tokens[i as int] {
                Token::Ref(n) => {
                    if names(out@) != names(before) {
                        assert(names(out@).contains(m) <==> (names(before).contains(m) || m == n@));
                    } else {
                        assert(names(before).contains(n@));
                    }
                },
                _ => {
                    assert(ts[i as int] != Tok::Ref(m));
                },
            }
        }
        i += 1;
    }
    assert(ts.take(tokens.len() as int) =~= ts);
    Ok(out)
}

/// Parenthesis balance contributed by a token.
pub open spec fn paren_delta(t: Tok) -> int {
    match t {
        Tok::LParen => 1,
        Tok::RParen => -1,
        _ => 0,
    }
}

/// Open parentheses before token `k`.
pub open spec fn depth_before(ts: Seq<Tok>, k: int) -> int
    decreases k,
{
    if k <= 0 {
        0
    } else {
        depth_before(ts, k - 1) + paren_delta(ts[k - 1])
    }
}

/// Function names and literals that may stand as identifiers.
pub open spec fn known_identifiers() -> Seq<Seq<char>> {
    seq![
        "if"@, "coalesce"@, "abs"@, "round"@, "floor"@, "ceil"@, "len"@, "upper"@, "lower"@,
        "trim"@, "contains"@, "starts_with"@, "ends_with"@, "concat"@, "year"@, "month"@,
        "day"@, "date"@, "days_between"@, "true"@, "false"@, "null"@,
    ]
}

pub open spec fn known_identifier(n: Seq<char>) -> bool {
    exists|i: int| 0 <= i < known_identifiers().len() && eq_ignore_case(known_identifiers()[i], n)
}

/// Identifier at `k` is known, or is called (followed by `(`).
pub open spec fn identifier_ok(ts: Seq<Tok>, k: int) -> bool {
    match ts[k] {
        Tok::Id(n) => known_identifier(n) || (k + 1 < ts.len() && ts[k + 1] is LParen),
        _ => true,
    }
}

/// Parentheses balance and never close below zero; every bare identifier
/// is a known function or literal, or is immediately called.
pub open spec fn syntax_ok(ts: Seq<Tok>) -> bool {
    &&& forall|k: int| 0 <= k < ts.len() && ts[k] is RParen ==> depth_before(ts, k) > 0
    &&& forall|k: int| 0 <= k < ts.len() ==> identifier_ok(ts, k)
    &&& depth_before(ts, ts.len() as int) == 0
}

pub open spec fn syntax_valid(s: Seq<char>) -> bool {
    lex_spec(s) is Some && syntax_ok(lex_spec(s)->Some_0)
}

/// The first syntax problem among the tokens from `i` on: a closing
/// parenthesis with none open, or an unknown bare identifier; at the end,
/// parentheses left open.
pub open spec fn syntax_error_from(ts: Seq<Tok>, i: int) -> Option<Seq<char>>
    decreases ts.len() - i,
{
    if i < 0 || i >= ts.len() {
        if depth_before(ts, ts.len() as int) != 0 {
            Some("unbalanced parentheses"@)
        } else {
            None
        }
    } else if ts[i] is RParen && depth_before(ts, i) <= 0 {
        Some("unbalanced parentheses"@)
    } else if !identifier_ok(ts, i) {
        Some("unknown identifier: "@ + ts[i]->Id_0)
    } else {
        syntax_error_from(ts, i + 1)
    }
}

/// Why an expression is not well formed, if it is not.
pub open spec fn syntax_error(s: Seq<char>) -> Option<Seq<char>> {
    match lex_spec(s) {
        None => Some(lex_error(s)),
        Some(ts) => syntax_error_from(ts, 0),
    }
}

/// The first name of `deps` that is not among `fields`.
pub open spec fn first_missing(deps: Seq<Seq<char>>, fields: Seq<Seq<char>>) -> Option<Seq<char>>
    decreases deps.len(),
{
    if deps.len() == 0 {
        None
    } else if !fields.contains(deps[0]) {
        Some(deps[0])
    } else {
        first_missing(deps.drop_first(), fields)
    }
}

/// Why an expression is refused over the given fields: a syntax problem,
/// else the first field it references (in order of reference) that is not
/// among them.
pub open spec fn formula_error(s: Seq<char>, fields: Seq<Seq<char>>) -> Option<Seq<char>> {
    match syntax_error(s) {
        Some(m) => Some(m),
        None => match first_missing(
            ref_names(lex_spec(s)->Some_0, lex_spec(s)->Some_0.len() as int),
            fields,
        ) {
            Some(n) => Some("unknown formula field: "@ + n),
            None => None,
        },
    }
}

fn known_identifier_exec(n: &String) -> (r: bool)
    ensures
        r == known_identifier(n@),
{
    let known = vec![
        "if", "coalesce", "abs", "round", "floor", "ceil", "len", "upper", "lower", "trim",
        "contains", "starts_with", "ends_with", "concat", "year", "month", "day", "date",
        "days_between", "true", "false", "null",
    ];
    assert(known@.len() == 22);
    assert(forall|k: int| 0 <= k < 22 ==> (#[trigger] known@[k])@ == known_identifiers()[k]);
    let c = chars_of(n.as_str());
    let mut i: usize = 0;
    while i < known.len()
        invariant
            i <= known@.len(),
            known@.len() == 22,
            c@ == n@,
            forall|k: int| 0 <= k < 22 ==> (#[trigger] known@[k])@ == known_identifiers()[k],
            forall|k: int| 0 <= k < i ==> !eq_ignore_case(#[trigger] known_identifiers()[k], n@),
        decreases known.len() - i,
    {
        let x = chars_of(known[i]);
        if seq_eq_ignore_case(&x, &c) {
            return true;
        }
        i += 1;
    }
    false
}

/// Checks parenthesis balance and identifiers (`syntax_ok`) after lexing.
pub fn validate_syntax(expr: &str) -> (r: Result<(), AppError>)
    ensures
        r is Ok <==> syntax_valid(expr@),
        match syntax_error(expr@) {
            None => r is Ok,
            Some(m) => r matches Err(e) && e is BadRequest && message_of(e) == m,
        },
{
    let tokens = lex(expr)?;
    let ghost ts = toks(tokens@);
    let mut depth: usize = 0;
    let mut i: usize = 0;
    while i < tokens.len()
        invariant
            i <= tokens.len(),
            ts == toks(tokens@),
            ts == lex_spec(expr@)->Some_0,
            lex_spec(expr@) is Some,
            depth == depth_before(ts, i as int),
            depth <= i,
            forall|k: int| 0 <= k < i && ts[k] is RParen ==> depth_before(ts, k) > 0,
            forall|k: int| 0 <= k < i ==> identifier_ok(ts, k),
            syntax_error_from(ts, 0) == syntax_error_from(ts, i as int),
        decreases tokens.len() - i,
    {
        match &tokens[i] {
            Token::LParen => {
                depth += 1;
            },
            Token::RParen => {
                assert(ts[i as int] == tokens@[i as int]@);
                if depth == 0 {
                    assert(!syntax_ok(ts));
                    assert(syntax_error_from(ts, i as int) == Some("unbalanced parentheses"@));
                    return Err(bad_request("unbalanced parentheses"));
                }
                depth -= 1;
            },
            Token::Id(name) => {
                let called = i + 1 < tokens.len() && match &tokens[i + 1] {
                    Token::LParen => true,
                    _ => false,
                };
                assert(ts[i as int] == tokens@[i as int]@);
                if !known_identifier_exec(name) && !called {
                    assert(!identifier_ok(ts, i as int));
                    let detail = chars_of(name.as_str());
                    assert(syntax_error_from(ts, i as int) == Some("unknown identifier: "@ + detail@));
                    return Err(bad_request_with("unknown identifier: ", &detail));
                }
            },
            _ => {
                assert(ts[i as int] == tokens@[i as int]@);
            },
        }
        assert(syntax_error_from(ts, i as int) == syntax_error_from(ts, i + 1));
        i += 1;
    }
    if depth != 0 {
        return Err(bad_request("unbalanced parentheses"));
    }
    Ok(())
}

/// Checks the syntax and that every referenced field is one of `fields`.
pub fn validate(expr: &str, fields: &Vec<String>) -> (r: Result<(), AppError>)
    ensures
        r is Ok <==> syntax_valid(expr@) && forall|n: Seq<char>|
            references(lex_spec(expr@)->Some_0, n) ==> names(fields@).contains(n),
        match formula_error(expr@, names(fields@)) {
            None => r is Ok,
            Some(m) => r matches Err(e) && e is BadRequest && message_of(e) == m,
        },
{
    validate_syntax(expr)?;
    let deps = dependencies(expr)?;
    let ghost dn = names(deps@);
    let ghost fnames = names(fields@);
    let mut i: usize = 0;
    assert(dn.skip(0) =~= dn);
    while i < deps.len()
        invariant
            i <= deps.len(),
            dn == names(deps@),
            fnames == names(fields@),
            syntax_error(expr@) is None,
            lex_spec(expr@) is Some,
            dn == ref_names(lex_spec(expr@)->Some_0, lex_spec(expr@)->Some_0.len() as int),
            forall|n: Seq<char>|
                names(deps@).contains(n) <==> references(lex_spec(expr@)->Some_0, n),
            forall|k: int| 0 <= k < i ==> names(fields@).contains(#[trigger] names(deps@)[k]),
            first_missing(dn, fnames) == first_missing(dn.skip(i as int), fnames),
        decreases deps.len() - i,
    {
        assert(dn.skip(i as int).drop_first() =~= dn.skip(i + 1));
        assert(dn.skip(i as int)[0] == deps@[i as int]@);
        let c = chars_of(deps[i].as_str());
        if !contains_name(fields, &c) {
            assert(names(deps@).contains(names(deps@)[i as int]));
            let detail = chars_of(deps[i].as_str());
            return Err(bad_request_with("unknown formula field: ", &detail));
        }
        i += 1;
    }
    assert(dn.skip(deps.len() as int) =~= Seq::<Seq<char>>::empty());
    proof {
        assert forall|n: Seq<char>| references(lex_spec(expr@)->Some_0, n) implies names(
            fields@,
        ).contains(n) by {
            assert(names(deps@).contains(n));
            let k = choose|k: int| 0 <= k < names(deps@).len() && #[trigger] names(deps@)[k] == n;
        }
    }
    Ok(())
}

/// Names written as `{name}` in a text template, in order of first
/// appearance, without repeats; names are trimmed and must be valid.
pub open spec fn template_deps(s: Seq<char>, out: Seq<Seq<char>>) -> Seq<Seq<char>>
    decreases s.len(),
{
    let start = find_char_from(s, 0, '{');
    if start < 0 || start >= s.len() {
        out
    } else {
        let tail = s.subrange(start + 1, s.len() as int);
        let end = find_char_from(tail, 0, '}');
        if end < 0 || end >= tail.len() {
            out
        } else {
            let name = trim(tail.subrange(0, end));
            let next = if valid_name(name) && !out.contains(name) {
                out.push(name)
            } else {
                out
            };
            template_deps(tail.subrange(end + 1, tail.len() as int), next)
        }
    }
}

/// The placeholders of a text template (`template_deps`).
pub fn template_dependencies(expr: &str) -> (r: Vec<String>)
    ensures
        names(r@) == template_deps(expr@, Seq::empty()),
{
    let mut rest = chars_of(expr);
    let mut out: Vec<String> = Vec::new();
    assert(names(out@) =~= Seq::<Seq<char>>::empty());
    loop
        invariant
            template_deps(expr@, Seq::empty()) == template_deps(rest@, names(out@)),
        decreases rest.len(),
    {
        let ghost old_rest = rest@;
        let ghost old_names = names(out@);
        let start = find_char(&rest, 0, '{');
        if start >= rest.len() {
            return out;
        }
        let tail = slice_chars(&rest, start + 1, rest.len());
        let end = find_char(&tail, 0, '}');
        if end >= tail.len() {
            return out;
        }
        let raw = slice_chars(&tail, 0, end);
        let name = trim_vec(&raw);
        if valid_name_exec(&name) && !contains_name(&out, &name) {
            out.push(string_of(name.as_slice()));
            assert(names(out@) =~= old_names.push(name@));
        }
        rest = slice_chars(&tail, end + 1, tail.len());
        assert(template_deps(old_rest, old_names) == template_deps(rest@, names(out@)));
    }
}

/// A field reference `{x}` as a formula writes it.
pub open spec fn ref_text(x: Seq<char>) -> Seq<char> {
    seq!['{'] + x + seq!['}']
}

/// Two field references joined by an operator, `{x}op{y}`.
pub open spec fn binary_text(x: Seq<char>, op: Seq<char>, y: Seq<char>) -> Seq<char> {
    ref_text(x) + op + ref_text(y)
}

proof fn lemma_find_char_at(s: Seq<char>, start: int, j: int, c: char)
    requires
        0 <= start <= j < s.len(),
        forall|k: int| start <= k < j ==> s[k] != c,
        s[j] == c,
    ensures
        find_char_from(s, start, c) == j,
    decreases j - start,
{
    if start < j {
        lemma_find_char_at(s, start + 1, j, c);
    }
}

proof fn lemma_utf8_ascii(s: Seq<char>)
    requires
        forall|k: int| 0 <= k < s.len() ==> (#[trigger] s[k] as u32) < 0x80,
    ensures
        utf8_len(s) == s.len(),
    decreases s.len(),
{
    if s.len() > 0 {
        assert forall|k: int| 0 <= k < s.drop_last().len() implies (#[trigger] s.drop_last()[k] as u32) < 0x80 by {
            assert(s.drop_last()[k] == s[k]);
        }
        lemma_utf8_ascii(s.drop_last());
        assert((s.last() as u32) < 0x80);
    }
}

/// A reference written at `i` is read as one reference token.
proof fn lemma_ref_step(s: Seq<char>, i: int, x: Seq<char>)
    requires
        valid_name(x),
        0 <= i,
        i + x.len() + 2 <= s.len(),
        s.subrange(i, i + x.len() + 2) == ref_text(x),
    ensures
        lex_step(s, i) == Some((Some(Tok::Ref(x)), i + x.len() + 2)),
{
    let r = ref_text(x);
    let k: int = i + 1 + x.len();
    assert(s[i] == r[0]);
    assert(s[k] == r[x.len() + 1int]);
    assert forall|m: int| i + 1 <= m < k implies s[m] != '}' by {
        assert(s[m] == r[m - i]);
        assert(r[m - i] == x[m - i - 1]);
        assert(ident_char(x[m - i - 1]));
    }
    lemma_find_char_at(s, i + 1, k, '}');
    assert(s.subrange(i + 1, k) =~= x) by {
        assert forall|m: int| 0 <= m < x.len() implies s.subrange(i + 1, k)[m] == x[m] by {
            assert(s[i + 1 + m] == r[m + 1]);
        }
    }
}

proof fn lemma_binary_lex(x: Seq<char>, y: Seq<char>, op: Seq<char>, tok: Tok)
    requires
        valid_name(x),
        valid_name(y),
        x.len() + y.len() <= 1000,
        1 <= op.len() <= 2,
        forall|k: int| 0 <= k < op.len() ==> (#[trigger] op[k] as u32) < 0x80,
        lex_step(binary_text(x, op, y), x.len() + 2int) == Some((Some(tok), x.len() + 2int + op.len())),
    ensures
        lex_spec(binary_text(x, op, y)) == Some(seq![Tok::Ref(x), tok, Tok::Ref(y)]),
{
    let s = binary_text(x, op, y);
    let a: int = x.len() + 2int;
    let b: int = a + op.len();
    assert(s.len() == b + y.len() + 2);
    assert forall|k: int| 0 <= k < s.len() implies (#[trigger] s[k] as u32) < 0x80 by {
        if 1 <= k < a - 1 {
            assert(s[k] == x[k - 1]);
            assert(ident_char(x[k - 1]));
        } else if a <= k < b {
            assert(s[k] == op[k - a]);
        } else if b + 1 <= k < s.len() - 1 {
            assert(s[k] == y[k - b - 1]);
            assert(ident_char(y[k - b - 1]));
        }
    }
    lemma_utf8_ascii(s);
    assert(s.subrange(0, a) =~= ref_text(x));
    lemma_ref_step(s, 0, x);
    assert(s.subrange(b, b + y.len() + 2) =~= ref_text(y));
    lemma_ref_step(s, b, y);
    assert(lex_from(s, s.len() as int) == Some(Seq::<Tok>::empty()));
    assert(lex_from(s, b) == Some(seq![Tok::Ref(y)])) by {
        assert(opt_seq(Some(Tok::Ref(y))) + Seq::<Tok>::empty() =~= seq![Tok::Ref(y)]);
    }
    assert(lex_from(s, a) == Some(seq![tok, Tok::Ref(y)])) by {
        assert(opt_seq(Some(tok)) + seq![Tok::Ref(y)] =~= seq![tok, Tok::Ref(y)]);
    }
    assert(lex_from(s, 0) == Some(seq![Tok::Ref(x), tok, Tok::Ref(y)])) by {
        assert(opt_seq(Some(Tok::Ref(x))) + seq![tok, Tok::Ref(y)] =~= seq![Tok::Ref(x), tok, Tok::Ref(y)]);
    }
}

/// Two field references joined by a comparison or a logical operator lex
/// to the two references around exactly one operator token: `==` and `=`
/// are both one equality, and each two-character operator is one token.
pub proof fn lemma_operators_lex(x: Seq<char>, y: Seq<char>)
    requires
        valid_name(x),
        valid_name(y),
        x.len() + y.len() <= 1000,
    ensures
        lex_spec(binary_text(x, seq!['=', '='], y)) == Some(seq![Tok::Ref(x), Tok::Eq, Tok::Ref(y)]),
        lex_spec(binary_text(x, seq!['='], y)) == Some(seq![Tok::Ref(x), Tok::Eq, Tok::Ref(y)]),
        lex_spec(binary_text(x, seq!['!', '='], y)) == Some(seq![Tok::Ref(x), Tok::Ne, Tok::Ref(y)]),
        lex_spec(binary_text(x, seq!['<', '='], y)) == Some(seq![Tok::Ref(x), Tok::Le, Tok::Ref(y)]),
        lex_spec(binary_text(x, seq!['>', '='], y)) == Some(seq![Tok::Ref(x), Tok::Ge, Tok::Ref(y)]),
        lex_spec(binary_text(x, seq!['<'], y)) == Some(seq![Tok::Ref(x), Tok::Lt, Tok::Ref(y)]),
        lex_spec(binary_text(x, seq!['>'], y)) == Some(seq![Tok::Ref(x), Tok::Gt, Tok::Ref(y)]),
        lex_spec(binary_text(x, seq!['&', '&'], y)) == Some(seq![Tok::Ref(x), Tok::And, Tok::Ref(y)]),
        lex_spec(binary_text(x, seq!['|', '|'], y)) == Some(seq![Tok::Ref(x), Tok::Or, Tok::Ref(y)]),
{
    let a: int = x.len() + 2int;
    assert(binary_text(x, seq!['=', '='], y)[a] == '=');
    assert(binary_text(x, seq!['=', '='], y)[a + 1] == '=');
    assert(binary_text(x, seq!['='], y)[a] == '=');
    assert(binary_text(x, seq!['='], y)[a + 1] == '{');
    assert(binary_text(x, seq!['!', '='], y)[a] == '!');
    assert(binary_text(x, seq!['!', '='], y)[a + 1] == '=');
    assert(binary_text(x, seq!['<', '='], y)[a] == '<');
    assert(binary_text(x, seq!['<', '='], y)[a + 1] == '=');
    assert(binary_text(x, seq!['>', '='], y)[a] == '>');
    assert(binary_text(x, seq!['>', '='], y)[a + 1] == '=');
    assert(binary_text(x, seq!['<'], y)[a] == '<');
    assert(binary_text(x, seq!['<'], y)[a + 1] == '{');
    assert(binary_text(x, seq!['>'], y)[a] == '>');
    assert(binary_text(x, seq!['>'], y)[a + 1] == '{');
    assert(binary_text(x, seq!['&', '&'], y)[a] == '&');
    assert(binary_text(x, seq!['&', '&'], y)[a + 1] == '&');
    assert(binary_text(x, seq!['|', '|'], y)[a] == '|');
    assert(binary_text(x, seq!['|', '|'], y)[a + 1] == '|');

    lemma_binary_lex(x, y, seq!['=', '='], Tok::Eq);
    lemma_binary_lex(x, y, seq!['='], Tok::Eq);
    lemma_binary_lex(x, y, seq!['!', '='], Tok::Ne);
    lemma_binary_lex(x, y, seq!['<', '='], Tok::Le);
    lemma_binary_lex(x, y, seq!['>', '='], Tok::Ge);
    lemma_binary_lex(x, y, seq!['<'], Tok::Lt);
    lemma_binary_lex(x, y, seq!['>'], Tok::Gt);
    lemma_binary_lex(x, y, seq!['&', '&'], Tok::And);
    lemma_binary_lex(x, y, seq!['|', '|'], Tok::Or);
}

} // verus!
