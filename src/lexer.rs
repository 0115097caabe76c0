use vstd::prelude::*;
use vstd::std_specs::iter::IteratorSpec;

use crate::token::{Ident, Token, TokenError};

verus! {

/// The characters of `s`, in order.
pub fn chars_of(s: &str) -> (r: Vec<char>)
    ensures
        r@ == s@,
{
    let mut v: Vec<char> = Vec::new();
    let mut it = s.chars();
    loop
        invariant
            it.obeys_prophetic_iter_laws(),
            v@ + it.remaining() == s@,
            it.decrease() is Some,
        decreases it.decrease()->0,
    {
        match it.next() {
            Some(c) => {
                v.push(c);
            },
            None => {
                return v;
            },
        }
    }
}

/// The Unicode `Alphabetic` property of a character.
pub uninterp spec fn alphabetic(c: char) -> bool;

/// Relies on `char::is_alphabetic`: the `Alphabetic` property, which below U+0080 holds
/// exactly of the ASCII letters.
#[verifier::external_body]
fn is_alphabetic(c: char) -> (r: bool)
    ensures
        r == alphabetic(c),
        (c as u32) < 128 ==> (r <==> (('a' <= c && c <= 'z') || ('A' <= c && c <= 'Z'))),
{
    c.is_alphabetic()
}

/// The Unicode `White_Space` characters.
pub open spec fn whitespace(c: char) -> bool {
    let u = c as u32;
    (0x09 <= u && u <= 0x0d) || u == 0x20 || u == 0x85 || u == 0xa0 || u == 0x1680 || (0x2000 <= u
        && u <= 0x200a) || u == 0x2028 || u == 0x2029 || u == 0x202f || u == 0x205f || u == 0x3000
}

/// A character of an identifier: a letter or an underscore.
pub open spec fn ident_char(c: char) -> bool {
    alphabetic(c) || c == '_'
}

pub open spec fn digit(c: char) -> bool {
    '0' <= c && c <= '9'
}

/// The end of the run of digits that starts at `i`.
pub open spec fn digits_end(s: Seq<char>, i: int) -> int
    decreases s.len() - i,
{
    if 0 <= i < s.len() && digit(s[i]) {
        digits_end(s, i + 1)
    } else {
        i
    }
}

/// The end of the run of identifier characters that starts at `i`.
pub open spec fn ident_end(s: Seq<char>, i: int) -> int
    decreases s.len() - i,
{
    if 0 <= i < s.len() && ident_char(s[i]) {
        ident_end(s, i + 1)
    } else {
        i
    }
}

/// The end of the run of whitespace that starts at `i`.
pub open spec fn space_end(s: Seq<char>, i: int) -> int
    decreases s.len() - i,
{
    if 0 <= i < s.len() && whitespace(s[i]) {
        space_end(s, i + 1)
    } else {
        i
    }
}

/// The number written by a string of decimal digits.
pub open spec fn digits_value(ds: Seq<char>) -> nat
    decreases ds.len(),
{
    if ds.len() == 0 {
        0
    } else {
        digits_value(ds.drop_last()) * 10 + (ds.last() as nat - '0' as nat) as nat
    }
}

/// `s` holds `w` at position `i`.
pub open spec fn starts_with(s: Seq<char>, i: int, w: Seq<char>) -> bool {
    0 <= i && i + w.len() <= s.len() && s.subrange(i, i + w.len()) == w
}

/// `s` holds the keyword `w` at `i`, not followed by an identifier character.
pub open spec fn keyword_at(s: Seq<char>, i: int, w: Seq<char>) -> bool {
    starts_with(s, i, w) && !(i + w.len() < s.len() && ident_char(s[i + w.len()]))
}

/// The keyword at `i`, with its length.
pub open spec fn keyword(s: Seq<char>, i: int) -> Option<(Token, int)> {
    if keyword_at(s, i, "return"@) {
        Some((Token::Return, "return"@.len() as int))
    } else if keyword_at(s, i, "if"@) {
        Some((Token::If, "if"@.len() as int))
    } else if keyword_at(s, i, "else"@) {
        Some((Token::Else, "else"@.len() as int))
    } else if keyword_at(s, i, "while"@) {
        Some((Token::While, "while"@.len() as int))
    } else if keyword_at(s, i, "for"@) {
        Some((Token::For, "for"@.len() as int))
    } else {
        None
    }
}

/// The operator at `i`, longest first, with its length.
pub open spec fn operator(s: Seq<char>, i: int) -> Option<(Token, int)> {
    if !(0 <= i < s.len()) {
        None
    } else {
        let c = s[i];
        let eq_next = i + 1 < s.len() && s[i + 1] == '=';
        if c == ';' {
            Some((Token::Semicolon, 1))
        } else if c == '=' && eq_next {
            Some((Token::Equality, 2))
        } else if c == '=' {
            Some((Token::Equal, 1))
        } else if c == '!' && eq_next {
            Some((Token::Noneequality, 2))
        } else if c == '<' && eq_next {
            Some((Token::LessOrEqual, 2))
        } else if c == '<' {
            Some((Token::Less, 1))
        } else if c == '>' && eq_next {
            Some((Token::GreaterOrEqual, 2))
        } else if c == '>' {
            Some((Token::Greater, 1))
        } else if c == '+' {
            Some((Token::Add, 1))
        } else if c == '-' {
            Some((Token::Sub, 1))
        } else if c == '*' {
            Some((Token::Mul, 1))
        } else if c == '/' {
            Some((Token::Div, 1))
        } else if c == '(' {
            Some((Token::LParen, 1))
        } else if c == ')' {
            Some((Token::RParen, 1))
        } else if c == '{' {
            Some((Token::OpenBrace, 1))
        } else if c == '}' {
            Some((Token::CloseBrace, 1))
        } else {
            None
        }
    }
}

/// A token as the lexer sees it: a number, a name, or a token without text.
pub enum Lexeme {
    Number(nat),
    Name(Seq<char>),
    Plain(Token),
}

pub open spec fn lexeme(t: Token) -> Lexeme {
    match t {
        Token::Integer(n) => Lexeme::Number(n as nat),
        Token::Ident(id) => Lexeme::Name(id.name@),
        _ => Lexeme::Plain(t),
    }
}

pub open spec fn lexemes(ts: Seq<Token>) -> Seq<Lexeme> {
    ts.map_values(|t: Token| lexeme(t))
}

pub open spec fn prepend(pre: Seq<Lexeme>, r: Result<Seq<Lexeme>, TokenError>) -> Result<
    Seq<Lexeme>,
    TokenError,
> {
    match r {
        Ok(v) => Ok(pre + v),
        Err(e) => Err(e),
    }
}

/// The tokens of `s` from position `i`: whitespace is skipped; then come numbers,
/// keywords, identifiers and operators, in that order of preference.
pub open spec fn lex_from(s: Seq<char>, i: int) -> Result<Seq<Lexeme>, TokenError>
    decreases s.len() - i,
{
    if !(0 <= i < s.len()) {
        Ok(Seq::empty())
    } else if whitespace(s[i]) {
        lex_from(s, i + 1)
    } else if digit(s[i]) {
        let j = digits_end(s, i);
        let v = digits_value(s.subrange(i, j));
        if !(i < j <= s.len()) || v > usize::MAX {
            Err(TokenError::TokenizeError)
        } else {
            prepend(seq![Lexeme::Number(v)], lex_from(s, j))
        }
    } else if keyword(s, i) is Some {
        let (t, n) = keyword(s, i)->0;
        if n > 0 {
            prepend(seq![Lexeme::Plain(t)], lex_from(s, i + n))
        } else {
            Err(TokenError::TokenizeError)
        }
    } else if ident_char(s[i]) {
        let j = ident_end(s, i);
        if i < j <= s.len() {
            prepend(seq![Lexeme::Name(s.subrange(i, j))], lex_from(s, j))
        } else {
            Err(TokenError::TokenizeError)
        }
    } else if operator(s, i) is Some {
        let (t, n) = operator(s, i)->0;
        prepend(seq![Lexeme::Plain(t)], lex_from(s, i + n))
    } else {
        Err(TokenError::InvalidChar(s[i]))
    }
}

/// The tokens of a whole source text.
pub open spec fn lex(s: Seq<char>) -> Result<Seq<Lexeme>, TokenError> {
    lex_from(s, 0)
}

proof fn lemma_run_ends(s: Seq<char>, i: int)
    requires
        0 <= i <= s.len(),
    ensures
        i <= digits_end(s, i) <= s.len(),
        i <= ident_end(s, i) <= s.len(),
        i <= space_end(s, i) <= s.len(),
    decreases s.len() - i,
{
    if i < s.len() {
        lemma_run_ends(s, i + 1);
    }
}

pub fn is_whitespace(c: char) -> (r: bool)
    ensures
        r == whitespace(c),
{
    let u = c as u32;
    (0x09 <= u && u <= 0x0d) || u == 0x20 || u == 0x85 || u == 0xa0 || u == 0x1680 || (0x2000 <= u
        && u <= 0x200a) || u == 0x2028 || u == 0x2029 || u == 0x202f || u == 0x205f || u == 0x3000
}

pub fn is_ident_char(c: char) -> (r: bool)
    ensures
        r == ident_char(c),
{
    is_alphabetic(c) || c == '_'
}

fn is_digit(c: char) -> (r: bool)
    ensures
        r == digit(c),
{
    '0' <= c && c <= '9'
}

fn digits_end_at(cs: &Vec<char>, i: usize) -> (r: usize)
    requires
        i <= cs.len(),
    ensures
        r == digits_end(cs@, i as int),
        i <= r <= cs.len(),
{
    let mut j = i;
    proof {
        lemma_run_ends(cs@, i as int);
    }
    while j < cs.len() && is_digit(cs[j])
        invariant
            i <= j <= cs.len(),
            digits_end(cs@, i as int) == digits_end(cs@, j as int),
        decreases cs.len() - j,
    {
        j = j + 1;
    }
    j
}

fn ident_end_at(cs: &Vec<char>, i: usize) -> (r: usize)
    requires
        i <= cs.len(),
    ensures
        r == ident_end(cs@, i as int),
        i <= r <= cs.len(),
{
    let mut j = i;
    while j < cs.len() && is_ident_char(cs[j])
        invariant
            i <= j <= cs.len(),
            ident_end(cs@, i as int) == ident_end(cs@, j as int),
        decreases cs.len() - j,
    {
        j = j + 1;
    }
    j
}

fn space_end_at(cs: &Vec<char>, i: usize) -> (r: usize)
    requires
        i <= cs.len(),
    ensures
        r == space_end(cs@, i as int),
        i <= r <= cs.len(),
{
    let mut j = i;
    while j < cs.len() && is_whitespace(cs[j])
        invariant
            i <= j <= cs.len(),
            space_end(cs@, i as int) == space_end(cs@, j as int),
        decreases cs.len() - j,
    {
        j = j + 1;
    }
    j
}

proof fn lemma_value_step(s: Seq<char>, i: int, k: int)
    requires
        0 <= i <= k < s.len(),
    ensures
        digits_value(s.subrange(i, k + 1)) == digits_value(s.subrange(i, k)) * 10 + (s[k] as nat
            - '0' as nat) as nat,
{
    assert(s.subrange(i, k + 1).drop_last() =~= s.subrange(i, k));
}

proof fn lemma_value_grows(s: Seq<char>, i: int, k: int, j: int)
    requires
        0 <= i <= k <= j <= s.len(),
        forall|m: int| i <= m < j ==> digit(#[trigger] s[m]),
    ensures
        digits_value(s.subrange(i, k)) <= digits_value(s.subrange(i, j)),
    decreases j - k,
{
    if k < j {
        lemma_value_grows(s, i, k + 1, j);
        lemma_value_step(s, i, k);
    }
}

proof fn lemma_digits_run(s: Seq<char>, i: int, m: int)
    requires
        0 <= i <= m < digits_end(s, i),
        i <= s.len(),
    ensures
        digit(s[m]),
    decreases m - i,
{
    if i < m {
        lemma_digits_run(s, i + 1, m);
    }
}

/// The value of the digits from `i` to `j`, if it fits in `usize`.
fn digits_value_at(cs: &Vec<char>, i: usize, j: usize) -> (r: Option<usize>)
    requires
        i <= j <= cs.len(),
        j <= digits_end(cs@, i as int),
    ensures
        match r {
            Some(v) => v as nat == digits_value(cs@.subrange(i as int, j as int)),
            None => digits_value(cs@.subrange(i as int, j as int)) > usize::MAX,
        },
{
    let mut v: usize = 0;
    let mut k = i;
    proof {
        assert(cs@.subrange(i as int, i as int) =~= Seq::<char>::empty());
        assert forall|m: int| i <= m < j implies digit(#[trigger] cs@[m]) by {
            lemma_digits_run(cs@, i as int, m);
        }
    }
    while k < j
        invariant
            i <= k <= j <= cs.len(),
            forall|m: int| i <= m < j ==> digit(#[trigger] cs@[m]),
            v as nat == digits_value(cs@.subrange(i as int, k as int)),
        decreases j - k,
    {
        proof {
            lemma_value_step(cs@, i as int, k as int);
        }
        let d = (cs[k] as u32 - '0' as u32) as usize;
        let next = match v.checked_mul(10) {
            Some(t) => t.checked_add(d),
            None => None,
        };
        match next {
            Some(t) => {
                v = t;
            },
            None => {
                proof {
                    lemma_value_grows(cs@, i as int, k as int + 1, j as int);
                }
                return None;
            },
        }
        k = k + 1;
    }
    Some(v)
}

fn starts_with_at(cs: &Vec<char>, i: usize, w: &str) -> (r: bool)
    requires
        i <= cs.len(),
    ensures
        r == starts_with(cs@, i as int, w@),
{
    let n = w.unicode_len();
    if n > cs.len() - i {
        return false;
    }
    let mut k: usize = 0;
    while k < n
        invariant
            k <= n,
            n == w@.len(),
            i + n <= cs.len(),
            cs@.subrange(i as int, i + k) == w@.subrange(0, k as int),
        decreases n - k,
    {
        if cs[i + k] != w.get_char(k) {
            proof {
                assert(cs@.subrange(i as int, i + n)[k as int] == cs@[i + k]);
            }
            return false;
        }
        proof {
            assert(cs@.subrange(i as int, i + k + 1) =~= w@.subrange(0, k + 1));
        }
        k = k + 1;
    }
    proof {
        assert(w@.subrange(0, n as int) =~= w@);
    }
    true
}

fn keyword_at_exec(cs: &Vec<char>, i: usize, w: &str) -> (r: bool)
    requires
        i <= cs.len(),
    ensures
        r == keyword_at(cs@, i as int, w@),
{
    if !starts_with_at(cs, i, w) {
        return false;
    }
    let end = i + w.unicode_len();
    !(end < cs.len() && is_ident_char(cs[end]))
}

fn keyword_token(cs: &Vec<char>, i: usize) -> (r: Option<(Token, usize)>)
    requires
        i <= cs.len(),
    ensures
        match keyword(cs@, i as int) {
            Some((t, n)) => r == Some((t, n as usize)) && 0 < n <= cs.len() - i,
            None => r is None,
        },
{
    proof {
        reveal_strlit("return");
        reveal_strlit("if");
        reveal_strlit("else");
        reveal_strlit("while");
        reveal_strlit("for");
    }
    if keyword_at_exec(cs, i, "return") {
        Some((Token::Return, "return".unicode_len()))
    } else if keyword_at_exec(cs, i, "if") {
        Some((Token::If, "if".unicode_len()))
    } else if keyword_at_exec(cs, i, "else") {
        Some((Token::Else, "else".unicode_len()))
    } else if keyword_at_exec(cs, i, "while") {
        Some((Token::While, "while".unicode_len()))
    } else if keyword_at_exec(cs, i, "for") {
        Some((Token::For, "for".unicode_len()))
    } else {
        None
    }
}

fn operator_token(cs: &Vec<char>, i: usize) -> (r: Option<(Token, usize)>)
    requires
        i <= cs.len(),
    ensures
        match operator(cs@, i as int) {
            Some((t, n)) => r == Some((t, n as usize)) && 1 <= n && i + n <= cs.len(),
            None => r is None,
        },
{
    if i >= cs.len() {
        return None;
    }
    let c = cs[i];
    let eq_next = i + 1 < cs.len() && cs[i + 1] == '=';
    if c == ';' {
        Some((Token::Semicolon, 1))
    } else if c == '=' && eq_next {
        Some((Token::Equality, 2))
    } else if c == '=' {
        Some((Token::Equal, 1))
    } else if c == '!' && eq_next {
        Some((Token::Noneequality, 2))
    } else if c == '<' && eq_next {
        Some((Token::LessOrEqual, 2))
    } else if c == '<' {
        Some((Token::Less, 1))
    } else if c == '>' && eq_next {
        Some((Token::GreaterOrEqual, 2))
    } else if c == '>' {
        Some((Token::Greater, 1))
    } else if c == '+' {
        Some((Token::Add, 1))
    } else if c == '-' {
        Some((Token::Sub, 1))
    } else if c == '*' {
        Some((Token::Mul, 1))
    } else if c == '/' {
        Some((Token::Div, 1))
    } else if c == '(' {
        Some((Token::LParen, 1))
    } else if c == ')' {
        Some((Token::RParen, 1))
    } else if c == '{' {
        Some((Token::OpenBrace, 1))
    } else if c == '}' {
        Some((Token::CloseBrace, 1))
    } else {
        None
    }
}

proof fn lemma_prepend_push(out: Seq<Token>, t: Token, r: Result<Seq<Lexeme>, TokenError>)
    ensures
        prepend(lexemes(out), prepend(seq![lexeme(t)], r)) == prepend(lexemes(out.push(t)), r),
{
    assert(lexemes(out.push(t)) =~= lexemes(out).push(lexeme(t)));
    match r {
        Ok(v) => {
            assert(lexemes(out) + (seq![lexeme(t)] + v) =~= lexemes(out.push(t)) + v);
        },
        Err(_) => {},
    }
}

/// Splits a source text into tokens.
pub fn lexer(s: &str) -> (r: Result<Vec<Token>, TokenError>)
    ensures
        match r {
            Ok(ts) => lex(s@) == Ok::<Seq<Lexeme>, TokenError>(lexemes(ts@)),
            Err(e) => lex(s@) == Err::<Seq<Lexeme>, TokenError>(e),
        },
{
    let cs = chars_of(s);
    let mut out: Vec<Token> = Vec::new();
    let mut i: usize = 0;
    proof {
        assert(lexemes(out@) =~= Seq::empty());
        match lex_from(cs@, 0) {
            Ok(v) => assert(Seq::<Lexeme>::empty() + v =~= v),
            Err(_) => {},
        }
    }
    loop
        invariant
            i <= cs.len(),
            cs@ == s@,
            lex(s@) == prepend(lexemes(out@), lex_from(cs@, i as int)),
        decreases cs.len() - i,
    {
        if i >= cs.len() {
            proof {
                assert(lexemes(out@) + Seq::<Lexeme>::empty() =~= lexemes(out@));
            }
            return Ok(out);
        }
        let c = cs[i];
        if is_whitespace(c) {
            i = i + 1;
        } else if is_digit(c) {
            proof {
                lemma_run_ends(cs@, i + 1);
            }
            let j = digits_end_at(&cs, i);
            match digits_value_at(&cs, i, j) {
                Some(v) => {
                    let t = Token::Integer(v);
                    proof {
                        lemma_prepend_push(out@, t, lex_from(cs@, j as int));
                    }
                    out.push(t);
                    i = j;
                },
                None => return Err(TokenError::TokenizeError),
            }
        } else if let Some((t, n)) = keyword_token(&cs, i) {
            proof {
                lemma_prepend_push(out@, t, lex_from(cs@, i + n));
            }
            out.push(t);
            i = i + n;
        } else if is_ident_char(c) {
            proof {
                lemma_run_ends(cs@, i + 1);
            }
            let j = ident_end_at(&cs, i);
            let name = s.substring_char(i, j).to_owned();
            let t = Token::Ident(Ident { name });
            proof {
                lemma_prepend_push(out@, t, lex_from(cs@, j as int));
            }
            out.push(t);
            i = j;
        } else if let Some((t, n)) = operator_token(&cs, i) {
            proof {
                lemma_prepend_push(out@, t, lex_from(cs@, i + n));
            }
            out.push(t);
            i = i + n;
        } else {
            return Err(TokenError::InvalidChar(c));
        }
    }
}

/// The number of decimal digits at the start of `s`.
pub fn count_int(s: &str) -> (r: usize)
    ensures
        r == digits_end(s@, 0),
{
    digits_end_at(&chars_of(s), 0)
}

/// The number of identifier characters at the start of `s`.
pub fn count_ident(s: &str) -> (r: usize)
    ensures
        r == ident_end(s@, 0),
{
    ident_end_at(&chars_of(s), 0)
}

/// The number of whitespace characters at the start of `s`.
pub fn count_whitespace(s: &str) -> (r: usize)
    ensures
        r == space_end(s@, 0),
{
    space_end_at(&chars_of(s), 0)
}

pub fn expect_int(s: &str) -> (r: bool)
    ensures
        r == (digits_end(s@, 0) > 0),
{
    count_int(s) > 0
}

pub fn expect_ident(s: &str) -> (r: bool)
    ensures
        r == (ident_end(s@, 0) > 0),
{
    count_ident(s) > 0
}

pub fn expect_whitespace(s: &str) -> (r: bool)
    ensures
        r == (space_end(s@, 0) > 0),
{
    count_whitespace(s) > 0
}

/// `s` starts with `expect`.
pub fn expect_str(s: &str, expect: &str) -> (r: bool)
    ensures
        r == starts_with(s@, 0, expect@),
{
    starts_with_at(&chars_of(s), 0, expect)
}

/// `s` starts with `expect`, and no identifier character follows it.
pub fn expect_no_ident_str(s: &str, expect: &str) -> (r: bool)
    ensures
        r == keyword_at(s@, 0, expect@),
{
    keyword_at_exec(&chars_of(s), 0, expect)
}

pub fn expect_return(s: &str) -> (r: bool)
    ensures
        r == keyword_at(s@, 0, "return"@),
{
    expect_no_ident_str(s, "return")
}

pub fn expect_if(s: &str) -> (r: bool)
    ensures
        r == keyword_at(s@, 0, "if"@),
{
    expect_no_ident_str(s, "if")
}

pub fn expect_else(s: &str) -> (r: bool)
    ensures
        r == keyword_at(s@, 0, "else"@),
{
    expect_no_ident_str(s, "else")
}

pub fn expect_while(s: &str) -> (r: bool)
    ensures
        r == keyword_at(s@, 0, "while"@),
{
    expect_no_ident_str(s, "while")
}

pub fn expect_for(s: &str) -> (r: bool)
    ensures
        r == keyword_at(s@, 0, "for"@),
{
    expect_no_ident_str(s, "for")
}

/// The operator at the start of `s` as written, or the empty string.
pub fn expect_operators(s: &str) -> (r: &'static str)
    ensures
        match operator(s@, 0) {
            Some((_, n)) => r@ == s@.subrange(0, n),
            None => r@.len() == 0,
        },
{
    let cs = chars_of(s);
    proof {
        reveal_strlit(";");
        reveal_strlit("==");
        reveal_strlit("=");
        reveal_strlit("!=");
        reveal_strlit("<=");
        reveal_strlit("<");
        reveal_strlit(">=");
        reveal_strlit(">");
        reveal_strlit("+");
        reveal_strlit("-");
        reveal_strlit("*");
        reveal_strlit("/");
        reveal_strlit("(");
        reveal_strlit(")");
        reveal_strlit("{");
        reveal_strlit("}");
        reveal_strlit("");
    }
    let r = match operator_token(&cs, 0) {
        Some((Token::Semicolon, _)) => ";",
        Some((Token::Equality, _)) => "==",
        Some((Token::Equal, _)) => "=",
        Some((Token::Noneequality, _)) => "!=",
        Some((Token::LessOrEqual, _)) => "<=",
        Some((Token::Less, _)) => "<",
        Some((Token::GreaterOrEqual, _)) => ">=",
        Some((Token::Greater, _)) => ">",
        Some((Token::Add, _)) => "+",
        Some((Token::Sub, _)) => "-",
        Some((Token::Mul, _)) => "*",
        Some((Token::Div, _)) => "/",
        Some((Token::LParen, _)) => "(",
        Some((Token::RParen, _)) => ")",
        Some((Token::OpenBrace, _)) => "{",
        Some((Token::CloseBrace, _)) => "}",
        _ => "",
    };
    proof {
        match operator(s@, 0) {
            Some((_, n)) => assert(r@ =~= s@.subrange(0, n)),
            None => {},
        }
    }
    r
}

/// The number at the start of `s` and its length; an error where none is there or it
/// does not fit.
pub fn tokenize_int(s: &str) -> (r: Result<(Token, usize), TokenError>)
    ensures
        ({
            let j = digits_end(s@, 0);
            let v = digits_value(s@.subrange(0, j));
            if j == 0 || v > usize::MAX {
                r == Err::<(Token, usize), TokenError>(TokenError::TokenizeError)
            } else {
                r == Ok::<(Token, usize), TokenError>((Token::Integer(v as usize), j as usize))
            }
        }),
{
    let cs = chars_of(s);
    let j = digits_end_at(&cs, 0);
    if j == 0 {
        return Err(TokenError::TokenizeError);
    }
    match digits_value_at(&cs, 0, j) {
        Some(v) => Ok((Token::Integer(v), j)),
        None => Err(TokenError::TokenizeError),
    }
}

/// The identifier at the start of `s` and its length, or an error where there is none.
pub fn tokenize_ident(s: &str) -> (r: Result<(Token, usize), TokenError>)
    ensures
        match r {
            Ok((t, n)) => n == ident_end(s@, 0) && n > 0 && lexeme(t) == Lexeme::Name(
                s@.subrange(0, n as int),
            ),
            Err(e) => ident_end(s@, 0) == 0 && e == TokenError::TokenizeError,
        },
{
    let n = count_ident(s);
    if n == 0 {
        return Err(TokenError::TokenizeError);
    }
    proof {
        lemma_run_ends(s@, 0);
    }
    let name = s.substring_char(0, n).to_owned();
    Ok((Token::Ident(Ident { name }), n))
}

/// The operator at the start of `s` and its length, or an error where there is none.
pub fn tokenize_operator(s: &str) -> (r: Result<(Token, usize), TokenError>)
    ensures
        match operator(s@, 0) {
            Some((t, n)) => r == Ok::<(Token, usize), TokenError>((t, n as usize)),
            None => r == Err::<(Token, usize), TokenError>(TokenError::TokenizeError),
        },
{
    match operator_token(&chars_of(s), 0) {
        Some(x) => Ok(x),
        None => Err(TokenError::TokenizeError),
    }
}

} // verus!
