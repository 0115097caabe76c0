use vstd::prelude::*;

use crate::lexer::{chars_of, lex, lex_from, lexeme, lexemes, prepend, Lexeme};
use vstd::relations::injective_on;
use vstd::set_lib::{lemma_int_range, lemma_len_subset, lemma_map_size, lemma_subset_equality, set_int_range};
use crate::token::{Ident, Token};

verus! {

/// `a` comes before `b` when they first differ at or after position `i`, comparing
/// characters by code point; a proper prefix comes first.
pub open spec fn less_from(a: Seq<char>, b: Seq<char>, i: int) -> bool
    decreases a.len() - i,
{
    if i < 0 || i >= a.len() {
        i < b.len()
    } else if i >= b.len() {
        false
    } else if a[i] != b[i] {
        a[i] < b[i]
    } else {
        less_from(a, b, i + 1)
    }
}

/// The lexicographic order of names.
pub open spec fn name_less(a: Seq<char>, b: Seq<char>) -> bool {
    less_from(a, b, 0)
}

/// The names of the identifier tokens, in order.
pub open spec fn ident_names(ts: Seq<Token>) -> Seq<Seq<char>>
    decreases ts.len(),
{
    if ts.len() == 0 {
        Seq::empty()
    } else {
        let rest = ident_names(ts.drop_last());
        match ts.last() {
            Token::Ident(id) => rest.push(id.name@),
            _ => rest,
        }
    }
}

pub open spec fn names_of(ids: Seq<Ident>) -> Seq<Seq<char>> {
    ids.map_values(|i: Ident| i.name@)
}

pub open spec fn sorted_strict(t: Seq<Seq<char>>) -> bool {
    forall|i: int, j: int| 0 <= i < j < t.len() ==> name_less(#[trigger] t[i], #[trigger] t[j])
}

/// The distinct variable names of a token list.
pub open spec fn variables(ts: Seq<Token>) -> Set<Seq<char>> {
    ident_names(ts).to_set()
}

/// How many of the names in `s` come before `x`.
pub open spec fn rank(s: Set<Seq<char>>, x: Seq<char>) -> nat {
    s.filter(|m: Seq<char>| name_less(m, x)).len()
}

/// The frame offset of variable `x`: slots of 8 bytes, in order of name from 8 up.
pub open spec fn slot_offset(s: Set<Seq<char>>, x: Seq<char>) -> nat {
    8 * (rank(s, x) + 1)
}

/// `t` is what resolution makes of the token `u` of the list `ts`.
pub open spec fn resolves(ts: Seq<Token>, u: Token, t: Token) -> bool {
    match u {
        Token::Ident(id) => t == Token::Variable {
            offset: slot_offset(variables(ts), id.name@) as usize,
        },
        _ => t == u,
    }
}

/// The first position of `x` in `t`.
pub open spec fn position(t: Seq<Seq<char>>, x: Seq<char>) -> Option<int>
    decreases t.len(),
{
    if t.len() == 0 {
        None
    } else {
        match position(t.drop_last(), x) {
            Some(k) => Some(k),
            None => if t.last() == x {
                Some(t.len() - 1)
            } else {
                None
            },
        }
    }
}

pub proof fn lemma_less_irreflexive(a: Seq<char>, i: int)
    requires
        0 <= i,
    ensures
        !less_from(a, a, i),
    decreases a.len() - i,
{
    if i < a.len() {
        lemma_less_irreflexive(a, i + 1);
    }
}

pub proof fn lemma_less_asymmetric(a: Seq<char>, b: Seq<char>, i: int)
    requires
        0 <= i,
        less_from(a, b, i),
    ensures
        !less_from(b, a, i),
    decreases a.len() - i,
{
    if i < a.len() && i < b.len() && a[i] == b[i] {
        lemma_less_asymmetric(a, b, i + 1);
    }
}

pub proof fn lemma_less_transitive(a: Seq<char>, b: Seq<char>, c: Seq<char>, i: int)
    requires
        0 <= i,
        less_from(a, b, i),
        less_from(b, c, i),
    ensures
        less_from(a, c, i),
    decreases a.len() - i,
{
    if i < a.len() && i < b.len() && i < c.len() && a[i] == b[i] && b[i] == c[i] {
        lemma_less_transitive(a, b, c, i + 1);
    }
}

pub proof fn lemma_less_total(a: Seq<char>, b: Seq<char>, i: int)
    requires
        0 <= i <= a.len(),
        i <= b.len(),
        forall|k: int| 0 <= k < i ==> a[k] == b[k],
        !less_from(a, b, i),
        !less_from(b, a, i),
    ensures
        a == b,
    decreases a.len() - i,
{
    if i < a.len() && i < b.len() {
        lemma_less_total(a, b, i + 1);
    } else {
        assert(a =~= b);
    }
}

proof fn lemma_sorted_no_duplicates(t: Seq<Seq<char>>)
    requires
        sorted_strict(t),
    ensures
        t.no_duplicates(),
{
    assert forall|i: int, j: int| 0 <= i < t.len() && 0 <= j < t.len() && i != j implies t[i]
        != t[j] by {
        lemma_less_irreflexive(t[i], 0);
        if i < j {
            assert(name_less(t[i], t[j]));
        } else {
            assert(name_less(t[j], t[i]));
        }
    }
}

/// In a strictly sorted table, the index of a name is its rank among the table's names.
pub proof fn lemma_rank_is_index(t: Seq<Seq<char>>, k: int)
    requires
        sorted_strict(t),
        0 <= k < t.len(),
    ensures
        rank(t.to_set(), t[k]) == k,
{
    let x = t[k];
    let below = t.to_set().filter(|m: Seq<char>| name_less(m, x));
    let prefix = t.subrange(0, k);
    assert forall|m: Seq<char>| below.contains(m) <==> prefix.to_set().contains(m) by {
        if below.contains(m) {
            let j = choose|j: int| 0 <= j < t.len() && t[j] == m;
            if j == k {
                lemma_less_irreflexive(x, 0);
            } else if j > k {
                assert(name_less(t[k], t[j]));
                lemma_less_asymmetric(t[k], t[j], 0);
            }
            assert(prefix[j] == m);
        }
        if prefix.to_set().contains(m) {
            let j = choose|j: int| 0 <= j < prefix.len() && prefix[j] == m;
            assert(t[j] == m);
            assert(name_less(t[j], t[k]));
        }
    }
    assert(below =~= prefix.to_set());
    assert(sorted_strict(prefix));
    lemma_sorted_no_duplicates(prefix);
    prefix.unique_seq_to_set();
}

/// The characters of a name, compared three ways: negative, zero or positive as `a` comes
/// before, equals or comes after `b`.
fn compare_names(a: &Vec<char>, b: &Vec<char>) -> (r: i8)
    ensures
        (r < 0) == name_less(a@, b@),
        (r == 0) == (a@ == b@),
        (r > 0) == name_less(b@, a@),
{
    let mut i: usize = 0;
    while i < a.len() && i < b.len() && a[i] == b[i]
        invariant
            i <= a.len(),
            i <= b.len(),
            forall|k: int| 0 <= k < i ==> a@[k] == b@[k],
            name_less(a@, b@) == less_from(a@, b@, i as int),
            name_less(b@, a@) == less_from(b@, a@, i as int),
        decreases a.len() - i,
    {
        i = i + 1;
    }
    proof {
        if less_from(a@, b@, i as int) {
            lemma_less_asymmetric(a@, b@, i as int);
            lemma_less_irreflexive(a@, i as int);
        }
        if less_from(b@, a@, i as int) {
            lemma_less_irreflexive(b@, i as int);
        }
        if !less_from(a@, b@, i as int) && !less_from(b@, a@, i as int) {
            lemma_less_total(a@, b@, i as int);
        }
    }
    if i < a.len() && i < b.len() {
        if a[i] < b[i] {
            -1
        } else {
            1
        }
    } else if i < b.len() {
        -1
    } else if i < a.len() {
        1
    } else {
        proof {
            assert(a@ =~= b@);
        }
        0
    }
}

fn copy_ident(id: &Ident) -> (r: Ident)
    ensures
        r.name@ == id.name@,
{
    Ident { name: id.name.clone() }
}

/// A token equal to `t`, with a fresh copy of an identifier's name.
fn fresh_token(t: &Token) -> (r: Token)
    ensures
        match *t {
            Token::Ident(id) => r is Ident && r->Ident_0.name@ == id.name@,
            _ => r == *t,
        },
{
    match t {
        Token::Integer(n) => Token::Integer(*n),
        Token::Ident(id) => Token::Ident(copy_ident(id)),
        Token::Variable { offset } => Token::Variable { offset: *offset },
        Token::Return => Token::Return,
        Token::If => Token::If,
        Token::Else => Token::Else,
        Token::While => Token::While,
        Token::For => Token::For,
        Token::Semicolon => Token::Semicolon,
        Token::Equality => Token::Equality,
        Token::Equal => Token::Equal,
        Token::Noneequality => Token::Noneequality,
        Token::LessOrEqual => Token::LessOrEqual,
        Token::Less => Token::Less,
        Token::GreaterOrEqual => Token::GreaterOrEqual,
        Token::Greater => Token::Greater,
        Token::Add => Token::Add,
        Token::Sub => Token::Sub,
        Token::Mul => Token::Mul,
        Token::Div => Token::Div,
        Token::LParen => Token::LParen,
        Token::RParen => Token::RParen,
        Token::OpenBrace => Token::OpenBrace,
        Token::CloseBrace => Token::CloseBrace,
    }
}

proof fn lemma_names_push(ids: Seq<Ident>, x: Ident)
    ensures
        names_of(ids.push(x)) == names_of(ids).push(x.name@),
{
    assert(names_of(ids.push(x)) =~= names_of(ids).push(x.name@));
}

/// The identifiers of a token list, in order.
pub fn extract_ident(tokens: &Vec<Token>) -> (r: Vec<Ident>)
    ensures
        names_of(r@) == ident_names(tokens@),
{
    let mut out: Vec<Ident> = Vec::new();
    let mut i: usize = 0;
    proof {
        assert(tokens@.subrange(0, 0) =~= Seq::<Token>::empty());
        assert(names_of(out@) =~= Seq::empty());
    }
    while i < tokens.len()
        invariant
            i <= tokens.len(),
            names_of(out@) == ident_names(tokens@.subrange(0, i as int)),
        decreases tokens.len() - i,
    {
        proof {
            assert(tokens@.subrange(0, i + 1).drop_last() =~= tokens@.subrange(0, i as int));
        }
        if let Token::Ident(id) = &tokens[i] {
            let x = copy_ident(id);
            proof {
                lemma_names_push(out@, x);
            }
            out.push(x);
        }
        i = i + 1;
    }
    proof {
        assert(tokens@.subrange(0, i as int) =~= tokens@);
    }
    out
}

/// The distinct identifiers, sorted by name.
pub fn deduplicate_variable(idents: Vec<Ident>) -> (r: Vec<Ident>)
    ensures
        sorted_strict(names_of(r@)),
        names_of(r@).to_set() == names_of(idents@).to_set(),
{
    let mut table: Vec<Ident> = Vec::new();
    let mut keys: Vec<Vec<char>> = Vec::new();
    let mut i: usize = 0;
    proof {
        assert(names_of(table@) =~= Seq::empty());
        assert(names_of(idents@).subrange(0, 0).to_set() =~= names_of(table@).to_set());
    }
    while i < idents.len()
        invariant
            i <= idents.len(),
            keys.len() == table.len(),
            forall|k: int| 0 <= k < keys.len() ==> (#[trigger] keys@[k])@ == table@[k].name@,
            sorted_strict(names_of(table@)),
            names_of(table@).to_set() == names_of(idents@).subrange(0, i as int).to_set(),
        decreases idents.len() - i,
    {
        let ghost old_names = names_of(table@);
        let x = chars_of(idents[i].name.as_str());
        let mut p: usize = 0;
        while p < keys.len() && compare_names(&keys[p], &x) < 0
            invariant
                p <= keys.len(),
                keys.len() == table.len(),
                forall|q: int| 0 <= q < p ==> name_less(#[trigger] old_names[q], x@),
                forall|k: int| 0 <= k < keys.len() ==> (#[trigger] keys@[k])@ == table@[k].name@,
                old_names == names_of(table@),
            decreases keys.len() - p,
        {
            p = p + 1;
        }
        let present = p < keys.len() && compare_names(&keys[p], &x) == 0;
        proof {
            assert(names_of(idents@).subrange(0, i + 1) =~= names_of(idents@).subrange(
                0,
                i as int,
            ).push(x@));
            names_of(idents@).subrange(0, i as int).lemma_push_to_set_commute(x@);
        }
        if present {
            proof {
                assert(old_names[p as int] == x@);
                assert(old_names.to_set().insert(x@) =~= old_names.to_set());
            }
        } else {
            let id = copy_ident(&idents[i]);
            proof {
                if p < keys.len() {
                    assert(name_less(x@, old_names[p as int]));
                }
                let new_names = old_names.insert(p as int, x@);
                assert forall|a: int, b: int| 0 <= a < b < new_names.len() implies name_less(
                    #[trigger] new_names[a],
                    #[trigger] new_names[b],
                ) by {
                    if b < p {
                        assert(name_less(old_names[a], old_names[b]));
                    } else if b == p {
                        assert(name_less(old_names[a], x@));
                    } else if a < p {
                        assert(name_less(old_names[a], x@));
                        assert(name_less(x@, old_names[p as int]));
                        if b - 1 > p {
                            assert(name_less(old_names[p as int], old_names[b - 1]));
                            lemma_less_transitive(x@, old_names[p as int], old_names[b - 1], 0);
                        }
                        lemma_less_transitive(old_names[a], x@, old_names[b - 1], 0);
                    } else if a == p {
                        if b - 1 > p {
                            assert(name_less(old_names[p as int], old_names[b - 1]));
                            lemma_less_transitive(x@, old_names[p as int], old_names[b - 1], 0);
                        }
                    } else {
                        assert(name_less(old_names[a - 1], old_names[b - 1]));
                    }
                }
                assert forall|m: Seq<char>| new_names.to_set().contains(m) == old_names.to_set().insert(
                    x@,
                ).contains(m) by {
                    if new_names.to_set().contains(m) {
                        let j = choose|j: int| 0 <= j < new_names.len() && new_names[j] == m;
                        if j < p {
                            assert(old_names[j] == m);
                        } else if j > p {
                            assert(old_names[j - 1] == m);
                        }
                    }
                    if old_names.to_set().contains(m) {
                        let j = choose|j: int| 0 <= j < old_names.len() && old_names[j] == m;
                        if j < p {
                            assert(new_names[j] == m);
                        } else {
                            assert(new_names[j + 1] == m);
                        }
                    }
                    if m == x@ {
                        assert(new_names[p as int] == m);
                    }
                }
                assert(new_names.to_set() =~= old_names.to_set().insert(x@));
            }
            table.insert(p, id);
            keys.insert(p, x);
            proof {
                assert(names_of(table@) =~= old_names.insert(p as int, x@));
            }
        }
        i = i + 1;
    }
    proof {
        assert(names_of(idents@).subrange(0, i as int) =~= names_of(idents@));
    }
    table
}

proof fn lemma_position_found(t: Seq<Seq<char>>, x: Seq<char>)
    ensures
        match position(t, x) {
            Some(k) => 0 <= k < t.len() && t[k] == x,
            None => !t.contains(x),
        },
    decreases t.len(),
{
    if t.len() > 0 {
        lemma_position_found(t.drop_last(), x);
        if position(t, x) is None {
            assert forall|k: int| 0 <= k < t.len() implies t[k] != x by {
                if k < t.len() - 1 {
                    assert(t.drop_last()[k] == t[k]);
                }
            }
        }
    }
}

proof fn lemma_position_prefix(t: Seq<Seq<char>>, x: Seq<char>, k: int)
    requires
        0 <= k < t.len(),
        position(t.subrange(0, k), x) is None,
        t[k] == x,
    ensures
        position(t, x) == Some(k),
    decreases t.len(),
{
    if k < t.len() - 1 {
        assert(t.drop_last().subrange(0, k) =~= t.subrange(0, k));
        lemma_position_prefix(t.drop_last(), x, k);
    } else {
        assert(t.drop_last() =~= t.subrange(0, k));
    }
}

/// The frame offset of `ident`: 8 times one more than its position in `idents`.
pub fn calc_offset(ident: Ident, idents: &[Ident]) -> (r: Option<usize>)
    requires
        idents@.len() <= usize::MAX / 8,
    ensures
        match position(names_of(idents@), ident.name@) {
            Some(k) => r == Some((8 * (k + 1)) as usize),
            None => r is None,
        },
{
    let x = chars_of(ident.name.as_str());
    let mut k: usize = 0;
    proof {
        assert(names_of(idents@).subrange(0, 0) =~= Seq::<Seq<char>>::empty());
    }
    while k < idents.len()
        invariant
            k <= idents.len(),
            idents@.len() <= usize::MAX / 8,
            x@ == ident.name@,
            position(names_of(idents@).subrange(0, k as int), x@) is None,
        decreases idents.len() - k,
    {
        let y = chars_of(idents[k].name.as_str());
        if compare_names(&y, &x) == 0 {
            proof {
                lemma_position_prefix(names_of(idents@), x@, k as int);
            }
            return Some((k + 1) * 8);
        }
        proof {
            assert(names_of(idents@).subrange(0, k + 1).drop_last() =~= names_of(idents@).subrange(
                0,
                k as int,
            ));
        }
        k = k + 1;
    }
    proof {
        assert(names_of(idents@).subrange(0, k as int) =~= names_of(idents@));
    }
    None
}

/// An identifier token becomes the variable at its offset; other tokens stay.
pub fn ident2var(token: Token, idents: &[Ident]) -> (r: Result<Token, &'static str>)
    requires
        idents@.len() <= usize::MAX / 8,
    ensures
        match token {
            Token::Ident(id) => match position(names_of(idents@), id.name@) {
                Some(k) => r == Ok::<Token, &'static str>(
                    Token::Variable { offset: (8 * (k + 1)) as usize },
                ),
                None => r is Err && r->Err_0@ == "unexpected ident"@,
            },
            _ => r == Ok::<Token, &'static str>(token),
        },
{
    match token {
        Token::Ident(i) => match calc_offset(i, idents) {
            Some(n) => Ok(Token::Variable { offset: n }),
            None => Err("unexpected ident"),
        },
        _ => Ok(token),
    }
}

proof fn lemma_ident_names_contain(ts: Seq<Token>, i: int)
    requires
        0 <= i < ts.len(),
        ts[i] is Ident,
    ensures
        ident_names(ts).contains(ts[i]->Ident_0.name@),
    decreases ts.len(),
{
    if i < ts.len() - 1 {
        lemma_ident_names_contain(ts.drop_last(), i);
        let rest = ident_names(ts.drop_last());
        let k = choose|k: int| 0 <= k < rest.len() && rest[k] == ts[i]->Ident_0.name@;
        assert(ident_names(ts)[k] == rest[k]);
    } else {
        let rest = ident_names(ts.drop_last());
        assert(ident_names(ts)[rest.len() as int] == ts[i]->Ident_0.name@);
    }
}

/// Replaces each identifier by the variable at its slot, and counts the slots.
pub fn convert_tokens(tokens: Vec<Token>) -> (r: Result<(Vec<Token>, usize), &'static str>)
    ensures
        match r {
            Ok((out, count)) => count == variables(tokens@).len() && count <= usize::MAX / 8
                && out@.len() == tokens@.len() && forall|i: int|
                0 <= i < tokens@.len() ==> resolves(tokens@, tokens@[i], #[trigger] out@[i]),
            Err(e) => variables(tokens@).len() > usize::MAX / 8 && e@ == "too many variables"@,
        },
{
    let idents = deduplicate_variable(extract_ident(&tokens));
    let ghost table = names_of(idents@);
    proof {
        lemma_sorted_no_duplicates(table);
        table.unique_seq_to_set();
    }
    if idents.len() > usize::MAX / 8 {
        return Err("too many variables");
    }
    let mut out: Vec<Token> = Vec::new();
    let mut i: usize = 0;
    while i < tokens.len()
        invariant
            i <= tokens.len(),
            idents@.len() <= usize::MAX / 8,
            table == names_of(idents@),
            sorted_strict(table),
            table.to_set() == variables(tokens@),
            out@.len() == i,
            forall|k: int| 0 <= k < i ==> resolves(tokens@, tokens@[k], #[trigger] out@[k]),
        decreases tokens.len() - i,
    {
        let t = fresh_token(&tokens[i]);
        let ghost u = tokens@[i as int];
        proof {
            if u is Ident {
                let x = u->Ident_0.name@;
                lemma_ident_names_contain(tokens@, i as int);
                assert(variables(tokens@).contains(x));
                lemma_position_found(table, x);
                let k = position(table, x)->0;
                lemma_rank_is_index(table, k);
            }
        }
        match ident2var(t, idents.as_slice()) {
            Ok(v) => {
                out.push(v);
            },
            Err(e) => {
                return Err(e);
            },
        }
        i = i + 1;
    }
    Ok((out, idents.len()))
}

/// Resolves the variables of a token list: see `convert_tokens`.
pub fn variable_analysis(tokens: Vec<Token>) -> (r: Result<(Vec<Token>, usize), &'static str>)
    ensures
        match r {
            Ok((out, count)) => count == variables(tokens@).len() && count <= usize::MAX / 8
                && out@.len() == tokens@.len() && forall|i: int|
                0 <= i < tokens@.len() ==> resolves(tokens@, tokens@[i], #[trigger] out@[i]),
            Err(e) => variables(tokens@).len() > usize::MAX / 8 && e@ == "too many variables"@,
        },
{
    convert_tokens(tokens)
}

/// The distinct names among lexemes.
pub open spec fn lexeme_names(ls: Seq<Lexeme>) -> Set<Seq<char>> {
    Set::new(|x: Seq<char>| exists|i: int| 0 <= i < ls.len() && ls[i] == Lexeme::Name(x))
}

/// The token that resolution makes of a lexeme, among the variable names `vars`.
pub open spec fn resolve_lexeme(vars: Set<Seq<char>>, l: Lexeme) -> Token {
    match l {
        Lexeme::Number(n) => Token::Integer(n as usize),
        Lexeme::Name(x) => Token::Variable { offset: slot_offset(vars, x) as usize },
        Lexeme::Plain(t) => t,
    }
}

/// The tokens that resolution makes of a list of lexemes.
pub open spec fn resolved(ls: Seq<Lexeme>) -> Seq<Token> {
    ls.map_values(|l: Lexeme| resolve_lexeme(lexeme_names(ls), l))
}

pub proof fn lemma_variables_are_names(ts: Seq<Token>)
    ensures
        variables(ts) == lexeme_names(lexemes(ts)),
    decreases ts.len(),
{
    if ts.len() == 0 {
        assert(variables(ts) =~= lexeme_names(lexemes(ts)));
    } else {
        let init = ts.drop_last();
        lemma_variables_are_names(init);
        let t = ts.last();
        assert(lexemes(ts) =~= lexemes(init).push(lexeme(t)));
        match t {
            Token::Ident(id) => {
                ident_names(init).lemma_push_to_set_commute(id.name@);
            },
            _ => {},
        }
        assert forall|x: Seq<char>| variables(ts).contains(x) == lexeme_names(
            lexemes(ts),
        ).contains(x) by {
            if lexeme_names(lexemes(init)).contains(x) {
                let i = choose|i: int|
                    0 <= i < lexemes(init).len() && lexemes(init)[i] == Lexeme::Name(x);
                assert(lexemes(ts)[i] == Lexeme::Name(x));
            }
            if lexeme_names(lexemes(ts)).contains(x) {
                let i = choose|i: int|
                    0 <= i < lexemes(ts).len() && lexemes(ts)[i] == Lexeme::Name(x);
                if i < init.len() {
                    assert(lexemes(init)[i] == Lexeme::Name(x));
                }
            }
            if t is Ident && t->Ident_0.name@ == x {
                assert(lexemes(ts)[init.len() as int] == Lexeme::Name(x));
            }
        }
        assert(variables(ts) =~= lexeme_names(lexemes(ts)));
    }
}

/// What `variable_analysis` returns is the resolution of the tokens' lexemes.
pub proof fn lemma_resolution_of_lexemes(ts: Seq<Token>, out: Seq<Token>)
    requires
        out.len() == ts.len(),
        forall|i: int| 0 <= i < ts.len() ==> resolves(ts, ts[i], #[trigger] out[i]),
    ensures
        out == resolved(lexemes(ts)),
{
    lemma_variables_are_names(ts);
    assert forall|i: int| 0 <= i < ts.len() implies out[i] == resolved(lexemes(ts))[i] by {
        assert(resolves(ts, ts[i], out[i]));
    }
    assert(out =~= resolved(lexemes(ts)));
}

proof fn lemma_lexed_plain_tokens(s: Seq<char>, i: int)
    ensures
        lex_from(s, i) is Ok ==> forall|k: int|
            0 <= k < lex_from(s, i)->Ok_0.len() ==> !(#[trigger] lex_from(s, i)->Ok_0[k] matches Lexeme::Plain(t) && t is Ident),
    decreases s.len() - i,
{
    if 0 <= i < s.len() {
        if crate::lexer::whitespace(s[i]) {
            lemma_lexed_plain_tokens(s, i + 1);
        } else if crate::lexer::digit(s[i]) {
            let j = crate::lexer::digits_end(s, i);
            if i < j <= s.len() {
                lemma_lexed_plain_tokens(s, j);
            }
        } else if crate::lexer::keyword(s, i) is Some {
            let (t, n) = crate::lexer::keyword(s, i)->0;
            if n > 0 {
                lemma_lexed_plain_tokens(s, i + n);
            }
        } else if crate::lexer::ident_char(s[i]) {
            let j = crate::lexer::ident_end(s, i);
            if i < j <= s.len() {
                lemma_lexed_plain_tokens(s, j);
            }
        } else if crate::lexer::operator(s, i) is Some {
            let (t, n) = crate::lexer::operator(s, i)->0;
            lemma_lexed_plain_tokens(s, i + n);
        }
    }
}

/// Lexing then resolving a source leaves no identifier token: each name becomes a
/// variable slot.
pub proof fn lemma_no_identifiers_after_resolution(s: Seq<char>)
    requires
        lex(s) is Ok,
    ensures
        forall|k: int|
            0 <= k < resolved(lex(s)->Ok_0).len() ==> !(#[trigger] resolved(lex(s)->Ok_0)[k] is Ident),
{
    lemma_lexed_plain_tokens(s, 0);
}

/// Some variable of `s` has the offset `8 * j`.
pub open spec fn slot_used(s: Set<Seq<char>>, j: int) -> bool {
    exists|x: Seq<char>| s.contains(x) && slot_offset(s, x) == 8 * j
}

/// The slots of the variables of a token list: with `k` distinct names, the offsets are
/// exactly 8, 16, ..., 8k, and they follow the sorted order of the names.
pub proof fn lemma_slots_follow_sorted_names(ts: Seq<Token>)
    ensures
        forall|x: Seq<char>| #[trigger]
            variables(ts).contains(x) ==> 8 <= slot_offset(variables(ts), x) <= 8 * variables(
                ts,
            ).len() && slot_offset(variables(ts), x) % 8 == 0,
        forall|x: Seq<char>, y: Seq<char>|
            variables(ts).contains(x) && variables(ts).contains(y) && name_less(x, y) ==> #[trigger]
            slot_offset(variables(ts), x) < #[trigger] slot_offset(variables(ts), y),
        forall|j: int| 1 <= j <= variables(ts).len() ==> #[trigger] slot_used(variables(ts), j),
{
    let vars = variables(ts);
    let k = vars.len();
    ident_names(ts).lemma_cardinality_of_set();
    assert(vars.finite());
    assert forall|x: Seq<char>| vars.contains(x) implies rank(vars, x) < k by {
        let below = vars.filter(|m: Seq<char>| name_less(m, x));
        lemma_less_irreflexive(x, 0);
        assert(below.subset_of(vars.remove(x)));
        lemma_len_subset(below, vars.remove(x));
    }
    assert forall|x: Seq<char>, y: Seq<char>|
        vars.contains(x) && vars.contains(y) && name_less(x, y) implies rank(vars, x) < rank(
        vars,
        y,
    ) by {
        let bx = vars.filter(|m: Seq<char>| name_less(m, x));
        let by = vars.filter(|m: Seq<char>| name_less(m, y));
        assert forall|m: Seq<char>| bx.contains(m) implies by.remove(x).contains(m) by {
            lemma_less_transitive(m, x, y, 0);
            lemma_less_irreflexive(x, 0);
        }
        lemma_len_subset(by, vars);
        lemma_len_subset(bx, by.remove(x));
    }
    let f = |x: Seq<char>| rank(vars, x) as int;
    assert(injective_on(f, vars)) by {
        assert forall|x: Seq<char>, y: Seq<char>|
            vars.contains(x) && vars.contains(y) && #[trigger] f(x) == #[trigger] f(y) implies x
            == y by {
            if x != y {
                if !name_less(x, y) && !name_less(y, x) {
                    lemma_less_total(x, y, 0);
                }
            }
        }
    }
    lemma_map_size(vars, vars.map(f), f);
    lemma_int_range(0, k as int);
    assert(vars.map(f).subset_of(set_int_range(0, k as int)));
    lemma_subset_equality(vars.map(f), set_int_range(0, k as int));
    assert forall|j: int| 1 <= j <= k implies #[trigger] slot_used(vars, j) by {
        assert(set_int_range(0, k as int).contains(j - 1));
        assert(vars.map(f).contains(j - 1));
        let x = choose|x: Seq<char>| vars.contains(x) && f(x) == j - 1;
        assert(slot_offset(vars, x) == 8 * j);
    }
}

} // verus!
