use vstd::prelude::*;

pub mod architecture;
pub mod braces;
pub mod error;
pub mod generator;
pub mod grammar;
pub mod lexer;
pub mod parser;
pub mod text;
pub mod token;
pub mod tree;
pub mod variable;

use crate::architecture::Backend;
use crate::error::{invalid_char_error, invalid_char_report};
use crate::generator::{generated, generator};
use crate::grammar::{message, parse};
use crate::lexer::{lex, lexer, lexemes};
use crate::parser::parser;
use crate::text::concat;
use crate::token::TokenError;
use crate::tree::models;
use crate::variable::{lemma_resolution_of_lexemes, lemma_variables_are_names, lexeme_names, resolved, variable_analysis};

verus! {

/// The two paths given on the command line.
pub struct Config {
    pub source_file_path: String,
    pub assembly_file_path: String,
}

impl Config {
    /// Takes the input and output paths from the arguments after the program name.
    pub fn new(args: &[String]) -> (r: Result<Config, &'static str>)
        ensures
            match r {
                Ok(c) => args@.len() >= 3 && c.source_file_path@ == args@[1]@
                    && c.assembly_file_path@ == args@[2]@,
                Err(e) => args@.len() < 3 && e@ == "not enough arguments"@,
            },
    {
        if args.len() < 3 {
            return Err("not enough arguments");
        }
        let input_file_path = args[1].clone();
        let output_file_path = args[2].clone();
        Ok(Config { source_file_path: input_file_path, assembly_file_path: output_file_path })
    }
}

/// What compiling the source text `s` for target `B` gives: the assembly text, or the
/// message of the first phase that failed.
pub open spec fn compiled<B: Backend>(s: Seq<char>, r: Result<String, String>) -> bool {
    match lex(s) {
        Err(TokenError::TokenizeError) => r is Err && r->Err_0@ == "tokenize error"@,
        Err(TokenError::InvalidChar(c)) => r is Err && r->Err_0@ == "tokenize error\n"@
            + invalid_char_report(s, c),
        Ok(ls) => if lexeme_names(ls).len() > usize::MAX / 8 {
            r is Err && r->Err_0@ == "too many variables"@
        } else {
            match parse(resolved(ls)) {
                Err(x) => r is Err && r->Err_0@ == "parse error: "@ + message(x),
                Ok(asts) => match r {
                    Ok(out) => generated::<B>(
                        asts,
                        lexeme_names(ls).len() as usize,
                        Ok::<String, String>(out),
                    ),
                    Err(e) => exists|g: String|
                        generated::<B>(asts, lexeme_names(ls).len() as usize, Err::<String, String>(g))
                            && e@ == "generate error: "@ + g@,
                },
            }
        },
    }
}

/// Compiles a source text to assembly for the target `B`: lexing, variable resolution,
/// parsing and code generation, stopping at the first phase that fails.
pub fn compile<B: Backend>(source: &str) -> (r: Result<String, String>)
    requires
        source@.len() <= usize::MAX / 4,
    ensures
        compiled::<B>(source@, r),
{
    let tokens = match lexer(source) {
        Ok(tokens) => tokens,
        Err(TokenError::TokenizeError) => return Err(String::from_str("tokenize error")),
        Err(TokenError::InvalidChar(c)) => {
            return Err(concat("tokenize error\n", &invalid_char_error(source, c)));
        },
    };
    let ghost ts = tokens@;
    proof {
        lemma_variables_are_names(ts);
    }
    let (tokens, ident_count) = match variable_analysis(tokens) {
        Ok(x) => x,
        Err(e) => return Err(String::from_str(e)),
    };
    proof {
        lemma_resolution_of_lexemes(ts, tokens@);
    }
    let trees = match parser(tokens) {
        Ok(trees) => trees,
        Err(e) => return Err(concat("parse error: ", &e)),
    };
    match generator::<B>(trees, ident_count) {
        Ok(out) => Ok(out),
        Err(e) => Err(concat("generate error: ", &e)),
    }
}

/// Compilation is a function of the source text: two compilations of the same source for
/// the same target both succeed or both fail, and when they succeed their texts are equal.
pub proof fn lemma_compile_deterministic<B: Backend>(
    s: Seq<char>,
    r1: Result<String, String>,
    r2: Result<String, String>,
)
    requires
        compiled::<B>(s, r1),
        compiled::<B>(s, r2),
    ensures
        r1 is Ok <==> r2 is Ok,
        r1 is Ok ==> r1->Ok_0@ == r2->Ok_0@,
{
}

} // verus!
