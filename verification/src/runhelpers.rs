//! The pipeline glue that needs no input or output: source text to
//! statements in one call.

use vstd::prelude::*;

use crate::errors::LoxError;
use crate::parser::{p_parse, stmts_model, ParseOut, Parser, Stmt};
use crate::scanner::scan_from;
use crate::scanner::SourceCode;
use crate::tokens::Token;

verus! {

use vstd::string::StringExecFns;

/// Scan the source text and parse the tokens into statements: the token
/// sequence is exactly the scanner model's on the source, and the result
/// is exactly the parser model's on that token sequence.
pub fn raw_source_to_ast(source: &str, filename: &str) -> (r: Result<Vec<Stmt>, LoxError>)
    requires
        source@.len() < usize::MAX,
    ensures
        exists|toks: Seq<Token>|
            {
                &&& toks.map_values(|t: Token| t.model()) == scan_from(
                    source@,
                    filename@,
                    0,
                    1,
                ).tokens
                &&& match r {
                    Ok(stmts) => #[trigger] p_parse(toks, 0) == ParseOut::Done(
                        stmts_model(stmts@),
                    ),
                    Err(e) => p_parse(toks, 0) == ParseOut::Fail(e.model()),
                }
            },
{
    let mut source_code = SourceCode::new(source, String::from_str(filename));
    let tokens = source_code.scan_tokens();
    let ghost toks = tokens@;
    let mut parser = Parser::new(tokens);
    let r = parser.parse();
    proof {
        assert(toks.map_values(|t: Token| t.model()) =~= scan_from(
            source@,
            filename@,
            0,
            1,
        ).tokens);
    }
    r
}

} // verus!
