//! Front end and intermediate-code generator for a small imperative
//! language: a recursive-descent parser with precedence climbing, a
//! lexical-scope checker, and a lowering pass to three-address code
//! with local common-subexpression elimination.

use vstd::prelude::*;

pub mod ast;
pub mod cli;
pub mod codegen;
pub mod grammar;
pub mod ic;
pub mod interner;
pub mod logger;
pub mod lexer;
pub mod optimize;
pub mod parser;
pub mod region;
pub mod render;
pub mod scopechk;
pub mod source;
pub mod sym_tbl;
pub mod text;
pub mod token;

pub use ast::{BinOp, Block, Expr, ExprKind, FuncProto, Ident, IntSize, Lit, Module, Param, Stmt, StmtKind, Type, UnOp};
pub use codegen::CodeGenerator;
pub use interner::{Interner, Symbol};
pub use lexer::Lexer;
pub use parser::Parser;
pub use region::{LineColumn, Region};
pub use scopechk::ScopeChecker;
pub use source::{Context, Source};
pub use token::{Token, TokenKind};

use crate::source::{count_newlines, spec_context_start, spec_line_end};
use crate::text::spec_dec;

verus! {

/// What `generate_error_message` builds: the base message, the source
/// name and line, the surrounding line of code, and a caret under the
/// offending offset.
pub open spec fn spec_error_message(
    base: Seq<char>,
    name: Seq<char>,
    s: Seq<char>,
    region: crate::region::Region,
) -> Seq<char> {
    let context_start = spec_context_start(s, region.spec_start());
    let context_end = spec_line_end(s, region.spec_end());
    let line = 1 + count_newlines(s, context_start);
    base + "\nin "@ + name + ", line "@ + spec_dec(line) + "\n"@ + s.subrange(
        context_start,
        context_end,
    ) + "\n"@ + crate::text::spec_spaces(region.spec_start() - context_start) + "^"@
}

/// Render a diagnostic against its source text: the message, the place
/// it happened, the offending line and a caret pointing at the region.
pub fn generate_error_message(base_message: &'static str, source: &Source, region: Region) -> (r:
    String)
    requires
        region.wf(),
        region.spec_end() <= source.contents@.len(),
        source.contents@.len() < usize::MAX,
    ensures
        r@ == spec_error_message(base_message@, source.name@, source.contents@, region),
{
    let error_source_code = source.context_of(region);
    let line = error_source_code.line;
    proof {
        crate::source::lemma_context_start_le(source.contents@, region.spec_start());
        crate::source::lemma_line_end_ge(source.contents@, region.spec_end());
    }
    let width = region.start() - error_source_code.region.start() + 1;
    let error_context = source.slice(error_source_code.region);
    let mut msg = String::from_str(base_message);
    msg.append("\nin ");
    msg.append(source.name.as_str());
    msg.append(", line ");
    msg.append(crate::text::dec_u64(line as u64).as_str());
    msg.append("\n");
    msg.append(error_context);
    msg.append("\n");
    msg.append(crate::text::spaces(width - 1).as_str());
    msg.append("^");
    proof {
        assert(msg@ =~= spec_error_message(
            base_message@,
            source.name@,
            source.contents@,
            region,
        ));
    }
    msg
}

} // verus!
