//! The Driver: coordinating all steps of compilation

pub mod codemap;
pub mod error;
pub mod interner;
pub mod session;
pub mod symbol_table;

use vstd::prelude::*;
use crate::back::instsel::{functions_of, select_instructions, selects_program};
use crate::back::machine::assembly::{Assembly, assembly_text};
use crate::back::regalloc::allocate_regs;
use crate::back::regalloc::lifetime_intervals::lifetimes_spec;
use crate::driver::session::Diagnostic;
use crate::driver::symbol_table::SymbolTable;
use crate::front::ast::{Node, Symbol};
use crate::front::lexer::{Lexer, lexes};
use crate::front::parser::spelling::spells_program;
use crate::front::tokens::Token;
use crate::front::parser::Parser;
use crate::front::semck;
use crate::front::typeck::{self, program_typed};
use crate::middle::ir;
use crate::middle::ir::text::program_text;
use crate::middle::ir::trans::{translate, translates_program};
use crate::util::chars::utf8_total;

verus! {

/// What a compilation produces
#[derive(Clone, Copy, Debug, PartialEq, Eq, Structural)]
pub enum CompilationTarget {
    /// The intermediate representation
    Ir,
    /// Assembly
    Asm,
    /// A binary (linking is not done yet: the assembly is produced)
    Bin,
}

/// The result of a compilation: the text of the IR, and the assembly unless
/// only the IR was asked for
#[derive(Debug)]
pub struct Compiled {
    pub ir: String,
    pub assembly: Option<String>,
}

/// The main entry point for compiling a source file
pub fn compile_input(source: &str, input_file: &str, target: CompilationTarget) -> (r: Result<Compiled, Diagnostic>)
    requires
        utf8_total(source@) < u32::MAX,
        source@.len() > 0,
        source@[0] != '\n',
    ensures
        r matches Ok(c) ==> (c.assembly is None <==> target == CompilationTarget::Ir),
        r matches Ok(c) ==> exists|toks: Seq<Token>, names: Seq<Seq<char>>, ast: Seq<Node<Symbol>>, table: SymbolTable,
            code: Seq<ir::Symbol>, n: Seq<Seq<char>>|
            #![trigger lexes(source@, names, 0, toks), program_typed(ast, table), translates_program(ast, code), program_text(code, n)]
            lexes(source@, names, 0, toks) && spells_program(toks.drop_last(), ast, names)
                && program_typed(ast, table) && translates_program(ast, code) && c.ir@ == program_text(code, n)
                && (c.assembly matches Some(t) ==> exists|a: Assembly, n2: Seq<Seq<char>>|
                    #![trigger selects_program(code, a, n2)]
                    n.len() <= n2.len() && (forall|i: int| 0 <= i < n.len() ==> #[trigger] n2[i] == n[i])
                    && selects_program(code, a, n2) && lifetimes_spec(a) is Some && t@ == assembly_text(a, n2)),
{
    // --- Front end ------------------------------------------------------------

    // Phase 1: Lexical & syntactical analysis
    let lexer = Lexer::new(source, input_file);
    let mut parser = Parser::new(lexer)?;
    let ghost toks = parser.read(0, parser.tokens@.len() as int);
    let ast = parser.parse()?;
    let ghost names = parser.names();
    assert(toks.drop_last() =~= parser.read(0, parser.pos as int));
    let mut session = parser.into_session();

    // Phase 2: Analysis passes (semantic checking, type checking)
    semck::run(&ast, &mut session)?;
    typeck::run(&ast, &session.symbol_table)?;
    let ghost table = session.symbol_table;

    // --- Middle end -----------------------------------------------------------

    // Phase 3: Intermediate code generation
    let (translated, session) = translate(&ast, session);
    let mut session = session;
    let code = translated?;
    let ir_text = code.to_text(&session.interner);
    assert(program_typed(ast@, table) && translates_program(ast@, code.0@) && ir_text@ == program_text(code.0@, session.interner@));
    assert(lexes(source@, names, 0, toks) && spells_program(toks.drop_last(), ast@, names));

    let ghost n = session.interner@;
    if target == CompilationTarget::Ir {
        let c = Compiled { ir: ir_text, assembly: None };
        assert(lexes(source@, names, 0, toks) && spells_program(toks.drop_last(), ast@, names)
            && program_typed(ast@, table) && translates_program(ast@, code.0@) && program_text(code.0@, n) == c.ir@);
        return Ok(c);
    }

    // --- Back end -------------------------------------------------------------

    // Phase 4: Machine code generation
    let assembly = select_instructions(&code, &mut session.interner);

    // Phase 5: Register allocation
    let (assembly, _lifetimes) = allocate_regs(assembly)?;
    let asm_text = assembly.to_text(&session.interner);
    assert(asm_text@ == assembly_text(assembly, session.interner@));
    let c = Compiled { ir: ir_text, assembly: Some(asm_text) };
    proof {
        let n2 = session.interner@;
        assert(selects_program(code.0@, assembly, n2));
        assert(c.assembly matches Some(t) ==> exists|a: Assembly, m: Seq<Seq<char>>|
            #![trigger selects_program(code.0@, a, m)]
            n.len() <= m.len() && (forall|i: int| 0 <= i < n.len() ==> #[trigger] m[i] == n[i])
            && selects_program(code.0@, a, m) && lifetimes_spec(a) is Some && t@ == assembly_text(a, m));
        assert(lexes(source@, names, 0, toks) && spells_program(toks.drop_last(), ast@, names)
            && program_typed(ast@, table) && translates_program(ast@, code.0@) && program_text(code.0@, n) == c.ir@);
    }
    Ok(c)
}

} // verus!
