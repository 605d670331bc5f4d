use vstd::prelude::*;

use crate::common::Annot;
use crate::parser::program_view;
use crate::parser::Program;
use crate::parser::StmtView;

verus! {

/// A code generator for one target.  Each backend chooses its own
/// per-node annotation payload, states which program shapes it is
/// defined on (machine-size limits only), and pins the exact target
/// text it produces for a program shape.
pub trait Compiler: Sized {
    type ExtendedData: Annot;

    /// The program shapes the generator accepts: machine-size bounds,
    /// and the front end's guarantee that literals are non-negative.
    spec fn input_ok(p: Seq<StmtView>) -> bool;

    /// The exact target text produced for a program shape.
    spec fn output_spec(filename: Seq<char>, p: Seq<StmtView>) -> Seq<char>;

    /// Compile one program to target text.
    fn compile(&mut self, filename: &str, program: Program<Self::ExtendedData>) -> (out: String)
        requires
            Self::input_ok(program_view(program)),
        ensures
            out@ == Self::output_spec(filename@, program_view(program)),
    ;
}

} // verus!
