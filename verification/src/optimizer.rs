//! The optimizer: a pass-through level and a level that applies every pass
//! to the compiled block table.

pub mod pass;

use vstd::prelude::*;

use crate::compiler::ir::Block;
use crate::compiler::ir::End;
use crate::compiler::ir::ends_in_range;
use crate::error::Error;
use crate::optimizer::pass::StringPrintPass;
use crate::optimizer::pass::lemma_trace_preserves_resolution;
use crate::optimizer::pass::no_loose_char_outputs;
use crate::optimizer::pass::no_strings;
use crate::optimizer::pass::strings_nonempty;
use crate::optimizer::pass::strings_separated;
use crate::optimizer::pass::trace;
use crate::translator::block_resolved;
use crate::translator::blocks_resolved;
use crate::translator::defined_after_actions;

verus! {

/// Tables whose blocks agree trace for trace and terminator for terminator
/// resolve their tags alike: a trace-preserving pass cannot break the
/// backend's tag table.
proof fn lemma_blocks_resolution_congruent(b1: Seq<Block>, b2: Seq<Block>, defined: Seq<usize>)
    requires
        b1.len() == b2.len(),
        forall|i: int|
            #![trigger b1[i], b2[i]]
            0 <= i < b1.len() ==> b2[i].end == b1[i].end && trace(b2[i].actions@) == trace(
                b1[i].actions@,
            ),
    ensures
        blocks_resolved(b1, defined) == blocks_resolved(b2, defined),
    decreases b1.len(),
{
    if b1.len() > 0 {
        lemma_trace_preserves_resolution(b1[0].actions@, b2[0].actions@, defined);
        assert(block_resolved(b1[0], defined) == block_resolved(b2[0], defined));
        assert forall|i: int|
            #![trigger b1.drop_first()[i], b2.drop_first()[i]]
            0 <= i < b1.drop_first().len() implies b2.drop_first()[i].end
            == b1.drop_first()[i].end && trace(b2.drop_first()[i].actions@) == trace(
            b1.drop_first()[i].actions@,
        ) by {
            assert(b1.drop_first()[i] == b1[i + 1]);
            assert(b2.drop_first()[i] == b2[i + 1]);
        }
        lemma_blocks_resolution_congruent(
            b1.drop_first(),
            b2.drop_first(),
            defined_after_actions(b1[0].actions@, defined),
        );
    }
}

/// How much optimization the compiled blocks get.
#[derive(Clone, Copy, Debug, PartialEq, Eq, Structural)]
pub enum OptimizationLevel {
    /// The blocks pass through untouched.
    Off,
    /// Every pass is applied.
    All,
}

impl OptimizationLevel {
    /// Parses the command-line level: the empty text asks for every pass,
    /// `0` switches optimization off, and any other text is rejected,
    /// carried inside the error.
    pub fn parse(src: &str) -> (r: Result<OptimizationLevel, Error>)
        ensures
            src@.len() == 0 ==> r == Ok::<OptimizationLevel, Error>(OptimizationLevel::All),
            src@ == seq!['0'] ==> r == Ok::<OptimizationLevel, Error>(OptimizationLevel::Off),
            src@.len() != 0 && src@ != seq!['0'] ==> (r matches Err(e) && e matches
                Error::InvalidOptimization(text) && text@ == src@),
    {
        let n = src.unicode_len();
        if n == 0 {
            Ok(OptimizationLevel::All)
        } else if n == 1 {
            let c = src.get_char(0);
            proof {
                assert(src@ =~= seq![src@[0]]);
            }
            if c == '0' {
                Ok(OptimizationLevel::Off)
            } else {
                Err(Error::InvalidOptimization(src.to_owned()))
            }
        } else {
            Err(Error::InvalidOptimization(src.to_owned()))
        }
    }
}

/// The stage that applies the chosen optimization level to a block table.
pub struct Optimizer {
    /// The chosen level.
    pub level: OptimizationLevel,
}

impl Optimizer {
    pub fn new(level: OptimizationLevel) -> (r: Self)
        ensures
            r.level == level,
    {
        Self { level }
    }

    /// Optimizes the block table. The pass-through level yields the table
    /// unchanged; the full level leaves every block's terminator and event
    /// trace unchanged, and block indices do not move. This stage never
    /// fails.
    #[verifier::rlimit(100)]
    #[verifier::spinoff_prover]
    pub fn run(self, input: Vec<Block>) -> (r: Result<Vec<Block>, Error>)
        ensures
            r is Ok,
            r matches Ok(v) ==> {
                &&& self.level is Off ==> v@ == input@
                &&& v@.len() == input@.len()
                &&& forall|i: int|
                    0 <= i < input@.len() ==> #[trigger] v@[i].end == input@[i].end && trace(
                        v@[i].actions@,
                    ) == trace(input@[i].actions@)
                &&& self.level is All ==> forall|i: int|
                    0 <= i < input@.len() ==> #[trigger] no_loose_char_outputs(v@[i].actions@) && (
                    no_strings(input@[i].actions@) ==> strings_separated(v@[i].actions@)
                        && strings_nonempty(v@[i].actions@))
                &&& forall|b: int| ends_in_range(input@, b) ==> ends_in_range(v@, b)
                &&& blocks_resolved(input@, Seq::<usize>::empty()) ==> blocks_resolved(
                    v@,
                    Seq::<usize>::empty(),
                )
            },
    {
        match self.level {
            OptimizationLevel::Off => {
                let out = input;
                proof {
                    assert(out@ == input@);
                    if blocks_resolved(input@, Seq::<usize>::empty()) {
                        assert(blocks_resolved(out@, Seq::<usize>::empty()));
                    }
                }
                Ok(out)
            }
            OptimizationLevel::All => {
                let out = StringPrintPass::optimize(input);
                proof {
                    lemma_blocks_resolution_congruent(input@, out@, Seq::<usize>::empty());
                    assert forall|b: int| ends_in_range(input@, b) implies ends_in_range(
                        out@,
                        b,
                    ) by {
                        assert forall|i: int|
                            0 <= i < out@.len() implies (#[trigger] out@[i].end matches End::If(
                            _,
                            t,
                            f,
                        ) ==> t < b && f < b) by {
                            assert(out@[i].end == input@[i].end);
                        }
                    }
                }
                Ok(out)
            }
        }
    }
}

} // verus!
