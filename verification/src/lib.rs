//! A minimal bit-addressable virtual machine with a four-instruction
//! set, a reversible single-stepper, and a challenge harness that grades
//! candidate programs against randomized, bit-exact test problems.
//!
//! The engine's semantics are stated over a mathematical machine state
//! (`cpu::MachineState`, `cpu::spec_forward`) and every public operation
//! carries a contract against it; the harness, the problem generators,
//! the source-text grammar and the debugger's command language are
//! specified and verified the same way.

use vstd::prelude::*;

pub mod bits;
pub mod challenge;
pub mod cpu;
pub mod debug;
pub mod error;
pub mod parse;
pub mod text;

use rand::rngs::StdRng;

use crate::challenge::GRADE_MEM_BITS;
use crate::challenge::Outcome;
use crate::challenge::challenge_known;
use crate::challenge::evaluate_solution;
use crate::challenge::first_failure;
use crate::challenge::genuine_problems;
use crate::challenge::problem_spec;
use crate::challenge::rng_from_seed;
use crate::challenge::trial_window;
use crate::cpu::Command;
use crate::cpu::cmd_of_tokens;
use crate::error::ExecutionError;
use crate::parse::has_colon;
use crate::parse::header_size;
use crate::parse::line_err_text;
use crate::parse::line_views;
use crate::parse::parse_program;
use crate::parse::spec_tokens;

verus! {

/// The memory capacity, in bits, that the debugger gives a program whose
/// source declares none.
pub const DEFAULT_MEM_BITS: usize = 65536;

/// The commands that a well-formed source spells, line by line, from
/// `start` on.
pub open spec fn parsed_commands(lv: Seq<Seq<char>>, start: int) -> Seq<Command> {
    Seq::new((lv.len() - start) as nat, |j: int| cmd_of_tokens(spec_tokens(lv[start + j]))->0)
}

/// Whether every line of the source reads as it must: the size
/// declaration, where the first line holds one, and an instruction on
/// each line after it.
pub open spec fn source_parses(lv: Seq<Seq<char>>) -> bool {
    let hdr = lv.len() > 0 && has_colon(lv[0]);
    let start: int = if hdr {
        1
    } else {
        0
    };
    &&& (hdr ==> header_size(spec_tokens(lv[0])) is Some)
    &&& forall|j: int| start <= j < lv.len() ==> cmd_of_tokens(spec_tokens(#[trigger] lv[j])) is Some
}

/// Reads a program's source lines and grades it against catalog challenge
/// `challenge`, drawing each trial's problem from a generator seeded with
/// `seed`: one seed, one trial sequence. A malformed source or an unknown
/// id is returned as the matching error. Otherwise the outcome is
/// grounded: a `Pass` certifies that the program passed every trial of a
/// genuine drawn problem sequence, and a failure reports the first
/// failing trial of one, with its literal bits.
pub fn solve(challenge: u8, source: &Vec<String>, seed: u64) -> (r: Result<
    Outcome,
    ExecutionError,
>)
    ensures
        ({
            let lv = line_views(source@);
            let hdr = lv.len() > 0 && has_colon(lv[0]);
            let start: int = if hdr {
                1
            } else {
                0
            };
            match r {
                Ok(out) => {
                    &&& source_parses(lv)
                    &&& challenge_known(challenge)
                    &&& match out {
                        Outcome::Pass => exists|pv: Seq<(Seq<bool>, Seq<bool>)>|
                            #[trigger] genuine_problems(challenge, pv) && first_failure(
                                GRADE_MEM_BITS as nat,
                                parsed_commands(lv, start),
                                pv,
                                0,
                            ) is None,
                        Outcome::Fail { trial, input, actual, expected } => {
                            &&& trial < crate::challenge::NUM_TRIALS as usize
                            &&& problem_spec(challenge, input@, expected@)
                            &&& actual@ == trial_window(
                                GRADE_MEM_BITS as nat,
                                parsed_commands(lv, start),
                                input@,
                                expected@.len(),
                            )
                            &&& actual@ != expected@
                            &&& exists|pv: Seq<(Seq<bool>, Seq<bool>)>|
                                #[trigger] genuine_problems(challenge, pv) && first_failure(
                                    GRADE_MEM_BITS as nat,
                                    parsed_commands(lv, start),
                                    pv,
                                    0,
                                ) == Some(trial as int) && pv[trial as int].0 == input@ && pv[
                                    trial as int
                                ].1 == expected@
                        },
                    }
                },
                Err(ExecutionError::ParseError(p)) => {
                    &&& !source_parses(lv)
                    &&& match p {
                        crate::error::ParseError::BitCountParseError => hdr && header_size(
                            spec_tokens(lv[0]),
                        ) is None,
                        crate::error::ParseError::CommandParseError { cmd, line } => {
                            &&& (hdr ==> header_size(spec_tokens(lv[0])) is Some)
                            &&& start <= line < lv.len()
                            &&& cmd_of_tokens(spec_tokens(lv[line as int])) is None
                            &&& cmd@ == line_err_text(lv[line as int])
                        },
                    }
                },
                Err(ExecutionError::ChallengeError(c)) => {
                    &&& source_parses(lv)
                    &&& !challenge_known(challenge)
                    &&& c == crate::challenge::ChallengeError::InvalidChallenge
                },
                Err(_) => false,
            }
        }),
{
    let parsed = match parse_program(source) {
        Ok(p) => p,
        Err(e) => {
            return Err(ExecutionError::ParseError(e));
        },
    };
    let commands = parsed.1;
    let mut rng: StdRng = rng_from_seed(seed);
    proof {
        let lv = line_views(source@);
        let hdr = lv.len() > 0 && has_colon(lv[0]);
        let start: int = if hdr {
            1
        } else {
            0
        };
        assert(commands@ =~= parsed_commands(lv, start));
    }
    match evaluate_solution(challenge, &commands, &mut rng) {
        Ok(out) => Ok(out),
        Err(c) => Err(ExecutionError::ChallengeError(c)),
    }
}

} // verus!
