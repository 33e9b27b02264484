use vstd::prelude::*;

use vstd::string::StrSliceExecFns;
use vstd::string::StringExecFns;

use crate::bits::BitMem;
use crate::bits::bit_seq;
use crate::error::CpuError;
use crate::parse::dec_val;
use crate::parse::is_count_token;
use crate::parse::parse_count;
use crate::parse::spec_tokens;
use crate::parse::token_eq;
use crate::parse::tokenize;
use crate::parse::tokens_view;

verus! {

/// The error of `Command::from_str`: the text that did not read as an
/// instruction, with a note appended when only the repetition count was at
/// fault.
#[derive(Debug, Clone, PartialEq, Eq)]
pub struct ParseCommandError {
    pub command_text: String,
}

/// One instruction of the engine's four-instruction set. `Inc` and `Cdec`
/// carry a repetition count (1 where the source text writes none).
#[derive(Debug, Copy, Clone, PartialEq, Eq, Structural)]
pub enum Command {
    Inc(u32),
    Inv,
    Load,
    Cdec(u32),
}

/// The command that a tokenized line of source text denotes, if any. The
/// grammar has one instruction per line: a case-sensitive mnemonic `INC`,
/// `INV`, `LOAD` or `CDEC`, where `INC` and `CDEC` may be followed by a
/// decimal repetition count (1 when absent).
pub open spec fn cmd_of_tokens(ts: Seq<Seq<char>>) -> Option<Command> {
    if ts.len() == 1 {
        if ts[0] == "INC"@ {
            Some(Command::Inc(1))
        } else if ts[0] == "INV"@ {
            Some(Command::Inv)
        } else if ts[0] == "LOAD"@ {
            Some(Command::Load)
        } else if ts[0] == "CDEC"@ {
            Some(Command::Cdec(1))
        } else {
            None
        }
    } else if ts.len() == 2 && (ts[0] == "INC"@ || ts[0] == "CDEC"@) && is_count_token(ts[1]) {
        if ts[0] == "INC"@ {
            Some(Command::Inc(dec_val(ts[1]) as u32))
        } else {
            Some(Command::Cdec(dec_val(ts[1]) as u32))
        }
    } else {
        None
    }
}

/// A line whose mnemonic takes a count and whose second token is not a
/// well-formed count: only the repetition count is at fault.
pub open spec fn bad_count_line(ts: Seq<Seq<char>>) -> bool {
    ts.len() == 2 && (ts[0] == "INC"@ || ts[0] == "CDEC"@) && !is_count_token(ts[1])
}

impl Command {
    /// Reads one line of source text as an instruction. The error carries
    /// the offending text, with a note appended when the line's mnemonic
    /// was right but its repetition count was not.
    pub fn from_str(s: &str) -> (r: Result<Command, ParseCommandError>)
        ensures
            match r {
                Ok(cmd) => cmd_of_tokens(spec_tokens(s@)) == Some(cmd),
                Err(e) => {
                    &&& cmd_of_tokens(spec_tokens(s@)) is None
                    &&& e.command_text@ == if bad_count_line(spec_tokens(s@)) {
                        s@ + ": invalid repetition count"@
                    } else {
                        s@
                    }
                },
            },
    {
        let ts = tokenize(s);
        if ts.len() == 1 {
            if token_eq(&ts[0], "INC") {
                Ok(Command::Inc(1))
            } else if token_eq(&ts[0], "INV") {
                Ok(Command::Inv)
            } else if token_eq(&ts[0], "LOAD") {
                Ok(Command::Load)
            } else if token_eq(&ts[0], "CDEC") {
                Ok(Command::Cdec(1))
            } else {
                Err(ParseCommandError { command_text: s.to_owned() })
            }
        } else if ts.len() == 2 {
            let is_inc = token_eq(&ts[0], "INC");
            let is_cdec = token_eq(&ts[0], "CDEC");
            if is_inc || is_cdec {
                match parse_count(&ts[1]) {
                    Some(n) => if is_inc {
                        Ok(Command::Inc(n))
                    } else {
                        Ok(Command::Cdec(n))
                    },
                    None => {
                        let mut text = s.to_owned();
                        text.append(": invalid repetition count");
                        Err(ParseCommandError { command_text: text })
                    },
                }
            } else {
                Err(ParseCommandError { command_text: s.to_owned() })
            }
        } else {
            Err(ParseCommandError { command_text: s.to_owned() })
        }
    }
}

/// The text that an instruction prints as: its mnemonic, with the
/// repetition count where it carries one.
pub open spec fn cmd_text(c: Command) -> Seq<char> {
    match c {
        Command::Inc(n) => "INC "@ + crate::text::dec_rep(n as nat),
        Command::Inv => "INV"@,
        Command::Load => "LOAD"@,
        Command::Cdec(n) => "CDEC "@ + crate::text::dec_rep(n as nat),
    }
}

impl Command {
    /// Writes the instruction as source text.
    pub fn to_text(&self) -> (r: String)
        ensures
            r@ == cmd_text(*self),
    {
        match self {
            Command::Inc(n) => {
                let mut t = "INC ".to_owned();
                let digits = crate::text::chars_to_string(&crate::text::dec_chars(*n as u64));
                t.append(digits.as_str());
                t
            },
            Command::Inv => "INV".to_owned(),
            Command::Load => "LOAD".to_owned(),
            Command::Cdec(n) => {
                let mut t = "CDEC ".to_owned();
                let digits = crate::text::chars_to_string(&crate::text::dec_chars(*n as u64));
                t.append(digits.as_str());
                t
            },
        }
    }
}

/// The mathematical state of the engine's data registers: the memory bits,
/// the address register and the store latch. The program counter is kept
/// apart, since no instruction reads it.
#[verifier::ext_equal]
pub ghost struct MachineState {
    pub mem: Seq<bool>,
    pub addr: int,
    pub store: bool,
}

impl MachineState {
    /// The address register points at a bit of the memory.
    pub open spec fn wf(self) -> bool {
        0 <= self.addr < self.mem.len()
    }
}

/// What one instruction does to the data registers when executed forward:
/// - `Inc(n)` moves the address up by `n`; moving past the last bit is an
///   `OutOfMemory` fault.
/// - `Inv` flips the addressed bit in place.
/// - `Load` latches the addressed bit into `store`.
/// - `Cdec(n)` moves the address down by `n` if `store` is set (moving
///   below address 0 is a `NegativeAddr` fault), and otherwise does nothing.
/// A faulting instruction leaves the registers unchanged.
pub open spec fn spec_forward(s: MachineState, c: Command) -> Result<MachineState, CpuError> {
    match c {
        Command::Inc(n) => if s.addr + n < s.mem.len() {
            Ok(MachineState { addr: s.addr + n, ..s })
        } else {
            Err(CpuError::OutOfMemory)
        },
        Command::Inv => Ok(MachineState { mem: s.mem.update(s.addr, !s.mem[s.addr]), ..s }),
        Command::Load => Ok(MachineState { store: s.mem[s.addr], ..s }),
        Command::Cdec(n) => if !s.store {
            Ok(s)
        } else if n <= s.addr {
            Ok(MachineState { addr: s.addr - n, ..s })
        } else {
            Err(CpuError::NegativeAddr)
        },
    }
}

/// What undoing one instruction does to the data registers. `Inv` is its own
/// inverse, `Inc` and `Cdec` invert to moves of the same magnitude in the
/// other direction (`Cdec`'s inverse gated by `store` exactly as the forward
/// step was). `Load` has no true inverse, because the latch value it
/// overwrote is not retained: undoing it re-samples the currently addressed
/// bit, which is right only while that bit has not changed since the step
/// ran. This is a documented limitation of the reversible debugger.
pub open spec fn spec_backward(s: MachineState, c: Command) -> Result<MachineState, CpuError> {
    match c {
        Command::Inc(n) => if n <= s.addr {
            Ok(MachineState { addr: s.addr - n, ..s })
        } else {
            Err(CpuError::NegativeAddr)
        },
        Command::Inv => Ok(MachineState { mem: s.mem.update(s.addr, !s.mem[s.addr]), ..s }),
        Command::Load => Ok(MachineState { store: s.mem[s.addr], ..s }),
        Command::Cdec(n) => if !s.store {
            Ok(s)
        } else if s.addr + n < s.mem.len() {
            Ok(MachineState { addr: s.addr + n, ..s })
        } else {
            Err(CpuError::OutOfMemory)
        },
    }
}

/// Where a run that starts at instruction `i` of `prog` comes to rest: the
/// data registers and program position after executing instruction after
/// instruction until the program's end or the first fault.
#[verifier::ext_equal]
pub ghost struct RunOutcome {
    pub state: MachineState,
    pub step: int,
    pub fault: Option<CpuError>,
}

/// Runs `prog` forward from state `s` at instruction `i` until the end of
/// the program or the first fault, whichever comes first.
pub open spec fn run_from(s: MachineState, prog: Seq<Command>, i: int) -> RunOutcome
    decreases prog.len() - i,
{
    if i < 0 || prog.len() <= i {
        RunOutcome { state: s, step: i, fault: None }
    } else {
        match spec_forward(s, prog[i]) {
            Ok(s2) => run_from(s2, prog, i + 1),
            Err(e) => RunOutcome { state: s, step: i, fault: Some(e) },
        }
    }
}

/// Runs `prog` forward from state `s` at instruction `i` for at most `k`
/// steps, stopping early at the program's end or the first fault.
pub open spec fn run_bounded(s: MachineState, prog: Seq<Command>, i: int, k: nat) -> RunOutcome
    decreases k,
{
    if k == 0 || i < 0 || prog.len() <= i {
        RunOutcome { state: s, step: i, fault: None }
    } else {
        match spec_forward(s, prog[i]) {
            Ok(s2) => run_bounded(s2, prog, i + 1, (k - 1) as nat),
            Err(e) => RunOutcome { state: s, step: i, fault: Some(e) },
        }
    }
}

/// The engine: a fixed capacity of zero-initialised bit memory, an address
/// register, a one-bit store latch, a program counter and the loaded
/// program. The program is immutable once loaded.
pub struct Cpu {
    pub memory: BitMem,
    pub addr: u32,
    pub store: bool,
    pub step: usize,
    pub done: bool,
    pub commands: Vec<Command>,
}

impl Cpu {
    /// Well-formedness: the memory has at least one bit and at most
    /// `u32::MAX` bits (so the `u32` address register can span it), the
    /// address points at a memory bit, the program counter never passes the
    /// program's end, and `done` holds exactly when it has reached the end.
    pub open spec fn wf(self) -> bool {
        &&& 1 <= bit_seq(self.memory).len() <= u32::MAX
        &&& (self.addr as int) < bit_seq(self.memory).len()
        &&& self.step <= self.commands@.len()
        &&& (self.done <==> self.step == self.commands@.len())
    }

    /// The data registers of this engine as a mathematical state.
    pub open spec fn mstate(self) -> MachineState {
        MachineState { mem: bit_seq(self.memory), addr: self.addr as int, store: self.store }
    }

    /// Allocates `size` bits of zeroed memory and loads `commands`;
    /// the address register, the store latch and the program counter start
    /// at zero. An empty program is complete from the start.
    pub fn new(size: usize, commands: Vec<Command>) -> (cpu: Cpu)
        requires
            1 <= size <= u32::MAX,
        ensures
            cpu.wf(),
            cpu.mstate() == (MachineState {
                mem: Seq::new(size as nat, |i: int| false),
                addr: 0,
                store: false,
            }),
            cpu.step == 0,
            cpu.commands@ == commands@,
            (cpu.done <==> commands@.len() == 0),
    {
        let done = commands.len() == 0;
        Cpu {
            memory: BitMem::zeros(size),
            addr: 0,
            store: false,
            step: 0,
            done,
            commands,
        }
    }

    /// Executes the instruction at the program counter against the data
    /// registers, then advances the counter; does nothing once `done`. A
    /// fault is returned as a value and leaves the whole engine unchanged,
    /// so the faulting step can be re-inspected (and repeating it faults
    /// again).
    pub fn step(&mut self) -> (r: Result<(), CpuError>)
        requires
            old(self).wf(),
        ensures
            final(self).wf(),
            final(self).commands@ == old(self).commands@,
            bit_seq(final(self).memory).len() == bit_seq(old(self).memory).len(),
            old(self).done ==> *final(self) == *old(self) && r is Ok,
            !old(self).done ==> match spec_forward(
                old(self).mstate(),
                old(self).commands@[old(self).step as int],
            ) {
                Ok(s2) => {
                    &&& r is Ok
                    &&& final(self).mstate() == s2
                    &&& final(self).step == old(self).step + 1
                    &&& final(self).done == (old(self).step + 1 == old(self).commands@.len())
                },
                Err(e) => {
                    &&& r == Err::<(), CpuError>(e)
                    &&& *final(self) == *old(self)
                },
            },
    {
        if self.done {
            return Ok(());
        }
        let idx = self.step;
        let proglen = self.commands.len();
        let cmd = self.commands[idx];
        match cmd {
            Command::Inc(n) => {
                let target = self.addr as u64 + n as u64;
                if target < self.memory.len() as u64 {
                    self.addr = target as u32;
                } else {
                    return Err(CpuError::OutOfMemory);
                }
            },
            Command::Inv => {
                let bit = self.memory.get(self.addr as usize);
                self.memory.set(self.addr as usize, !bit);
            },
            Command::Load => {
                self.store = self.memory.get(self.addr as usize);
            },
            Command::Cdec(n) => {
                if self.store {
                    if n <= self.addr {
                        self.addr = self.addr - n;
                    } else {
                        return Err(CpuError::NegativeAddr);
                    }
                }
            },
        }
        self.step = idx + 1;
        if self.step == proglen {
            self.done = true;
        }
        Ok(())
    }

    /// Undoes the most recently executed instruction and moves the program
    /// counter back by one; does nothing when no instruction has run. As
    /// with `step`, a fault leaves the engine unchanged. `Load`'s undo
    /// re-samples the addressed bit (see `spec_backward`).
    pub fn backward(&mut self) -> (r: Result<(), CpuError>)
        requires
            old(self).wf(),
        ensures
            final(self).wf(),
            final(self).commands@ == old(self).commands@,
            bit_seq(final(self).memory).len() == bit_seq(old(self).memory).len(),
            old(self).step == 0 ==> *final(self) == *old(self) && r is Ok,
            old(self).step > 0 ==> match spec_backward(
                old(self).mstate(),
                old(self).commands@[old(self).step - 1],
            ) {
                Ok(s2) => {
                    &&& r is Ok
                    &&& final(self).mstate() == s2
                    &&& final(self).step == old(self).step - 1
                    &&& !final(self).done
                },
                Err(e) => {
                    &&& r == Err::<(), CpuError>(e)
                    &&& *final(self) == *old(self)
                },
            },
    {
        if self.step == 0 {
            return Ok(());
        }
        let idx = self.step - 1;
        let cmd = self.commands[idx];
        match cmd {
            Command::Inc(n) => {
                if n <= self.addr {
                    self.addr = self.addr - n;
                } else {
                    return Err(CpuError::NegativeAddr);
                }
            },
            Command::Inv => {
                let bit = self.memory.get(self.addr as usize);
                self.memory.set(self.addr as usize, !bit);
            },
            Command::Load => {
                self.store = self.memory.get(self.addr as usize);
            },
            Command::Cdec(n) => {
                if self.store {
                    let target = self.addr as u64 + n as u64;
                    if target < self.memory.len() as u64 {
                        self.addr = target as u32;
                    } else {
                        return Err(CpuError::OutOfMemory);
                    }
                }
            },
        }
        self.step = idx;
        self.done = false;
        Ok(())
    }

    /// Steps forward at most `k` times, stopping early when the program
    /// completes or an instruction faults; the fault, if any, is returned
    /// with the engine frozen at the faulting step.
    pub fn step_many(&mut self, k: u32) -> (r: Result<(), CpuError>)
        requires
            old(self).wf(),
        ensures
            final(self).wf(),
            final(self).commands@ == old(self).commands@,
            bit_seq(final(self).memory).len() == bit_seq(old(self).memory).len(),
            ({
                let o = run_bounded(
                    old(self).mstate(),
                    old(self).commands@,
                    old(self).step as int,
                    k as nat,
                );
                &&& final(self).mstate() == o.state
                &&& final(self).step == o.step
                &&& match o.fault {
                    None => r is Ok,
                    Some(e) => r == Err::<(), CpuError>(e),
                }
            }),
    {
        let ghost s0 = self.mstate();
        let ghost step0 = self.step as int;
        let ghost prog = self.commands@;
        let mut i: u32 = 0;
        while i < k
            invariant
                i <= k,
                self.wf(),
                self.commands@ == prog,
                s0 == old(self).mstate(),
                step0 == old(self).step as int,
                prog == old(self).commands@,
                bit_seq(self.memory).len() == bit_seq(old(self).memory).len(),
                run_bounded(s0, prog, step0, k as nat) == run_bounded(
                    self.mstate(),
                    prog,
                    self.step as int,
                    (k - i) as nat,
                ),
            decreases k - i,
        {
            if self.done {
                return Ok(());
            }
            match self.step() {
                Ok(()) => {},
                Err(e) => {
                    return Err(e);
                },
            }
            i = i + 1;
        }
        Ok(())
    }

    /// Steps forward repeatedly until the program is complete or an
    /// instruction faults. The fault, if any, is returned without
    /// discarding state: memory and registers stay inspectable, paused at
    /// the faulting step.
    pub fn run(&mut self) -> (r: Result<(), CpuError>)
        requires
            old(self).wf(),
        ensures
            final(self).wf(),
            final(self).commands@ == old(self).commands@,
            bit_seq(final(self).memory).len() == bit_seq(old(self).memory).len(),
            ({
                let o = run_from(old(self).mstate(), old(self).commands@, old(self).step as int);
                &&& final(self).mstate() == o.state
                &&& final(self).step == o.step
                &&& match o.fault {
                    None => r is Ok && final(self).done,
                    Some(e) => r == Err::<(), CpuError>(e) && !final(self).done,
                }
            }),
    {
        while !self.done
            invariant
                self.wf(),
                self.commands@ == old(self).commands@,
                bit_seq(self.memory).len() == bit_seq(old(self).memory).len(),
                run_from(old(self).mstate(), old(self).commands@, old(self).step as int)
                    == run_from(self.mstate(), self.commands@, self.step as int),
            decreases self.commands@.len() - self.step,
        {
            match self.step() {
                Ok(()) => {},
                Err(e) => {
                    return Err(e);
                },
            }
        }
        Ok(())
    }

    /// Returns to the post-construction state without reallocating: zeroes
    /// the memory, clears the registers and rewinds the program counter.
    pub fn reset(&mut self)
        requires
            old(self).wf(),
        ensures
            final(self).wf(),
            final(self).commands@ == old(self).commands@,
            final(self).mstate() == (MachineState {
                mem: Seq::new(bit_seq(old(self).memory).len(), |i: int| false),
                addr: 0,
                store: false,
            }),
            final(self).step == 0,
            (final(self).done <==> old(self).commands@.len() == 0),
    {
        self.memory.fill(false);
        self.addr = 0;
        self.store = false;
        self.step = 0;
        self.done = self.commands.len() == 0;
    }
}

/// A successful forward step keeps the state well formed and never changes
/// the memory's capacity.
pub proof fn lemma_forward_wf(s: MachineState, c: Command)
    requires
        s.wf(),
        spec_forward(s, c) is Ok,
    ensures
        (spec_forward(s, c)->Ok_0).wf(),
        (spec_forward(s, c)->Ok_0).mem.len() == s.mem.len(),
{
}

/// Law: `Inv` is an involution. At any reachable address, flipping the
/// addressed bit twice restores the machine state — memory, address and
/// store latch — exactly.
pub proof fn lemma_inv_involution(s: MachineState)
    requires
        s.wf(),
    ensures
        spec_forward(s, Command::Inv) is Ok,
        spec_forward(spec_forward(s, Command::Inv)->Ok_0, Command::Inv) is Ok,
        spec_forward(spec_forward(s, Command::Inv)->Ok_0, Command::Inv)->Ok_0 == s,
{
    let s1 = spec_forward(s, Command::Inv)->Ok_0;
    let s2 = spec_forward(s1, Command::Inv)->Ok_0;
    assert(s2.mem =~= s.mem);
    assert(s2 =~= s);
}

/// Law: a forward step followed by a backward step of the same instruction
/// restores the memory and the address register (and the program position,
/// by the contracts of `Cpu::step` and `Cpu::backward`). The store latch is
/// restored too for every instruction but `Load`, whose undo re-samples the
/// addressed bit instead of recovering the overwritten latch value — the
/// documented limitation of the reversible debugger.
pub proof fn lemma_forward_backward(s: MachineState, c: Command)
    requires
        s.wf(),
        spec_forward(s, c) is Ok,
    ensures
        spec_backward(spec_forward(s, c)->Ok_0, c) is Ok,
        ({
            let s2 = spec_backward(spec_forward(s, c)->Ok_0, c)->Ok_0;
            &&& s2.addr == s.addr
            &&& s2.mem == s.mem
            &&& (!(c is Load) ==> s2.store == s.store)
        }),
{
    let s1 = spec_forward(s, c)->Ok_0;
    let s2 = spec_backward(s1, c)->Ok_0;
    match c {
        Command::Inv => {
            assert(s2.mem =~= s.mem);
        },
        _ => {},
    }
}

} // verus!
