use vstd::prelude::*;

use vstd::string::StrSliceExecFns;
use vstd::string::StringExecFns;

use crate::bits::bit_seq;
use crate::cpu::Command;
use crate::cpu::Cpu;
use crate::cpu::cmd_text;
use crate::cpu::run_bounded;
use crate::error::CpuError;
use crate::parse::spec_tokens;
use crate::parse::token_eq;
use crate::parse::tokenize;
use crate::text::chars_to_string;
use crate::text::hex_chars;
use crate::text::hex_rep;

verus! {

/// An error of reading a debugger command line.
#[derive(Debug, Copy, Clone, PartialEq, Eq, Structural)]
pub enum DebugError {
    /// The line is no debugger command, or a numeric argument did not
    /// read as a number.
    InvalidCommand,
    /// The command wants an argument that the line does not give.
    MissingArg,
}

impl DebugError {
    /// The fixed text that describes the error.
    pub fn message(&self) -> (r: &'static str)
        ensures
            *self is InvalidCommand ==> r@ == "command provided is invalid"@,
            *self is MissingArg ==> r@ == "argument missing from command"@,
    {
        match self {
            DebugError::InvalidCommand => "command provided is invalid",
            DebugError::MissingArg => "argument missing from command",
        }
    }
}

/// One command of the interactive debugger's little language.
#[derive(Debug, Copy, Clone, PartialEq, Eq, Structural)]
pub enum DebugCommand {
    Help,
    Step(u32),
    Data,
    Mem { addr: u32, count: u32 },
    List,
    Reset,
    Quit,
}

/// What parse_int's `parse` makes of a numeric token, as a `u32`. The
/// grammar (decimal, `0x`/`0o`/`0b` prefixes, underscores) is the crate's;
/// it is named here, not written out.
pub uninterp spec fn parsed_u32(s: Seq<char>) -> Option<u32>;

/// Relies on parse_int's `parse` for `u32`: reads decimal and prefixed
/// hexadecimal, octal and binary notation, with optional underscores; the
/// result depends on the text alone. The text must hold no `-`: on an
/// unsigned target the crate's negation step would overflow.
#[verifier::external_body]
fn parse_number(s: &str) -> (r: Option<u32>)
    requires
        !s@.contains('-'),
    ensures
        r == parsed_u32(s@),
{
    match parse_int::parse::<u32>(s) {
        Ok(n) => Some(n),
        Err(_) => None,
    }
}

/// A numeric argument's value: what parse_int makes of it, with tokens
/// holding `-` rejected up front (a negative count or address means
/// nothing here).
pub open spec fn numeric_arg(t: Seq<char>) -> Option<u32> {
    if t.contains('-') {
        None
    } else {
        parsed_u32(t)
    }
}

/// The command that a tokenized debugger line denotes: `None` for a blank
/// line; `InvalidCommand` for an unknown word or a bad number;
/// `MissingArg` for `mem` without an address. `step` defaults to one step,
/// `mem` to one bit; tokens past the ones a command reads are ignored.
pub open spec fn debug_cmd_of_tokens(ts: Seq<Seq<char>>) -> Result<
    Option<DebugCommand>,
    DebugError,
> {
    if ts.len() == 0 {
        Ok(None)
    } else {
        let op = ts[0];
        if op == "help"@ || op == "h"@ {
            Ok(Some(DebugCommand::Help))
        } else if op == "step"@ || op == "s"@ {
            if ts.len() == 1 {
                Ok(Some(DebugCommand::Step(1)))
            } else {
                match numeric_arg(ts[1]) {
                    Some(n) => Ok(Some(DebugCommand::Step(n))),
                    None => Err(DebugError::InvalidCommand),
                }
            }
        } else if op == "data"@ || op == "d"@ {
            Ok(Some(DebugCommand::Data))
        } else if op == "mem"@ || op == "m"@ {
            if ts.len() == 1 {
                Err(DebugError::MissingArg)
            } else {
                match numeric_arg(ts[1]) {
                    Some(a) => if ts.len() == 2 {
                        Ok(Some(DebugCommand::Mem { addr: a, count: 1 }))
                    } else {
                        match numeric_arg(ts[2]) {
                            Some(c) => Ok(Some(DebugCommand::Mem { addr: a, count: c })),
                            None => Err(DebugError::InvalidCommand),
                        }
                    },
                    None => Err(DebugError::InvalidCommand),
                }
            }
        } else if op == "list"@ || op == "l"@ {
            Ok(Some(DebugCommand::List))
        } else if op == "reset"@ || op == "r"@ {
            Ok(Some(DebugCommand::Reset))
        } else if op == "quit"@ || op == "q"@ {
            Ok(Some(DebugCommand::Quit))
        } else {
            Err(DebugError::InvalidCommand)
        }
    }
}

fn has_minus(t: &Vec<char>) -> (r: bool)
    ensures
        r <==> t@.contains('-'),
{
    let mut i: usize = 0;
    while i < t.len()
        invariant
            i <= t@.len(),
            forall|k: int| 0 <= k < i ==> t@[k] != '-',
        decreases t@.len() - i,
    {
        if t[i] == '-' {
            proof {
                assert(t@[i as int] == '-');
            }
            return true;
        }
        i = i + 1;
    }
    false
}

fn parse_arg(t: &Vec<char>) -> (r: Option<u32>)
    ensures
        r == numeric_arg(t@),
{
    if has_minus(t) {
        return None;
    }
    let s = chars_to_string(t);
    parse_number(s.as_str())
}

/// Reads one line of debugger input as a command.
pub fn parse_debug_command(line: &str) -> (r: Result<Option<DebugCommand>, DebugError>)
    ensures
        r == debug_cmd_of_tokens(spec_tokens(line@)),
{
    let ts = tokenize(line);
    if ts.len() == 0 {
        return Ok(None);
    }
    let op = &ts[0];
    if token_eq(op, "help") || token_eq(op, "h") {
        Ok(Some(DebugCommand::Help))
    } else if token_eq(op, "step") || token_eq(op, "s") {
        if ts.len() == 1 {
            Ok(Some(DebugCommand::Step(1)))
        } else {
            match parse_arg(&ts[1]) {
                Some(n) => Ok(Some(DebugCommand::Step(n))),
                None => Err(DebugError::InvalidCommand),
            }
        }
    } else if token_eq(op, "data") || token_eq(op, "d") {
        Ok(Some(DebugCommand::Data))
    } else if token_eq(op, "mem") || token_eq(op, "m") {
        if ts.len() == 1 {
            Err(DebugError::MissingArg)
        } else {
            match parse_arg(&ts[1]) {
                Some(a) => if ts.len() == 2 {
                    Ok(Some(DebugCommand::Mem { addr: a, count: 1 }))
                } else {
                    match parse_arg(&ts[2]) {
                        Some(c) => Ok(Some(DebugCommand::Mem { addr: a, count: c })),
                        None => Err(DebugError::InvalidCommand),
                    }
                },
                None => Err(DebugError::InvalidCommand),
            }
        }
    } else if token_eq(op, "list") || token_eq(op, "l") {
        Ok(Some(DebugCommand::List))
    } else if token_eq(op, "reset") || token_eq(op, "r") {
        Ok(Some(DebugCommand::Reset))
    } else if token_eq(op, "quit") || token_eq(op, "q") {
        Ok(Some(DebugCommand::Quit))
    } else {
        Err(DebugError::InvalidCommand)
    }
}

/// The register display of the `data` command: the address in
/// hexadecimal, then the store latch.
pub open spec fn data_lines(addr: u32, store: bool) -> Seq<Seq<char>> {
    seq![
        "ADDR:  0x"@ + hex_rep(addr as nat, 8),
        "STORE: 0x"@ + (if store {
            "1"@
        } else {
            "0"@
        }),
    ]
}

/// The `0`/`1` characters of the memory bits in `from .. to`.
pub open spec fn bits01(m: Seq<bool>, from: int, to: int) -> Seq<char> {
    Seq::new((to - from) as nat, |j: int| if m[from + j] {
        '1'
    } else {
        '0'
    })
}

/// The display of the `mem` command: the requested address and the end of
/// the shown range in hexadecimal, then the bits of the range. The range
/// starts at the requested address and is clipped to the memory's end.
pub open spec fn mem_text(m: Seq<bool>, addr: u32, count: u32) -> Seq<char> {
    let start: int = if addr as int <= m.len() {
        addr as int
    } else {
        m.len() as int
    };
    let end: int = if addr as int + count as int <= m.len() {
        addr as int + count as int
    } else {
        m.len() as int
    };
    "MEM[0x"@ + hex_rep(addr as nat, 8) + ":0x"@ + hex_rep(end as nat, 8) + "]: "@ + bits01(
        m,
        start,
        end,
    )
}

/// One line of the `list` command: a `>` marker at the current program
/// position, the instruction's index in hexadecimal, and its text.
pub open spec fn list_line(prog: Seq<Command>, step: int, idx: int) -> Seq<char> {
    (if idx == step {
        ">"@
    } else {
        " "@
    }) + " [0x"@ + hex_rep(idx as nat, 8) + "] "@ + cmd_text(prog[idx])
}

/// The interactive debugger's core: it owns the engine and answers the
/// commands of the little language; the read-print loop around it is not
/// part of the library.
pub struct Debugger {
    pub cpu: Cpu,
}

impl Debugger {
    pub fn new(cpu: Cpu) -> (r: Debugger)
        ensures
            r.cpu == cpu,
    {
        Debugger { cpu }
    }

    /// Steps the engine forward at most `steps` times, stopping at the
    /// program's end or the first fault, which is returned with the engine
    /// frozen at the faulting step.
    pub fn do_step(&mut self, steps: u32) -> (r: Result<(), CpuError>)
        requires
            old(self).cpu.wf(),
        ensures
            final(self).cpu.wf(),
            final(self).cpu.commands@ == old(self).cpu.commands@,
            bit_seq(final(self).cpu.memory).len() == bit_seq(old(self).cpu.memory).len(),
            ({
                let o = run_bounded(
                    old(self).cpu.mstate(),
                    old(self).cpu.commands@,
                    old(self).cpu.step as int,
                    steps as nat,
                );
                &&& final(self).cpu.mstate() == o.state
                &&& final(self).cpu.step == o.step
                &&& match o.fault {
                    None => r is Ok,
                    Some(e) => r == Err::<(), CpuError>(e),
                }
            }),
    {
        self.cpu.step_many(steps)
    }

    /// The register display: the address register and the store latch.
    pub fn do_data(&self) -> (r: Vec<String>)
        ensures
            r@.len() == 2,
            r@[0]@ == data_lines(self.cpu.addr, self.cpu.store)[0],
            r@[1]@ == data_lines(self.cpu.addr, self.cpu.store)[1],
    {
        let mut addr_line = "ADDR:  0x".to_owned();
        let digits = chars_to_string(&hex_chars(self.cpu.addr as u64, 8));
        addr_line.append(digits.as_str());
        let mut store_line = "STORE: 0x".to_owned();
        if self.cpu.store {
            store_line.append("1");
        } else {
            store_line.append("0");
        }
        let mut out: Vec<String> = Vec::new();
        out.push(addr_line);
        out.push(store_line);
        out
    }

    /// The memory display: `count` bits from `addr`, clipped to the
    /// memory's end.
    pub fn do_mem(&self, addr: u32, count: u32) -> (r: String)
        requires
            self.cpu.wf(),
        ensures
            r@ == mem_text(bit_seq(self.cpu.memory), addr, count),
    {
        let len = self.cpu.memory.len();
        let start: usize = if addr as usize <= len {
            addr as usize
        } else {
            len
        };
        let end: usize = if (addr as u64 + count as u64) <= len as u64 {
            (addr as u64 + count as u64) as usize
        } else {
            len
        };
        let mut t = "MEM[0x".to_owned();
        let addr_digits = chars_to_string(&hex_chars(addr as u64, 8));
        t.append(addr_digits.as_str());
        t.append(":0x");
        let end_digits = chars_to_string(&hex_chars(end as u64, 8));
        t.append(end_digits.as_str());
        t.append("]: ");
        let mut bits: Vec<char> = Vec::new();
        let mut i: usize = start;
        while i < end
            invariant
                start <= i <= end,
                end <= bit_seq(self.cpu.memory).len(),
                bits@ == bits01(bit_seq(self.cpu.memory), start as int, i as int),
            decreases end - i,
        {
            let c: char = if self.cpu.memory.get(i) {
                '1'
            } else {
                '0'
            };
            bits.push(c);
            proof {
                assert(bits01(bit_seq(self.cpu.memory), start as int, i + 1 as int) =~= bits01(
                    bit_seq(self.cpu.memory),
                    start as int,
                    i as int,
                ).push(if bit_seq(self.cpu.memory)[i as int] {
                    '1'
                } else {
                    '0'
                }));
            }
            i = i + 1;
        }
        let bits_str = chars_to_string(&bits);
        t.append(bits_str.as_str());
        t
    }

    /// The program listing around the current position: up to five
    /// instructions before it and five from it on, the current one marked.
    pub fn do_list(&self) -> (r: Vec<String>)
        requires
            self.cpu.wf(),
        ensures
            ({
                let lower: int = if self.cpu.step > 5 {
                    self.cpu.step - 5
                } else {
                    0
                };
                let upper: int = if self.cpu.step + 5 <= self.cpu.commands@.len() {
                    self.cpu.step + 5
                } else {
                    self.cpu.commands@.len() as int
                };
                &&& r@.len() == upper - lower
                &&& forall|k: int|
                    0 <= k < r@.len() ==> (#[trigger] r@[k])@ == list_line(
                        self.cpu.commands@,
                        self.cpu.step as int,
                        lower + k,
                    )
            }),
    {
        let step = self.cpu.step;
        let n = self.cpu.commands.len();
        let lower: usize = if step > 5 {
            step - 5
        } else {
            0
        };
        let upper: usize = if step <= n && n - step >= 5 {
            step + 5
        } else {
            n
        };
        let mut out: Vec<String> = Vec::new();
        let mut idx: usize = lower;
        while idx < upper
            invariant
                lower <= idx <= upper,
                upper <= self.cpu.commands@.len(),
                step == self.cpu.step,
                out@.len() == idx - lower,
                forall|k: int|
                    0 <= k < out@.len() ==> (#[trigger] out@[k])@ == list_line(
                        self.cpu.commands@,
                        self.cpu.step as int,
                        lower + k,
                    ),
            decreases upper - idx,
        {
            let mut t = if idx == step {
                ">".to_owned()
            } else {
                " ".to_owned()
            };
            t.append(" [0x");
            let digits = chars_to_string(&hex_chars(idx as u64, 8));
            t.append(digits.as_str());
            t.append("] ");
            let cmd = self.cpu.commands[idx];
            let body = cmd.to_text();
            t.append(body.as_str());
            out.push(t);
            idx = idx + 1;
        }
        out
    }
}

} // verus!
