//! The execution engine: interpreter state and the meaning of each step.
use vstd::prelude::*;
use crate::jumps::{is_jump_table, resolve_jumps, resolve_outcome, SyntaxError};
use crate::lexer::{lex, lex_spec, Token};

verus! {

/// Number of cells on the tape.
pub const TAPE_LEN: usize = 1024;

/// Why a run stopped before the end of the program.
#[derive(Debug, Clone, Copy, PartialEq, Eq, Structural)]
pub enum RunError {
    /// A `>` would move the data pointer past the last cell.
    MemoryOverflow,
    /// A `<` would move the data pointer before the first cell.
    MemoryUnderflow,
    /// The step budget given to a bounded run ran out.
    StepLimitReached,
}

/// What one step did, when it did not fail.
#[derive(Debug, Clone, Copy, PartialEq, Eq, Structural)]
pub enum Step {
    /// The instruction pointer is past the program: nothing was run.
    Finished,
    /// One instruction ran and emitted nothing.
    Continue,
    /// One instruction ran and emitted this character.
    Emit(char),
}

/// The mathematical state of an interpreter.
pub ghost struct Machine {
    pub program: Seq<Token>,
    pub jumps: Seq<Option<usize>>,
    pub ip: int,
    pub dp: int,
    pub cells: Seq<i64>,
}

/// An interpreter: a program, its jump table, and the mutable state that
/// running it changes.
///
/// Cells hold signed 64-bit values. `+` and `-` add and subtract one and are
/// not clamped or reduced to a byte: `-` on a zero cell gives -1, and 255
/// plus one is 256. Only at the limits of the 64-bit representation does a
/// cell wrap around (the largest value plus one is the smallest).
pub struct Interpreter {
    ip: usize,
    dp: usize,
    cells: Vec<i64>,
    insns: Vec<Token>,
    jumps: Vec<Option<usize>>,
}

impl View for Interpreter {
    type V = Machine;

    closed spec fn view(&self) -> Machine {
        Machine {
            program: self.insns@,
            jumps: self.jumps@,
            ip: self.ip as int,
            dp: self.dp as int,
            cells: self.cells@,
        }
    }
}

/// The state invariant: a paired program, a full tape, the data pointer on
/// the tape and the instruction pointer at most one past the program.
pub open spec fn well_formed(m: Machine) -> bool {
    &&& is_jump_table(m.program, m.jumps)
    &&& m.cells.len() == TAPE_LEN
    &&& 0 <= m.dp < m.cells.len()
    &&& 0 <= m.ip <= m.program.len()
}

/// The state of an interpreter freshly built from source text `code`.
pub open spec fn fresh(m: Machine, code: Seq<char>) -> bool {
    &&& m.program == lex_spec(code)
    &&& is_jump_table(m.program, m.jumps)
    &&& m.ip == 0
    &&& m.dp == 0
    &&& m.cells == Seq::new(TAPE_LEN as nat, |i: int| 0i64)
}

/// `+` on a cell.
pub open spec fn cell_inc(v: i64) -> i64 {
    if v == i64::MAX {
        i64::MIN
    } else {
        (v + 1) as i64
    }
}

/// `-` on a cell.
pub open spec fn cell_dec(v: i64) -> i64 {
    if v == i64::MIN {
        i64::MAX
    } else {
        (v - 1) as i64
    }
}

/// Whether `v` is a Unicode scalar value, the code point of some character.
pub open spec fn is_code_point(v: int) -> bool {
    (0 <= v <= 0xD7FF) || (0xE000 <= v <= 0x10FFFF)
}

/// The character that `.` emits for a cell, if any.
pub open spec fn emitted(v: i64) -> Option<char> {
    if is_code_point(v as int) {
        Some(choose|c: char| #[trigger] (c as u32) == v)
    } else {
        None
    }
}

/// The result of running the instruction at `m.ip`, with `input` the byte
/// that the input channel gave if it is a `,`: the next state and what was
/// emitted, or the error that halts the run.
pub open spec fn step_spec(m: Machine, input: Option<u8>) -> Result<(Machine, Option<char>), RunError> {
    let next = Machine { ip: m.ip + 1, ..m };
    match m.program[m.ip] {
        Token::Incptr => if m.dp + 1 >= m.cells.len() {
            Err(RunError::MemoryOverflow)
        } else {
            Ok((Machine { dp: m.dp + 1, ..next }, None))
        },
        Token::Decptr => if m.dp == 0 {
            Err(RunError::MemoryUnderflow)
        } else {
            Ok((Machine { dp: m.dp - 1, ..next }, None))
        },
        Token::Incbyte => Ok(
            (Machine { cells: m.cells.update(m.dp, cell_inc(m.cells[m.dp])), ..next }, None),
        ),
        Token::Decbyte => Ok(
            (Machine { cells: m.cells.update(m.dp, cell_dec(m.cells[m.dp])), ..next }, None),
        ),
        Token::Outbyte => Ok((next, emitted(m.cells[m.dp]))),
        Token::Inbyte => match input {
            Some(b) => Ok((Machine { cells: m.cells.update(m.dp, b as i64), ..next }, None)),
            None => Ok((next, None)),
        },
        Token::Forward => if m.cells[m.dp] == 0 {
            Ok((Machine { ip: m.jumps[m.ip]->Some_0 + 1, ..m }, None))
        } else {
            Ok((next, None))
        },
        Token::Backward => if m.cells[m.dp] != 0 {
            Ok((Machine { ip: m.jumps[m.ip]->Some_0 + 1, ..m }, None))
        } else {
            Ok((next, None))
        },
    }
}

/// What `step` reports for a step that emitted `out`.
pub open spec fn step_report(out: Option<char>) -> Step {
    match out {
        Some(c) => Step::Emit(c),
        None => Step::Continue,
    }
}

/// At most `fuel` steps from `m`, with `,` taking bytes from `input` in turn
/// (an exhausted input leaves the cell as it is): the final state, the
/// characters emitted, and how the run ended.
pub open spec fn run_spec(m: Machine, input: Seq<u8>, fuel: nat) -> (Machine, Seq<char>, Result<(), RunError>)
    decreases fuel,
{
    if m.ip < 0 || m.ip >= m.program.len() {
        (m, Seq::empty(), Ok(()))
    } else if fuel == 0 {
        (m, Seq::empty(), Err(RunError::StepLimitReached))
    } else {
        let reads = m.program[m.ip] is Inbyte && input.len() > 0;
        let byte = if reads { Some(input[0]) } else { None };
        let rest = if reads { input.drop_first() } else { input };
        match step_spec(m, byte) {
            Err(e) => (m, Seq::empty(), Err(e)),
            Ok((m2, out)) => {
                let (m3, o3, status) = run_spec(m2, rest, (fuel - 1) as nat);
                let emitted_now = match out {
                    Some(c) => seq![c],
                    None => Seq::empty(),
                };
                (m3, emitted_now + o3, status)
            },
        }
    }
}

/// Relies on char::from_u32: a character exactly for a Unicode scalar
/// value, and then the character with that code point.
#[verifier::external_body]
fn char_from_code(v: u32) -> (r: Option<char>)
    ensures
        r is Some == is_code_point(v as int),
        r matches Some(c) ==> c as u32 == v,
{
    char::from_u32(v)
}

/// Relies on String::push: appends one character.
#[verifier::external_body]
fn push_char(s: &mut String, c: char)
    ensures
        final(s)@ == old(s)@.push(c),
{
    s.push(c);
}

impl Interpreter {
    /// The invariant that every interpreter keeps.
    pub open spec fn wf(&self) -> bool {
        well_formed(self@)
    }

    /// Builds an interpreter for source text: lexes it, pairs its brackets
    /// and sets up a zeroed tape. Fails when the brackets do not pair.
    pub fn new(code: &str) -> (r: Result<Interpreter, SyntaxError>)
        ensures
            r is Ok == (resolve_outcome(lex_spec(code@)) is Ok),
            r matches Err(e) ==> resolve_outcome(lex_spec(code@)) == Err::<(), SyntaxError>(e),
            r matches Ok(i) ==> i.wf() && fresh(i@, code@),
    {
        let insns = lex(code);
        let jumps = match resolve_jumps(&insns) {
            Ok(t) => t,
            Err(e) => {
                return Err(e);
            },
        };
        let mut cells: Vec<i64> = Vec::new();
        let mut k: usize = 0;
        while k < TAPE_LEN
            invariant
                k <= TAPE_LEN,
                cells@ == Seq::new(k as nat, |i: int| 0i64),
            decreases TAPE_LEN - k,
        {
            cells.push(0);
            k = k + 1;
            assert(cells@ =~= Seq::new(k as nat, |i: int| 0i64));
        }
        Ok(Interpreter { ip: 0, dp: 0, cells, insns, jumps })
    }

    /// Runs the instruction at the instruction pointer. `input` is what the
    /// input channel gave for a `,` (`None` once it is exhausted); other
    /// instructions ignore it. On an error the state is left as it was.
    pub fn step(&mut self, input: Option<u8>) -> (r: Result<Step, RunError>)
        requires
            old(self).wf(),
        ensures
            final(self).wf(),
            old(self)@.ip >= old(self)@.program.len() ==> r == Ok::<Step, RunError>(Step::Finished)
                && final(self)@ == old(self)@,
            old(self)@.ip < old(self)@.program.len() ==> match step_spec(old(self)@, input) {
                Ok((m, out)) => r == Ok::<Step, RunError>(step_report(out)) && final(self)@ == m,
                Err(e) => r == Err::<Step, RunError>(e) && final(self)@ == old(self)@,
            },
    {
        if self.ip >= self.insns.len() {
            return Ok(Step::Finished);
        }
        let ip = self.ip;
        let dp = self.dp;
        let mut out: Option<char> = None;
        match self.insns[ip] {
            Token::Incptr => {
                if dp + 1 >= self.cells.len() {
                    return Err(RunError::MemoryOverflow);
                }
                self.dp = dp + 1;
            },
            Token::Decptr => {
                if dp == 0 {
                    return Err(RunError::MemoryUnderflow);
                }
                self.dp = dp - 1;
            },
            Token::Incbyte => {
                let v = self.cells[dp];
                let nv = if v == i64::MAX {
                    i64::MIN
                } else {
                    v + 1
                };
                self.cells.set(dp, nv);
            },
            Token::Decbyte => {
                let v = self.cells[dp];
                let nv = if v == i64::MIN {
                    i64::MAX
                } else {
                    v - 1
                };
                self.cells.set(dp, nv);
            },
            Token::Outbyte => {
                let v = self.cells[dp];
                if 0 <= v && v <= 0x10FFFF {
                    out = char_from_code(v as u32);
                    proof {
                        if let Some(c) = out {
                            let w = choose|w: char| #[trigger] (w as u32) == v;
                            vstd::utf8::char_u32_cast(w, v as u32);
                            vstd::utf8::char_u32_cast(c, v as u32);
                        }
                    }
                }
            },
            Token::Inbyte => {
                if let Some(b) = input {
                    self.cells.set(dp, b as i64);
                }
            },
            Token::Forward => {
                if self.cells[dp] == 0 {
                    self.ip = self.jumps[ip].unwrap();
                }
            },
            Token::Backward => {
                if self.cells[dp] != 0 {
                    self.ip = self.jumps[ip].unwrap();
                }
            },
        }
        self.ip = self.ip + 1;
        match out {
            Some(c) => Ok(Step::Emit(c)),
            None => Ok(Step::Continue),
        }
    }

    /// Runs from the current state until the program ends, an error halts
    /// it, or `max_steps` steps have run. Each `,` takes the next byte of
    /// `input`; once `input` is used up a `,` leaves its cell as it is.
    /// Returns everything emitted when the program ended.
    pub fn run_with_input(&mut self, input: &[u8], max_steps: u64) -> (r: Result<String, RunError>)
        requires
            old(self).wf(),
        ensures
            final(self).wf(),
            final(self)@ == run_spec(old(self)@, input@, max_steps as nat).0,
            match run_spec(old(self)@, input@, max_steps as nat).2 {
                Ok(()) => r matches Ok(s) && s@ == run_spec(old(self)@, input@, max_steps as nat).1,
                Err(e) => r == Err::<String, RunError>(e),
            },
    {
        let ghost total = run_spec(self@, input@, max_steps as nat);
        let mut out = String::new();
        let mut pos: usize = 0;
        let mut left: u64 = max_steps;
        assert(input@.skip(0) =~= input@);
        loop
            invariant
                self.wf(),
                total == run_spec(old(self)@, input@, max_steps as nat),
                pos <= input@.len(),
                total.0 == run_spec(self@, input@.skip(pos as int), left as nat).0,
                total.1 == out@ + run_spec(self@, input@.skip(pos as int), left as nat).1,
                total.2 == run_spec(self@, input@.skip(pos as int), left as nat).2,
            decreases left,
        {
            if self.ip >= self.insns.len() {
                assert(out@ + Seq::<char>::empty() =~= out@);
                return Ok(out);
            }
            if left == 0 {
                return Err(RunError::StepLimitReached);
            }
            let ghost before = self@;
            let ghost rest_in = input@.skip(pos as int);
            let byte = match self.insns[self.ip] {
                Token::Inbyte => if pos < input.len() {
                    let b = input[pos];
                    pos = pos + 1;
                    assert(rest_in.drop_first() =~= input@.skip(pos as int));
                    Some(b)
                } else {
                    None
                },
                _ => None,
            };
            match self.step(byte) {
                Err(e) => {
                    return Err(e);
                },
                Ok(Step::Emit(c)) => {
                    let ghost prev_out = out@;
                    push_char(&mut out, c);
                    assert(prev_out + (seq![c] + run_spec(self@, input@.skip(pos as int), (left - 1) as nat).1)
                        =~= out@ + run_spec(self@, input@.skip(pos as int), (left - 1) as nat).1);
                },
                Ok(_) => {
                    assert(Seq::<char>::empty() + run_spec(self@, input@.skip(pos as int), (left - 1) as nat).1
                        =~= run_spec(self@, input@.skip(pos as int), (left - 1) as nat).1);
                },
            }
            left = left - 1;
        }
    }

    /// The position of the next instruction to run.
    pub fn instruction_pointer(&self) -> (r: usize)
        ensures
            r == self@.ip,
    {
        self.ip
    }

    /// The position of the current cell.
    pub fn data_pointer(&self) -> (r: usize)
        ensures
            r == self@.dp,
    {
        self.dp
    }

    /// The cells of the tape.
    pub fn tape(&self) -> (r: &[i64])
        ensures
            r@ == self@.cells,
    {
        self.cells.as_slice()
    }

    /// The next instruction to run, or `None` once the program has ended.
    pub fn next_instruction(&self) -> (r: Option<Token>)
        ensures
            r == (if 0 <= self@.ip < self@.program.len() {
                Some(self@.program[self@.ip])
            } else {
                None
            }),
    {
        if self.ip < self.insns.len() {
            Some(self.insns[self.ip])
        } else {
            None
        }
    }
}

/// Two interpreters built from the same source text run alike: for any
/// input and any number of steps they end in the same state, emit the same
/// characters and end the same way.
pub proof fn lemma_same_source_same_run(
    code: Seq<char>,
    a: Machine,
    b: Machine,
    input: Seq<u8>,
    steps: nat,
)
    requires
        fresh(a, code),
        fresh(b, code),
    ensures
        run_spec(a, input, steps) == run_spec(b, input, steps),
{
    crate::jumps::lemma_jump_table_unique(a.program, a.jumps, b.jumps);
    assert(a == b);
}

} // verus!
