//! Input generators, runners, and the classification of an execution's outcome.
use vstd::prelude::*;
use std::io::Write;
use rand::Rng;
use crate::text::push_char;

verus! {

/// How one execution ended.
#[derive(Debug, Clone, Copy, PartialEq, Eq, Structural)]
pub enum Outcome {
    /// Normal termination with status zero.
    Pass,
    /// Termination by a signal, or the target could not be started.
    Fail,
    /// Normal termination with a non-zero status.
    Unresolved,
}

/// What a process left behind: its captured streams and its exit code, which
/// is absent when a signal ended it.
#[derive(Debug, Clone)]
pub struct ProcessOutput {
    pub stdout: Vec<u8>,
    pub stderr: Vec<u8>,
    pub code: Option<i32>,
}

/// The payload of one execution.
#[derive(Debug, Clone)]
pub enum RunResult {
    /// The target ran; this is what it left behind.
    Process(ProcessOutput),
    /// The target could not be started; this describes why.
    SpawnError(String),
    /// The target outlived its time budget and was stopped.
    TimedOut,
    /// The input itself, handed back by a runner that only shows it.
    Echo(String),
}

/// How an attempt to run the target ended.
#[derive(Debug, Clone)]
pub enum Execution {
    /// The process terminated by itself.
    Finished(ProcessOutput),
    /// The process was stopped when its time budget ran out.
    TimedOut,
    /// The process could not be started; this describes why.
    NotStarted(String),
}

/// The outcome of a process that ended with `code` (absent: ended by a signal).
pub open spec fn outcome_of(code: Option<i32>) -> Outcome {
    match code {
        None => Outcome::Fail,
        Some(c) => if c == 0 {
            Outcome::Pass
        } else {
            Outcome::Unresolved
        },
    }
}

/// Classifies a process by its exit code: zero passes, a signal fails, any
/// other code is unresolved.
pub fn classify_status(code: Option<i32>) -> (r: Outcome)
    ensures
        r == outcome_of(code),
        code == Some(0i32) ==> r == Outcome::Pass,
        code is None ==> r == Outcome::Fail,
        (code is Some && code != Some(0i32)) ==> r == Outcome::Unresolved,
{
    match code {
        None => Outcome::Fail,
        Some(c) => if c == 0 {
            Outcome::Pass
        } else {
            Outcome::Unresolved
        },
    }
}

/// Classifies an attempt to run the target: a failure to start fails and
/// carries its description; a hang is unresolved and marked as such; otherwise
/// the exit code decides.
pub fn classify_execution(execution: Execution) -> (r: (RunResult, Outcome))
    ensures
        match execution {
            Execution::Finished(o) => r.0 == RunResult::Process(o) && r.1 == outcome_of(o.code),
            Execution::TimedOut => r.0 == RunResult::TimedOut && r.1 == Outcome::Unresolved,
            Execution::NotStarted(m) => r.0 == RunResult::SpawnError(m) && r.1 == Outcome::Fail,
        },
{
    match execution {
        Execution::Finished(o) => {
            let outcome = classify_status(o.code);
            (RunResult::Process(o), outcome)
        },
        Execution::TimedOut => (RunResult::TimedOut, Outcome::Unresolved),
        Execution::NotStarted(m) => (RunResult::SpawnError(m), Outcome::Fail),
    }
}

/// Runs one input against a target and classifies the result. Implementations
/// that start processes live with the caller, which owns the I/O.
pub trait Runner {
    fn run(&self, input: &str) -> (RunResult, Outcome);
}

/// Relies on `std::io::stdout` and `writeln!`: shows one line on standard output.
#[verifier::external_body]
fn print_line(s: &str) {
    let _ = writeln!(std::io::stdout(), "{}", s);
}

/// A runner that only shows its input and leaves the outcome unresolved.
pub struct PrintRunner;

impl Runner for PrintRunner {
    fn run(&self, input: &str) -> (RunResult, Outcome) {
        print_line(input);
        (RunResult::Echo(input.to_owned()), Outcome::Unresolved)
    }
}

/// A runner that starts the program by name with the input as its only argument.
pub struct ProgramRunner {
    program: String,
}

impl ProgramRunner {
    pub fn new(program: &str) -> (r: Self)
        ensures
            r.program_name() == program@,
    {
        ProgramRunner { program: program.to_owned() }
    }

    pub closed spec fn program_name(&self) -> Seq<char> {
        self.program@
    }

    /// The program to start.
    pub fn program(&self) -> (r: &str)
        ensures
            r@ == self.program_name(),
    {
        self.program.as_str()
    }
}

/// A runner for a compiled binary, started by path with the input as its only
/// argument.
pub struct BinaryProgramRunner {
    program: String,
}

impl BinaryProgramRunner {
    pub fn new(program: &str) -> (r: Self)
        ensures
            r.program_name() == program@,
    {
        BinaryProgramRunner { program: program.to_owned() }
    }

    pub closed spec fn program_name(&self) -> Seq<char> {
        self.program@
    }

    /// The binary to start.
    pub fn program(&self) -> (r: &str)
        ensures
            r@ == self.program_name(),
    {
        self.program.as_str()
    }
}

/// Produces candidate inputs and hands them to a runner.
pub trait Fuzzer {
    /// Whether `s` is an input this generator may produce.
    spec fn may_produce(&self, s: Seq<char>) -> bool;

    fn fuzz(&self) -> (r: String)
        ensures
            self.may_produce(r@),
    ;

    /// Runs one fresh input.
    fn run<R: Runner>(&self, runner: &R) -> (RunResult, Outcome) {
        let input = self.fuzz();
        runner.run(input.as_str())
    }

    /// Runs `trials` fresh inputs, one result each, in order.
    fn runs<R: Runner>(&self, runner: &R, trials: usize) -> (r: Vec<(RunResult, Outcome)>)
        ensures
            r@.len() == trials,
    {
        let mut out: Vec<(RunResult, Outcome)> = Vec::new();
        let mut i: usize = 0;
        while i < trials
            invariant
                i <= trials,
                out@.len() == i,
            decreases trials - i,
        {
            let one = self.run(runner);
            out.push(one);
            i = i + 1;
        }
        out
    }
}

/// Whether `v` is a Unicode scalar value.
pub open spec fn is_scalar(v: nat) -> bool {
    v <= 0xD7FF || (0xE000 <= v && v <= 0x10FFFF)
}

/// Relies on `char::from_u32`: the character with code point `v`, if `v` is one.
#[verifier::external_body]
fn char_from_code_point(v: u32) -> (r: Option<char>)
    ensures
        r is Some <==> is_scalar(v as nat),
        r is Some ==> r->0 as nat == v as nat,
{
    char::from_u32(v)
}

/// Relies on rand's `thread_rng().gen_range(lo..=hi)`: some value in `[lo, hi]`.
#[verifier::external_body]
fn random_in_inclusive(lo: usize, hi: usize) -> (r: usize)
    requires
        lo <= hi,
    ensures
        lo <= r <= hi,
{
    rand::thread_rng().gen_range(lo..=hi)
}

/// Relies on rand's `thread_rng().gen_range(lo..hi)`: some value in `[lo, hi)`.
#[verifier::external_body]
fn random_below(lo: u64, hi: u64) -> (r: u64)
    requires
        lo < hi,
    ensures
        lo <= r < hi,
{
    rand::thread_rng().gen_range(lo..hi)
}

/// The character a sampled code point becomes: itself if it is one, else a space.
pub open spec fn sampled_char(v: nat, c: char) -> bool {
    if is_scalar(v) {
        c as nat == v
    } else {
        c == ' '
    }
}

/// A generator of random strings: a length drawn from
/// `[min_length, max_length]`, each code point from
/// `[char_start, char_start + char_range)`, a space where a drawn code point is
/// not a character. A zero `char_range` draws `char_start` every time.
pub struct RandomFuzzer {
    min_length: usize,
    max_length: usize,
    char_start: u32,
    char_range: u32,
}

impl RandomFuzzer {
    #[verifier::type_invariant]
    spec fn lengths_ordered(&self) -> bool {
        self.min_length <= self.max_length
    }

    pub closed spec fn min_len(&self) -> nat {
        self.min_length as nat
    }

    pub closed spec fn max_len(&self) -> nat {
        self.max_length as nat
    }

    /// The first code point drawn from.
    pub closed spec fn first_code(&self) -> nat {
        self.char_start as nat
    }

    /// One past the last code point drawn from.
    pub closed spec fn end_code(&self) -> nat {
        if self.char_range == 0 {
            self.char_start as nat + 1
        } else {
            self.char_start as nat + self.char_range as nat
        }
    }

    /// Whether `c` can come from a code point this generator draws.
    pub open spec fn may_sample(&self, c: char) -> bool {
        exists|v: nat| self.first_code() <= v < self.end_code() && sampled_char(v, c)
    }

    pub fn new(min_length: usize, max_length: usize, char_start: u32, char_range: u32) -> (r: Self)
        requires
            min_length <= max_length,
        ensures
            r.min_len() == min_length,
            r.max_len() == max_length,
            r.first_code() == char_start,
            r.end_code() == if char_range == 0 {
                char_start + 1
            } else {
                char_start + char_range
            },
    {
        RandomFuzzer { min_length, max_length, char_start, char_range }
    }
}

impl Default for RandomFuzzer {
    fn default() -> (r: Self)
        ensures
            r.min_len() == 10,
            r.max_len() == 100,
            r.first_code() == 32,
            r.end_code() == 64,
    {
        RandomFuzzer { min_length: 10, max_length: 100, char_start: 32, char_range: 32 }
    }
}

impl Fuzzer for RandomFuzzer {
    open spec fn may_produce(&self, s: Seq<char>) -> bool {
        &&& self.min_len() <= s.len() <= self.max_len()
        &&& forall|i: int| 0 <= i < s.len() ==> self.may_sample(#[trigger] s[i])
    }

    fn fuzz(&self) -> (r: String) {
        proof {
            use_type_invariant(self);
        }
        let len = random_in_inclusive(self.min_length, self.max_length);
        let lo: u64 = self.char_start as u64;
        let hi: u64 = if self.char_range == 0 {
            lo + 1
        } else {
            lo + self.char_range as u64
        };
        let mut s = String::new();
        let mut i: usize = 0;
        while i < len
            invariant
                i <= len,
                self.min_len() <= len <= self.max_len(),
                lo == self.first_code(),
                hi == self.end_code(),
                s@.len() == i,
                forall|k: int| 0 <= k < s@.len() ==> self.may_sample(#[trigger] s@[k]),
            decreases len - i,
        {
            let v = random_below(lo, hi);
            let c = if v <= 0xffff_ffff {
                match char_from_code_point(v as u32) {
                    Some(c) => c,
                    None => ' ',
                }
            } else {
                ' '
            };
            assert(sampled_char(v as nat, c));
            let ghost prev = s@;
            push_char(&mut s, c);
            assert forall|k: int| 0 <= k < s@.len() implies self.may_sample(#[trigger] s@[k]) by {
                if k < prev.len() {
                    assert(s@[k] == prev[k]);
                } else {
                    assert(s@[k] == c);
                    assert(self.first_code() <= v as nat && (v as nat) < self.end_code()
                        && sampled_char(v as nat, s@[k]));
                }
            }
            i = i + 1;
        }
        assert(self.min_len() <= s@.len() <= self.max_len());
        assert(forall|k: int| 0 <= k < s@.len() ==> self.may_sample(#[trigger] s@[k]));
        assert(self.may_produce(s@));
        s
    }
}

/// A generator whose shortest and longest lengths agree produces inputs of
/// exactly that length.
pub proof fn lemma_fixed_length(f: RandomFuzzer, s: Seq<char>)
    requires
        f.min_len() == f.max_len(),
        f.may_produce(s),
    ensures
        s.len() == f.min_len(),
{
}

/// Where every code point of a generator's range is a character, every
/// character it produces has a code point in that range.
pub proof fn lemma_chars_in_range(f: RandomFuzzer, s: Seq<char>)
    requires
        forall|v: nat| f.first_code() <= v < f.end_code() ==> is_scalar(v),
        f.may_produce(s),
    ensures
        forall|i: int| 0 <= i < s.len() ==> f.first_code() <= (#[trigger] s[i]) as nat && (
        s[i] as nat) < f.end_code(),
{
    assert forall|i: int| 0 <= i < s.len() implies f.first_code() <= (#[trigger] s[i]) as nat && (
    s[i] as nat) < f.end_code() by {
        assert(f.may_sample(s[i]));
        let v = choose|v: nat| f.first_code() <= v < f.end_code() && sampled_char(v, s[i]);
        assert(is_scalar(v));
    }
}

} // verus!
