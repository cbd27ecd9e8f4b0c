//! Source languages, compiler settings, and the command line for an instrumented build.
use vstd::prelude::*;
use crate::text::{chars_of, split_on, split_ranges, lemma_split_on_nonempty};

verus! {

/// The source languages the harness can instrument.
#[derive(Debug, Clone, Copy, PartialEq, Eq, Structural)]
pub enum Language {
    C,
    Cpp,
}

/// The compiler driver conventionally used for a language.
pub open spec fn compiler_name_of(l: Language) -> Seq<char> {
    match l {
        Language::C => "clang"@,
        Language::Cpp => "clang++"@,
    }
}

/// The language that a file extension (without its dot) stands for.
pub open spec fn language_of_extension(e: Seq<char>) -> Option<Language> {
    if e == seq!['c'] {
        Some(Language::C)
    } else if e == seq!['c', 'p', 'p'] || e == seq!['c', 'c'] || e == seq!['c', 'x', 'x'] {
        Some(Language::Cpp)
    } else {
        None
    }
}

/// `p` without its trailing slashes.
pub open spec fn trim_trailing_slashes(p: Seq<char>) -> Seq<char>
    decreases p.len(),
{
    if p.len() > 0 && p.last() == '/' {
        trim_trailing_slashes(p.drop_last())
    } else {
        p
    }
}

/// The last component of a path, ignoring trailing slashes.
pub open spec fn file_name(p: Seq<char>) -> Seq<char> {
    split_on(trim_trailing_slashes(p), '/').last()
}

/// The extension of a path as `Path::extension` gives it: the text after the last
/// dot of the file name, where that dot is not the name's first character; `..`
/// has none.
pub open spec fn extension(p: Seq<char>) -> Option<Seq<char>> {
    let n = file_name(p);
    let parts = split_on(n, '.');
    if n == seq!['.', '.'] || parts.len() < 2 || n.len() == parts.last().len() + 1 {
        None
    } else {
        Some(parts.last())
    }
}

/// The language of a source path, decided by its extension.
pub open spec fn language_of_path(p: Seq<char>) -> Option<Language> {
    match extension(p) {
        Some(e) => language_of_extension(e),
        None => None,
    }
}

impl Language {
    /// The compiler driver for this language.
    pub fn compiler_name(&self) -> (r: &'static str)
        ensures
            r@ == compiler_name_of(*self),
    {
        match self {
            Language::C => "clang",
            Language::Cpp => "clang++",
        }
    }

    /// The language that an extension such as `cpp` stands for.
    pub fn from_extension(ext: &str) -> (r: Option<Language>)
        ensures
            r == language_of_extension(ext@),
    {
        let cs = chars_of(ext);
        assert(cs@.subrange(0, cs@.len() as int) =~= ext@);
        language_in_range(&cs, 0, cs.len())
    }
}

fn language_in_range(cs: &Vec<char>, lo: usize, hi: usize) -> (r: Option<Language>)
    requires
        lo <= hi <= cs@.len(),
    ensures
        r == language_of_extension(cs@.subrange(lo as int, hi as int)),
{
    let ghost e = cs@.subrange(lo as int, hi as int);
    let n = hi - lo;
    if n == 1 && cs[lo] == 'c' {
        assert(e =~= seq!['c']);
        return Some(Language::C);
    }
    if n == 2 && cs[lo] == 'c' && cs[lo + 1] == 'c' {
        assert(e =~= seq!['c', 'c']);
        return Some(Language::Cpp);
    }
    if n == 3 && cs[lo] == 'c' && ((cs[lo + 1] == 'p' && cs[lo + 2] == 'p') || (cs[lo + 1] == 'x'
        && cs[lo + 2] == 'x')) {
        if cs[lo + 1] == 'p' {
            assert(e =~= seq!['c', 'p', 'p']);
        } else {
            assert(e =~= seq!['c', 'x', 'x']);
        }
        return Some(Language::Cpp);
    }
    proof {
        assert(e.len() == n);
        if n >= 1 {
            assert(e[0] == cs@[lo as int]);
        }
        if n >= 2 {
            assert(e[1] == cs@[lo + 1]);
        }
        if n >= 3 {
            assert(e[2] == cs@[lo + 2]);
        }
        assert(seq!['c'].len() == 1 && seq!['c'][0] == 'c');
        assert(seq!['c', 'c'].len() == 2 && seq!['c', 'c'][1] == 'c');
        assert(seq!['c', 'p', 'p'][1] == 'p' && seq!['c', 'p', 'p'][2] == 'p');
        assert(seq!['c', 'x', 'x'][1] == 'x' && seq!['c', 'x', 'x'][2] == 'x');
    }
    None
}

/// The index range of a path's extension within `cs`, if it has one.
#[verifier::rlimit(30)]
pub(crate) fn extension_range(cs: &Vec<char>) -> (r: Option<(usize, usize)>)
    ensures
        match r {
            Some((a, b)) => a <= b <= cs@.len() && extension(cs@) == Some(
                cs@.subrange(a as int, b as int),
            ),
            None => extension(cs@) is None,
        },
{
    let mut hi: usize = cs.len();
    assert(cs@.subrange(0, hi as int) =~= cs@);
    while hi > 0 && cs[hi - 1] == '/'
        invariant
            hi <= cs@.len(),
            trim_trailing_slashes(cs@.subrange(0, hi as int)) == trim_trailing_slashes(cs@),
        decreases hi,
    {
        assert(cs@.subrange(0, hi as int).drop_last() =~= cs@.subrange(0, hi - 1));
        hi = hi - 1;
    }
    let ghost t = cs@.subrange(0, hi as int);
    assert(trim_trailing_slashes(t) == t);
    let comps = split_ranges(cs, 0, hi, '/');
    proof {
        lemma_split_on_nonempty(t, '/');
    }
    let (a, b) = comps[comps.len() - 1];
    let ghost n = cs@.subrange(a as int, b as int);
    assert(n == file_name(cs@));
    let parts = split_ranges(cs, a, b, '.');
    proof {
        lemma_split_on_nonempty(n, '.');
    }
    let (c, d) = parts[parts.len() - 1];
    if b - a == 2 && cs[a] == '.' && cs[a + 1] == '.' {
        assert(n =~= seq!['.', '.']);
        return None;
    }
    assert(n != seq!['.', '.']) by {
        if n == seq!['.', '.'] {
            assert(n[0] == cs@[a as int] && n[1] == cs@[a + 1]);
        }
    }
    if parts.len() < 2 || (b - a) - (d - c) == 1 {
        return None;
    }
    Some((c, d))
}

/// The language of a source file, from its extension.
pub fn detect_language(source_file: &str) -> (r: Option<Language>)
    ensures
        r == language_of_path(source_file@),
{
    let cs = chars_of(source_file);
    match extension_range(&cs) {
        Some((a, b)) => language_in_range(&cs, a, b),
        None => None,
    }
}

/// The text of each string in `v`.
pub open spec fn texts(v: Seq<String>) -> Seq<Seq<char>> {
    v.map_values(|x: String| x@)
}

/// How an instrumented build of a C or C++ source is made.
#[derive(Debug, Clone)]
pub struct CompilerConfig {
    pub language: Language,
    pub compiler_path: String,
    pub optimization_level: String,
    pub extra_flags: Vec<String>,
}

impl Default for CompilerConfig {
    fn default() -> (r: Self)
        ensures
            r.language == Language::C,
            r.compiler_path@ == "clang"@,
            r.optimization_level@ == "-O0"@,
            r.extra_flags@.len() == 0,
    {
        CompilerConfig {
            language: Language::C,
            compiler_path: "clang".to_owned(),
            optimization_level: "-O0".to_owned(),
            extra_flags: Vec::new(),
        }
    }
}

impl CompilerConfig {
    /// Settings for `language`, with its usual compiler, no optimisation and no
    /// extra flags.
    pub fn new(language: Language) -> (r: Self)
        ensures
            r.language == language,
            r.compiler_path@ == compiler_name_of(language),
            r.optimization_level@ == "-O0"@,
            r.extra_flags@.len() == 0,
    {
        CompilerConfig {
            language,
            compiler_path: language.compiler_name().to_owned(),
            optimization_level: "-O0".to_owned(),
            extra_flags: Vec::new(),
        }
    }

    /// The same settings with `flags` added after the existing extra flags.
    pub fn with_flags(self, flags: Vec<String>) -> (r: Self)
        ensures
            r.language == self.language,
            r.compiler_path == self.compiler_path,
            r.optimization_level == self.optimization_level,
            r.extra_flags@ == self.extra_flags@ + flags@,
    {
        let mut cfg = self;
        let mut flags = flags;
        cfg.extra_flags.append(&mut flags);
        cfg
    }

    /// The same settings with the optimisation flag replaced by `level`.
    pub fn with_optimization(self, level: &str) -> (r: Self)
        ensures
            r.language == self.language,
            r.compiler_path == self.compiler_path,
            r.optimization_level@ == level@,
            r.extra_flags == self.extra_flags,
    {
        let mut cfg = self;
        cfg.optimization_level = level.to_owned();
        cfg
    }

    /// The arguments that build `source_file` into `output_file` with coverage
    /// instrumentation: the source, `-o` and the output, the optimisation flag,
    /// the three coverage flags, then the extra flags.
    pub fn coverage_args(&self, source_file: &str, output_file: &str) -> (r: Vec<String>)
        ensures
            texts(r@) == seq![
                source_file@,
                "-o"@,
                output_file@,
                self.optimization_level@,
                "--coverage"@,
                "-fprofile-instr-generate"@,
                "-fcoverage-mapping"@,
            ] + texts(self.extra_flags@),
    {
        let mut r: Vec<String> = Vec::new();
        r.push(source_file.to_owned());
        r.push("-o".to_owned());
        r.push(output_file.to_owned());
        r.push(self.optimization_level.clone());
        r.push("--coverage".to_owned());
        r.push("-fprofile-instr-generate".to_owned());
        r.push("-fcoverage-mapping".to_owned());
        let ghost head = texts(r@);
        let mut i: usize = 0;
        while i < self.extra_flags.len()
            invariant
                i <= self.extra_flags@.len(),
                r@.len() == 7 + i,
                texts(r@) == head + texts(self.extra_flags@).take(i as int),
            decreases self.extra_flags@.len() - i,
        {
            let ghost prev = r@;
            r.push(self.extra_flags[i].clone());
            assert(r@ == prev.push(self.extra_flags@[i as int]));
            assert(texts(r@) =~= texts(prev).push(self.extra_flags@[i as int]@));
            assert(texts(self.extra_flags@).take(i + 1) =~= texts(self.extra_flags@).take(
                i as int,
            ).push(self.extra_flags@[i as int]@));
            i = i + 1;
        }
        assert(texts(self.extra_flags@).take(i as int) =~= texts(self.extra_flags@));
        assert(head =~= seq![
            source_file@,
            "-o"@,
            output_file@,
            self.optimization_level@,
            "--coverage"@,
            "-fprofile-instr-generate"@,
            "-fcoverage-mapping"@,
        ]);
        r
    }
}

} // verus!
