//! A coverage-tracked test-generation harness: input generators, outcome
//! classification, coverage aggregation and LCOV reports.
use vstd::prelude::*;

pub mod text;
pub mod compiler;
pub mod coverage;
pub mod order;
pub mod report;
pub mod fuzzer;
pub mod campaign;

pub use compiler::{CompilerConfig, Language, detect_language};
pub use coverage::{
    Coverage, CoverageData, Location, BranchInfo, FunctionInfo, count_lines, count_total_lines,
};
pub use report::{render_lcov, format_source_with_coverage};
pub use fuzzer::{
    Outcome, RunResult, ProcessOutput, Execution, Runner, PrintRunner, ProgramRunner, BinaryProgramRunner,
    Fuzzer, RandomFuzzer, classify_status, classify_execution,
};
pub use campaign::{Campaign, Phase, CoveragePoint, crash_file_name, tagged_crash_file_name};

verus! {

/// Where coverage artefacts go and where the sources to measure are.
#[derive(Debug, Clone)]
pub struct CoverageConfig {
    pub output_dir: String,
    pub source_dir: String,
    pub profile_data: String,
    pub compiler: CompilerConfig,
}

impl Default for CoverageConfig {
    fn default() -> (r: Self)
        ensures
            r.output_dir@ == "coverage"@,
            r.source_dir@ == "src"@,
            r.profile_data@ == "coverage.profdata"@,
            r.compiler.language == Language::C,
            r.compiler.compiler_path@ == "clang"@,
            r.compiler.optimization_level@ == "-O0"@,
            r.compiler.extra_flags@.len() == 0,
    {
        CoverageConfig {
            output_dir: "coverage".to_owned(),
            source_dir: "src".to_owned(),
            profile_data: "coverage.profdata".to_owned(),
            compiler: CompilerConfig::default(),
        }
    }
}

} // verus!
