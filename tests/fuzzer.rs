use fuzz_suite::{
    classify_execution, classify_status, Execution, Fuzzer, Outcome, PrintRunner, ProcessOutput,
    ProgramRunner, BinaryProgramRunner, RandomFuzzer, RunResult, Runner,
};

#[test]
fn test_random_fuzzer_output_length() {
    let fuzzer = RandomFuzzer::new(10, 20, 32, 32);
    let output = fuzzer.fuzz();
    assert!(output.len() >= 10 && output.len() <= 20);
}

#[test]
fn test_random_fuzzer_character_range() {
    let fuzzer = RandomFuzzer::new(100, 100, 65, 26);
    let output = fuzzer.fuzz();
    for c in output.chars() {
        assert!(c >= 'A' && c <= 'Z');
    }
}

#[test]
fn test_print_runner() {
    let runner = PrintRunner;
    let (result, outcome) = runner.run("test input");
    assert_eq!(outcome, Outcome::Unresolved);
    match result {
        RunResult::Echo(s) => assert_eq!(s, "test input"),
        other => panic!("unexpected payload {:?}", other),
    }
}

#[test]
fn test_multiple_runs() {
    let fuzzer = RandomFuzzer::default();
    let runner = PrintRunner;
    let results = fuzzer.runs(&runner, 5);
    assert_eq!(results.len(), 5);
}

#[test]
fn fixed_length_is_exact() {
    let fuzzer = RandomFuzzer::new(7, 7, 65, 26);
    for _ in 0..50 {
        assert_eq!(fuzzer.fuzz().chars().count(), 7);
    }
    let empty = RandomFuzzer::new(0, 0, 65, 26);
    assert_eq!(empty.fuzz(), "");
}

#[test]
fn characters_stay_in_range() {
    let fuzzer = RandomFuzzer::new(1, 40, 0x3b1, 5);
    for _ in 0..50 {
        for c in fuzzer.fuzz().chars() {
            assert!((c as u32) >= 0x3b1 && (c as u32) < 0x3b1 + 5);
        }
    }
}

#[test]
fn zero_range_repeats_first_code_point() {
    let fuzzer = RandomFuzzer::new(3, 3, 66, 0);
    assert_eq!(fuzzer.fuzz(), "BBB");
}

#[test]
fn invalid_code_points_become_spaces() {
    let surrogates = RandomFuzzer::new(6, 6, 0xD800, 16);
    assert_eq!(surrogates.fuzz(), "      ");
    let beyond = RandomFuzzer::new(2, 2, u32::MAX, 3);
    assert_eq!(beyond.fuzz(), "  ");
}

#[test]
fn classification_by_status() {
    assert_eq!(classify_status(Some(0)), Outcome::Pass);
    assert_eq!(classify_status(Some(1)), Outcome::Unresolved);
    assert_eq!(classify_status(Some(-3)), Outcome::Unresolved);
    assert_eq!(classify_status(None), Outcome::Fail);
}

#[test]
fn classification_of_execution() {
    let aborted = ProcessOutput { stdout: vec![], stderr: b"boom".to_vec(), code: None };
    let (payload, outcome) = classify_execution(Execution::Finished(aborted));
    assert_eq!(outcome, Outcome::Fail);
    match payload {
        RunResult::Process(o) => assert_eq!(o.stderr, b"boom".to_vec()),
        other => panic!("unexpected payload {:?}", other),
    }
    let ok = ProcessOutput { stdout: b"hi".to_vec(), stderr: vec![], code: Some(0) };
    assert_eq!(classify_execution(Execution::Finished(ok)).1, Outcome::Pass);
    let bad = ProcessOutput { stdout: vec![], stderr: vec![], code: Some(1) };
    assert_eq!(classify_execution(Execution::Finished(bad)).1, Outcome::Unresolved);
    let (payload, outcome) = classify_execution(Execution::NotStarted("No such file".to_string()));
    assert_eq!(outcome, Outcome::Fail);
    match payload {
        RunResult::SpawnError(m) => assert_eq!(m, "No such file"),
        other => panic!("unexpected payload {:?}", other),
    }
}

#[test]
fn hang_is_unresolved_and_marked() {
    let (payload, outcome) = classify_execution(Execution::TimedOut);
    assert_eq!(outcome, Outcome::Unresolved);
    assert!(matches!(payload, RunResult::TimedOut));
}

#[test]
fn program_runners_keep_their_program() {
    assert_eq!(ProgramRunner::new("cat").program(), "cat");
    assert_eq!(BinaryProgramRunner::new("./bin/target").program(), "./bin/target");
}
