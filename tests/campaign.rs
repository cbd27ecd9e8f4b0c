use fuzz_suite::{
    crash_file_name, tagged_crash_file_name, Campaign, Fuzzer, Outcome, Phase, RandomFuzzer,
};

#[test]
fn crash_names() {
    assert_eq!(crash_file_name(0), "crash_0.txt");
    assert_eq!(crash_file_name(42), "crash_42.txt");
    assert_eq!(tagged_crash_file_name("run7", 1700000000), "crash_run7_1700000000.txt");
}

#[test]
fn single_passing_iteration() {
    let fuzzer = RandomFuzzer::new(5, 5, 65, 26);
    let mut campaign = Campaign::new(1);
    assert_eq!(campaign.phase(), Phase::Idle);
    campaign.start();
    assert_eq!(campaign.phase(), Phase::Running);
    let input = fuzzer.fuzz();
    assert_eq!(input.chars().count(), 5);
    assert!(input.chars().all(|c| ('A'..='Z').contains(&c)));
    let saved = campaign.record_execution(input, Outcome::Pass);
    assert_eq!(saved, None);
    campaign.record_coverage(0, 0);
    assert_eq!(campaign.phase(), Phase::Complete);
    assert_eq!(campaign.crashes().len(), 0);
    assert_eq!(campaign.series().len(), 1);
    assert_eq!(campaign.series()[0].iteration, 1);
}

#[test]
fn crashes_match_failing_inputs() {
    let fuzzer = RandomFuzzer::new(1, 4, 34, 3);
    let mut campaign = Campaign::new(10);
    campaign.start();
    let mut inputs = Vec::new();
    let mut files = Vec::new();
    for i in 0..10 {
        let input = fuzzer.fuzz();
        let outcome = if input.contains('#') { Outcome::Fail } else { Outcome::Pass };
        inputs.push(input.clone());
        if let Some(name) = campaign.record_execution(input, outcome) {
            assert_eq!(name, format!("crash_{}.txt", i));
            files.push(name);
        }
        campaign.record_coverage(i, 10);
    }
    assert_eq!(campaign.phase(), Phase::Complete);
    let with_hash: Vec<String> = inputs.into_iter().filter(|s| s.contains('#')).collect();
    assert_eq!(files.len(), with_hash.len());
    assert_eq!(campaign.crashes(), &with_hash);
    assert_eq!(campaign.series().len(), 10);
}

#[test]
fn empty_budget_completes_at_start() {
    let mut campaign = Campaign::new(0);
    campaign.start();
    assert_eq!(campaign.phase(), Phase::Complete);
    assert_eq!(campaign.iteration(), 0);
}
