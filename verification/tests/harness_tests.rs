use woodpecker::bits::BitMem;
use woodpecker::challenge::{run_trial, run_trials, Outcome};
use woodpecker::cpu::{Command, Cpu};
use woodpecker::error::{ExecutionError, ParseError};
use woodpecker::solve;

fn bit_pattern(bits: &[bool]) -> BitMem {
    let mut m = BitMem::zeros(bits.len());
    for (i, b) in bits.iter().enumerate() {
        m.set(i, *b);
    }
    m
}

#[test]
fn run_trial_grades_the_window_after_the_input() {
    // input one bit; the program moves past it and flips the next bit
    let mut cpu = Cpu::new(16, vec![Command::Inc(1), Command::Inv]);
    let input = bit_pattern(&[true]);
    let actual = run_trial(&mut cpu, &input, 1);
    assert_eq!(actual, vec![true]);
}

#[test]
fn run_trial_resets_between_trials() {
    let mut cpu = Cpu::new(16, vec![Command::Inc(1), Command::Inv]);
    let input = bit_pattern(&[true]);
    let first = run_trial(&mut cpu, &input, 1);
    let second = run_trial(&mut cpu, &input, 1);
    assert_eq!(first, second);
}

#[test]
fn faulted_trial_keeps_the_memory_it_reached() {
    // the second instruction faults; the first already flipped bit 1
    let mut cpu = Cpu::new(8, vec![Command::Inc(1), Command::Inv, Command::Inc(100), Command::Inv]);
    let input = bit_pattern(&[false]);
    let actual = run_trial(&mut cpu, &input, 2);
    assert_eq!(actual, vec![true, false]);
}

#[test]
fn run_trials_passes_a_correct_program() {
    // expected output: the bit right after the empty input region, set
    let mut cpu = Cpu::new(16, vec![Command::Inv]);
    let problems = vec![
        (bit_pattern(&[]), bit_pattern(&[true])),
        (bit_pattern(&[]), bit_pattern(&[true])),
    ];
    assert_eq!(run_trials(&mut cpu, &problems), Outcome::Pass);
}

#[test]
fn all_zero_output_fails_on_the_first_nonzero_expectation() {
    // the empty program leaves the window all zero; the first trial wants
    // zero and passes, the second wants a set bit and fails
    let mut cpu = Cpu::new(16, vec![]);
    let problems = vec![
        (bit_pattern(&[]), bit_pattern(&[false])),
        (bit_pattern(&[true]), bit_pattern(&[true, false])),
        (bit_pattern(&[]), bit_pattern(&[true])),
    ];
    match run_trials(&mut cpu, &problems) {
        Outcome::Fail { trial, input, actual, expected } => {
            assert_eq!(trial, 1);
            assert_eq!(input, vec![true]);
            assert_eq!(actual, vec![false, false]);
            assert_eq!(expected, vec![true, false]);
        }
        other => panic!("unexpected outcome: {:?}", other),
    }
}

#[test]
fn solve_rejects_malformed_sources() {
    let lines = vec!["INC".to_string(), "XYZ".to_string()];
    match solve(0, &lines, 1) {
        Err(ExecutionError::ParseError(ParseError::CommandParseError { cmd, line })) => {
            assert_eq!(cmd, "XYZ");
            assert_eq!(line, 1);
        }
        other => panic!("unexpected result: {:?}", other),
    }
}

#[test]
fn solve_rejects_unknown_challenges() {
    let lines = vec!["INC".to_string()];
    match solve(42, &lines, 1) {
        Err(ExecutionError::ChallengeError(_)) => {}
        other => panic!("unexpected result: {:?}", other),
    }
}

#[test]
fn solve_reports_a_genuine_failure() {
    // a program that computes nothing fails the xor challenge on the
    // first trial whose expected output is a set bit
    let lines = vec!["INV".to_string()];
    match solve(0, &lines, 123) {
        Ok(Outcome::Fail { input, actual, expected, .. }) => {
            assert_eq!(actual, vec![false]);
            assert_eq!(expected, vec![input[0] != input[1]]);
            assert_eq!(expected, vec![true]);
        }
        other => panic!("unexpected result: {:?}", other),
    }
}

#[test]
fn solve_accepts_a_size_declaration() {
    let lines = vec!["mem: 128".to_string(), "INV".to_string()];
    match solve(0, &lines, 5) {
        Ok(_) => {}
        other => panic!("unexpected result: {:?}", other),
    }
}

#[test]
fn fixed_seed_replay_is_identical() {
    let lines = vec!["INV".to_string()];
    for seed in [0u64, 1, 99, 123456789] {
        let first = solve(0, &lines, seed);
        let second = solve(0, &lines, seed);
        assert_eq!(first, second);
    }
    let lines = vec!["INC 2".to_string(), "LOAD".to_string()];
    let first = solve(3, &lines, 7);
    let second = solve(3, &lines, 7);
    assert_eq!(first, second);
}
