use pingsweep::errors::SweepError;
use pingsweep::probe::{build_probe_command, interpret_probe_output, probe_outcome, ProbeOutcome};
use pingsweep::range::targets_in_range;
use pingsweep::sweep::{aggregate, ProbeRecord};

/// A deterministic stub check: reachable exactly when the target is named.
fn stub_verdict(reachable: &[&str], target: &str) -> Result<bool, SweepError> {
    Ok(reachable.contains(&target))
}

fn run_sweep(
    targets: &[String],
    check: impl Fn(&str) -> Result<bool, SweepError>,
) -> Vec<ProbeRecord> {
    let mut records = Vec::new();
    for target in targets {
        records.push(ProbeRecord {
            target: target.clone(),
            outcome: probe_outcome(check(target)),
        });
    }
    records
}

#[test]
fn probe_command_names_the_target() {
    assert_eq!(
        build_probe_command("10.0.0.1"),
        "Test-NetConnection 10.0.0.1 | Select -ExpandProperty \"PingSucceeded\"| echo"
    );
}

#[test]
fn output_true_or_false_is_a_verdict() {
    assert_eq!(interpret_probe_output("True\r\n"), Ok(true));
    assert_eq!(interpret_probe_output("False\r\n"), Ok(false));
    assert_eq!(interpret_probe_output("True\n"), Ok(true));
    assert_eq!(interpret_probe_output("True"), Ok(true));
    assert_eq!(interpret_probe_output("False"), Ok(false));
}

#[test]
fn unrecognized_output_is_a_probe_error() {
    assert_eq!(interpret_probe_output(""), Err(SweepError::ProbeExecutionError));
    assert_eq!(interpret_probe_output("true\r\n"), Err(SweepError::ProbeExecutionError));
    assert_eq!(interpret_probe_output("Maybe\r\n"), Err(SweepError::ProbeExecutionError));
    assert_eq!(interpret_probe_output("True False"), Err(SweepError::ProbeExecutionError));
    assert_eq!(interpret_probe_output("True\r\nTrue\r\n"), Err(SweepError::ProbeExecutionError));
}

#[test]
fn verdicts_become_outcomes() {
    assert!(matches!(probe_outcome(Ok(true)), ProbeOutcome::Reachable));
    assert!(matches!(probe_outcome(Ok(false)), ProbeOutcome::Unreachable));
    match probe_outcome(Err(SweepError::ProbeExecutionError)) {
        ProbeOutcome::ProbeFailed(reason) => {
            assert_eq!(reason, SweepError::ProbeExecutionError.message());
        },
        _ => panic!("a failed check must yield ProbeFailed"),
    }
}

#[test]
fn error_messages_name_each_failure() {
    assert_eq!(
        SweepError::InvalidInputCombination.message(),
        "wrong arguments: supply exactly one input method"
    );
    assert_eq!(SweepError::AddressParseError.message(), "not a valid IPv4 address");
    assert_eq!(SweepError::FileReadError.message(), "the target file could not be read");
    assert_eq!(
        SweepError::ProbeExecutionError.message(),
        "the reachability check could not be run or understood"
    );
}

#[test]
fn reachable_set_follows_the_stub_exactly() {
    let targets = vec!["A".to_string(), "B".to_string()];
    let records = run_sweep(&targets, |t| stub_verdict(&["A"], t));
    let report = aggregate(&records);
    assert_eq!(report.reachable, vec!["A"]);
    assert_eq!(report.failed, Vec::<String>::new());

    // the same stub with the opposite issue order
    let reversed = vec!["B".to_string(), "A".to_string()];
    let records = run_sweep(&reversed, |t| stub_verdict(&["A"], t));
    let report = aggregate(&records);
    assert_eq!(report.reachable, vec!["A"]);
}

#[test]
fn one_launch_failure_is_isolated() {
    let targets: Vec<String> = (0..10).map(|i| format!("host{}", i)).collect();
    let records = run_sweep(&targets, |t| {
        if t == "host3" {
            Err(SweepError::ProbeExecutionError)
        } else {
            stub_verdict(&["host0", "host5", "host9"], t)
        }
    });
    let report = aggregate(&records);
    assert_eq!(report.reachable, vec!["host0", "host5", "host9"]);
    assert_eq!(report.failed, vec!["host3"]);
}

#[test]
fn sweeping_twice_is_idempotent() {
    let targets: Vec<String> = (0..6).map(|i| format!("10.1.0.{}", i)).collect();
    let stub = |t: &str| stub_verdict(&["10.1.0.2", "10.1.0.4"], t);
    let first = aggregate(&run_sweep(&targets, stub));
    let second = aggregate(&run_sweep(&targets, stub));
    assert_eq!(first.reachable, second.reachable);
    assert_eq!(first.failed, second.failed);
}

#[test]
fn range_sweep_reports_the_one_reachable_address() {
    let targets = targets_in_range("10.0.0.1", "10.0.0.3").unwrap();
    let records = run_sweep(&targets, |t| stub_verdict(&["10.0.0.2"], t));
    let report = aggregate(&records);
    assert_eq!(report.reachable, vec!["10.0.0.2"]);
    assert_eq!(report.failed, Vec::<String>::new());
}
