// SPDX-License-Identifier: Apache-2.0
use openmso::server::{Args, USAGE};
use openmso::Error;

fn strings(args: &[&str]) -> Vec<String> {
    args.iter().map(|a| a.to_string()).collect()
}

fn fault(args: &[&str]) -> String {
    match Args::parse(strings(args)) {
        Err(Error::Protocol(text)) => text,
        other => panic!("no protocol error: {other:?}"),
    }
}

#[test]
fn argv_is_the_three_urls_in_either_notation() {
    let args = Args::parse(
        ["--device", "demo://0", "--control", "ipc:///t/c", "--events", "ipc:///t/e"]
            .map(String::from)
            .to_vec(),
    )
    .unwrap();
    assert_eq!(args.device, "demo://0");
    assert_eq!(args.control, "ipc:///t/c");
    assert_eq!(args.events, "ipc:///t/e");

    let args = Args::parse(
        ["--device=demo://0", "--control=ipc:///t/c", "--events=ipc:///t/e"]
            .map(String::from)
            .to_vec(),
    )
    .unwrap();
    assert_eq!(args.device, "demo://0");
}

#[test]
fn incomplete_argv_is_refused_rather_than_defaulted() {
    assert!(Args::parse(["--device".to_string(), "demo://0".to_string()].to_vec()).is_err());
    assert!(Args::parse(["--device".to_string()].to_vec()).is_err());
    assert!(Args::parse(["--wat=1".to_string()].to_vec()).is_err());
}

#[test]
fn parses_both_flag_notations() {
    let args = Args::parse(
        ["--device", "demo://0", "--control", "ipc:///t/c", "--events", "ipc:///t/e"]
            .map(String::from)
            .to_vec(),
    )
    .unwrap();
    assert_eq!(args.device, "demo://0");
    assert_eq!(args.control, "ipc:///t/c");
    assert_eq!(args.events, "ipc:///t/e");

    let args = Args::parse(
        ["--device=demo://0", "--control=ipc:///t/c", "--events=ipc:///t/e"]
            .map(String::from)
            .to_vec(),
    )
    .unwrap();
    assert_eq!(args.device, "demo://0");
}

#[test]
fn incomplete_argv_is_refused() {
    assert!(Args::parse(["--device".to_string(), "demo://0".to_string()].to_vec()).is_err());
    assert!(Args::parse(["--device".to_string()].to_vec()).is_err());
    assert!(Args::parse(["--wat=1".to_string()].to_vec()).is_err());
}

#[test]
fn each_fault_of_an_argv_says_what_it_is() {
    assert_eq!(fault(&["--device", "d"]), format!("missing arguments; usage: {USAGE}"));
    assert_eq!(fault(&["--control"]), "--control needs a value");
    assert_eq!(
        fault(&["--wa\"t=1"]),
        format!("unknown argument \"--wa\\\"t\"; usage: {USAGE}")
    );
    assert_eq!(USAGE, "--device URL --control URL --events URL");
}

#[test]
fn the_last_of_two_counts_and_values_may_hold_anything() {
    let args = Args::parse(strings(&[
        "--device=a", "--events", "--control", "--control=x=y", "--device", "b",
    ]))
    .unwrap();
    assert_eq!(args.device, "b");
    assert_eq!(args.events, "--control");
    assert_eq!(args.control, "x=y");
}
