use waitfile::coordinator::{Action, Coordinator, Recv};
use waitfile::paths::absolute_path;
use waitfile::report::{all_resolved_line, success_line};
use waitfile::waiter::{waiter_message, ProbeOutcome};

fn bytes(s: &str) -> Vec<u8> {
    s.as_bytes().to_vec()
}

#[test]
fn counts_each_success_once_in_any_order() {
    // Three paths resolve, in an order unlike the request order.
    let arrivals = vec![bytes("/w/c"), bytes("/w/a"), bytes("/w/b")];
    let mut coord = Coordinator::new(3);
    let mut printed: Vec<Vec<u8>> = Vec::new();
    while coord.pending() {
        let event = Recv::Message(arrivals[printed.len()].clone());
        match coord.receive(event) {
            Action::PrintExists(p) => printed.push(p),
            Action::Abort => panic!("no disconnect was delivered"),
        }
    }
    assert!(coord.all_resolved());
    // Exactly one line per path, in arrival order.
    assert_eq!(printed, arrivals);
}

#[test]
fn disconnect_asks_for_abort() {
    let mut coord = Coordinator::new(2);
    assert!(coord.pending());
    assert_eq!(coord.receive(Recv::Disconnected), Action::Abort);
    // A disconnect resolves nothing.
    assert!(coord.pending());
    assert!(!coord.all_resolved());
}

#[test]
fn ready_probe_emits_the_path() {
    assert_eq!(
        waiter_message(bytes("/w/a.txt"), ProbeOutcome::Ready),
        Some(bytes("/w/a.txt"))
    );
}

#[test]
fn failed_probe_emits_nothing() {
    assert_eq!(waiter_message(bytes("/w/a.txt"), ProbeOutcome::Failed), None);
}

#[test]
fn one_failed_probe_keeps_the_rest_waiting() {
    // Two paths; one probe errors definitively, the other resolves.
    let probes = vec![ProbeOutcome::Failed, ProbeOutcome::Ready];
    let paths = vec![bytes("/w/a"), bytes("/w/b")];
    let mut coord = Coordinator::new(2);
    let mut printed: Vec<Vec<u8>> = Vec::new();
    for (path, probe) in paths.into_iter().zip(probes.into_iter()) {
        if let Some(msg) = waiter_message(path, probe) {
            match coord.receive(Recv::Message(msg)) {
                Action::PrintExists(p) => printed.push(p),
                Action::Abort => unreachable!(),
            }
        }
    }
    // The failed path was never reported: the count stays short of
    // two and the closing notice is never owed.
    assert_eq!(printed, vec![bytes("/w/b")]);
    assert!(coord.pending());
    assert!(!coord.all_resolved());
}

#[test]
fn one_silent_path_keeps_waiting() {
    // Two paths; one simply never becomes readable, so its waiter
    // never reports. The count stays short of two: the drain loop
    // never exits.
    let mut coord = Coordinator::new(2);
    match coord.receive(Recv::Message(bytes("/w/a"))) {
        Action::PrintExists(p) => assert_eq!(p, bytes("/w/a")),
        Action::Abort => unreachable!(),
    }
    assert!(coord.pending());
    assert!(!coord.all_resolved());
}

#[test]
fn success_line_appends_marker() {
    assert_eq!(success_line(&bytes("/w/a.txt")), bytes("/w/a.txt exists!"));
}

#[test]
fn closing_notice_text() {
    assert_eq!(all_resolved_line(), bytes("all files now exist"));
}

#[test]
fn two_files_end_to_end() {
    // Inputs `a.txt` and `b.txt`, both created: two resolution lines
    // in creation order, the closing notice, and a clean exit.
    let inputs = ["a.txt", "b.txt"];
    let cwd = bytes("/work");
    let resolved: Vec<Vec<u8>> = inputs
        .iter()
        .map(|p| absolute_path(&cwd, &bytes(p)))
        .collect();
    assert_eq!(resolved, vec![bytes("/work/a.txt"), bytes("/work/b.txt")]);

    let mut coord = Coordinator::new(inputs.len());
    let mut lines: Vec<Vec<u8>> = Vec::new();
    for path in resolved {
        let msg = waiter_message(path, ProbeOutcome::Ready).unwrap();
        match coord.receive(Recv::Message(msg)) {
            Action::PrintExists(p) => lines.push(success_line(&p)),
            Action::Abort => unreachable!(),
        }
    }
    assert!(!coord.pending());
    assert!(coord.all_resolved());
    assert_eq!(
        lines,
        vec![bytes("/work/a.txt exists!"), bytes("/work/b.txt exists!")]
    );
    assert_eq!(all_resolved_line(), bytes("all files now exist"));
}
