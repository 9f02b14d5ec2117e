use kumoko::egress::{EgressAction, Outgoing, WriteOutcome};

#[test]
fn a_frame_is_written_across_partial_writes() {
    let mut out = Outgoing::new(&300i32);
    assert_eq!(out.remaining(), &[251, 0x58, 0x02]);
    assert_eq!(out.on_write(WriteOutcome::Wrote(1)), EgressAction::Write);
    assert_eq!(out.remaining(), &[0x58, 0x02]);
    assert_eq!(out.on_write(WriteOutcome::Wrote(2)), EgressAction::Done);
    assert!(out.remaining().is_empty());
}

#[test]
fn a_blocked_write_keeps_the_same_bytes() {
    let mut out = Outgoing::new(&15i32);
    assert_eq!(out.on_write(WriteOutcome::WouldBlock), EgressAction::Write);
    assert_eq!(out.remaining(), &[30]);
    assert_eq!(out.on_write(WriteOutcome::Wrote(1)), EgressAction::Done);
}

#[test]
fn a_gone_peer_stops_the_egress() {
    let mut out = Outgoing::new(&15i32);
    assert_eq!(out.on_write(WriteOutcome::BrokenPipe), EgressAction::Stop);
    assert_eq!(out.on_write(WriteOutcome::Wrote(0)), EgressAction::Stop);
    assert_eq!(out.remaining(), &[30]);
}

#[test]
fn other_write_errors_are_fatal() {
    let mut out = Outgoing::new(&15i32);
    assert_eq!(out.on_write(WriteOutcome::Failed), EgressAction::Fatal);
}
