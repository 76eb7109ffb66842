use silentcmd::dispatch::{CommandPair, Dispatcher};

#[test]
fn rapid_events_run_in_order_one_at_a_time() {
    let mut d = Dispatcher::new();
    d.push(true);
    d.push(false);
    d.push(true);
    assert_eq!(d.pending_len(), 3);
    assert_eq!(d.next_command(), Some(true));
    // the command for `true` is still running: nothing else may start
    assert_eq!(d.next_command(), None);
    assert_eq!(d.next_command(), None);
    d.finish(true);
    assert_eq!(d.next_command(), Some(false));
    assert_eq!(d.next_command(), None);
    d.finish(true);
    assert_eq!(d.next_command(), Some(true));
    d.finish(true);
    assert_eq!(d.next_command(), None);
    assert_eq!(d.pending_len(), 0);
}

#[test]
fn events_are_not_merged() {
    let mut d = Dispatcher::new();
    d.push(true);
    d.push(true);
    let mut seen = Vec::new();
    while let Some(e) = d.next_command() {
        seen.push(e);
        d.finish(true);
    }
    assert_eq!(seen, vec![true, true]);
}

#[test]
fn spawn_failure_stops_worker_for_good() {
    let mut d = Dispatcher::new();
    d.push(true);
    d.push(false);
    assert_eq!(d.next_command(), Some(true));
    d.finish(false);
    assert!(d.is_stopped());
    assert_eq!(d.pending_len(), 0);
    d.push(true);
    assert_eq!(d.pending_len(), 0);
    assert_eq!(d.next_command(), None);
}

#[test]
fn command_matches_event() {
    let cmds = CommandPair { cmd_on: "amp-on".to_string(), cmd_off: "amp-off".to_string() };
    assert_eq!(cmds.command(true), "amp-on");
    assert_eq!(cmds.command(false), "amp-off");
}
