use cmux::diff::{parse_name_status, workspace_base_ref, workspace_changes, ChangeKind};
use cmux::tunnel::{bridge_action, pump_step, BridgeAction, PumpAction, PumpEvent, PumpState, Side, WsKind};

#[test]
fn pump_propagates_half_closes() {
    let st = PumpState::new();
    let (st, a) = pump_step(st, PumpEvent::Data(Side::Client, 5));
    assert_eq!(a, PumpAction::Forward { to: Side::Upstream, len: 5 });
    let (st, a) = pump_step(st, PumpEvent::Eof(Side::Upstream));
    assert_eq!(a, PumpAction::Shutdown(Side::Client));
    assert!(st.client_open && !st.upstream_open);
    let (st, a) = pump_step(st, PumpEvent::Eof(Side::Client));
    assert_eq!(a, PumpAction::Close);
    assert!(!st.client_open && !st.upstream_open);
}

#[test]
fn pump_failure_closes_both() {
    let (st, a) = pump_step(PumpState::new(), PumpEvent::Failed(Side::Client));
    assert_eq!(a, PumpAction::Close);
    assert!(!st.client_open && !st.upstream_open);
}

#[test]
fn bridge_decisions() {
    assert_eq!(bridge_action(WsKind::Binary), BridgeAction::WriteToTcp);
    assert_eq!(bridge_action(WsKind::Text), BridgeAction::WriteToTcp);
    assert_eq!(bridge_action(WsKind::Ping), BridgeAction::Pong);
    assert_eq!(bridge_action(WsKind::Close), BridgeAction::CloseBoth);
    assert_eq!(bridge_action(WsKind::Pong), BridgeAction::Ignore);
}

#[test]
fn workspace_base_and_changes() {
    assert_eq!(workspace_base_ref(true, Some("dev"), true), "HEAD");
    assert_eq!(workspace_base_ref(false, Some("dev"), true), "refs/remotes/origin/dev");
    assert_eq!(workspace_base_ref(false, None, true), "refs/remotes/origin/main");
    assert_eq!(workspace_base_ref(false, None, false), "refs/remotes/origin/master");
    let changes = workspace_changes(parse_name_status("M\0a.txt\0"), "src/new.txt\0");
    assert_eq!(changes.len(), 2);
    assert_eq!(changes[1].kind, ChangeKind::Added);
    assert_eq!(changes[1].path, "src/new.txt");
}
