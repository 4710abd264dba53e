use quiche::bbr::{bbr_on_transmit, BBRStateMachine, Congestion, Rate, State};

fn controller(state: BBRStateMachine, app_limited: bool) -> Congestion {
    Congestion {
        delivery_rate: Rate { app_limited },
        bbr_state: State {
            state,
            idle_restart: false,
            btlbw: 5000,
            pacing_rate: 9000,
            filled_pipe: true,
        },
    }
}

#[test]
fn restart_from_idle_in_probe_bw_resets_pacing_rate() {
    let mut c = controller(BBRStateMachine::ProbeBW, true);
    bbr_on_transmit(&mut c, 0);
    assert!(c.bbr_state.idle_restart);
    assert_eq!(c.bbr_state.pacing_rate, 5000);
}

#[test]
fn restart_from_idle_outside_probe_bw_keeps_pacing_rate() {
    let mut c = controller(BBRStateMachine::Startup, true);
    bbr_on_transmit(&mut c, 0);
    assert!(c.bbr_state.idle_restart);
    assert_eq!(c.bbr_state.pacing_rate, 9000);
}

#[test]
fn transmit_with_bytes_in_flight_changes_nothing() {
    let mut c = controller(BBRStateMachine::ProbeBW, true);
    let before = c;
    bbr_on_transmit(&mut c, 1200);
    assert_eq!(c, before);
}

#[test]
fn transmit_when_not_app_limited_changes_nothing() {
    let mut c = controller(BBRStateMachine::ProbeBW, false);
    let before = c;
    bbr_on_transmit(&mut c, 0);
    assert_eq!(c, before);
}

#[test]
fn pacing_rate_only_rises_before_pipe_is_filled() {
    let mut c = controller(BBRStateMachine::ProbeBW, true);
    c.bbr_state.filled_pipe = false;
    bbr_on_transmit(&mut c, 0);
    assert_eq!(c.bbr_state.pacing_rate, 9000);
    c.bbr_state.btlbw = 12000;
    bbr_on_transmit(&mut c, 0);
    assert_eq!(c.bbr_state.pacing_rate, 12000);
}
