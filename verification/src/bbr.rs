//! BBR congestion control: what happens when a packet is transmitted.
use vstd::prelude::*;

verus! {

/// The phases of the BBR state machine.
#[derive(Clone, Copy, Debug, PartialEq, Eq, Structural)]
pub enum BBRStateMachine {
    Startup,
    Drain,
    ProbeBW,
    ProbeRTT,
}

/// The delivery-rate estimator, as far as the transmit path reads it.
#[derive(Clone, Copy, Debug, PartialEq, Eq, Structural)]
pub struct Rate {
    /// Whether the sender currently has less to send than the network would
    /// take.
    pub app_limited: bool,
}

impl Rate {
    /// Whether the connection is application limited.
    pub fn app_limited(&self) -> (r: bool)
        ensures
            r == self.app_limited,
    {
        self.app_limited
    }
}

/// The BBR variables that the transmit path reads or writes.
#[derive(Clone, Copy, Debug, PartialEq, Eq, Structural)]
pub struct State {
    /// The current phase.
    pub state: BBRStateMachine,
    /// Set when transmission resumes after the connection went idle.
    pub idle_restart: bool,
    /// The estimated bottleneck bandwidth, in bytes per second.
    pub btlbw: u64,
    /// The current pacing rate, in bytes per second.
    pub pacing_rate: u64,
    /// Whether the pipe has been estimated to be full.
    pub filled_pipe: bool,
}

/// The congestion controller's state.
#[derive(Clone, Copy, Debug, PartialEq, Eq, Structural)]
pub struct Congestion {
    pub delivery_rate: Rate,
    pub bbr_state: State,
}

/// The pacing rate after pacing at the bottleneck bandwidth itself has been
/// requested: the bandwidth is taken once the pipe is full, and before that
/// only where it raises the rate.
pub open spec fn unit_gain_pacing_rate(s: State) -> u64 {
    if s.filled_pipe || s.btlbw > s.pacing_rate {
        s.btlbw
    } else {
        s.pacing_rate
    }
}

/// The controller after a transmission with `bytes_in_flight` bytes
/// outstanding.
///
/// A transmission with nothing in flight on an application-limited
/// connection is a restart from idle: the restart is recorded, and in
/// `ProbeBW` the pacing rate is reset to the bottleneck bandwidth. Any other
/// transmission leaves the controller as it was.
pub open spec fn after_transmit(c: Congestion, bytes_in_flight: usize) -> Congestion {
    if bytes_in_flight == 0 && c.delivery_rate.app_limited {
        Congestion {
            delivery_rate: c.delivery_rate,
            bbr_state: State {
                idle_restart: true,
                pacing_rate: if c.bbr_state.state == BBRStateMachine::ProbeBW {
                    unit_gain_pacing_rate(c.bbr_state)
                } else {
                    c.bbr_state.pacing_rate
                },
                ..c.bbr_state
            },
        }
    } else {
        c
    }
}

/// Sets the pacing rate for a pacing gain of one.
pub fn bbr_set_pacing_rate_with_unit_gain(r: &mut Congestion)
    ensures
        *final(r) == (Congestion {
            delivery_rate: old(r).delivery_rate,
            bbr_state: State {
                pacing_rate: unit_gain_pacing_rate(old(r).bbr_state),
                ..old(r).bbr_state
            },
        }),
{
    let rate: u64 = r.bbr_state.btlbw;
    if r.bbr_state.filled_pipe || rate > r.bbr_state.pacing_rate {
        r.bbr_state.pacing_rate = rate;
    }
}

/// Updates the controller when a packet is transmitted.
pub fn bbr_on_transmit(r: &mut Congestion, bytes_in_flight: usize)
    ensures
        *final(r) == after_transmit(*old(r), bytes_in_flight),
{
    bbr_handle_restart_from_idle(r, bytes_in_flight);
}

/// Restarting from idle.
fn bbr_handle_restart_from_idle(r: &mut Congestion, bytes_in_flight: usize)
    ensures
        *final(r) == after_transmit(*old(r), bytes_in_flight),
{
    if bytes_in_flight == 0 && r.delivery_rate.app_limited() {
        r.bbr_state.idle_restart = true;
        if r.bbr_state.state == BBRStateMachine::ProbeBW {
            bbr_set_pacing_rate_with_unit_gain(r);
        }
    }
}

} // verus!
