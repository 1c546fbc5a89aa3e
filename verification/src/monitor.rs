//! The path-type monitor: a per-connection poll that reports changes in the
//! relay/direct path mix and stops as soon as a direct-only connection is
//! seen.  The decision for one poll is a pure function; the shell sleeps
//! and samples the transport's path list between calls.
use vstd::prelude::*;

use crate::protocol::PathInfo;
use crate::protocol::PeerConnectionType;
use crate::protocol::spec_connection_type;

verus! {

/// The outcome of one poll of a connection's paths.
pub struct MonitorStep {
    /// The change to report, if the classification moved.
    pub changed: Option<PeerConnectionType>,
    /// The classification to carry to the next poll.
    pub next: PeerConnectionType,
    /// True when monitoring should cease.
    pub stop: bool,
}

/// Decide one poll: report a change when the classification differs from
/// the last one reported, and cease monitoring once the connection is
/// direct.
pub fn monitor_step(current: PeerConnectionType, paths: &Vec<PathInfo>) -> (r: MonitorStep)
    ensures
        r.next == spec_connection_type(paths@),
        r.changed == (if r.next != current {
            Some(r.next)
        } else {
            Option::<PeerConnectionType>::None
        }),
        r.stop == (r.next is Direct),
{
    let next = PeerConnectionType::from_paths(paths);
    let changed: Option<PeerConnectionType> = if next != current {
        Some(next)
    } else {
        None
    };
    let stop = match next {
        PeerConnectionType::Direct => true,
        _ => false,
    };
    MonitorStep { changed, next, stop }
}

/// The changes the monitor reports over a whole observation window,
/// starting from the classification seen at connection time.
pub open spec fn monitor_emissions(
    current: PeerConnectionType,
    observations: Seq<Seq<PathInfo>>,
) -> Seq<PeerConnectionType>
    decreases observations.len(),
{
    if observations.len() == 0 {
        Seq::empty()
    } else {
        let t = spec_connection_type(observations[0]);
        if t == current {
            monitor_emissions(current, observations.drop_first())
        } else if t is Direct {
            seq![t]
        } else {
            seq![t] + monitor_emissions(t, observations.drop_first())
        }
    }
}

/// Monitor emissions are monotone-informative: once `Direct` is reported
/// for a connection, nothing later is reported for it — a `Direct` report
/// is always the last.
pub proof fn lemma_monitor_monotone(
    current: PeerConnectionType,
    observations: Seq<Seq<PathInfo>>,
    i: int,
)
    requires
        0 <= i < monitor_emissions(current, observations).len(),
        monitor_emissions(current, observations)[i] is Direct,
    ensures
        i == monitor_emissions(current, observations).len() - 1,
    decreases observations.len(),
{
    let t = spec_connection_type(observations[0]);
    if t == current {
        lemma_monitor_monotone(current, observations.drop_first(), i);
    } else if t is Direct {
    } else {
        if i == 0 {
            assert(monitor_emissions(current, observations)[0] == t);
        } else {
            lemma_monitor_monotone(t, observations.drop_first(), i - 1);
        }
    }
}

} // verus!
