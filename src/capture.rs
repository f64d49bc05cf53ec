//! The decisions of the capture loop: what each captured frame, timeout or
//! end of capture leads to. Capturing frames and installing proxy entries are
//! left to the caller, which performs the action that each step returns.
use vstd::prelude::*;
use crate::config::Command;
use crate::frame::{ether_type_of, frame_source, parse_frame, ParseError};
use crate::prefix::{in_prefix, Ipv6Prefix};

verus! {

/// A request to answer neighbour discovery for `address` on `interface`.
#[derive(Clone, Debug)]
pub struct NeighborInstallRequest {
    /// The IPv6 address to proxy.
    pub address: u128,
    /// The interface on which to answer for it.
    pub interface: String,
}

/// What the capture source handed over.
#[derive(Clone, Debug)]
pub enum CaptureEvent {
    /// The read timed out with no frame; not an error.
    Timeout,
    /// One captured frame, as raw bytes.
    Frame(Vec<u8>),
    /// The capture source ended or failed.
    Closed,
}

/// The state of the capture loop.
#[derive(Clone, Copy, Debug, PartialEq, Eq, Structural)]
pub enum LoopState {
    /// Pulling frames.
    Running,
    /// The capture source is gone; nothing more happens.
    Terminated,
}

/// What the caller is to do after one step.
#[derive(Clone, Debug)]
pub enum LoopAction {
    /// Read the next frame.
    Poll,
    /// The frame does not concern this proxy; read the next one.
    Ignore,
    /// The frame could not be decoded; report it and read the next one.
    Discard(ParseError),
    /// Install the proxy entry, then read the next frame.
    Install(NeighborInstallRequest),
    /// Leave the loop.
    Stop,
}

/// The address that a frame asks to proxy under `prefix`: `Ok(Some(a))` for
/// an IPv6 packet whose source `a` lies in the prefix, `Ok(None)` for any other
/// frame that decodes.
pub open spec fn install_target(frame: Seq<u8>, prefix: Ipv6Prefix) -> Result<Option<u128>, ParseError> {
    match frame_source(frame) {
        Ok(Some(a)) => if in_prefix(prefix.spec_addr(), prefix.spec_length(), a) {
            Ok(Some(a))
        } else {
            Ok(None)
        },
        other => other,
    }
}

/// The action that a frame leads to while the loop runs.
pub open spec fn frame_action_spec(frame: Seq<u8>, config: Command, action: LoopAction) -> bool {
    match install_target(frame, config.prefix) {
        Err(e) => action == LoopAction::Discard(e),
        Ok(None) => action is Ignore,
        Ok(Some(a)) => action matches LoopAction::Install(req) && req.address == a
            && req.interface@ == config.broadcast_iface@,
    }
}

/// One step of the loop: the next state, and the action taken with it.
pub open spec fn step_spec(
    state: LoopState,
    event: CaptureEvent,
    config: Command,
    next: LoopState,
    action: LoopAction,
) -> bool {
    match state {
        LoopState::Terminated => next == LoopState::Terminated && action is Stop,
        LoopState::Running => match event {
            CaptureEvent::Timeout => next == LoopState::Running && action is Poll,
            CaptureEvent::Closed => next == LoopState::Terminated && action is Stop,
            CaptureEvent::Frame(bytes) => next == LoopState::Running && frame_action_spec(
                bytes@,
                config,
                action,
            ),
        },
    }
}

/// Decodes a captured frame and decides whether its source is to be proxied:
/// `Ok(Some(a))` when the frame is an IPv6 packet from `a` and `a` lies in
/// `prefix`.
pub fn receive_packet(frame: &[u8], prefix: &Ipv6Prefix) -> (r: Result<Option<u128>, ParseError>)
    ensures
        r == install_target(frame@, *prefix),
{
    match parse_frame(frame) {
        Ok(Some(source)) => if prefix.matches(source) {
            Ok(Some(source))
        } else {
            Ok(None)
        },
        Ok(None) => Ok(None),
        Err(e) => Err(e),
    }
}

/// Advances the loop by one event from the capture source.
pub fn step(state: LoopState, event: &CaptureEvent, config: &Command) -> (r: (LoopState, LoopAction))
    ensures
        step_spec(state, *event, *config, r.0, r.1),
{
    match state {
        LoopState::Terminated => (LoopState::Terminated, LoopAction::Stop),
        LoopState::Running => match event {
            CaptureEvent::Timeout => (LoopState::Running, LoopAction::Poll),
            CaptureEvent::Closed => (LoopState::Terminated, LoopAction::Stop),
            CaptureEvent::Frame(bytes) => {
                let action = match receive_packet(bytes.as_slice(), &config.prefix) {
                    Err(e) => LoopAction::Discard(e),
                    Ok(None) => LoopAction::Ignore,
                    Ok(Some(address)) => LoopAction::Install(
                        NeighborInstallRequest { address, interface: config.broadcast_iface.clone() },
                    ),
                };
                (LoopState::Running, action)
            },
        },
    }
}

/// A frame whose EtherType is not IPv6 never leads to a proxy entry,
/// whatever its payload and whatever state the loop is in.
pub proof fn lemma_non_ipv6_frame_never_installs(
    state: LoopState,
    event: CaptureEvent,
    config: Command,
    next: LoopState,
    action: LoopAction,
)
    requires
        event matches CaptureEvent::Frame(bytes) && bytes@.len() >= 14 && ether_type_of(bytes@) != 0x86DD,
        step_spec(state, event, config, next, action),
    ensures
        !(action is Install),
{
}

/// A frame never ends the loop: after any frame the loop is in the state it
/// was in before.
pub proof fn lemma_frames_never_terminate(
    state: LoopState,
    event: CaptureEvent,
    config: Command,
    next: LoopState,
    action: LoopAction,
)
    requires
        event is Frame,
        step_spec(state, event, config, next, action),
    ensures
        next == state,
{
}

} // verus!
