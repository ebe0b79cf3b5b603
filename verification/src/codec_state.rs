//! Connection state of the Sv2 codec: not yet initialized, negotiating keys
//! in the Noise handshake, or encrypted transport. Once in transport the
//! handshake may not re-enter.

use vstd::prelude::*;
use crate::framing::HandShakeFrame;
use crate::noise::Initiator;
use crate::noise::Responder;
use crate::noise::NoiseCodec;
use crate::noise::NoiseError;

verus! {

/// Failure conditions of driving the connection state.
#[derive(Debug, Clone, PartialEq, Eq)]
pub enum StateError {
    /// The requested step belongs to the responder.
    InvalidStepForInitiator,
    /// The requested step belongs to the initiator.
    InvalidStepForResponder,
    /// No handshake is in progress.
    NotInHandShakeState,
    /// The handshake itself failed.
    Noise(NoiseError),
}

/// The side of the handshake this connection plays.
pub enum HandshakeRole {
    Initiator(Initiator),
    Responder(Responder),
}

impl HandshakeRole {
    /// The held side is internally consistent.
    pub open spec fn wf(self) -> bool {
        match self {
            HandshakeRole::Initiator(i) => i.wf(),
            HandshakeRole::Responder(r) => r.wf(),
        }
    }
}

/// Connection state: `NotInitialized`, then `HandShake`, then `Transport`.
pub enum State {
    /// Not yet initialized.
    NotInitialized,
    /// The codec is negotiating keys.
    HandShake(HandshakeRole),
    /// AEAD transport is fully operational.
    Transport(NoiseCodec),
}

impl State {
    /// A held handshake side is internally consistent.
    pub open spec fn wf(self) -> bool {
        match self {
            State::HandShake(h) => h.wf(),
            _ => true,
        }
    }

    /// A state that has not been initialized.
    pub fn new() -> (r: Self)
        ensures
            r is NotInitialized,
    {
        State::NotInitialized
    }

    /// Enters the handshake with the given role.
    pub fn initialize(inner: HandshakeRole) -> (r: Self)
        ensures
            r == State::HandShake(inner),
    {
        State::HandShake(inner)
    }

    /// Enters transport mode around a finished codec.
    pub fn with_transport_mode(tm: NoiseCodec) -> (r: Self)
        ensures
            r == State::Transport(tm),
    {
        State::Transport(tm)
    }

    /// Moves the state out, leaving `NotInitialized` behind.
    pub fn take(&mut self) -> (r: Self)
        ensures
            r == *old(self),
            *final(self) is NotInitialized,
    {
        let mut out = State::NotInitialized;
        core::mem::swap(&mut out, self);
        out
    }

    /// First handshake step, on the initiator side only.
    pub fn step_0(&mut self) -> (r: Result<HandShakeFrame, StateError>)
        requires
            old(self).wf(),
        ensures
            final(self).wf(),
            (*old(self)) is NotInitialized || (*old(self)) is Transport ==> r == Err::<
                HandShakeFrame,
                StateError,
            >(StateError::NotInHandShakeState) && *final(self) == *old(self),
            (*old(self)) matches State::HandShake(HandshakeRole::Responder(_)) ==> r == Err::<
                HandShakeFrame,
                StateError,
            >(StateError::InvalidStepForResponder),
            ((*old(self)) matches State::HandShake(HandshakeRole::Initiator(i)) && i.stage()
                is Fresh && (r matches Ok(f))) ==> (r matches Ok(f) && f.payload@.len() == 32),
    {
        match self {
            State::HandShake(h) => match h {
                HandshakeRole::Initiator(i) => match i.step_0() {
                    Ok(f) => Ok(f),
                    Err(e) => Err(StateError::Noise(e)),
                },
                HandshakeRole::Responder(_) => Err(StateError::InvalidStepForResponder),
            },
            _ => Err(StateError::NotInHandShakeState),
        }
    }

    /// Second handshake step, on the responder side only.
    pub fn step_1(&mut self, re_pub: Vec<u8>, now: u32) -> (r: Result<HandShakeFrame, StateError>)
        requires
            old(self).wf(),
        ensures
            final(self).wf(),
            (*old(self)) is NotInitialized || (*old(self)) is Transport ==> r == Err::<
                HandShakeFrame,
                StateError,
            >(StateError::NotInHandShakeState) && *final(self) == *old(self),
            (*old(self)) matches State::HandShake(HandshakeRole::Initiator(_)) ==> r == Err::<
                HandShakeFrame,
                StateError,
            >(StateError::InvalidStepForInitiator),
            ((*old(self)) matches State::HandShake(HandshakeRole::Responder(x)) && x.stage()
                is Fresh && (r matches Ok(f))) ==> (r matches Ok(f) && f.payload@.len() == 170),
            ((*old(self)) matches State::HandShake(HandshakeRole::Responder(x)) && x.stage()
                is Fresh && re_pub@.len() != 32) ==> (r matches Err(e) && e == StateError::Noise(
                NoiseError::InvalidMessageLength(32, re_pub@.len() as usize),
            )),
    {
        match self {
            State::HandShake(h) => match h {
                HandshakeRole::Responder(x) => match x.step_1(re_pub, now) {
                    Ok(f) => Ok(f),
                    Err(e) => Err(StateError::Noise(e)),
                },
                HandshakeRole::Initiator(_) => Err(StateError::InvalidStepForInitiator),
            },
            _ => Err(StateError::NotInHandShakeState),
        }
    }

    /// Third handshake step, on the initiator side only: the responder's
    /// frame goes in, the cipher proposal comes out.
    pub fn step_2(&mut self, message: Vec<u8>, now: u32) -> (r: Result<HandShakeFrame, StateError>)
        requires
            old(self).wf(),
        ensures
            final(self).wf(),
            (*old(self)) is NotInitialized || (*old(self)) is Transport ==> r == Err::<
                HandShakeFrame,
                StateError,
            >(StateError::NotInHandShakeState) && *final(self) == *old(self),
            (*old(self)) matches State::HandShake(HandshakeRole::Responder(_)) ==> r == Err::<
                HandShakeFrame,
                StateError,
            >(StateError::InvalidStepForResponder),
            ((*old(self)) matches State::HandShake(HandshakeRole::Initiator(i)) && i.stage()
                is SentEphemeral && message@.len() != 170) ==> (r matches Err(e) && e
                == StateError::Noise(NoiseError::InvalidMessageLength(170, message@.len() as usize))),
            ((*old(self)) matches State::HandShake(HandshakeRole::Initiator(i)) && i.stage()
                is SentEphemeral && (r matches Ok(f))) ==> (r matches Ok(f) && f.payload@ == seq![
                crate::noise::CIPHER_CHACHA_POLY,
            ]),
    {
        match self {
            State::HandShake(h) => match h {
                HandshakeRole::Initiator(i) => match i.step_2(message, now) {
                    Ok(f) => Ok(f),
                    Err(e) => Err(StateError::Noise(e)),
                },
                HandshakeRole::Responder(_) => Err(StateError::InvalidStepForResponder),
            },
            _ => Err(StateError::NotInHandShakeState),
        }
    }

    /// Fourth handshake step, on the responder side only: picks the cipher
    /// and moves into transport mode.
    pub fn step_3(self, cipher_list: Vec<u8>) -> (r: Result<(HandShakeFrame, State), StateError>)
        requires
            self.wf(),
        ensures
            self is NotInitialized || self is Transport ==> r == Err::<
                (HandShakeFrame, State),
                StateError,
            >(StateError::NotInHandShakeState),
            self matches State::HandShake(HandshakeRole::Initiator(_)) ==> r == Err::<
                (HandShakeFrame, State),
                StateError,
            >(StateError::InvalidStepForInitiator),
            r matches Ok(p) ==> p.1 is Transport && p.0.payload@ == seq![
                crate::noise::CIPHER_CHACHA_POLY,
            ],
    {
        match self {
            State::HandShake(h) => match h {
                HandshakeRole::Responder(x) => {
                    let mut x = x;
                    match x.step_3(cipher_list) {
                        Ok((f, codec)) => Ok((f, State::Transport(codec))),
                        Err(e) => Err(StateError::Noise(e)),
                    }
                },
                HandshakeRole::Initiator(_) => Err(StateError::InvalidStepForInitiator),
            },
            _ => Err(StateError::NotInHandShakeState),
        }
    }

    /// Final handshake step, on the initiator side only: accepts the chosen
    /// cipher and moves into transport mode.
    pub fn step_4(self, cipher_chosed: Vec<u8>) -> (r: Result<State, StateError>)
        requires
            self.wf(),
        ensures
            self is NotInitialized || self is Transport ==> r == Err::<State, StateError>(
                StateError::NotInHandShakeState,
            ),
            self matches State::HandShake(HandshakeRole::Responder(_)) ==> r == Err::<
                State,
                StateError,
            >(StateError::InvalidStepForResponder),
            r matches Ok(s) ==> s is Transport,
    {
        match self {
            State::HandShake(h) => match h {
                HandshakeRole::Initiator(i) => {
                    let mut i = i;
                    match i.step_4(cipher_chosed) {
                        Ok(codec) => Ok(State::Transport(codec)),
                        Err(e) => Err(StateError::Noise(e)),
                    }
                },
                HandshakeRole::Responder(_) => Err(StateError::InvalidStepForResponder),
            },
            _ => Err(StateError::NotInHandShakeState),
        }
    }
}

impl Default for State {
    /// The default state has not been initialized.
    fn default() -> (r: Self)
        ensures
            r is NotInitialized,
    {
        Self::new()
    }
}

} // verus!
