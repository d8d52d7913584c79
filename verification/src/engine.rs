//! The nonblocking client protocol engine: one persistent logical sender
//! driven as an explicit state machine. The surrounding I/O loop performs
//! each returned action on the socket (connect, TLS handshake step, write,
//! read, sleep) and reports what happened as the next event; every
//! decision — framing, retry, keep-alive continuation, cancellation — is
//! made here.

use vstd::prelude::*;
use crate::wire;
use crate::wire::{contains_seq, crlfcrlf, keep_alive_token, spec_request};

verus! {

/// Where the engine stands in one connection's lifecycle.
#[derive(Clone, Copy, Debug, PartialEq, Eq, Structural)]
pub enum EngineState {
    /// No usable connection; the next step is a fresh connect.
    Connecting,
    /// Connected; the TLS handshake is still in progress.
    Handshaking,
    /// A framed request is being written.
    Sending,
    /// Awaiting the response's header terminator.
    Receiving,
    /// Response complete; the inter-request throttle sleep is pending.
    Throttling,
    /// Cancelled; `n_sent` holds the final count.
    Done,
}

/// What the I/O loop reports back to the engine.
pub enum EngineEvent {
    /// Nothing yet to report: the initial kick, or a sleep that finished.
    Ready,
    ConnectOk,
    ConnectFailed,
    HandshakeOk,
    HandshakeWouldBlock,
    HandshakeFailed,
    /// `write` accepted this many bytes of the unsent remainder.
    Wrote(usize),
    /// A transient write error; retried inline.
    WriteFailed,
    /// `read` yielded these bytes (possibly none).
    ReadSome(Vec<u8>),
    /// A transient read error; retried inline.
    ReadFailed,
}

/// What the I/O loop is asked to do next.
#[derive(Clone, Copy, Debug, PartialEq, Eq, Structural)]
pub enum EngineAction {
    /// Open a fresh connection, dropping any current one.
    Connect,
    /// Drive one TLS handshake step.
    Handshake,
    /// Sleep the fixed reconnect backoff, then report `Ready`.
    Backoff,
    /// Write the unsent part of the request (`unsent_request()`).
    Write,
    /// Read some bytes from the connection.
    Read,
    /// Sleep the configured throttle, then report `Ready`.
    Throttle,
    /// The engine has stopped; `n_sent` holds the final count.
    Stop,
}

/// Model of the engine: configuration, progress counters, and the two
/// byte buffers.
#[verifier::ext_equal]
pub ghost struct EngineModel {
    pub code: u16,
    pub host: Seq<u8>,
    pub tls: bool,
    pub throttle: bool,
    pub state: EngineState,
    /// Fully round-tripped requests.
    pub n_sent: u64,
    /// Requests fully written on the current run of connections.
    pub n_sent_stream: u64,
    /// The framed request being sent.
    pub snd: Seq<u8>,
    /// How much of `snd` has been written.
    pub bytes_sent: int,
    /// Response bytes received so far.
    pub rcv: Seq<u8>,
}

/// One persistent logical sender against one target.
pub struct ClientEngine {
    pub code: u16,
    pub host: String,
    pub tls: bool,
    pub throttle: bool,
    pub state: EngineState,
    pub n_sent: u64,
    pub n_sent_stream: u64,
    pub snd: Vec<u8>,
    pub bytes_sent: usize,
    pub rcv: Vec<u8>,
}

impl View for ClientEngine {
    type V = EngineModel;

    open spec fn view(&self) -> EngineModel {
        EngineModel {
            code: self.code,
            host: vstd::utf8::encode_utf8(self.host@),
            tls: self.tls,
            throttle: self.throttle,
            state: self.state,
            n_sent: self.n_sent,
            n_sent_stream: self.n_sent_stream,
            snd: self.snd@,
            bytes_sent: self.bytes_sent as int,
            rcv: self.rcv@,
        }
    }
}

/// Entering `Sending`: a fresh request is framed with the current
/// wall-clock timestamp and nothing of it has been written yet.
pub open spec fn spec_started(m: EngineModel, now: u64) -> EngineModel {
    EngineModel {
        state: EngineState::Sending,
        snd: spec_request(m.host, m.code, now),
        bytes_sent: 0,
        ..m
    }
}

/// The keep-alive decision after a complete response: if the token is
/// present anywhere in the received bytes, the connection is reused for
/// the next request; otherwise the engine reconnects.
pub open spec fn spec_decided(m: EngineModel, now: u64) -> EngineModel {
    if contains_seq(m.rcv, keep_alive_token()) {
        spec_started(m, now)
    } else {
        EngineModel { state: EngineState::Connecting, ..m }
    }
}

/// The action that goes with `spec_decided`.
pub open spec fn spec_decided_action(m: EngineModel) -> EngineAction {
    if contains_seq(m.rcv, keep_alive_token()) {
        EngineAction::Write
    } else {
        EngineAction::Connect
    }
}

impl ClientEngine {
    /// The write pointer never runs past the request.
    pub open spec fn wf(&self) -> bool {
        0 <= self@.bytes_sent <= self@.snd.len()
    }

    /// Which events are meaningful in the current state; the I/O loop
    /// only ever produces these.
    pub open spec fn event_ok(&self, ev: EngineEvent) -> bool {
        match self.state {
            EngineState::Connecting => ev is Ready || ev is ConnectOk || ev is ConnectFailed,
            EngineState::Handshaking => ev is HandshakeOk || ev is HandshakeWouldBlock
                || ev is HandshakeFailed,
            EngineState::Sending => (ev is Wrote && ev->Wrote_0 <= self@.snd.len()
                - self@.bytes_sent) || ev is WriteFailed,
            EngineState::Receiving => ev is ReadSome || ev is ReadFailed,
            EngineState::Throttling => ev is Ready,
            EngineState::Done => true,
        }
    }

    /// A fresh engine for one target: not yet connected, nothing sent.
    pub fn new(host: String, code: u16, tls: bool, throttle: bool) -> (r: Self)
        ensures
            r.wf(),
            r@ =~= (EngineModel {
                code,
                host: vstd::utf8::encode_utf8(host@),
                tls,
                throttle,
                state: EngineState::Connecting,
                n_sent: 0,
                n_sent_stream: 0,
                snd: Seq::empty(),
                bytes_sent: 0,
                rcv: Seq::empty(),
            }),
    {
        ClientEngine {
            code,
            host,
            tls,
            throttle,
            state: EngineState::Connecting,
            n_sent: 0,
            n_sent_stream: 0,
            snd: Vec::new(),
            bytes_sent: 0,
            rcv: Vec::new(),
        }
    }

    /// Frames a fresh request carrying the current timestamp and moves to
    /// `Sending`.
    fn start_request(&mut self, now: u64)
        ensures
            final(self)@ =~= spec_started(old(self)@, now),
            final(self).wf(),
    {
        self.snd = wire::encode_request(self.host.as_str(), self.code, now);
        self.bytes_sent = 0;
        self.state = EngineState::Sending;
    }

    /// Makes the keep-alive decision after a complete response.
    fn decide(&mut self, now: u64) -> (act: EngineAction)
        requires
            old(self).wf(),
        ensures
            final(self)@ =~= spec_decided(old(self)@, now),
            act == spec_decided_action(old(self)@),
            final(self).wf(),
    {
        if wire::keep_alive_present(self.rcv.as_slice()) {
            self.start_request(now);
            EngineAction::Write
        } else {
            self.state = EngineState::Connecting;
            EngineAction::Connect
        }
    }

    /// Drives the engine by one step: consumes what the I/O loop reported
    /// (`ev`), observes the cancellation flag, and says what to do next.
    /// `now` is the current wall clock in nanoseconds, used to stamp a
    /// request when one is framed.
    pub fn step(&mut self, ev: EngineEvent, cancelled: bool, now: u64) -> (act: EngineAction)
        requires
            old(self).wf(),
            old(self).event_ok(ev),
            old(self).n_sent < u64::MAX,
            old(self).n_sent_stream < u64::MAX,
        ensures
            final(self).wf(),
            // Cancellation wins at every boundary: the engine stops and
            // keeps its counters.
            (cancelled || old(self)@.state is Done) ==> act is Stop && final(self)@ =~= (
            EngineModel { state: EngineState::Done, ..old(self)@ }),
            !cancelled && old(self)@.state is Connecting ==> {
                &&& ev is Ready ==> act is Connect && final(self)@ =~= old(self)@
                &&& ev is ConnectFailed ==> act is Backoff && final(self)@ =~= old(self)@
                &&& ev is ConnectOk ==> if old(self)@.tls {
                    act is Handshake && final(self)@ =~= (EngineModel {
                        state: EngineState::Handshaking,
                        ..old(self)@
                    })
                } else {
                    act is Write && final(self)@ =~= spec_started(old(self)@, now)
                }
            },
            !cancelled && old(self)@.state is Handshaking ==> {
                &&& ev is HandshakeOk ==> act is Write && final(self)@ =~= spec_started(
                    old(self)@,
                    now,
                )
                &&& ev is HandshakeWouldBlock ==> act is Handshake && final(self)@ =~= old(
                    self,
                )@
                &&& ev is HandshakeFailed ==> act is Backoff && final(self)@ =~= (EngineModel {
                    state: EngineState::Connecting,
                    ..old(self)@
                })
            },
            !cancelled && old(self)@.state is Sending ==> {
                &&& ev is WriteFailed ==> act is Write && final(self)@ =~= old(self)@
                &&& ev is Wrote ==> {
                    let b2 = old(self)@.bytes_sent + ev->Wrote_0;
                    if b2 >= old(self)@.snd.len() {
                        act is Read && final(self)@ =~= (EngineModel {
                            state: EngineState::Receiving,
                            bytes_sent: b2,
                            n_sent_stream: (old(self)@.n_sent_stream + 1) as u64,
                            rcv: Seq::empty(),
                            ..old(self)@
                        })
                    } else {
                        act is Write && final(self)@ =~= (EngineModel {
                            bytes_sent: b2,
                            ..old(self)@
                        })
                    }
                }
            },
            !cancelled && old(self)@.state is Receiving ==> {
                &&& ev is ReadFailed ==> act is Read && final(self)@ =~= old(self)@
                &&& ev is ReadSome ==> {
                    let r2 = old(self)@.rcv + ev->ReadSome_0@;
                    let grown = EngineModel { rcv: r2, ..old(self)@ };
                    if contains_seq(r2, crlfcrlf()) {
                        let counted = EngineModel {
                            n_sent: (old(self)@.n_sent + 1) as u64,
                            rcv: r2,
                            ..old(self)@
                        };
                        if old(self)@.throttle {
                            act is Throttle && final(self)@ =~= (EngineModel {
                                state: EngineState::Throttling,
                                ..counted
                            })
                        } else {
                            act == spec_decided_action(counted) && final(self)@ =~= spec_decided(
                                counted,
                                now,
                            )
                        }
                    } else {
                        act is Read && final(self)@ =~= grown
                    }
                }
            },
            !cancelled && old(self)@.state is Throttling ==> act == spec_decided_action(
                old(self)@,
            ) && final(self)@ =~= spec_decided(old(self)@, now),
    {
        if cancelled {
            self.state = EngineState::Done;
            return EngineAction::Stop;
        }
        match self.state {
            EngineState::Done => {
                self.state = EngineState::Done;
                EngineAction::Stop
            },
            EngineState::Connecting => {
                match ev {
                    EngineEvent::Ready => EngineAction::Connect,
                    EngineEvent::ConnectFailed => EngineAction::Backoff,
                    _ => {
                        // ConnectOk
                        if self.tls {
                            self.state = EngineState::Handshaking;
                            EngineAction::Handshake
                        } else {
                            self.start_request(now);
                            EngineAction::Write
                        }
                    },
                }
            },
            EngineState::Handshaking => {
                match ev {
                    EngineEvent::HandshakeOk => {
                        self.start_request(now);
                        EngineAction::Write
                    },
                    EngineEvent::HandshakeWouldBlock => EngineAction::Handshake,
                    _ => {
                        // HandshakeFailed: like a connect failure, with
                        // the same backoff-and-retry policy.
                        self.state = EngineState::Connecting;
                        EngineAction::Backoff
                    },
                }
            },
            EngineState::Sending => {
                match ev {
                    EngineEvent::Wrote(n) => {
                        let total = self.snd.len();
                        assert(self.bytes_sent + n <= total);
                        self.bytes_sent = self.bytes_sent + n;
                        if self.bytes_sent >= self.snd.len() {
                            self.n_sent_stream = self.n_sent_stream + 1;
                            self.rcv.clear();
                            self.state = EngineState::Receiving;
                            EngineAction::Read
                        } else {
                            EngineAction::Write
                        }
                    },
                    _ => EngineAction::Write,
                }
            },
            EngineState::Receiving => {
                match ev {
                    EngineEvent::ReadSome(mut bytes) => {
                        self.rcv.append(&mut bytes);
                        if wire::response_complete(self.rcv.as_slice()) {
                            self.n_sent = self.n_sent + 1;
                            if self.throttle {
                                self.state = EngineState::Throttling;
                                EngineAction::Throttle
                            } else {
                                self.decide(now)
                            }
                        } else {
                            EngineAction::Read
                        }
                    },
                    _ => EngineAction::Read,
                }
            },
            EngineState::Throttling => self.decide(now),
        }
    }

    /// The part of the framed request not yet written; what a `Write`
    /// action asks the I/O loop to send.
    pub fn unsent_request(&self) -> (r: &[u8])
        requires
            self.wf(),
        ensures
            r@ =~= self@.snd.subrange(self@.bytes_sent, self@.snd.len() as int),
    {
        let r = &self.snd.as_slice()[self.bytes_sent..self.snd.len()];
        assert(r@ =~= self.snd@.subrange(self.bytes_sent as int, self.snd@.len() as int));
        r
    }
}

} // verus!
