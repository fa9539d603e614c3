//! The per-connection protocol state machine.
//!
//! A session moves `AwaitingHello → Handshaking → Ready → Closing`,
//! driven by inbound message ids.  `handle_data` feeds raw socket bytes
//! through the frame codec and the dispatch table, and hands back the
//! response bytes to write and whether the connection must close; the
//! I/O shell around the library does nothing but shuttle those bytes.
//!
//! Invariant: a session is subscribed to advertisements only in the
//! `Ready` phase.  A subscribe that arrives earlier is accepted
//! silently without taking effect, as the dispatch table allows.

use vstd::prelude::*;

verus! {

use crate::adv::{Advertisement, adv_payload};
use crate::context::ProxyContext;
use crate::frame::{frame_bytes, frame_parse, next_message};
use crate::handlers::{
    hello_request, connect_request, disconnect_request, ping_request,
    subscribe_bluetooth_connections_free_request, device_info_request, list_entities_request,
    forward_ble_advertisement,
};
use crate::messages::{
    MessageKind, message_id, pb_well_formed, hello_response_payload, device_info_payload,
    connections_free_payload,
};
use crate::pbenc::push_bytes;

/// Where a session stands in the protocol handshake.
#[derive(Clone, Copy, Debug, PartialEq, Eq, Structural)]
pub enum SessionPhase {
    AwaitingHello,
    Handshaking,
    Ready,
    Closing,
}

/// The state of one TCP client: its phase, whether it subscribed to
/// advertisement forwarding, and the buffer of not-yet-framed inbound
/// bytes.
pub struct Session {
    pub phase: SessionPhase,
    pub adv_subscribed: bool,
    pub buffer: Vec<u8>,
}

/// What one dispatched message does: the state afterwards, the framed
/// response bytes (empty when the message has no response), whether the
/// stream is half-closed, and whether the payload failed to decode.
pub struct StepModel {
    pub phase: SessionPhase,
    pub adv_subscribed: bool,
    pub response: Seq<u8>,
    pub shutdown: bool,
    pub decode_error: bool,
}

/// The message ids whose payload the proxy parses before answering.
pub open spec fn parsing_opcode(t: u32) -> bool {
    t == 0x01 || t == 0x03 || t == 0x05 || t == 0x07 || t == 0x09 || t == 0x0b || t == 0x50
}

/// The dispatch table: what each inbound message id does to the
/// session.  Unknown ids are ignored and the connection is preserved.
pub open spec fn step(
    ctx: ProxyContext,
    phase: SessionPhase,
    sub: bool,
    t: u32,
    payload: Seq<u8>,
) -> StepModel {
    if parsing_opcode(t) && !pb_well_formed(payload) {
        StepModel {
            phase,
            adv_subscribed: sub,
            response: Seq::empty(),
            shutdown: false,
            decode_error: true,
        }
    } else if t == 0x01 {
        StepModel {
            phase: SessionPhase::Handshaking,
            adv_subscribed: false,
            response: frame_bytes(
                message_id(MessageKind::HelloResponse) as u64,
                hello_response_payload(),
            ),
            shutdown: false,
            decode_error: false,
        }
    } else if t == 0x03 {
        StepModel {
            phase: SessionPhase::Ready,
            adv_subscribed: sub,
            response: frame_bytes(message_id(MessageKind::ConnectResponse) as u64, Seq::empty()),
            shutdown: false,
            decode_error: false,
        }
    } else if t == 0x05 {
        StepModel {
            phase: SessionPhase::Closing,
            adv_subscribed: false,
            response: frame_bytes(message_id(MessageKind::DisconnectResponse) as u64, Seq::empty()),
            shutdown: true,
            decode_error: false,
        }
    } else if t == 0x07 {
        StepModel {
            phase,
            adv_subscribed: sub,
            response: frame_bytes(message_id(MessageKind::PingResponse) as u64, Seq::empty()),
            shutdown: false,
            decode_error: false,
        }
    } else if t == 0x09 {
        StepModel {
            phase,
            adv_subscribed: sub,
            response: frame_bytes(
                message_id(MessageKind::DeviceInfoResponse) as u64,
                device_info_payload(ctx),
            ),
            shutdown: false,
            decode_error: false,
        }
    } else if t == 0x0b {
        StepModel {
            phase,
            adv_subscribed: sub,
            response: frame_bytes(
                message_id(MessageKind::ListEntitiesDoneResponse) as u64,
                Seq::empty(),
            ),
            shutdown: false,
            decode_error: false,
        }
    } else if t == 0x42 {
        StepModel {
            phase,
            adv_subscribed: if phase is Ready {
                true
            } else {
                sub
            },
            response: Seq::empty(),
            shutdown: false,
            decode_error: false,
        }
    } else if t == 0x50 {
        StepModel {
            phase,
            adv_subscribed: sub,
            response: frame_bytes(
                message_id(MessageKind::BluetoothConnectionsFreeResponse) as u64,
                connections_free_payload(),
            ),
            shutdown: false,
            decode_error: false,
        }
    } else if t == 0x57 {
        StepModel {
            phase,
            adv_subscribed: false,
            response: Seq::empty(),
            shutdown: false,
            decode_error: false,
        }
    } else {
        StepModel {
            phase,
            adv_subscribed: sub,
            response: Seq::empty(),
            shutdown: false,
            decode_error: false,
        }
    }
}

/// What draining a byte sequence does: the state and leftover buffer,
/// the concatenated response bytes in order, and whether the session
/// must close — on a half-close, a decode error, or a broken delimiter.
pub struct RunModel {
    pub phase: SessionPhase,
    pub adv_subscribed: bool,
    pub buffer: Seq<u8>,
    pub output: Seq<u8>,
    pub close: bool,
}

/// Folds `step` over every complete frame at the head of `s`.  Frames
/// after a disconnect or after a decode error are left unread: the
/// session is closing.
pub open spec fn run(ctx: ProxyContext, phase: SessionPhase, sub: bool, s: Seq<u8>) -> RunModel
    decreases s.len(),
{
    match frame_parse(s) {
        Some(f) => {
            let t = (f.0 % 0x1_0000_0000) as u32;
            let m = step(ctx, phase, sub, t, f.1);
            let rest = s.skip(f.2);
            if m.decode_error || m.shutdown {
                RunModel {
                    phase: m.phase,
                    adv_subscribed: m.adv_subscribed,
                    buffer: rest,
                    output: m.response,
                    close: true,
                }
            } else {
                let r2 = run(ctx, m.phase, m.adv_subscribed, rest);
                RunModel {
                    phase: r2.phase,
                    adv_subscribed: r2.adv_subscribed,
                    buffer: r2.buffer,
                    output: m.response + r2.output,
                    close: r2.close,
                }
            }
        },
        None => RunModel {
            phase,
            adv_subscribed: sub,
            buffer: s,
            output: Seq::empty(),
            close: s.len() > 0 && s[0] != 0,
        },
    }
}

/// The response and flags one dispatched message produced.
pub struct MessageOutcome {
    pub response: Vec<u8>,
    pub shutdown: bool,
    pub decode_error: bool,
}

/// The bytes to write and the close decision after one batch of
/// inbound data.
pub struct DataOutcome {
    pub output: Vec<u8>,
    pub close: bool,
}

impl Session {
    /// A session is subscribed only when ready.
    pub open spec fn wf(self) -> bool {
        self.adv_subscribed ==> self.phase is Ready
    }

    /// A fresh session awaiting the hello.
    pub fn new() -> (s: Session)
        ensures
            s.phase is AwaitingHello,
            !s.adv_subscribed,
            s.buffer@ == Seq::<u8>::empty(),
            s.wf(),
    {
        Session { phase: SessionPhase::AwaitingHello, adv_subscribed: false, buffer: Vec::new() }
    }

    /// Dispatches one already-framed message per the table.
    pub fn handle_message(&mut self, ctx: &ProxyContext, msg_type: u32, payload: &[u8]) -> (r:
        MessageOutcome)
        requires
            old(self).wf(),
        ensures
            final(self).wf(),
            final(self).buffer@ == old(self).buffer@,
            ({
                let m = step(*ctx, old(self).phase, old(self).adv_subscribed, msg_type, payload@);
                &&& final(self).phase == m.phase
                &&& final(self).adv_subscribed == m.adv_subscribed
                &&& r.response@ == m.response
                &&& r.shutdown == m.shutdown
                &&& r.decode_error == m.decode_error
            }),
    {
        if msg_type == 0x01 {
            match hello_request(payload) {
                Ok(v) => {
                    self.phase = SessionPhase::Handshaking;
                    self.adv_subscribed = false;
                    MessageOutcome { response: v, shutdown: false, decode_error: false }
                },
                Err(_) => MessageOutcome {
                    response: Vec::new(),
                    shutdown: false,
                    decode_error: true,
                },
            }
        } else if msg_type == 0x03 {
            match connect_request(payload) {
                Ok(v) => {
                    self.phase = SessionPhase::Ready;
                    MessageOutcome { response: v, shutdown: false, decode_error: false }
                },
                Err(_) => MessageOutcome {
                    response: Vec::new(),
                    shutdown: false,
                    decode_error: true,
                },
            }
        } else if msg_type == 0x05 {
            match disconnect_request(payload) {
                Ok(v) => {
                    self.phase = SessionPhase::Closing;
                    self.adv_subscribed = false;
                    MessageOutcome { response: v, shutdown: true, decode_error: false }
                },
                Err(_) => MessageOutcome {
                    response: Vec::new(),
                    shutdown: false,
                    decode_error: true,
                },
            }
        } else if msg_type == 0x07 {
            match ping_request(payload) {
                Ok(v) => MessageOutcome { response: v, shutdown: false, decode_error: false },
                Err(_) => MessageOutcome {
                    response: Vec::new(),
                    shutdown: false,
                    decode_error: true,
                },
            }
        } else if msg_type == 0x09 {
            match device_info_request(ctx, payload) {
                Ok(v) => MessageOutcome { response: v, shutdown: false, decode_error: false },
                Err(_) => MessageOutcome {
                    response: Vec::new(),
                    shutdown: false,
                    decode_error: true,
                },
            }
        } else if msg_type == 0x0b {
            match list_entities_request(payload) {
                Ok(v) => MessageOutcome { response: v, shutdown: false, decode_error: false },
                Err(_) => MessageOutcome {
                    response: Vec::new(),
                    shutdown: false,
                    decode_error: true,
                },
            }
        } else if msg_type == 0x42 {
            if matches!(self.phase, SessionPhase::Ready) {
                self.adv_subscribed = true;
            }
            MessageOutcome { response: Vec::new(), shutdown: false, decode_error: false }
        } else if msg_type == 0x50 {
            match subscribe_bluetooth_connections_free_request(payload) {
                Ok(v) => MessageOutcome { response: v, shutdown: false, decode_error: false },
                Err(_) => MessageOutcome {
                    response: Vec::new(),
                    shutdown: false,
                    decode_error: true,
                },
            }
        } else if msg_type == 0x57 {
            self.adv_subscribed = false;
            MessageOutcome { response: Vec::new(), shutdown: false, decode_error: false }
        } else {
            MessageOutcome { response: Vec::new(), shutdown: false, decode_error: false }
        }
    }

    /// Appends freshly read socket bytes, drains every complete frame,
    /// and dispatches each in arrival order.  The returned bytes are
    /// written to the stream as one ordered batch; `close` reports a
    /// half-close, a decode error, or a corrupt delimiter byte.
    pub fn handle_data(&mut self, ctx: &ProxyContext, data: &[u8]) -> (r: DataOutcome)
        requires
            old(self).wf(),
        ensures
            final(self).wf(),
            ({
                let m = run(
                    *ctx,
                    old(self).phase,
                    old(self).adv_subscribed,
                    old(self).buffer@ + data@,
                );
                &&& final(self).phase == m.phase
                &&& final(self).adv_subscribed == m.adv_subscribed
                &&& final(self).buffer@ == m.buffer
                &&& r.output@ == m.output
                &&& r.close == m.close
            }),
    {
        push_bytes(&mut self.buffer, data);
        let ghost m0 = run(*ctx, self.phase, self.adv_subscribed, self.buffer@);
        let mut output: Vec<u8> = Vec::new();
        let mut close = false;
        loop
            invariant_except_break
                close == false,
                self.wf(),
                ({
                    let cur = run(*ctx, self.phase, self.adv_subscribed, self.buffer@);
                    &&& m0.phase == cur.phase
                    &&& m0.adv_subscribed == cur.adv_subscribed
                    &&& m0.buffer == cur.buffer
                    &&& m0.output == output@ + cur.output
                    &&& m0.close == cur.close
                }),
            ensures
                self.wf(),
                m0.phase == self.phase,
                m0.adv_subscribed == self.adv_subscribed,
                m0.buffer == self.buffer@,
                m0.output == output@,
                m0.close == close,
            decreases self.buffer@.len(),
        {
            let ghost pre_buf = self.buffer@;
            let ghost pre_phase = self.phase;
            let ghost pre_sub = self.adv_subscribed;
            match next_message(&mut self.buffer) {
                Some(pair) => {
                    let (t, payload) = pair;
                    let ghost f = frame_parse(pre_buf)->Some_0;
                    let res = self.handle_message(ctx, t, payload.as_slice());
                    let ghost m = step(*ctx, pre_phase, pre_sub, t, f.1);
                    push_bytes(&mut output, res.response.as_slice());
                    if res.decode_error || res.shutdown {
                        close = true;
                        proof {
                            let cur = run(*ctx, pre_phase, pre_sub, pre_buf);
                            assert(cur.output == m.response);
                            assert(output@ =~= m0.output);
                        }
                        break ;
                    }
                    proof {
                        let cur = run(*ctx, pre_phase, pre_sub, pre_buf);
                        let cur2 = run(*ctx, self.phase, self.adv_subscribed, self.buffer@);
                        assert(cur.output == m.response + cur2.output);
                        assert(output@ + cur2.output =~= m0.output);
                    }
                },
                None => {
                    if self.buffer.len() > 0 {
                        let b0 = self.buffer[0];
                        if b0 != 0u8 {
                            close = true;
                        }
                    }
                    proof {
                        let cur = run(*ctx, self.phase, self.adv_subscribed, self.buffer@);
                        assert(cur.output == Seq::<u8>::empty());
                        assert(output@ =~= m0.output);
                    }
                    break ;
                },
            }
        }
        DataOutcome { output, close }
    }

    /// Frames an advertisement for this session if it subscribed;
    /// otherwise drops it.
    pub fn handle_advertisement(&self, adv: &Advertisement) -> (r: Option<Vec<u8>>)
        ensures
            match r {
                Some(v) => self.adv_subscribed && v@ == frame_bytes(
                    message_id(MessageKind::BluetoothLEAdvertisementResponse) as u64,
                    adv_payload(adv@),
                ),
                None => !self.adv_subscribed,
            },
    {
        if self.adv_subscribed {
            Some(forward_ble_advertisement(adv))
        } else {
            None
        }
    }
}

} // verus!
