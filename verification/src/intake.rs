//! The ingestion state machine.
//!
//! The transport loop itself lives outside the library; everything it
//! decides is here: how each frame kind is handled, when a connection
//! is fatal, what is sent on connect, and how long to back off before
//! reconnecting.  The system retries forever: every fatal condition
//! leads back through a fixed backoff to a fresh connection.

use vstd::prelude::*;
use crate::classify::{classified_view, classify, process_event, ClassifiedEvent, ClassifiedV};
use crate::errors::ObserverError;
use crate::messages::MessageTX;
use crate::types::{attrs_entries, NewBlock, NewBlockEvent, TXandResult};

verus! {

/// Seconds waited after a fatal connection condition before retrying.
pub const RECONNECT_BACKOFF_SECS: u64 = 2;

/// One inbound transport frame; a text frame carries the decoded block
/// notification, or nothing when it did not decode.
pub enum SocketFrame {
    Text(Option<NewBlock>),
    Binary,
    Ping(Vec<u8>),
    Pong,
    Close,
}

/// What the loop should do with one frame.
pub enum FrameAction {
    /// A block notification arrived: scan and publish it.
    EmitBlock(NewBlock),
    /// A ping arrived: reply with the matching pong payload.
    Respond(Vec<u8>),
    /// Nothing to do.
    Ignore,
}

/// Dispatch one frame: text decodes to a block or is fatal, pings get
/// pongs, pongs are ignored, binary frames and closes are fatal.
pub fn handle_message(msg: SocketFrame) -> (r: Result<FrameAction, ObserverError>)
    ensures
        match msg {
            SocketFrame::Text(ob) => match ob {
                Some(b) => r == Ok::<FrameAction, ObserverError>(FrameAction::EmitBlock(b)),
                None => r == Err::<FrameAction, ObserverError>(ObserverError::BlockDecode),
            },
            SocketFrame::Binary => r == Err::<FrameAction, ObserverError>(
                ObserverError::SocketBinary,
            ),
            SocketFrame::Ping(p) => r == Ok::<FrameAction, ObserverError>(FrameAction::Respond(p)),
            SocketFrame::Pong => r == Ok::<FrameAction, ObserverError>(FrameAction::Ignore),
            SocketFrame::Close => r == Err::<FrameAction, ObserverError>(
                ObserverError::SocketClosed,
            ),
        },
{
    match msg {
        SocketFrame::Text(ob) => match ob {
            Some(b) => Ok(FrameAction::EmitBlock(b)),
            None => Err(ObserverError::BlockDecode),
        },
        SocketFrame::Binary => Err(ObserverError::SocketBinary),
        SocketFrame::Ping(p) => Ok(FrameAction::Respond(p)),
        SocketFrame::Pong => Ok(FrameAction::Ignore),
        SocketFrame::Close => Err(ObserverError::SocketClosed),
    }
}

/// One emission onto the bus.
pub enum BusEmit {
    Tx(MessageTX),
    Classified(ClassifiedEvent),
}

/// The classified events a list of block events produces, in order;
/// events the classifier drops produce nothing.
pub open spec fn classified_seq(height: u64, is_begin: bool, events: Seq<NewBlockEvent>) -> Seq<
    ClassifiedV,
>
    decreases events.len(),
{
    if events.len() == 0 {
        Seq::empty()
    } else {
        classified_seq(height, is_begin, events.drop_last()) + match classify(
            height,
            is_begin,
            events.last().s_type@,
            attrs_entries(events.last().attributes@),
        ) {
            Some(c) => seq![c],
            None => Seq::empty(),
        }
    }
}

/// Scan one block notification: one `MessageTX` per transaction, then
/// one classified event per begin-block event the classifier accepts,
/// then the same for end-block events when present.
pub fn process_block_emit(block: NewBlock) -> (r: Vec<BusEmit>)
    ensures
        ({
            let height = block.data.block.header.height;
            let txs = match block.data.txs {
                Some(t) => t@,
                None => Seq::<TXandResult>::empty(),
            };
            let begin = classified_seq(height, true, block.data.result_begin_block.events@);
            let end = match block.data.result_end_block.events {
                Some(evs) => classified_seq(height, false, evs@),
                None => Seq::<ClassifiedV>::empty(),
            };
            &&& r@.len() == txs.len() + begin.len() + end.len()
            &&& forall|i: int|
                0 <= i < txs.len() ==> r@[i] == BusEmit::Tx(MessageTX { tx: txs[i] })
            &&& forall|i: int|
                0 <= i < begin.len() ==> ((#[trigger] r@[txs.len() + i]) matches BusEmit::Classified(
                    e,
                ) && classified_view(e) == begin[i])
            &&& forall|i: int|
                0 <= i < end.len() ==> ((#[trigger] r@[txs.len() + begin.len() + i]) matches
                    BusEmit::Classified(e) && classified_view(e) == end[i])
        }),
{
    let height = block.data.block.header.height;
    let mut out: Vec<BusEmit> = Vec::new();
    let ghost txs_v = match &block.data.txs {
        Some(t) => t@,
        None => Seq::<TXandResult>::empty(),
    };
    match block.data.txs {
        Some(mut txs) => {
            let ghost orig = txs@;
            let mut i: usize = 0;
            let n = txs.len();
            while i < n
                invariant
                    0 <= i <= n == orig.len(),
                    orig == txs_v,
                    txs@ == orig.skip(i as int),
                    out@.len() == i,
                    forall|l: int|
                        0 <= l < i ==> out@[l] == BusEmit::Tx(MessageTX { tx: orig[l] }),
                decreases n - i,
            {
                let tx = txs.remove(0);
                proof {
                    assert(tx == orig[i as int]);
                    assert(txs@ =~= orig.skip(i + 1));
                }
                out.push(BusEmit::Tx(MessageTX { tx }));
                i = i + 1;
            }
        },
        None => {},
    }
    let ghost tcount = txs_v.len() as int;
    let bevents = &block.data.result_begin_block.events;
    let bn = bevents.len();
    let ghost begin_full = classified_seq(height, true, bevents@);
    let mut j: usize = 0;
    let ghost mut bdone: int = 0;
    proof {
        assert(bevents@.take(0) =~= Seq::<NewBlockEvent>::empty());
    }
    while j < bn
        invariant
            0 <= j <= bn == bevents@.len(),
            0 <= bdone,
            out@.len() == tcount + bdone,
            tcount == txs_v.len(),
            bdone == classified_seq(height, true, bevents@.take(j as int)).len(),
            forall|l: int| 0 <= l < tcount ==> out@[l] == BusEmit::Tx(MessageTX { tx: txs_v[l] }),
            forall|l: int|
                0 <= l < bdone ==> ((#[trigger] out@[tcount + l]) matches BusEmit::Classified(e)
                    && classified_view(e) == classified_seq(height, true, bevents@.take(j as int))[l]),
        decreases bn - j,
    {
        proof {
            assert(bevents@.take(j + 1).drop_last() =~= bevents@.take(j as int));
            assert(bevents@.take(j + 1).last() == bevents@[j as int]);
        }
        match process_event(height, true, &bevents[j]) {
            Some(e) => {
                out.push(BusEmit::Classified(e));
                proof {
                    bdone = bdone + 1;
                }
            },
            None => {},
        }
        j = j + 1;
    }
    proof {
        assert(bevents@.take(bn as int) =~= bevents@);
    }
    match &block.data.result_end_block.events {
        Some(eevents) => {
            let en = eevents.len();
            let ghost end_full = classified_seq(height, false, eevents@);
            let mut k: usize = 0;
            let ghost mut edone: int = 0;
            proof {
                assert(eevents@.take(0) =~= Seq::<NewBlockEvent>::empty());
            }
            while k < en
                invariant
                    0 <= k <= en == eevents@.len(),
                    0 <= edone,
                    out@.len() == tcount + begin_full.len() + edone,
                    tcount == txs_v.len(),
                    begin_full == classified_seq(height, true, bevents@),
                    bn == bevents@.len(),
                    edone == classified_seq(height, false, eevents@.take(k as int)).len(),
                    forall|l: int|
                        0 <= l < tcount ==> out@[l] == BusEmit::Tx(MessageTX { tx: txs_v[l] }),
                    forall|l: int|
                        0 <= l < begin_full.len() ==> ((#[trigger] out@[tcount + l]) matches
                            BusEmit::Classified(e) && classified_view(e) == begin_full[l]),
                    forall|l: int|
                        0 <= l < edone ==> ((#[trigger] out@[tcount + begin_full.len() + l]) matches
                            BusEmit::Classified(e) && classified_view(e) == classified_seq(
                            height,
                            false,
                            eevents@.take(k as int),
                        )[l]),
                decreases en - k,
            {
                proof {
                    assert(eevents@.take(k + 1).drop_last() =~= eevents@.take(k as int));
                    assert(eevents@.take(k + 1).last() == eevents@[k as int]);
                }
                match process_event(height, false, &eevents[k]) {
                    Some(e) => {
                        out.push(BusEmit::Classified(e));
                        proof {
                            edone = edone + 1;
                        }
                    },
                    None => {},
                }
                k = k + 1;
            }
            proof {
                assert(eevents@.take(en as int) =~= eevents@);
            }
        },
        None => {},
    }
    out
}

/// The connection's lifecycle.
#[derive(Clone, Copy, Debug, PartialEq, Eq, Structural)]
pub enum IntakeState {
    Disconnected,
    Connecting,
    Connected,
}

/// What the transport reports to the state machine.
pub enum IntakeEvent {
    /// Loop entry, or the backoff after a failure elapsed.
    Start,
    ConnectSucceeded,
    ConnectFailed,
    Frame(SocketFrame),
    SendFailed,
    StreamEnded,
}

/// What the loop must do next.
pub enum IntakeAction {
    /// Open a new connection.
    Connect,
    /// Send the one-time subscription message.
    SendSubscription,
    /// Reply to a ping with this pong payload.
    SendPong(Vec<u8>),
    /// Scan and publish this block.
    ProcessBlock(NewBlock),
    /// Wait `RECONNECT_BACKOFF_SECS`, then raise `Start`.
    Backoff,
    /// Nothing to do.
    Nothing,
}

/// One transition of the ingestion state machine.
pub fn intake_step(state: IntakeState, event: IntakeEvent) -> (r: (IntakeState, IntakeAction))
    ensures
        match event {
            IntakeEvent::Start => r == (IntakeState::Connecting, IntakeAction::Connect),
            IntakeEvent::ConnectSucceeded => r == (
                IntakeState::Connected,
                IntakeAction::SendSubscription,
            ),
            IntakeEvent::ConnectFailed => r == (IntakeState::Disconnected, IntakeAction::Backoff),
            IntakeEvent::Frame(f) => match f {
                SocketFrame::Text(ob) => match ob {
                    Some(b) => r == (IntakeState::Connected, IntakeAction::ProcessBlock(b)),
                    None => r == (IntakeState::Disconnected, IntakeAction::Backoff),
                },
                SocketFrame::Binary => r == (IntakeState::Disconnected, IntakeAction::Backoff),
                SocketFrame::Ping(p) => r == (IntakeState::Connected, IntakeAction::SendPong(p)),
                SocketFrame::Pong => r == (IntakeState::Connected, IntakeAction::Nothing),
                SocketFrame::Close => r == (IntakeState::Disconnected, IntakeAction::Backoff),
            },
            IntakeEvent::SendFailed => r == (IntakeState::Disconnected, IntakeAction::Backoff),
            IntakeEvent::StreamEnded => r == (IntakeState::Disconnected, IntakeAction::Backoff),
        },
{
    let _ = state;
    match event {
        IntakeEvent::Start => (IntakeState::Connecting, IntakeAction::Connect),
        IntakeEvent::ConnectSucceeded => (IntakeState::Connected, IntakeAction::SendSubscription),
        IntakeEvent::ConnectFailed => (IntakeState::Disconnected, IntakeAction::Backoff),
        IntakeEvent::Frame(f) => match handle_message(f) {
            Ok(action) => match action {
                FrameAction::EmitBlock(b) => (IntakeState::Connected, IntakeAction::ProcessBlock(b)),
                FrameAction::Respond(p) => (IntakeState::Connected, IntakeAction::SendPong(p)),
                FrameAction::Ignore => (IntakeState::Connected, IntakeAction::Nothing),
            },
            Err(_) => (IntakeState::Disconnected, IntakeAction::Backoff),
        },
        IntakeEvent::SendFailed => (IntakeState::Disconnected, IntakeAction::Backoff),
        IntakeEvent::StreamEnded => (IntakeState::Disconnected, IntakeAction::Backoff),
    }
}

/// The one-time subscription control message sent on connect.
pub fn subscription_message() -> (r: String)
    ensures
        r@ == "{\"subscribe\":\"new_block\",\"chain_id\":\"columbus-5\"}"@,
{
    "{\"subscribe\":\"new_block\",\"chain_id\":\"columbus-5\"}".to_owned()
}

} // verus!
