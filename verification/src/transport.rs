//! Transport contracts — `Receiver` and `Sender` — and the in-process
//! reference transport: a bounded channel pair clocked from its
//! creation instant, used for composition and testing without
//! hardware.

use vstd::prelude::*;

use crate::codec::wadd;
use crate::msg::Error;
use crate::msg::LedMsg;

verus! {

/// A batch source: a microsecond clock plus blocking and bounded
/// batch intake. The clock is consistent with the timestamps of the
/// records the receiver delivers.
pub trait Receiver {
    /// The receiver's current time, in microseconds.
    fn cur_time(&self) -> u64;

    /// Wait up to `timeout_micros` for one batch. A bounded receive
    /// ends in a batch, a `Timeout` — expected, not fatal — or an
    /// `Unrecoverable` peer loss; it never surfaces any other error.
    fn recv_to(&mut self, timeout_micros: u64) -> (r: Result<Vec<LedMsg>, Error>)
        ensures
            r matches Err(e) ==> (e is Timeout || e is Unrecoverable),
    ;

    /// Wait until a batch arrives or the peer is permanently gone;
    /// never a timeout, never any other error.
    fn recv(&mut self) -> (r: Result<Vec<LedMsg>, Error>)
        ensures
            r matches Err(e) ==> e is Unrecoverable,
    ;

    /// One non-blocking poll for a batch: a bounded receive with a
    /// zero window, failing only by `Timeout` or `Unrecoverable`.
    fn try_recv(&mut self) -> (r: Result<Vec<LedMsg>, Error>)
        ensures
            r matches Err(e) ==> (e is Timeout || e is Unrecoverable),
    {
        self.recv_to(0)
    }

    /// A handle that polls this receiver until a poll comes back
    /// empty.
    fn try_iter(&mut self) -> TryIter<'_, Self> where Self: Sized {
        TryIter { recv: self }
    }
}

/// A borrowing handle that polls a receiver until a poll comes back
/// empty.
pub struct TryIter<'a, T: Receiver> {
    recv: &'a mut T,
}

impl<'a, T: Receiver> TryIter<'a, T> {
    /// The next batch, if one is already waiting.
    pub fn next(&mut self) -> Option<Vec<LedMsg>> {
        match self.recv.try_recv() {
            Ok(v) => Some(v),
            Err(_) => None,
        }
    }
}

/// The records of `s` with their times shifted by `t` on the wrapping
/// 64-bit clock.
pub open spec fn shifted(s: Seq<LedMsg>, t: u64) -> Seq<LedMsg> {
    Seq::new(s.len(), |i: int| LedMsg { time: wadd(t, s[i].time), ..s[i] })
}

/// A batch sink with its own microsecond clock.
pub trait Sender {
    /// Send one batch. With `is_time_offset`, each record's stored
    /// time is first reinterpreted as an offset from now: the sender's
    /// current clock is added to it, in place, before transmission.
    fn send(&mut self, msgs: &mut Vec<LedMsg>, is_time_offset: bool) -> (r: Result<(), Error>)
        ensures
            is_time_offset ==> exists|t: u64| final(msgs)@ == shifted(old(msgs)@, t),
            !is_time_offset ==> final(msgs)@ == old(msgs)@,
    ;

    /// The sender's current time, in microseconds.
    fn get_time(&self) -> u64;
}

/// Why a bounded channel read stopped without a batch.
#[derive(Debug, Clone, Copy, PartialEq, Eq, Structural)]
enum ChannelStop {
    /// Nothing arrived within the window.
    TimedOut,
    /// Every sender is gone.
    Disconnected,
}

/// Declares std::time::Instant, the opaque monotonic clock reading
/// both local transport halves are clocked from.
#[verifier::external_type_specification]
#[verifier::external_body]
pub struct ExInstant(std::time::Instant);

/// Declares std::sync::mpsc::SyncSender, the sending half of a
/// bounded channel.
#[verifier::external_type_specification]
#[verifier::external_body]
#[verifier::reject_recursive_types(T)]
pub struct ExSyncSender<T>(std::sync::mpsc::SyncSender<T>);

/// Declares std::sync::mpsc::Receiver, the receiving half of a
/// bounded channel.
#[verifier::external_type_specification]
#[verifier::external_body]
#[verifier::reject_recursive_types(T)]
pub struct ExMpscReceiver<T>(std::sync::mpsc::Receiver<T>);

/// Declares std::sync::mpsc::SendError: a send failed because the
/// receiver is gone, handing the batch back.
#[verifier::external_type_specification]
#[verifier::external_body]
#[verifier::reject_recursive_types(T)]
pub struct ExSendError<T>(std::sync::mpsc::SendError<T>);

/// Declares std::sync::mpsc::RecvError: a blocking receive failed
/// because every sender is gone.
#[verifier::external_type_specification]
#[verifier::external_body]
pub struct ExRecvError(std::sync::mpsc::RecvError);

/// Relies on std::time::Instant::now: an opaque reading of the
/// monotonic clock.
#[verifier::external_body]
fn instant_now() -> std::time::Instant {
    std::time::Instant::now()
}

/// Relies on std::time::Instant::elapsed, read out as whole
/// microseconds. The result depends on the clock, so nothing is
/// promised of it.
#[verifier::external_body]
fn micros_since(start: &std::time::Instant) -> u64 {
    start.elapsed().as_micros() as u64
}

/// Relies on std::sync::mpsc::sync_channel: a bounded channel whose
/// send blocks once `bound` batches are pending.
#[verifier::external_body]
fn batch_channel(bound: usize) -> (
    std::sync::mpsc::SyncSender<Vec<LedMsg>>,
    std::sync::mpsc::Receiver<Vec<LedMsg>>,
) {
    std::sync::mpsc::sync_channel(bound)
}

/// Relies on std::sync::mpsc::SyncSender::send, which blocks while
/// the channel is full and fails only once the receiver is gone.
#[verifier::external_body]
fn batch_send(
    tx: &std::sync::mpsc::SyncSender<Vec<LedMsg>>,
    batch: Vec<LedMsg>,
) -> Result<(), std::sync::mpsc::SendError<Vec<LedMsg>>> {
    tx.send(batch)
}

/// Relies on std::sync::mpsc::Receiver::recv, which blocks until a
/// batch arrives and fails only once every sender is gone.
#[verifier::external_body]
fn batch_recv(
    rx: &std::sync::mpsc::Receiver<Vec<LedMsg>>,
) -> Result<Vec<LedMsg>, std::sync::mpsc::RecvError> {
    rx.recv()
}

/// Relies on std::sync::mpsc::Receiver::recv_timeout, waiting at most
/// the given time; its two ways of stopping are told apart, one arm
/// each.
#[verifier::external_body]
fn batch_recv_timeout(
    rx: &std::sync::mpsc::Receiver<Vec<LedMsg>>,
    micros: u64,
) -> Result<Vec<LedMsg>, ChannelStop> {
    match rx.recv_timeout(std::time::Duration::from_micros(micros)) {
        Ok(v) => Ok(v),
        Err(std::sync::mpsc::RecvTimeoutError::Timeout) => Err(ChannelStop::TimedOut),
        Err(std::sync::mpsc::RecvTimeoutError::Disconnected) => Err(ChannelStop::Disconnected),
    }
}

/// The receiving half of the reference local transport.
pub struct LocalReceiver {
    start: std::time::Instant,
    recv: std::sync::mpsc::Receiver<Vec<LedMsg>>,
}

impl Receiver for LocalReceiver {
    fn cur_time(&self) -> u64 {
        micros_since(&self.start)
    }

    fn recv(&mut self) -> (r: Result<Vec<LedMsg>, Error>) {
        match batch_recv(&self.recv) {
            Ok(v) => Ok(v),
            Err(_) => Err(Error::Unrecoverable("every sender has disconnected".to_string())),
        }
    }

    fn recv_to(&mut self, timeout_micros: u64) -> (r: Result<Vec<LedMsg>, Error>) {
        match batch_recv_timeout(&self.recv, timeout_micros) {
            Ok(v) => Ok(v),
            Err(ChannelStop::TimedOut) => Err(
                Error::Timeout("no batch arrived within the window".to_string()),
            ),
            Err(ChannelStop::Disconnected) => Err(
                Error::Unrecoverable("every sender has disconnected".to_string()),
            ),
        }
    }
}

/// The sending half of the reference local transport.
pub struct LocalSender {
    start: std::time::Instant,
    sender: std::sync::mpsc::SyncSender<Vec<LedMsg>>,
}

/// Add `t` to every record's time, in place, on the wrapping clock.
fn apply_offset(msgs: &mut Vec<LedMsg>, t: u64)
    ensures
        final(msgs)@ == shifted(old(msgs)@, t),
{
    let mut i: usize = 0;
    while i < msgs.len()
        invariant
            i <= msgs@.len(),
            msgs@.len() == old(msgs)@.len(),
            forall|k: int| 0 <= k < i ==> msgs@[k] == shifted(old(msgs)@, t)[k],
            forall|k: int| i <= k < msgs@.len() ==> msgs@[k] == old(msgs)@[k],
        decreases msgs@.len() - i,
    {
        let m = msgs[i];
        msgs[i] = LedMsg {
            time: t.wrapping_add(m.time),
            element: m.element,
            color: m.color,
            cmd: m.cmd,
        };
        i = i + 1;
    }
    proof {
        assert(msgs@ =~= shifted(old(msgs)@, t));
    }
}

/// Copy a batch so the original stays with the caller.
fn clone_batch(msgs: &Vec<LedMsg>) -> (r: Vec<LedMsg>)
    ensures
        r@ == msgs@,
{
    let mut r: Vec<LedMsg> = Vec::new();
    let mut i: usize = 0;
    while i < msgs.len()
        invariant
            i <= msgs@.len(),
            r@ == msgs@.subrange(0, i as int),
        decreases msgs@.len() - i,
    {
        r.push(msgs[i]);
        proof {
            assert(msgs@.subrange(0, i as int).push(msgs@[i as int]) =~= msgs@.subrange(
                0,
                i + 1,
            ));
        }
        i = i + 1;
    }
    proof {
        assert(msgs@.subrange(0, msgs@.len() as int) =~= msgs@);
    }
    r
}

impl Sender for LocalSender {
    fn send(&mut self, msgs: &mut Vec<LedMsg>, is_time_offset: bool) -> (r: Result<(), Error>)
        ensures
            r matches Err(e) ==> e is Unrecoverable,
    {
        if is_time_offset {
            let cur = micros_since(&self.start);
            apply_offset(msgs, cur);
        }
        let copy = clone_batch(msgs);
        match batch_send(&self.sender, copy) {
            Ok(_) => Ok(()),
            Err(_) => Err(Error::Unrecoverable("the receiver has disconnected".to_string())),
        }
    }

    fn get_time(&self) -> u64 {
        micros_since(&self.start)
    }
}

/// An in-process bounded channel pair satisfying both transport
/// contracts, both halves clocked from the same creation instant.
pub fn channel(size: usize) -> (LocalSender, LocalReceiver) {
    let pair = batch_channel(size);
    let start = instant_now();
    (LocalSender { start, sender: pair.0 }, LocalReceiver { start, recv: pair.1 })
}

} // verus!
