use crate::network::{GMWConnection, GMWPacket, NetworkError, Packet};
use std::sync::mpsc::{Receiver, Sender};
use vstd::prelude::*;

verus! {

#[verifier::external_type_specification]
#[verifier::external_body]
#[verifier::reject_recursive_types(T)]
pub struct ExSender<T>(Sender<T>);

#[verifier::external_type_specification]
#[verifier::external_body]
#[verifier::reject_recursive_types(T)]
pub struct ExReceiver<T>(Receiver<T>);

/// Relies on `std::sync::mpsc::channel`: a sender and the receiver of the same queue.
#[verifier::external_body]
fn new_queue<T>() -> (Sender<T>, Receiver<T>) {
    std::sync::mpsc::channel()
}

/// Relies on `Sender::send`: queues the value, failing (with the error's description) only
/// when the receiver is gone.
#[verifier::external_body]
fn queue_send<T>(sender: &Sender<T>, value: T) -> Result<(), String> {
    match sender.send(value) {
        Ok(()) => Ok(()),
        Err(e) => Err(e.to_string()),
    }
}

/// Relies on `Receiver::recv`: waits for the next queued value, failing (with the error's
/// description) only when the sender is gone and the queue is empty.
#[verifier::external_body]
fn queue_recv<T>(receiver: &Receiver<T>) -> Result<T, String> {
    match receiver.recv() {
        Ok(v) => Ok(v),
        Err(e) => Err(e.to_string()),
    }
}

/// What travels on the in-memory queues: a protocol packet, or a message of a triple
/// provider sharing the queue.
pub enum MemChannelPacket<T: 'static> {
    Gmw(GMWPacket),
    Mtp(T),
}

/// What a receiving end makes of a queued item: a protocol packet is delivered, a provider's
/// message in its place is an error.
pub fn from_queue_item<T>(item: MemChannelPacket<T>) -> (r: Result<GMWPacket, NetworkError>)
    ensures
        item matches MemChannelPacket::Gmw(p) ==> (r matches Ok(q) && q@ == p@),
        item is Mtp ==> r matches Err(NetworkError::Other(_)),
{
    match item {
        MemChannelPacket::Gmw(packet) => Ok(packet),
        MemChannelPacket::Mtp(_) => Err(
            NetworkError::Other(
                String::from_str("Protocol Error: Expected GMW packet but got MTP packet."),
            ),
        ),
    }
}

/// One end of two queues connected crosswise, for two parties in one process.
#[verifier::reject_recursive_types(T)]
pub struct MemChannelConnection<T: 'static> {
    pub sender: Sender<MemChannelPacket<T>>,
    pub receiver: Receiver<MemChannelPacket<T>>,
    sent: Ghost<Seq<Packet>>,
    received: Ghost<Seq<Packet>>,
}

impl<T: 'static> MemChannelConnection<T> {
    /// Two connected ends: what one sends, the other receives. Neither has sent or received
    /// anything yet.
    pub fn pair() -> (r: (Self, Self))
        ensures
            r.0.sent() == Seq::<Packet>::empty(),
            r.0.received() == Seq::<Packet>::empty(),
            r.1.sent() == Seq::<Packet>::empty(),
            r.1.received() == Seq::<Packet>::empty(),
    {
        let (to_second, from_first) = new_queue();
        let (to_first, from_second) = new_queue();
        (
            MemChannelConnection {
                sender: to_second,
                receiver: from_second,
                sent: Ghost(Seq::empty()),
                received: Ghost(Seq::empty()),
            },
            MemChannelConnection {
                sender: to_first,
                receiver: from_first,
                sent: Ghost(Seq::empty()),
                received: Ghost(Seq::empty()),
            },
        )
    }
}

impl<T: 'static> GMWConnection for MemChannelConnection<T> {
    closed spec fn sent(&self) -> Seq<Packet> {
        self.sent@
    }

    closed spec fn received(&self) -> Seq<Packet> {
        self.received@
    }

    fn send(&mut self, message: GMWPacket) -> (r: Result<(), NetworkError>) {
        let ghost m = message@;
        match queue_send(&self.sender, MemChannelPacket::Gmw(message)) {
            Ok(()) => {
                self.sent = Ghost(self.sent@.push(m));
                Ok(())
            },
            Err(cause) => Err(NetworkError::ConnectionError(cause)),
        }
    }

    /// The next protocol packet; a provider's message in its place is an error.
    fn recv(&mut self) -> (r: Result<GMWPacket, NetworkError>) {
        let r = match queue_recv(&self.receiver) {
            Ok(item) => from_queue_item(item),
            Err(cause) => Err(NetworkError::ConnectionError(cause)),
        };
        match &r {
            Ok(p) => {
                self.received = Ghost(self.received@.push(p@));
            },
            Err(_) => {},
        }
        r
    }
}

} // verus!
