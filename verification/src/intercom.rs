//! The intercom protocol: the typed message shapes tasks send each other,
//! and the reply capabilities a request handler answers through without
//! knowing the caller's transport.
//!
//! A capability is specified by the log of what has been sent through it:
//! each operation appends one entry, and nothing ever removes one. A
//! concrete capability chooses where that log lives (here: an in-process
//! buffer the caller can read back).

use vstd::prelude::*;
use crate::blockcfg::{Block, BlockHash, Header, Transaction};

verus! {

/// The uniform error currency across task boundaries: an opaque wrapper
/// carrying a human-readable message, so senders and receivers need not
/// share concrete error types.
#[derive(Clone, PartialEq, Eq, Debug)]
pub struct Error {
    pub message: String,
}

impl Error {
    /// Wrap an underlying failure, keeping its rendered message.
    pub fn from_error(message: String) -> (r: Error)
        ensures
            r.message == message,
    {
        Error { message }
    }
}

impl From<String> for Error {
    fn from(s: String) -> (r: Error) {
        Error { message: s }
    }
}

impl vstd::std_specs::convert::FromSpecImpl<String> for Error {
    open spec fn obeys_from_spec() -> bool {
        true
    }

    open spec fn from_spec(s: String) -> Error {
        Error { message: s }
    }
}

/// A capability to answer a unary request exactly once, with either the
/// requested item or an error.
pub trait Reply<T> {
    /// Everything that has been answered through this capability so far,
    /// oldest first.
    spec fn log(&self) -> Seq<Result<T, Error>>;

    fn reply_ok(&mut self, item: T)
        ensures
            final(self).log() == old(self).log().push(Ok(item)),
    ;

    fn reply_error(&mut self, error: Error)
        ensures
            final(self).log() == old(self).log().push(Err(error)),
    ;

    /// Answer with a result, dispatching to the success or failure side.
    fn reply(&mut self, result: Result<T, Error>)
        ensures
            final(self).log() == old(self).log().push(result),
    {
        match result {
            Ok(item) => self.reply_ok(item),
            Err(error) => self.reply_error(error),
        }
    }
}

/// One event observed on a producer-driven stream.
#[derive(Clone, PartialEq, Eq, Debug)]
pub enum StreamEvent<T> {
    Item(T),
    Failed(Error),
    Closed,
}

/// A capability to answer a streaming request: zero or more items, errors
/// as values, and an explicit close by the producer.
pub trait StreamReply<T> {
    /// Everything that has been sent through this capability so far,
    /// oldest first.
    spec fn log(&self) -> Seq<StreamEvent<T>>;

    fn send(&mut self, item: T)
        ensures
            final(self).log() == old(self).log().push(StreamEvent::Item(item)),
    ;

    fn send_error(&mut self, error: Error)
        ensures
            final(self).log() == old(self).log().push(StreamEvent::Failed(error)),
    ;

    fn close(&mut self)
        ensures
            final(self).log() == old(self).log().push(StreamEvent::<T>::Closed),
    ;
}

/// A reply capability bound to an in-process caller: the answers are kept
/// in a buffer the caller reads back once the handler is done.
pub struct BufferedReply<T> {
    answers: Vec<Result<T, Error>>,
}

impl<T> BufferedReply<T> {
    pub fn new() -> (r: BufferedReply<T>)
        ensures
            r.log() == Seq::<Result<T, Error>>::empty(),
    {
        BufferedReply { answers: Vec::new() }
    }

    /// How many answers have been recorded.
    pub fn len(&self) -> (r: usize)
        ensures
            r == self.log().len(),
    {
        self.answers.len()
    }

    /// Read one recorded answer back.
    pub fn get(&self, i: usize) -> (r: &Result<T, Error>)
        requires
            i < self.log().len(),
        ensures
            *r == self.log()[i as int],
    {
        &self.answers[i]
    }
}

impl<T> Reply<T> for BufferedReply<T> {
    closed spec fn log(&self) -> Seq<Result<T, Error>> {
        self.answers@
    }

    fn reply_ok(&mut self, item: T) {
        self.answers.push(Ok(item));
    }

    fn reply_error(&mut self, error: Error) {
        self.answers.push(Err(error));
    }
}

/// A stream capability bound to an in-process caller, keeping the events
/// in a buffer the caller reads back.
pub struct BufferedStreamReply<T> {
    events: Vec<StreamEvent<T>>,
}

impl<T> BufferedStreamReply<T> {
    pub fn new() -> (r: BufferedStreamReply<T>)
        ensures
            r.log() == Seq::<StreamEvent<T>>::empty(),
    {
        BufferedStreamReply { events: Vec::new() }
    }

    pub fn len(&self) -> (r: usize)
        ensures
            r == self.log().len(),
    {
        self.events.len()
    }

    pub fn get(&self, i: usize) -> (r: &StreamEvent<T>)
        requires
            i < self.log().len(),
        ensures
            *r == self.log()[i as int],
    {
        &self.events[i]
    }
}

impl<T> StreamReply<T> for BufferedStreamReply<T> {
    closed spec fn log(&self) -> Seq<StreamEvent<T>> {
        self.events@
    }

    fn send(&mut self, item: T) {
        self.events.push(StreamEvent::Item(item));
    }

    fn send_error(&mut self, error: Error) {
        self.events.push(StreamEvent::Failed(error));
    }

    fn close(&mut self) {
        self.events.push(StreamEvent::Closed);
    }
}

/// Client messages: requests from a connected peer or local client to the
/// node, each carrying the capability its answer travels back through.
pub enum ClientMsg<RT, RH, RB> {
    GetBlockTip(RT),
    GetBlockHeaders(Vec<BlockHash>, BlockHash, RH),
    GetBlocks(BlockHash, BlockHash, RB),
}

/// Messages inbound to the block-handling worker.
#[derive(Clone, Copy, PartialEq, Eq, Structural, Debug)]
pub enum BlockMsg {
    /// An untrusted block received from the network task; it must pass
    /// validation before it is handed to the chain manager.
    NetworkBlock(Block),
    /// A block this node produced itself through the leadership task.
    LeadershipBlock(Block),
}

/// Messages broadcast to every connected peer that subscribed to this
/// node's chain.
#[derive(Clone, PartialEq, Eq, Debug)]
pub enum NetworkBroadcastMsg {
    Block(Block),
    Header(Header),
    Transaction(Transaction),
}

} // verus!
