//! What a connection decides between two reads or two writes: when a
//! message has arrived whole, how far its buffer has to grow, and how much
//! of a message is still to be written. The reads and writes themselves are
//! the caller's.

use vstd::prelude::*;
use crate::parsable::{Parsable, ParseErrorKind, ParseStatus, Sendable};

verus! {

/// The error of an operation of `std::io`, carried as it came.
#[verifier::external_type_specification]
#[verifier::external_body]
pub struct ExIoError(std::io::Error);

/// How a receive or a send over a connection ended.
#[derive(Debug)]
pub enum ConnResult<T> {
    /// It went through.
    Success(T),
    /// The peer closed the connection: a read brought no byte.
    ZeroPacket,
    /// The bytes received begin no message.
    ParseErr(ParseErrorKind),
    /// The transport failed.
    IoError(std::io::Error),
}

/// The step by which the buffer of a connection grows.
pub const BLOCK: usize = 1024;

/// The room that a buffer has left when it holds `filled` bytes: what is
/// missing to the next multiple of the block, a whole block where nothing is.
pub open spec fn room_after(filled: nat) -> nat {
    (BLOCK - filled % (BLOCK as nat)) as nat
}

/// What one read on a connection brought.
#[derive(Debug)]
pub enum ReadEvent {
    /// The bytes that were read; none where the peer has closed.
    Read(Vec<u8>),
    /// Nothing was there to read yet.
    WouldBlock,
    /// The read failed.
    Failed(std::io::Error),
}

/// Where a receive stands after a read.
#[derive(Debug)]
pub enum Received<T> {
    /// The receive has ended.
    Finished(ConnResult<T>),
    /// More bytes are needed: read again.
    Pending,
}

/// Whether a receive that has buffered `buf` stands where `step` says.
pub open spec fn receive_outcome<P: Parsable>(buf: Seq<u8>, step: Received<P>) -> bool {
    match P::parsed(buf) {
        ParseStatus::Complete((message, _)) => step matches Received::Finished(
            ConnResult::Success(p),
        ) && p@ == message,
        ParseStatus::InProgress => step is Pending,
        ParseStatus::Error(kind) => step == Received::<P>::Finished(ConnResult::ParseErr(kind)),
    }
}

/// The receiving side of a connection for one message: the bytes read so
/// far, parsed anew from their first byte after every read.
#[derive(Debug)]
pub struct Receiver {
    buf: Vec<u8>,
}

impl View for Receiver {
    type V = Seq<u8>;

    closed spec fn view(&self) -> Seq<u8> {
        self.buf@
    }
}

impl Receiver {
    /// A receiver that has read nothing.
    pub fn new() -> (r: Receiver)
        ensures
            r@ == Seq::<u8>::empty(),
    {
        Receiver { buf: Vec::new() }
    }

    /// The number of bytes buffered.
    pub fn filled(&self) -> (n: usize)
        ensures
            n == self@.len(),
    {
        self.buf.len()
    }

    /// The number of bytes that the next read may bring: the buffer begins
    /// with one block and gains another whenever it is full.
    pub fn room(&self) -> (n: usize)
        ensures
            n == room_after(self@.len()),
            1 <= n <= BLOCK,
            (self@.len() + n) % (BLOCK as int) == 0,
    {
        BLOCK - self.buf.len() % BLOCK
    }

    /// Takes what a read brought. A failed read ends the receive with its
    /// error, and a read of no bytes ends it as closed by the peer; neither
    /// changes the buffer. Otherwise the bytes join the buffer, and the
    /// receive ends when the buffer parses to a whole message or to an error.
    pub fn on_read<P: Parsable>(&mut self, event: ReadEvent) -> (step: Received<P>)
        ensures
            match event {
                ReadEvent::Failed(e) => step == Received::<P>::Finished(ConnResult::IoError(e))
                    && final(self)@ == old(self)@,
                ReadEvent::Read(bytes) => if bytes@.len() == 0 {
                    step == Received::<P>::Finished(ConnResult::ZeroPacket)
                        && final(self)@ == old(self)@
                } else {
                    final(self)@ == old(self)@ + bytes@ && receive_outcome(final(self)@, step)
                },
                ReadEvent::WouldBlock => final(self)@ == old(self)@ && receive_outcome(
                    final(self)@,
                    step,
                ),
            },
    {
        match event {
            ReadEvent::Failed(e) => {
                return Received::Finished(ConnResult::IoError(e));
            },
            ReadEvent::Read(mut bytes) => {
                if bytes.len() == 0 {
                    return Received::Finished(ConnResult::ZeroPacket);
                }
                self.buf.append(&mut bytes);
            },
            ReadEvent::WouldBlock => {},
        }
        let mut message = P::new();
        match message.parse(self.buf.as_slice()) {
            ParseStatus::Complete(_) => Received::Finished(ConnResult::Success(message)),
            ParseStatus::InProgress => Received::Pending,
            ParseStatus::Error(kind) => Received::Finished(ConnResult::ParseErr(kind)),
        }
    }
}

/// What one write on a connection did.
#[derive(Debug)]
pub enum WriteEvent {
    /// The number of bytes that were written.
    Wrote(usize),
    /// Nothing could be written yet.
    WouldBlock,
    /// The write failed.
    Failed(std::io::Error),
}

/// Where a send stands after a write.
#[derive(Debug)]
pub enum Sent {
    /// The send has ended.
    Finished(ConnResult<()>),
    /// Bytes are left: write again.
    Pending,
}

/// The number of bytes written after a write of `wrote` more, of a payload
/// of `len` bytes of which `sent` were written before.
pub open spec fn sent_after(len: nat, sent: nat, wrote: nat) -> nat {
    if sent + wrote >= len {
        len
    } else {
        sent + wrote
    }
}

/// The sending side of a connection for one message: its bytes, serialised
/// once, and how many of them have been written.
#[derive(Debug)]
pub struct Sender {
    bytes: Vec<u8>,
    sent: usize,
}

impl Sender {
    /// What every sender keeps: no more is written than there is.
    #[verifier::type_invariant]
    pub closed spec fn well_formed(&self) -> bool {
        self.sent <= self.bytes@.len()
    }

    /// The bytes of the message.
    pub closed spec fn payload(&self) -> Seq<u8> {
        self.bytes@
    }

    /// The number of bytes written so far.
    pub closed spec fn sent(&self) -> nat {
        self.sent as nat
    }

    /// A sender for a message, of which nothing is written yet.
    pub fn new<S: Sendable>(message: &S) -> (s: Sender)
        ensures
            s.payload() == message.wire(),
            s.sent() == 0,
    {
        Sender { bytes: message.to_bytes(), sent: 0 }
    }

    /// Whether every byte is written.
    pub fn is_done(&self) -> (done: bool)
        ensures
            done == (self.sent() == self.payload().len()),
            self.sent() <= self.payload().len(),
    {
        proof {
            use_type_invariant(self);
        }
        self.sent == self.bytes.len()
    }

    /// The bytes that are still to be written.
    pub fn remaining(&self) -> (rest: &[u8])
        ensures
            self.sent() <= self.payload().len(),
            rest@ == self.payload().skip(self.sent() as int),
    {
        proof {
            use_type_invariant(self);
        }
        let rest = vstd::slice::slice_subrange(self.bytes.as_slice(), self.sent, self.bytes.len());
        assert(rest@ =~= self.payload().skip(self.sent() as int));
        rest
    }

    /// Takes what a write did. A failed write ends the send with its error.
    /// Otherwise the bytes written count, a write of none like one that
    /// could not be made, and the send ends when none is left.
    pub fn on_write(&mut self, event: WriteEvent) -> (step: Sent)
        ensures
            final(self).payload() == old(self).payload(),
            final(self).sent() <= final(self).payload().len(),
            match event {
                WriteEvent::Failed(e) => step == Sent::Finished(ConnResult::IoError(e))
                    && final(self).sent() == old(self).sent(),
                WriteEvent::Wrote(n) => final(self).sent() == sent_after(
                    old(self).payload().len(),
                    old(self).sent(),
                    n as nat,
                ),
                WriteEvent::WouldBlock => final(self).sent() == old(self).sent(),
            },
            !(event is Failed) ==> step == (if final(self).sent() == final(self).payload().len() {
                Sent::Finished(ConnResult::Success(()))
            } else {
                Sent::Pending
            }),
    {
        proof {
            use_type_invariant(&*self);
        }
        match event {
            WriteEvent::Failed(e) => {
                return Sent::Finished(ConnResult::IoError(e));
            },
            WriteEvent::Wrote(n) => {
                if n >= self.bytes.len() - self.sent {
                    self.sent = self.bytes.len();
                } else {
                    self.sent = self.sent + n;
                }
            },
            WriteEvent::WouldBlock => {},
        }
        if self.sent == self.bytes.len() {
            Sent::Finished(ConnResult::Success(()))
        } else {
            Sent::Pending
        }
    }
}

} // verus!
