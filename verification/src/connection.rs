//! One connection: the bytes received and not yet used, and what the server
//! does next with them.
//!
//! ```text
//! frame := length of the payload as u64, little-endian, then the payload
//! ```
//!
//! A request is one frame that holds a command, a reply one frame that holds
//! an outcome. The server buffers no frame of more than 16 MiB: a header
//! that announces more is answered with one error reply, and the connection
//! is closed.

use crate::engine::TuringEngine;
use crate::errors::OpsErrors;
use crate::outcome::{OpsOutcome, OutcomeView};
use crate::commands::{op_of, to_op, TuringOp};
use crate::server::{error_message, format_error, process_command, process_post, replies, Step};
use crate::wire::{decode_command, field_bytes, parse_command, put_field};
use vstd::bytes::{spec_u64_from_le_bytes, u64_from_le_bytes};
use vstd::prelude::*;
use vstd::slice::{slice_subrange, slice_to_vec};

verus! {

/// The most that a frame may carry: 16 MiB.
pub const BUFFER_DATA_CAPACITY: usize = 16_777_216;

/// How the bytes received so far stand to the frame they begin.
pub enum FrameView {
    /// They do not hold a whole frame yet.
    Incomplete,
    /// The header announces more than a frame may carry.
    Oversize,
    /// They hold a whole frame: its payload, and what follows it.
    Ready(Seq<u8>, Seq<u8>),
}

/// Reads the bytes received so far as the beginning of a frame.
pub open spec fn frame_of(b: Seq<u8>) -> FrameView {
    if b.len() < 8 {
        FrameView::Incomplete
    } else {
        let n = spec_u64_from_le_bytes(b.subrange(0, 8));
        if n > BUFFER_DATA_CAPACITY {
            FrameView::Oversize
        } else if n > b.len() - 8 {
            FrameView::Incomplete
        } else {
            FrameView::Ready(b.subrange(8, 8 + n), b.subrange(8 + n, b.len() as int))
        }
    }
}

/// The reply to a fault of the wire layer.
pub open spec fn refusal(fault: OpsErrors) -> OutcomeView {
    OutcomeView::EncounteredErrors(fault.spec_message())
}

/// The reply to a fault of the wire layer: an error that carries the
/// message of the fault.
pub fn refuse(fault: OpsErrors) -> (o: OpsOutcome)
    ensures
        o@ == refusal(fault),
{
    OpsOutcome::EncounteredErrors(fault.message().to_owned())
}

/// The operation that a payload asks for by its first byte; a payload
/// without one asks for none that is supported.
pub open spec fn asked_op(payload: Seq<u8>) -> TuringOp {
    if payload.len() > 0 {
        op_of(payload.subrange(0, 1))
    } else {
        TuringOp::NotSupported
    }
}

/// The reply to a payload that is no command: an error that names the
/// operation asked for and says that the command cannot be read.
pub open spec fn unreadable(payload: Seq<u8>) -> OutcomeView {
    OutcomeView::EncounteredErrors(
        error_message(asked_op(payload), OpsErrors::IntegrityCorrupted.spec_message()),
    )
}

/// What the server does next on a connection.
#[derive(Debug, Clone, PartialEq, Eq)]
pub enum Next {
    /// Read more bytes from the stream.
    Read,
    /// Handle this request payload, send the reply, and ask again.
    Handle(Vec<u8>),
    /// Send this one reply, then close the stream.
    Refuse(OpsOutcome),
    /// Close the stream.
    Close,
}

/// The state of one connection.
pub struct Connection {
    buffer: Vec<u8>,
    finished: bool,
}

/// Puts a payload into a frame.
pub fn frame(payload: &[u8]) -> (out: Vec<u8>)
    ensures
        out@ == field_bytes(payload@),
{
    let mut out: Vec<u8> = Vec::new();
    put_field(&mut out, payload);
    assert(out@ =~= field_bytes(payload@));
    out
}

/// A frame of no more than 16 MiB is read as ready, with its payload, as
/// soon as it has arrived whole.
pub proof fn lemma_frame_ready(payload: Seq<u8>, rest: Seq<u8>)
    requires
        payload.len() <= BUFFER_DATA_CAPACITY,
    ensures
        frame_of(field_bytes(payload) + rest) == FrameView::Ready(payload, rest),
{
    crate::wire::lemma_field_round_trip(payload, rest);
}

/// A header that announces more than 16 MiB is read as oversize as soon as
/// it has arrived, whatever follows it.
pub proof fn lemma_frame_oversize(length: u64, rest: Seq<u8>)
    requires
        length > BUFFER_DATA_CAPACITY,
    ensures
        frame_of(vstd::bytes::spec_u64_to_le_bytes(length) + rest) == FrameView::Oversize,
{
    vstd::bytes::lemma_auto_spec_u64_to_from_le_bytes();
    let b = vstd::bytes::spec_u64_to_le_bytes(length) + rest;
    assert(b.subrange(0, 8) =~= vstd::bytes::spec_u64_to_le_bytes(length));
}

impl Connection {
    /// The bytes received and not yet used.
    pub closed spec fn buffered(&self) -> Seq<u8> {
        self.buffer@
    }

    /// The connection is over: nothing more is read or handled on it.
    pub closed spec fn is_finished(&self) -> bool {
        self.finished
    }

    /// A connection on which nothing has arrived yet.
    pub fn new() -> (c: Connection)
        ensures
            c.buffered() == Seq::<u8>::empty(),
            !c.is_finished(),
    {
        Connection { buffer: Vec::new(), finished: false }
    }

    /// Takes in bytes that were read from the stream. On a connection that
    /// is over they are dropped.
    pub fn receive(&mut self, bytes: &[u8])
        ensures
            final(self).is_finished() == old(self).is_finished(),
            final(self).buffered() == if old(self).is_finished() {
                old(self).buffered()
            } else {
                old(self).buffered() + bytes@
            },
    {
        if !self.finished {
            let mut more = slice_to_vec(bytes);
            self.buffer.append(&mut more);
        }
    }

    /// The peer has closed its side: a read came back with no bytes. The
    /// connection is over; a frame that has not arrived whole is dropped.
    pub fn hang_up(&mut self)
        ensures
            final(self).is_finished(),
            final(self).buffered() == old(self).buffered(),
    {
        self.finished = true;
    }

    /// What the server does next.
    ///
    /// On a connection that is over: close. Else, where the bytes received
    /// begin with a header that announces more than 16 MiB: refuse with one
    /// error reply, and the connection is over. Where they hold a whole
    /// frame: handle its payload, which is taken off the bytes. Else: read
    /// on; the bytes kept are then fewer than a header and the largest
    /// payload together.
    pub fn next(&mut self) -> (next: Next)
        ensures
            old(self).is_finished() ==> next == Next::Close && final(self).is_finished()
                && final(self).buffered() == old(self).buffered(),
            !old(self).is_finished() ==> match frame_of(old(self).buffered()) {
                FrameView::Oversize => {
                    &&& next matches Next::Refuse(o)
                    &&& o@ == refusal(OpsErrors::BufferCapacityExceeded16Mb)
                    &&& final(self).is_finished()
                },
                FrameView::Ready(payload, rest) => {
                    &&& next matches Next::Handle(p)
                    &&& p@ == payload
                    &&& final(self).buffered() == rest
                    &&& !final(self).is_finished()
                },
                FrameView::Incomplete => {
                    &&& next == Next::Read
                    &&& final(self).buffered() == old(self).buffered()
                    &&& final(self).buffered().len() < 8 + BUFFER_DATA_CAPACITY
                    &&& !final(self).is_finished()
                },
            },
    {
        if self.finished {
            return Next::Close;
        }
        if self.buffer.len() < 8 {
            return Next::Read;
        }
        let n = u64_from_le_bytes(slice_subrange(self.buffer.as_slice(), 0, 8));
        if n > BUFFER_DATA_CAPACITY as u64 {
            self.finished = true;
            return Next::Refuse(refuse(OpsErrors::BufferCapacityExceeded16Mb));
        }
        if n > (self.buffer.len() - 8) as u64 {
            return Next::Read;
        }
        let n: usize = n as usize;
        let payload = slice_to_vec(slice_subrange(self.buffer.as_slice(), 8, 8 + n));
        let rest = slice_to_vec(slice_subrange(self.buffer.as_slice(), 8 + n, self.buffer.len()));
        self.buffer = rest;
        Next::Handle(payload)
    }

    /// Handles a request payload: reads the command and carries it out as
    /// far as the repository in memory goes. A payload that is no command
    /// gets one error reply, which names the operation that its first byte
    /// asks for, and the connection is over.
    pub fn handle(&mut self, engine: &mut TuringEngine, payload: &[u8]) -> (step: Step)
        requires
            old(engine).wf(),
        ensures
            final(engine).wf(),
            final(self).buffered() == old(self).buffered(),
            match parse_command(payload@) {
                Some(command) => {
                    &&& final(self).is_finished() == old(self).is_finished()
                    &&& exists|c: crate::commands::TuringCommands|
                        c@ == command && #[trigger] process_post(
                            *old(engine),
                            *final(engine),
                            c,
                            step,
                        )
                },
                None => {
                    &&& final(self).is_finished()
                    &&& final(engine).same_as(*old(engine))
                    &&& replies(step, unreadable(payload@))
                },
            },
    {
        match decode_command(payload) {
            Ok(command) => {
                let ghost c = command;
                let step = process_command(engine, command);
                assert(c@ == parse_command(payload@)->0 && process_post(
                    *old(engine),
                    *engine,
                    c,
                    step,
                ));
                step
            },
            Err(fault) => {
                self.finished = true;
                let op = if payload.len() > 0 {
                    to_op(slice_subrange(payload, 0, 1))
                } else {
                    TuringOp::NotSupported
                };
                Step::Reply(format_error(&op, fault.message()))
            },
        }
    }
}

} // verus!
