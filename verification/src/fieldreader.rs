//! A single-slot buffered reader over a push source of byte chunks.

use crate::buffer::{advance, chunk, has_remaining, unread};
use bytes::Bytes;
use vstd::prelude::*;

verus! {

/// What the push source answered when it was polled once.
pub enum Polled {
    /// A chunk arrived. It may hold no bytes at all.
    Chunk(Bytes),
    /// The source has ended.
    End,
    /// The source failed; the text is its own account of why.
    Failed(String),
    /// Nothing is ready yet. The source will wake the task when there is.
    Pending,
}

/// A poll's answer with the chunk as the bytes it holds.
pub enum PolledView {
    Chunk(Seq<u8>),
    End,
    Failed(Seq<char>),
    Pending,
}

impl View for Polled {
    type V = PolledView;

    open spec fn view(&self) -> PolledView {
        match *self {
            Polled::Chunk(b) => PolledView::Chunk(unread(b)),
            Polled::End => PolledView::End,
            Polled::Failed(msg) => PolledView::Failed(msg@),
            Polled::Pending => PolledView::Pending,
        }
    }
}

/// How a fill goes on after one answer of the source.
#[derive(Debug, PartialEq, Eq)]
pub enum Fill {
    /// The answer was taken in: look at the reader again, and poll once more
    /// if it still holds nothing.
    Again,
    /// The source has ended: the empty view is the end of the stream.
    Eof,
    /// Suspend here; when the task is woken, the fill starts over.
    Suspend,
    /// The read has failed, and the reader is not to be used again.
    Failed(String),
}

/// What a reader that holds nothing has buffered once it has taken in the
/// source's answer: the chunk that came, and nothing for any other answer.
pub open spec fn taken_in(polled: PolledView) -> Seq<u8> {
    match polled {
        PolledView::Chunk(bytes) => bytes,
        _ => Seq::empty(),
    }
}

/// How many bytes one pull moves: as many as are buffered, up to the room
/// that the caller's buffer has.
pub open spec fn pull_len(buffered: Seq<u8>, room: nat) -> nat {
    if room <= buffered.len() {
        room
    } else {
        buffered.len()
    }
}

/// Holds at most one chunk of the source, and of that chunk only what has not
/// been consumed. A chunk that is used up is dropped at once, so a held chunk
/// always has bytes to give.
pub struct FieldReader {
    chunk: Option<Bytes>,
}

impl FieldReader {
    /// A held chunk has bytes left: one that is used up is never kept.
    pub closed spec fn wf(self) -> bool {
        self.chunk matches Some(b) ==> unread(b).len() > 0
    }

    /// Whether the reader is holding a chunk, as opposed to being empty.
    pub closed spec fn holding(self) -> bool {
        self.chunk is Some
    }

    /// The bytes that can be handed out without asking the source.
    pub closed spec fn buffered(self) -> Seq<u8> {
        match self.chunk {
            Some(b) => unread(b),
            None => Seq::empty(),
        }
    }

    /// A reader is in one of two states: it holds a chunk, and then bytes
    /// are buffered, or it holds none, and then nothing is.
    pub proof fn lemma_holding_iff_buffered(self)
        requires
            self.wf(),
        ensures
            self.holding() <==> self.buffered().len() > 0,
    {
    }

    /// A reader that holds nothing.
    pub fn new() -> (r: Self)
        ensures
            r.wf(),
            !r.holding(),
            r.buffered() == Seq::<u8>::empty(),
    {
        FieldReader { chunk: None }
    }

    /// Whether a chunk is held, which is to say whether bytes are buffered.
    pub fn has_chunk(&self) -> (r: bool)
        ensures
            r == (self.buffered().len() > 0),
    {
        match &self.chunk {
            Some(b) => has_remaining(b),
            None => false,
        }
    }

    /// The lending pull: a view of everything that is buffered, with nothing
    /// copied; empty when nothing is held.
    pub fn buffer(&self) -> (view: &[u8])
        ensures
            view@ == self.buffered(),
    {
        match &self.chunk {
            Some(b) => chunk(b),
            None => {
                let none: &[u8] = &[];
                none
            },
        }
    }

    /// Takes in what the source answered to a poll that was made because the
    /// reader held nothing. A chunk with bytes becomes the held chunk; an
    /// empty one is dropped and counts as "try again", not as data and not as
    /// the end.
    pub fn poll_fill_buf(&mut self, polled: Polled) -> (next: Fill)
        requires
            old(self).wf(),
            old(self).buffered().len() == 0,
        ensures
            final(self).wf(),
            final(self).buffered() == taken_in(polled@),
            match polled {
                Polled::Chunk(_) => next == Fill::Again,
                Polled::End => next == Fill::Eof,
                Polled::Failed(msg) => next == Fill::Failed(msg),
                Polled::Pending => next == Fill::Suspend,
            },
    {
        match polled {
            Polled::Chunk(b) => {
                if has_remaining(&b) {
                    self.chunk = Some(b);
                } else {
                    self.chunk = None;
                }
                Fill::Again
            },
            Polled::End => {
                self.chunk = None;
                Fill::Eof
            },
            Polled::Failed(msg) => {
                self.chunk = None;
                Fill::Failed(msg)
            },
            Polled::Pending => {
                self.chunk = None;
                Fill::Suspend
            },
        }
    }

    /// The copying pull: moves buffered bytes to the front of `buf`, as many
    /// as fit, and consumes them. Returns how many were moved, which is 0
    /// only when `buf` has no room or nothing is buffered; after a fill, the
    /// latter is the end of the stream.
    pub fn poll_read(&mut self, buf: &mut [u8]) -> (len: usize)
        requires
            old(self).wf(),
        ensures
            final(self).wf(),
            len == pull_len(old(self).buffered(), old(buf)@.len()),
            final(buf)@ == old(self).buffered().take(len as int) + old(buf)@.skip(len as int),
            final(self).buffered() == old(self).buffered().skip(len as int),
    {
        let inner = self.buffer();
        let len: usize = if buf.len() <= inner.len() {
            buf.len()
        } else {
            inner.len()
        };
        let mut i: usize = 0;
        while i < len
            invariant
                i <= len,
                len <= inner@.len(),
                len <= buf@.len(),
                buf@.len() == old(buf)@.len(),
                inner@ == old(self).buffered(),
                buf@ == inner@.take(i as int) + old(buf)@.skip(i as int),
            decreases len - i,
        {
            buf[i] = inner[i];
            i += 1;
        }
        self.consume(len);
        len
    }

    /// Drops the first `amt` buffered bytes. When that uses the held chunk up,
    /// the chunk is let go and the reader holds nothing.
    pub fn consume(&mut self, amt: usize)
        requires
            old(self).wf(),
            amt <= old(self).buffered().len(),
        ensures
            final(self).wf(),
            final(self).buffered() == old(self).buffered().skip(amt as int),
    {
        if amt > 0 {
            let held = self.chunk.take();
            match held {
                Some(mut b) => {
                    advance(&mut b, amt);
                    if has_remaining(&b) {
                        self.chunk = Some(b);
                    }
                },
                None => {},
            }
        }
    }
}

} // verus!
