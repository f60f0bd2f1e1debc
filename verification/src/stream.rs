//! What a reader makes of a whole source: the chunks that the source will
//! deliver, taken in one at a time and handed out pull by pull. The functions
//! here are the reader's own rules (`taken_in`, `pull_len`) applied over and
//! over, and the lemmas say that no byte is lost, doubled or moved on the way.

use crate::fieldreader::{pull_len, taken_in, PolledView};
use vstd::prelude::*;

verus! {

/// All the bytes of a run of chunks, in the order of arrival.
pub open spec fn joined(chunks: Seq<Seq<u8>>) -> Seq<u8>
    decreases chunks.len(),
{
    if chunks.len() == 0 {
        Seq::empty()
    } else {
        chunks[0] + joined(chunks.drop_first())
    }
}

/// A reader on its source: what the reader has buffered, and the chunks that
/// the source has yet to deliver before it ends.
pub struct Stream {
    pub buffered: Seq<u8>,
    pub pending: Seq<Seq<u8>>,
}

impl Stream {
    /// Everything that is still to be read, in order.
    pub open spec fn bytes(self) -> Seq<u8> {
        self.buffered + joined(self.pending)
    }

    /// The stream after a fill that was never suspended: a reader that holds
    /// nothing takes chunks in until one has bytes or the source has ended.
    pub open spec fn filled(self) -> Stream
        decreases self.pending.len(),
    {
        if self.buffered.len() > 0 || self.pending.len() == 0 {
            self
        } else {
            (Stream {
                buffered: taken_in(PolledView::Chunk(self.pending[0])),
                pending: self.pending.drop_first(),
            }).filled()
        }
    }

    /// The bytes that one pull with the given room hands out.
    pub open spec fn pulled(self, room: nat) -> Seq<u8> {
        let staged = self.filled().buffered;
        staged.take(pull_len(staged, room) as int)
    }

    /// The stream after one pull with the given room.
    pub open spec fn after_pull(self, room: nat) -> Stream {
        let staged = self.filled();
        Stream {
            buffered: staged.buffered.skip(pull_len(staged.buffered, room) as int),
            pending: staged.pending,
        }
    }

    /// The bytes that a run of pulls hands out, one pull for each room given.
    pub open spec fn read(self, rooms: Seq<nat>) -> Seq<u8>
        decreases rooms.len(),
    {
        if rooms.len() == 0 {
            Seq::empty()
        } else {
            self.pulled(rooms[0]) + self.after_pull(rooms[0]).read(rooms.drop_first())
        }
    }

    /// The stream after a run of pulls.
    pub open spec fn after_read(self, rooms: Seq<nat>) -> Stream
        decreases rooms.len(),
    {
        if rooms.len() == 0 {
            self
        } else {
            self.after_pull(rooms[0]).after_read(rooms.drop_first())
        }
    }
}

/// A fill changes where the bytes are held, not what is still to be read; and
/// it leaves the reader empty-handed only when nothing is left at all.
pub proof fn lemma_fill_keeps_bytes(s: Stream)
    ensures
        s.filled().bytes() == s.bytes(),
        s.filled().buffered.len() == 0 <==> s.bytes().len() == 0,
    decreases s.pending.len(),
{
    if s.buffered.len() > 0 || s.pending.len() == 0 {
        if s.pending.len() == 0 {
            assert(joined(s.pending) == Seq::<u8>::empty());
        }
    } else {
        let next = Stream { buffered: s.pending[0], pending: s.pending.drop_first() };
        lemma_fill_keeps_bytes(next);
        assert(s.bytes() =~= next.bytes());
    }
}

/// One pull hands out the front of the stream and leaves the rest: what came
/// out, followed by what is still to be read, is what was to be read before.
pub proof fn lemma_pull_takes_the_front(s: Stream, room: nat)
    ensures
        s.pulled(room) + s.after_pull(room).bytes() == s.bytes(),
        s.pulled(room).len() <= room,
{
    lemma_fill_keeps_bytes(s);
    let staged = s.filled();
    let n = pull_len(staged.buffered, room) as int;
    assert(staged.buffered =~= staged.buffered.take(n) + staged.buffered.skip(n));
    assert(s.pulled(room) + s.after_pull(room).bytes() =~= staged.bytes());
}

/// Whatever the chunks a byte string arrives in and whatever the room of each
/// pull, the pulls hand out a front part of that byte string, in order, with
/// nothing lost and nothing doubled: the output followed by what is still to
/// be read is the byte string itself.
pub proof fn lemma_read_is_in_order(s: Stream, rooms: Seq<nat>)
    ensures
        s.read(rooms) + s.after_read(rooms).bytes() == s.bytes(),
    decreases rooms.len(),
{
    if rooms.len() == 0 {
        assert(s.read(rooms) + s.after_read(rooms).bytes() =~= s.bytes());
    } else {
        let next = s.after_pull(rooms[0]);
        lemma_pull_takes_the_front(s, rooms[0]);
        lemma_read_is_in_order(next, rooms.drop_first());
        assert(s.read(rooms) + s.after_read(rooms).bytes() =~= s.pulled(rooms[0]) + (next.read(
            rooms.drop_first(),
        ) + next.after_read(rooms.drop_first()).bytes()));
    }
}

/// A pull that has room comes back empty-handed only at the true end: when
/// nothing is buffered and no chunk that is yet to come holds a byte.
pub proof fn lemma_empty_pull_means_end(s: Stream, room: nat)
    requires
        room > 0,
    ensures
        s.pulled(room).len() == 0 <==> s.bytes().len() == 0,
{
    lemma_fill_keeps_bytes(s);
}

/// An empty chunk is passed over: a reader that holds nothing and is given an
/// empty chunk pulls exactly what it would pull had that chunk never come,
/// so the bytes of the chunk behind it are not held back.
pub proof fn lemma_empty_chunk_is_passed_over(s: Stream, room: nat)
    requires
        s.buffered.len() == 0,
        s.pending.len() > 0,
        s.pending[0].len() == 0,
    ensures
        s.filled() == (Stream { buffered: Seq::empty(), pending: s.pending.drop_first() }).filled(),
        s.pulled(room) == (Stream {
            buffered: Seq::empty(),
            pending: s.pending.drop_first(),
        }).pulled(room),
        s.after_pull(room) == (Stream {
            buffered: Seq::empty(),
            pending: s.pending.drop_first(),
        }).after_pull(room),
{
    assert(s.pending[0] =~= Seq::<u8>::empty());
}

/// Once the stream is at its end, every further pull hands out nothing.
pub proof fn lemma_end_is_final(s: Stream, rooms: Seq<nat>)
    requires
        s.bytes().len() == 0,
    ensures
        s.read(rooms).len() == 0,
        s.after_read(rooms).bytes().len() == 0,
{
    lemma_read_is_in_order(s, rooms);
}

/// Pulling until a pull with room comes back empty-handed reads the whole
/// stream, each byte once: if the last pull of a run had room and handed out
/// nothing, the run has handed out exactly the bytes that were to be read.
pub proof fn lemma_drain_reads_it_all(s: Stream, rooms: Seq<nat>)
    requires
        rooms.len() > 0,
        rooms.last() > 0,
        s.after_read(rooms.drop_last()).pulled(rooms.last()).len() == 0,
    ensures
        s.read(rooms) == s.bytes(),
        s.after_read(rooms).bytes().len() == 0,
{
    let before = rooms.drop_last();
    let at_last = s.after_read(before);
    lemma_read_is_in_order(s, before);
    lemma_empty_pull_means_end(at_last, rooms.last());
    lemma_read_splits(s, before, seq![rooms.last()]);
    assert(before + seq![rooms.last()] =~= rooms);
    lemma_end_is_final(at_last, seq![rooms.last()]);
    assert(s.read(rooms) =~= s.read(before));
    assert(s.bytes() =~= s.read(before));
}

/// A run of pulls is its first part followed by the rest, made on the stream
/// that the first part left.
pub proof fn lemma_read_splits(s: Stream, first: Seq<nat>, rest: Seq<nat>)
    ensures
        s.read(first + rest) == s.read(first) + s.after_read(first).read(rest),
        s.after_read(first + rest) == s.after_read(first).after_read(rest),
    decreases first.len(),
{
    if first.len() == 0 {
        assert(first + rest =~= rest);
        assert(s.read(first + rest) =~= s.read(first) + s.after_read(first).read(rest));
    } else {
        let next = s.after_pull(first[0]);
        assert((first + rest).drop_first() =~= first.drop_first() + rest);
        assert((first + rest)[0] == first[0]);
        lemma_read_splits(next, first.drop_first(), rest);
        assert(s.read(first + rest) =~= s.read(first) + s.after_read(first).read(rest));
    }
}

/// A drain comes to its end: each pull with room hands out at least one byte
/// until nothing is left, so a run of pulls, all with room, that is longer
/// than the stream has bytes ends with the stream read out.
pub proof fn lemma_drain_terminates(s: Stream, rooms: Seq<nat>)
    requires
        forall|i: int| 0 <= i < rooms.len() ==> rooms[i] > 0,
        rooms.len() >= s.bytes().len(),
    ensures
        s.read(rooms) == s.bytes(),
        s.after_read(rooms).bytes().len() == 0,
    decreases rooms.len(),
{
    if rooms.len() == 0 {
        assert(s.read(rooms) =~= s.bytes());
    } else {
        let next = s.after_pull(rooms[0]);
        lemma_pull_takes_the_front(s, rooms[0]);
        lemma_empty_pull_means_end(s, rooms[0]);
        assert(s.bytes().len() == s.pulled(rooms[0]).len() + next.bytes().len());
        lemma_drain_terminates(next, rooms.drop_first());
        assert(s.read(rooms) =~= s.bytes());
    }
}

} // verus!
