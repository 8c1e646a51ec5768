//! Reading what a peer sends until it falls silent.
use std::time::Duration;
use vstd::prelude::*;

verus! {

/// How many bytes there is room for at first.
pub const FIRST_ROOM: usize = 65536;

/// How many bytes are made room for when the room is used up.
pub const MORE_ROOM: usize = 32768;

/// What came of one read.
pub enum ReadEvent {
    /// These bytes; none at the end of the data.
    Data(Vec<u8>),
    Failed,
    TimedOut,
}

/// What has been read so far, and how long to wait for more.
pub struct IdleRead {
    data: Vec<u8>,
    first_timeout: Duration,
    idle_timeout: Duration,
}

/// What has been read so far, and how long to wait: for the first bytes, and between later
/// ones.
pub struct IdleReadView {
    pub data: Seq<u8>,
    pub first_timeout: Duration,
    pub idle_timeout: Duration,
}

impl View for IdleRead {
    type V = IdleReadView;

    closed spec fn view(&self) -> IdleReadView {
        IdleReadView {
            data: self.data@,
            first_timeout: self.first_timeout,
            idle_timeout: self.idle_timeout,
        }
    }
}

/// Whether a read is the last one.
pub open spec fn is_last(event: ReadEvent) -> bool {
    event matches ReadEvent::Data(bytes) ==> bytes@.len() == 0
}

/// The bytes that a read gave.
pub open spec fn bytes_of(event: ReadEvent) -> Seq<u8> {
    match event {
        ReadEvent::Data(bytes) => bytes@,
        _ => seq![],
    }
}

/// How many bytes a read takes at most when `total` have been read: the buffer begins with
/// room for [`FIRST_ROOM`] and grows by [`MORE_ROOM`] whenever it is full.
pub open spec fn room_after(total: nat) -> nat {
    if total < FIRST_ROOM {
        (FIRST_ROOM - total) as nat
    } else {
        (MORE_ROOM - (total - FIRST_ROOM) % (MORE_ROOM as int)) as nat
    }
}

impl IdleReadView {
    /// How long to wait for the next bytes.
    pub open spec fn timeout(self) -> Duration {
        if self.data.len() == 0 {
            self.first_timeout
        } else {
            self.idle_timeout
        }
    }

    /// What has been read after one more read.
    pub open spec fn step(self, event: ReadEvent) -> IdleReadView {
        IdleReadView {
            data: self.data + bytes_of(event),
            first_timeout: self.first_timeout,
            idle_timeout: self.idle_timeout,
        }
    }

    /// What has been read when reads go on until the last one.
    pub open spec fn run(self, events: Seq<ReadEvent>) -> IdleReadView
        decreases events.len(),
    {
        if events.len() == 0 || is_last(events[0]) {
            self
        } else {
            self.step(events[0]).run(events.drop_first())
        }
    }
}

/// The bytes of all reads before the last one.
pub open spec fn collected(events: Seq<ReadEvent>) -> Seq<u8>
    decreases events.len(),
{
    if events.len() == 0 || is_last(events[0]) {
        seq![]
    } else {
        bytes_of(events[0]) + collected(events.drop_first())
    }
}

/// Begins to read: up to `first_timeout` is waited for the first bytes, and up to
/// `idle_timeout` between later ones.
pub fn read_until_idle(first_timeout: Duration, idle_timeout: Duration) -> (r: IdleRead)
    ensures
        r@ == (IdleReadView { data: seq![], first_timeout, idle_timeout }),
{
    let r = IdleRead { data: Vec::new(), first_timeout, idle_timeout };
    assert(r@.data =~= seq![]);
    r
}

impl IdleRead {
    /// How many bytes the next read takes at most.
    pub fn room(&self) -> (n: usize)
        ensures
            n == room_after(self@.data.len()),
            n > 0,
    {
        let total: usize = self.data.len();
        if total < FIRST_ROOM {
            FIRST_ROOM - total
        } else {
            MORE_ROOM - (total - FIRST_ROOM) % MORE_ROOM
        }
    }

    /// How long to wait for the next read.
    pub fn timeout(&self) -> (t: Duration)
        ensures
            t == self@.timeout(),
    {
        if self.data.len() == 0 {
            self.first_timeout
        } else {
            self.idle_timeout
        }
    }

    /// Takes what came of a read, and tells whether there is to be another one.
    pub fn step(&mut self, event: ReadEvent) -> (more: bool)
        ensures
            more == !is_last(event),
            final(self)@ == old(self)@.step(event),
            event matches ReadEvent::Data(bytes) ==> {
                &&& final(self)@.data == old(self)@.data + bytes@
                &&& more == (bytes@.len() > 0)
            },
            !(event is Data) ==> final(self)@.data == old(self)@.data && !more,
    {
        match event {
            ReadEvent::Data(bytes) => {
                self.data.extend_from_slice(bytes.as_slice());
                assert(self@.data =~= old(self)@.data + bytes@);
                bytes.len() > 0
            },
            ReadEvent::Failed => {
                assert(self@.data =~= old(self)@.step(event).data);
                false
            },
            ReadEvent::TimedOut => {
                assert(self@.data =~= old(self)@.step(event).data);
                false
            },
        }
    }

    /// All that has been read.
    pub fn finish(self) -> (data: Vec<u8>)
        ensures
            data@ == self@.data,
    {
        self.data
    }
}

/// What is read until the peer falls silent is all that it sent before, in order.
pub proof fn law_reads_all(start: IdleReadView, events: Seq<ReadEvent>)
    ensures
        start.run(events).data == start.data + collected(events),
    decreases events.len(),
{
    if events.len() == 0 || is_last(events[0]) {
        assert(start.data + collected(events) =~= start.data);
    } else {
        law_reads_all(start.step(events[0]), events.drop_first());
        assert(start.step(events[0]).data + collected(events.drop_first()) =~= start.data
            + collected(events));
    }
}

/// Where reads take no more bytes than there is room for, the room is what is left of a
/// buffer that holds [`FIRST_ROOM`] bytes and a number of times [`MORE_ROOM`]: it shrinks
/// by each read, and is renewed when it is used up.
pub proof fn law_room(total: nat, n: nat)
    requires
        n <= room_after(total),
    ensures
        n < room_after(total) ==> room_after(total + n) == room_after(total) - n,
        n == room_after(total) ==> room_after(total + n) == MORE_ROOM,
{
    if total >= FIRST_ROOM {
        let a = total - FIRST_ROOM;
        let m = MORE_ROOM as int;
        assert((a + n) % m == if n == room_after(total) {
            0
        } else {
            a % m + n
        }) by (nonlinear_arith)
            requires
                m == 32768,
                a >= 0,
                0 <= n <= m - a % m,
                n == room_after(total) <==> n == m - a % m,
        {
        };
    }
}

/// After a read, what has been read is what was read before, followed by the bytes that the
/// read gave; a read that gave none leaves it as it was. How long to wait stays as it is set.
pub proof fn law_step(before: IdleReadView, bytes: Vec<u8>)
    ensures
        before.step(ReadEvent::Data(bytes)).data == before.data + bytes@,
        before.step(ReadEvent::Failed).data == before.data,
        before.step(ReadEvent::TimedOut).data == before.data,
        forall|event: ReadEvent|
            {
                &&& (#[trigger] before.step(event)).first_timeout == before.first_timeout
                &&& before.step(event).idle_timeout == before.idle_timeout
            },
{
    assert(before.step(ReadEvent::Failed).data =~= before.data);
    assert(before.step(ReadEvent::TimedOut).data =~= before.data);
}

/// A read without bytes is the last one, and so is one that failed or took too long; any other
/// is followed by another.
pub proof fn law_last(bytes: Vec<u8>)
    ensures
        is_last(ReadEvent::Data(bytes)) <==> bytes@.len() == 0,
        is_last(ReadEvent::Failed),
        is_last(ReadEvent::TimedOut),
{
}

/// The first time is waited for until there are bytes, and from then on the other.
pub proof fn law_timeout(read: IdleReadView)
    ensures
        read.data == Seq::<u8>::empty() ==> read.timeout() == read.first_timeout,
        read.data.len() >= 1 ==> read.timeout() == read.idle_timeout,
{
}

/// Whether the reads before the last one gave these chunks, none of them empty.
pub open spec fn reads_of(events: Seq<ReadEvent>, chunks: Seq<Seq<u8>>) -> bool {
    &&& events.len() == chunks.len() + 1
    &&& forall|i: int|
        0 <= i < chunks.len() ==> {
            &&& (#[trigger] events[i]) matches ReadEvent::Data(bytes)
            &&& bytes@ == chunks[i]
            &&& bytes@.len() > 0
        }
    &&& events.last() matches ReadEvent::Data(bytes) ==> bytes@.len() == 0
}

/// What has been read when the peer falls silent is all the chunks that it sent, one after the
/// other and byte for byte.
pub proof fn law_reads_chunks(start: IdleReadView, events: Seq<ReadEvent>, chunks: Seq<Seq<u8>>)
    requires
        reads_of(events, chunks),
    ensures
        start.run(events).data == start.data + chunks.flatten(),
        collected(events) == chunks.flatten(),
    decreases chunks.len(),
{
    if chunks.len() == 0 {
        assert(events[0] == events.last());
        assert(chunks.flatten() =~= seq![]);
        assert(start.data + chunks.flatten() =~= start.data);
    } else {
        let more = events.drop_first();
        let rest = chunks.drop_first();
        assert(events[0] matches ReadEvent::Data(bytes) && bytes@ == chunks[0] && bytes@.len()
            > 0);
        assert forall|i: int| 0 <= i < rest.len() implies {
            &&& (#[trigger] more[i]) matches ReadEvent::Data(bytes)
            &&& bytes@ == rest[i]
            &&& bytes@.len() > 0
        } by {
            assert(more[i] == events[i + 1]);
        }
        assert(more.last() == events.last());
        law_reads_chunks(start.step(events[0]), more, rest);
        assert(chunks.flatten() == chunks[0] + rest.flatten());
        assert(start.data + chunks.flatten() =~= (start.data + chunks[0]) + rest.flatten());
    }
}

/// There is room for 65536 bytes at first; reads use it up, and where it is used up there is
/// room for 32768 more.
pub proof fn law_first_room(n: nat)
    ensures
        room_after(0) == 65536,
        n < 65536 ==> room_after(n) == 65536 - n,
        FIRST_ROOM == 65536,
        MORE_ROOM == 32768,
{
}

} // verus!
