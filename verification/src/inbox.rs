//! Putting numbered chunks back into order.
//!
//! A tunnel client uploads its data as numbered chunks over concurrent requests, so
//! they may arrive in any order. An [`Inbox`] hands each chunk on as soon as all
//! earlier ones have been handed on, and keeps the others until then.
use std::collections::BTreeMap;
use vstd::prelude::*;
use vstd::set_lib::{lemma_int_range, lemma_len_subset, lemma_map_size, set_int_range};

verus! {

/// How many chunks an inbox keeps at most.
pub const MAX_PENDING: usize = 2048;

/// What an inbox holds: the number of the chunk it waits for, and the chunks that came
/// too early.
pub struct InboxView {
    pub next: int,
    pub pending: Map<u64, Seq<u8>>,
}

/// What becomes of an arriving chunk.
pub enum Receipt {
    /// These chunks are to be written, in this order.
    Write(Vec<Vec<u8>>),
    /// The chunk is kept for later.
    Buffered,
    /// The chunk came too early and there is no room to keep it.
    Overflow,
    /// The chunk's number has been handed on before.
    Stale,
}

/// The receipt with its chunks as sequences.
pub enum ReceiptView {
    Write(Seq<Seq<u8>>),
    Buffered,
    Overflow,
    Stale,
}

impl View for Receipt {
    type V = ReceiptView;

    open spec fn view(&self) -> ReceiptView {
        match self {
            Receipt::Write(chunks) => ReceiptView::Write(chunk_views(chunks@)),
            Receipt::Buffered => ReceiptView::Buffered,
            Receipt::Overflow => ReceiptView::Overflow,
            Receipt::Stale => ReceiptView::Stale,
        }
    }
}

/// The contents of a list of chunks.
pub open spec fn chunk_views(chunks: Seq<Vec<u8>>) -> Seq<Seq<u8>> {
    chunks.map_values(|c: Vec<u8>| c@)
}

/// The first number from `n` on that no kept chunk has.
pub open spec fn run_end(pending: Map<u64, Seq<u8>>, n: int) -> int
    decreases u64::MAX + 1 - n,
{
    if 0 <= n <= u64::MAX && pending.contains_key(n as u64) {
        run_end(pending, n + 1)
    } else {
        n
    }
}

/// The kept chunks with the numbers `from..to`.
pub open spec fn run_chunks(pending: Map<u64, Seq<u8>>, from: int, to: int) -> Seq<Seq<u8>> {
    Seq::new((to - from) as nat, |i: int| pending[(from + i) as u64])
}

/// What is kept when the chunks with the numbers `from..to` have gone.
pub open spec fn without_run(pending: Map<u64, Seq<u8>>, from: int, to: int) -> Map<u64, Seq<u8>> {
    pending.filter_keys(|k: u64| !(from <= k < to))
}

impl InboxView {
    /// The inbox before any chunk has come.
    pub open spec fn empty() -> InboxView {
        InboxView { next: 0, pending: Map::empty() }
    }

    /// Only chunks that came too early are kept, and not more than there is room for.
    pub open spec fn wf(self) -> bool {
        &&& 0 <= self.next <= u64::MAX
        &&& self.pending.dom().finite()
        &&& self.pending.len() <= MAX_PENDING
        &&& forall|k: u64| #[trigger] self.pending.contains_key(k) ==> k > self.next
    }

    /// Whether handing on chunk `seq` would lead past the largest chunk number.
    pub open spec fn exhausts(self, seq: u64) -> bool {
        seq == self.next && run_end(self.pending, self.next + 1) > u64::MAX
    }

    /// The inbox after chunk `seq` has come, and what becomes of the chunk: the chunk that
    /// is waited for is handed on with all that directly follow it, an earlier one is
    /// dropped, and a later one is kept while there is room.
    pub open spec fn accept(self, seq: u64, data: Seq<u8>) -> (InboxView, ReceiptView) {
        if seq == self.next {
            let from = self.next + 1;
            let end = run_end(self.pending, from);
            (
                InboxView { next: end, pending: without_run(self.pending, from, end) },
                ReceiptView::Write(seq![data] + run_chunks(self.pending, from, end)),
            )
        } else if seq < self.next {
            (self, ReceiptView::Stale)
        } else if self.pending.len() < MAX_PENDING {
            (
                InboxView { next: self.next, pending: self.pending.insert(seq, data) },
                ReceiptView::Buffered,
            )
        } else {
            (self, ReceiptView::Overflow)
        }
    }
}

/// `run_end` ends a gapless run of kept chunks.
pub proof fn lemma_run_end(pending: Map<u64, Seq<u8>>, n: int)
    requires
        0 <= n <= u64::MAX + 1,
    ensures
        n <= run_end(pending, n) <= u64::MAX + 1,
        forall|k: int|
            n <= k < run_end(pending, n) ==> #[trigger] pending.contains_key(k as u64),
        run_end(pending, n) <= u64::MAX ==> !pending.contains_key(run_end(pending, n) as u64),
    decreases u64::MAX + 1 - n,
{
    if n <= u64::MAX && pending.contains_key(n as u64) {
        lemma_run_end(pending, n + 1);
    }
}

/// Removing the chunks of a run leaves no more chunks than before.
proof fn lemma_without_run_len(pending: Map<u64, Seq<u8>>, from: int, to: int)
    requires
        pending.dom().finite(),
    ensures
        without_run(pending, from, to).dom().finite(),
        without_run(pending, from, to).len() <= pending.len(),
{
    assert(without_run(pending, from, to).dom() =~= pending.dom().filter(
        |k: u64| !(from <= k < to),
    ));
    pending.dom().lemma_len_filter(|k: u64| !(from <= k < to));
}

/// Taking a chunk keeps an inbox well-formed.
pub proof fn law_accept_keeps_wf(s: InboxView, seq: u64, data: Seq<u8>)
    requires
        s.wf(),
        !s.exhausts(seq),
    ensures
        s.accept(seq, data).0.wf(),
{
    let t = s.accept(seq, data).0;
    if seq == s.next {
        lemma_run_end(s.pending, s.next + 1);
        lemma_without_run_len(s.pending, s.next + 1, t.next);
        assert forall|k: u64| #[trigger] t.pending.contains_key(k) implies k > t.next by {
            assert(s.pending.contains_key(k));
            assert(k as int as u64 == k);
        }
    } else if seq > s.next && s.pending.len() < MAX_PENDING {
        assert(t.pending.len() <= s.pending.len() + 1);
    }
}

/// The chunks that one receipt tells to write.
pub open spec fn written(r: ReceiptView) -> Seq<Seq<u8>> {
    match r {
        ReceiptView::Write(chunks) => chunks,
        _ => seq![],
    }
}

/// The inbox after the chunks of `arrivals` have come to an empty one, in that order.
pub open spec fn after_arrivals(arrivals: Seq<(u64, Seq<u8>)>) -> InboxView
    decreases arrivals.len(),
{
    if arrivals.len() == 0 {
        InboxView::empty()
    } else {
        after_arrivals(arrivals.drop_last()).accept(arrivals.last().0, arrivals.last().1).0
    }
}

/// The receipt of the last of `arrivals`.
pub open spec fn last_receipt(arrivals: Seq<(u64, Seq<u8>)>) -> ReceiptView {
    after_arrivals(arrivals.drop_last()).accept(arrivals.last().0, arrivals.last().1).1
}

/// All that is written while the chunks of `arrivals` come.
pub open spec fn all_written(arrivals: Seq<(u64, Seq<u8>)>) -> Seq<Seq<u8>>
    decreases arrivals.len(),
{
    if arrivals.len() == 0 {
        seq![]
    } else {
        all_written(arrivals.drop_last()) + written(last_receipt(arrivals))
    }
}

/// Whether every arrival is a chunk of `stream`, under its own number.
pub open spec fn arrivals_of(arrivals: Seq<(u64, Seq<u8>)>, stream: Seq<Seq<u8>>) -> bool {
    forall|i: int|
        0 <= i < arrivals.len() ==> {
            &&& (#[trigger] arrivals[i]).0 < stream.len()
            &&& arrivals[i].1 == stream[arrivals[i].0 as int]
        }
}

/// Whether chunk `k` is among the arrivals.
pub open spec fn has_arrived(arrivals: Seq<(u64, Seq<u8>)>, k: int) -> bool {
    exists|i: int| 0 <= i < arrivals.len() && (#[trigger] arrivals[i]).0 == k
}

/// Whether no arrival was turned away for want of room.
pub open spec fn none_overflowed(arrivals: Seq<(u64, Seq<u8>)>) -> bool
    decreases arrivals.len(),
{
    arrivals.len() == 0 || (none_overflowed(arrivals.drop_last()) && last_receipt(arrivals)
        !is Overflow)
}

/// What holds between a stream and an inbox that was fed from it.
spec fn tracks(s: InboxView, stream: Seq<Seq<u8>>) -> bool {
    &&& s.wf()
    &&& s.next <= stream.len()
    &&& forall|k: u64| #[trigger]
        s.pending.contains_key(k) ==> k < stream.len() && s.pending[k] == stream[k as int]
}

proof fn lemma_accept_tracks(s: InboxView, stream: Seq<Seq<u8>>, seq: u64)
    requires
        tracks(s, stream),
        stream.len() <= u64::MAX,
        seq < stream.len(),
    ensures
        !s.exhausts(seq),
        tracks(s.accept(seq, stream[seq as int]).0, stream),
        stream.take(s.next) + written(s.accept(seq, stream[seq as int]).1) == stream.take(
            s.accept(seq, stream[seq as int]).0.next,
        ),
        s.accept(seq, stream[seq as int]).0.next >= s.next,
{
    let (t, r) = s.accept(seq, stream[seq as int]);
    if seq == s.next {
        let from = s.next + 1;
        let end = run_end(s.pending, from);
        lemma_run_end(s.pending, from);
        if end > stream.len() {
            assert(s.pending.contains_key((end - 1) as u64));
        }
        law_accept_keeps_wf(s, seq, stream[seq as int]);
        assert forall|i: int| 0 <= i < end - from implies #[trigger] s.pending[(from + i) as u64]
            == stream[from + i] by {
            assert(s.pending.contains_key((from + i) as u64));
        }
        assert(stream.take(s.next) + written(r) =~= stream.take(t.next));
    } else {
        law_accept_keeps_wf(s, seq, stream[seq as int]);
        assert(stream.take(s.next) + written(r) =~= stream.take(t.next));
    }
}

/// In whatever order the chunks of a stream come, and however often, what has been
/// written at any time is the beginning of the stream, up to the chunk that is waited
/// for.
pub proof fn law_written_is_prefix(arrivals: Seq<(u64, Seq<u8>)>, stream: Seq<Seq<u8>>)
    requires
        arrivals_of(arrivals, stream),
        stream.len() <= u64::MAX,
    ensures
        after_arrivals(arrivals).wf(),
        after_arrivals(arrivals).next <= stream.len(),
        all_written(arrivals) == stream.take(after_arrivals(arrivals).next),
{
    lemma_arrivals_track(arrivals, stream);
}

/// All arrivals but the last are of the stream too, and so is the last.
proof fn lemma_front_arrivals(arrivals: Seq<(u64, Seq<u8>)>, stream: Seq<Seq<u8>>)
    requires
        arrivals_of(arrivals, stream),
        arrivals.len() > 0,
    ensures
        arrivals_of(arrivals.drop_last(), stream),
        arrivals.last().0 < stream.len(),
        arrivals.last().1 == stream[arrivals.last().0 as int],
{
    let front = arrivals.drop_last();
    assert forall|i: int| 0 <= i < front.len() implies {
        &&& (#[trigger] front[i]).0 < stream.len()
        &&& front[i].1 == stream[front[i].0 as int]
    } by {
        assert(front[i] == arrivals[i]);
    }
    assert(arrivals.last() == arrivals[arrivals.len() - 1]);
}

proof fn lemma_arrivals_track(arrivals: Seq<(u64, Seq<u8>)>, stream: Seq<Seq<u8>>)
    requires
        arrivals_of(arrivals, stream),
        stream.len() <= u64::MAX,
    ensures
        tracks(after_arrivals(arrivals), stream),
        all_written(arrivals) == stream.take(after_arrivals(arrivals).next),
    decreases arrivals.len(),
{
    if arrivals.len() == 0 {
        assert(all_written(arrivals) =~= stream.take(0));
    } else {
        let front = arrivals.drop_last();
        lemma_front_arrivals(arrivals, stream);
        lemma_arrivals_track(front, stream);
        lemma_accept_tracks(after_arrivals(front), stream, arrivals.last().0);
    }
}

/// A chunk that has come and was not turned away has been written or is kept.
proof fn lemma_arrived_is_there(arrivals: Seq<(u64, Seq<u8>)>, stream: Seq<Seq<u8>>, i: int)
    requires
        arrivals_of(arrivals, stream),
        stream.len() <= u64::MAX,
        none_overflowed(arrivals),
        0 <= i < arrivals.len(),
    ensures
        arrivals[i].0 < after_arrivals(arrivals).next || after_arrivals(
            arrivals,
        ).pending.contains_key(arrivals[i].0),
    decreases arrivals.len(),
{
    let front = arrivals.drop_last();
    lemma_front_arrivals(arrivals, stream);
    lemma_arrivals_track(front, stream);
    let s = after_arrivals(front);
    let last = arrivals.last();
    lemma_accept_tracks(s, stream, last.0);
    lemma_run_end(s.pending, s.next + 1);
    if i < front.len() {
        lemma_arrived_is_there(front, stream, i);
        assert(front[i] == arrivals[i]);
    }
}

/// Once every chunk of a stream has come, in whatever order, and none was turned away
/// for want of room, the whole stream has been written, in its own order, nothing is kept,
/// and the chunk after the last is waited for.
pub proof fn law_delivers_whole_stream(arrivals: Seq<(u64, Seq<u8>)>, stream: Seq<Seq<u8>>)
    requires
        arrivals_of(arrivals, stream),
        stream.len() <= u64::MAX,
        none_overflowed(arrivals),
        forall|k: int| 0 <= k < stream.len() ==> #[trigger] has_arrived(arrivals, k),
    ensures
        all_written(arrivals) == stream,
        after_arrivals(arrivals).next == stream.len(),
        after_arrivals(arrivals).pending == Map::<u64, Seq<u8>>::empty(),
{
    lemma_arrivals_track(arrivals, stream);
    let s = after_arrivals(arrivals);
    if s.next < stream.len() {
        let k = s.next;
        assert(has_arrived(arrivals, k));
        let i = choose|i: int| 0 <= i < arrivals.len() && (#[trigger] arrivals[i]).0 == k;
        lemma_arrived_is_there(arrivals, stream, i);
        assert(s.pending.contains_key(k as u64));
        assert(false);
    }
    assert(stream.take(stream.len() as int) =~= stream);
    assert(s.pending =~= Map::empty());
}

/// Whether every arrival was less than [`MAX_PENDING`] chunks ahead of what was waited for
/// when it came.
pub open spec fn within_window(arrivals: Seq<(u64, Seq<u8>)>) -> bool
    decreases arrivals.len(),
{
    arrivals.len() == 0 || (within_window(arrivals.drop_last()) && arrivals.last().0
        < after_arrivals(arrivals.drop_last()).next + MAX_PENDING)
}

/// Chunks with numbers between `next` and `next + MAX_PENDING` leave room for another one.
proof fn lemma_window_has_room(s: InboxView)
    requires
        s.wf(),
        forall|k: u64| #[trigger] s.pending.contains_key(k) ==> k < s.next + MAX_PENDING,
    ensures
        s.pending.len() < MAX_PENDING,
{
    let early = s.pending.dom().map(|k: u64| k as int);
    let room = set_int_range(s.next + 1, s.next + MAX_PENDING);
    lemma_int_range(s.next + 1, s.next + MAX_PENDING);
    assert forall|k: int| early.contains(k) implies room.contains(k) by {
        let key = choose|key: u64| #[trigger] s.pending.dom().contains(key) && key as int == k;
        assert(s.pending.contains_key(key));
    }
    lemma_len_subset(early, room);
    lemma_map_size(s.pending.dom(), early, |k: u64| k as int);
}

proof fn lemma_window_kept(arrivals: Seq<(u64, Seq<u8>)>, stream: Seq<Seq<u8>>)
    requires
        arrivals_of(arrivals, stream),
        stream.len() <= u64::MAX,
        within_window(arrivals),
    ensures
        none_overflowed(arrivals),
        forall|k: u64| #[trigger]
            after_arrivals(arrivals).pending.contains_key(k) ==> k < after_arrivals(arrivals).next
                + MAX_PENDING,
    decreases arrivals.len(),
{
    if arrivals.len() > 0 {
        let front = arrivals.drop_last();
        lemma_front_arrivals(arrivals, stream);
        lemma_window_kept(front, stream);
        lemma_arrivals_track(front, stream);
        let s = after_arrivals(front);
        lemma_accept_tracks(s, stream, arrivals.last().0);
        lemma_window_has_room(s);
        assert forall|k: u64| #[trigger]
            after_arrivals(arrivals).pending.contains_key(k) implies k < after_arrivals(
            arrivals,
        ).next + MAX_PENDING by {
            assert(s.pending.contains_key(k) || k == arrivals.last().0);
        }
    }
}

/// A sender that never runs [`MAX_PENDING`] chunks ahead of what is waited for always finds
/// room.
pub proof fn law_window_fits(arrivals: Seq<(u64, Seq<u8>)>, stream: Seq<Seq<u8>>)
    requires
        arrivals_of(arrivals, stream),
        stream.len() <= u64::MAX,
        within_window(arrivals),
    ensures
        none_overflowed(arrivals),
{
    lemma_window_kept(arrivals, stream);
}

/// A stream of at most [`MAX_PENDING`] chunks always finds room, in whatever order its chunks
/// come, and however often.
pub proof fn law_short_stream_fits(arrivals: Seq<(u64, Seq<u8>)>, stream: Seq<Seq<u8>>)
    requires
        arrivals_of(arrivals, stream),
        stream.len() <= MAX_PENDING,
    ensures
        none_overflowed(arrivals),
{
    lemma_short_stream_within_window(arrivals, stream);
    lemma_window_kept(arrivals, stream);
}

proof fn lemma_short_stream_within_window(arrivals: Seq<(u64, Seq<u8>)>, stream: Seq<Seq<u8>>)
    requires
        arrivals_of(arrivals, stream),
        stream.len() <= MAX_PENDING,
    ensures
        within_window(arrivals),
    decreases arrivals.len(),
{
    if arrivals.len() > 0 {
        let front = arrivals.drop_last();
        lemma_front_arrivals(arrivals, stream);
        lemma_short_stream_within_window(front, stream);
        lemma_arrivals_track(front, stream);
    }
}

/// A buffer that hands numbered chunks on in order.
pub struct Inbox {
    next_seq: u64,
    pending: BTreeMap<u64, Vec<u8>>,
}

impl View for Inbox {
    type V = InboxView;

    closed spec fn view(&self) -> InboxView {
        InboxView {
            next: self.next_seq as int,
            pending: self.pending@.map_values(|d: Vec<u8>| d@),
        }
    }
}

impl Inbox {
    /// An inbox that waits for chunk 0.
    pub fn new() -> (inbox: Inbox)
        ensures
            inbox@ == InboxView::empty(),
            inbox@.wf(),
    {
        let inbox = Inbox { next_seq: 0, pending: BTreeMap::new() };
        assert(inbox@.pending =~= Map::empty());
        inbox
    }

    /// The number of the chunk that is waited for.
    pub fn next_seq(&self) -> (n: u64)
        ensures
            n == self@.next,
    {
        self.next_seq
    }

    /// How many chunks are kept.
    pub fn pending_len(&self) -> (n: usize)
        ensures
            n == self@.pending.len(),
    {
        broadcast use vstd::std_specs::btree::group_btree_axioms;

        assert(self@.pending.dom() =~= self.pending@.dom());
        self.pending.len()
    }

    /// Whether handing on chunk `seq` would lead past the largest chunk number.
    pub fn exhausted_by(&self, seq: u64) -> (past: bool)
        ensures
            past == self@.exhausts(seq),
    {
        broadcast use vstd::std_specs::btree::group_btree_axioms;

        if seq != self.next_seq {
            return false;
        }
        if seq == u64::MAX {
            return true;
        }
        let mut now: u64 = seq + 1;
        while self.pending.contains_key(&now)
            invariant
                seq == self.next_seq,
                seq < now,
                run_end(self@.pending, seq + 1) == run_end(self@.pending, now as int),
            decreases u64::MAX - now,
        {
            assert(self@.pending.contains_key(now));
            if now == u64::MAX {
                assert(run_end(self@.pending, now + 1) == now + 1);
                return true;
            }
            now += 1;
        }
        false
    }

    /// Takes chunk `seq` and tells what becomes of it.
    pub fn accept(&mut self, seq: u64, data: Vec<u8>) -> (receipt: Receipt)
        requires
            old(self)@.wf(),
            !old(self)@.exhausts(seq),
        ensures
            (final(self)@, receipt@) == old(self)@.accept(seq, data@),
            final(self)@.wf(),
    {
        broadcast use vstd::std_specs::btree::group_btree_axioms;

        let ghost s = self@;
        proof {
            law_accept_keeps_wf(s, seq, data@);
        }
        let expected: u64 = self.next_seq;
        if seq == expected {
            let ghost from = s.next + 1;
            let ghost end = run_end(s.pending, from);
            proof {
                lemma_run_end(s.pending, from);
            }
            let mut chunks: Vec<Vec<u8>> = Vec::new();
            let ghost first = data@;
            chunks.push(data);
            let mut now: u64 = expected + 1;
            assert(chunk_views(chunks@) =~= seq![first] + run_chunks(s.pending, from, now as int));
            assert(self@.pending =~= without_run(s.pending, from, now as int));
            loop
                invariant
                    s.wf(),
                    self.next_seq == expected,
                    expected == s.next,
                    from == s.next + 1,
                    end == run_end(s.pending, from),
                    from <= now <= end <= u64::MAX,
                    end == run_end(s.pending, now as int),
                    self@.pending == without_run(s.pending, from, now as int),
                    chunk_views(chunks@) == seq![first] + run_chunks(s.pending, from, now as int),
                ensures
                    now == end,
                    self.next_seq == expected,
                    self@.pending == without_run(s.pending, from, end),
                    chunk_views(chunks@) == seq![first] + run_chunks(s.pending, from, end),
                decreases end - now,
            {
                let ghost held = self.pending@;
                let ghost kept = self@.pending;
                let ghost before = chunks@;
                assert(self@.pending.contains_key(now) == s.pending.contains_key(now));
                match self.pending.remove(&now) {
                    Some(d) => {
                        proof {
                            lemma_run_end(s.pending, now as int);
                            lemma_run_end(s.pending, now + 1);
                        }
                        assert(held.contains_key(now) && held[now] == d);
                        assert(kept[now] == d@);
                        assert(d@ == s.pending[now]);
                        chunks.push(d);
                        assert(chunk_views(chunks@) =~= chunk_views(before).push(s.pending[now]));
                        assert(run_chunks(s.pending, from, now + 1) =~= run_chunks(
                            s.pending,
                            from,
                            now as int,
                        ).push(s.pending[now]));
                        assert(self.pending@ =~= held.remove(now));
                        assert(self@.pending =~= kept.remove(now));
                        assert(kept.remove(now) =~= without_run(s.pending, from, now + 1));
                        now += 1;
                    },
                    None => {
                        assert(self.pending@ =~= held);
                        break ;
                    },
                }
            }
            self.next_seq = now;
            Receipt::Write(chunks)
        } else if seq > expected {
            if self.pending_len() < MAX_PENDING {
                let ghost kept = data@;
                self.pending.insert(seq, data);
                assert(self@.pending =~= s.pending.insert(seq, kept));
                Receipt::Buffered
            } else {
                Receipt::Overflow
            }
        } else {
            Receipt::Stale
        }
    }
}

/// What becomes of a chunk, in terms of what the inbox held: one with a number that was handed
/// on before changes nothing. A later one than is waited for is kept under its number, in place
/// of any that was, while fewer than 2048 are kept, and changes nothing otherwise. The one that
/// is waited for is handed on first, and behind it the kept ones with the numbers that follow,
/// up to the first that is missing; those are kept no longer, and all others are.
pub proof fn law_accept(s: InboxView, seq: u64, data: Seq<u8>)
    requires
        s.wf(),
        !s.exhausts(seq),
    ensures
        ({
            let t = s.accept(seq, data).0;
            match s.accept(seq, data).1 {
                ReceiptView::Stale => seq < s.next && t == s,
                ReceiptView::Overflow => seq > s.next && s.pending.len() >= 2048 && t == s,
                ReceiptView::Buffered => {
                    &&& seq > s.next
                    &&& s.pending.len() < 2048
                    &&& t.next == s.next
                    &&& t.pending.contains_key(seq)
                    &&& t.pending[seq] == data
                    &&& forall|k: u64|
                        k != seq ==> {
                            &&& #[trigger] t.pending.contains_key(k) == s.pending.contains_key(k)
                            &&& s.pending.contains_key(k) ==> t.pending[k] == s.pending[k]
                        }
                },
                ReceiptView::Write(chunks) => {
                    &&& seq == s.next
                    &&& chunks.len() > 0
                    &&& chunks[0] == data
                    &&& t.next == s.next + chunks.len()
                    &&& forall|i: int|
                        1 <= i < chunks.len() ==> {
                            &&& s.pending.contains_key((s.next + i) as u64)
                            &&& #[trigger] chunks[i] == s.pending[(s.next + i) as u64]
                        }
                    &&& !s.pending.contains_key(t.next as u64)
                    &&& forall|k: u64| #[trigger]
                        t.pending.contains_key(k) <==> s.pending.contains_key(k) && k > t.next
                    &&& forall|k: u64| #[trigger]
                        t.pending.contains_key(k) ==> t.pending[k] == s.pending[k]
                },
            }
        }),
        MAX_PENDING == 2048,
{
    if seq == s.next {
        let from = s.next + 1;
        let end = run_end(s.pending, from);
        lemma_run_end(s.pending, from);
        let (t, r) = s.accept(seq, data);
        let chunks = written(r);
        assert forall|i: int| 1 <= i < chunks.len() implies {
            &&& s.pending.contains_key((s.next + i) as u64)
            &&& #[trigger] chunks[i] == s.pending[(s.next + i) as u64]
        } by {
            assert(s.pending.contains_key((s.next + i) as u64));
            assert(chunks[i] == run_chunks(s.pending, from, end)[i - 1]);
        }
        assert forall|k: u64| #[trigger] t.pending.contains_key(k) <==> s.pending.contains_key(k)
            && k > t.next by {
            assert(k as int as u64 == k);
        }
    }
}

/// An inbox begins with chunk zero and keeps nothing.
pub proof fn law_empty()
    ensures
        InboxView::empty().next == 0,
        forall|k: u64| !#[trigger] InboxView::empty().pending.contains_key(k),
{
}

/// The chunks of a receipt are its chunks, one by one.
pub proof fn law_receipt_view(chunks: Vec<Vec<u8>>)
    ensures
        Receipt::Write(chunks)@ matches ReceiptView::Write(out) && out.len() == chunks@.len() && (
        forall|i: int| 0 <= i < chunks@.len() ==> #[trigger] out[i] == chunks@[i]@),
        Receipt::Buffered@ is Buffered,
        Receipt::Overflow@ is Overflow,
        Receipt::Stale@ is Stale,
{
}

/// A chunk would lead past the largest number exactly where it is the one that is waited for,
/// and all that follow it, up to the largest number, are kept.
pub proof fn law_exhausts(s: InboxView, seq: u64)
    requires
        0 <= s.next <= 0xffff_ffff_ffff_ffff,
    ensures
        s.exhausts(seq) <==> seq == s.next && forall|k: u64|
            k > s.next ==> #[trigger] s.pending.contains_key(k),
{
    lemma_run_end(s.pending, s.next + 1);
    let end = run_end(s.pending, s.next + 1);
    if end <= u64::MAX {
        assert(!s.pending.contains_key(end as u64));
    } else {
        assert forall|k: u64| k > s.next implies #[trigger] s.pending.contains_key(k) by {
            assert(s.pending.contains_key(k as int as u64));
        }
    }
}

/// An inbox is well-formed exactly where it keeps at most 2048 chunks, all of them later than
/// the one that is waited for.
pub proof fn law_wf(s: InboxView)
    ensures
        s.wf() <==> {
            &&& 0 <= s.next <= 0xffff_ffff_ffff_ffff
            &&& s.pending.dom().finite()
            &&& s.pending.len() <= 2048
            &&& forall|k: u64| #[trigger] s.pending.contains_key(k) ==> k > s.next
        },
{
}

} // verus!
