//! Capturing a request head from the fragments in which it arrives.
//!
//! A head is complete once the blank line that ends it, the bytes CR LF CR LF,
//! has been seen. The bytes are kept in a buffer of fixed capacity: a head
//! that does not end within it is refused, not buffered without limit.
use vstd::prelude::*;
use crate::search::{contains, find, first_occurrence, first_occurrence_at, occurs_at};
use crate::search::{lemma_first_occurrence_is, lemma_first_occurrence_none};

verus! {

/// The capacity of a capture made with [`HeadCapture::new`].
pub const DEFAULT_CAPACITY: usize = 1024;

/// The bytes that end a request head.
pub open spec fn terminator() -> Seq<u8> {
    seq![13u8, 10u8, 13u8, 10u8]
}

/// How far a capture has come.
#[derive(Clone, Copy, Debug, PartialEq, Eq, Structural)]
pub enum CaptureStatus {
    /// The head is not complete and there is room for more bytes.
    Reading,
    /// The terminator was found; it starts at `head_end`.
    Complete { head_end: usize },
    /// The peer closed the stream before the head was complete.
    Closed,
    /// The buffer is full and holds no terminator.
    Overflow,
}

/// The mathematical state of a capture.
pub struct CaptureState {
    pub capacity: usize,
    pub data: Seq<u8>,
    pub status: CaptureStatus,
}

impl CaptureState {
    /// What a capture of `capacity` bytes that holds `data` and still reads has come to.
    pub open spec fn status_of(capacity: usize, data: Seq<u8>) -> CaptureStatus {
        match first_occurrence(data, terminator()) {
            Some(at) => CaptureStatus::Complete { head_end: at as usize },
            None => if data.len() >= capacity {
                CaptureStatus::Overflow
            } else {
                CaptureStatus::Reading
            },
        }
    }

    /// The status agrees with the bytes held.
    pub open spec fn valid(self) -> bool {
        &&& self.data.len() <= self.capacity
        &&& match self.status {
            CaptureStatus::Reading | CaptureStatus::Closed => {
                &&& self.data.len() < self.capacity
                &&& !contains(self.data, terminator())
            },
            CaptureStatus::Overflow => {
                &&& self.data.len() == self.capacity
                &&& !contains(self.data, terminator())
            },
            CaptureStatus::Complete { head_end } => first_occurrence_at(
                self.data,
                terminator(),
                head_end as int,
            ),
        }
    }

    /// A capture that holds nothing yet.
    pub open spec fn start(capacity: usize) -> CaptureState {
        CaptureState {
            capacity,
            data: Seq::empty(),
            status: CaptureState::status_of(capacity, Seq::empty()),
        }
    }

    /// How many bytes the buffer can still take.
    pub open spec fn room(self) -> int {
        self.capacity - self.data.len()
    }

    /// The part of `chunk` that a read into the free space of the buffer delivers.
    pub open spec fn accepted(self, chunk: Seq<u8>) -> Seq<u8> {
        if chunk.len() <= self.room() {
            chunk
        } else {
            chunk.take(self.room())
        }
    }

    /// The state after a read that returned `chunk`.
    ///
    /// A capture that no longer reads stays as it is. An empty chunk means that
    /// the peer closed the stream. Otherwise the bytes that fit are appended
    /// and the status follows from all the bytes held.
    pub open spec fn feed(self, chunk: Seq<u8>) -> CaptureState {
        if !(self.status is Reading) {
            self
        } else if chunk.len() == 0 {
            CaptureState { status: CaptureStatus::Closed, ..self }
        } else {
            let data = self.data + self.accepted(chunk);
            CaptureState {
                capacity: self.capacity,
                data,
                status: CaptureState::status_of(self.capacity, data),
            }
        }
    }

    /// The bytes before the terminator, once the head is complete.
    pub open spec fn head(self) -> Option<Seq<u8>> {
        match self.status {
            CaptureStatus::Complete { head_end } => Some(self.data.take(head_end as int)),
            _ => None,
        }
    }
}

/// The buffer into which one connection's request head is read.
pub struct HeadCapture {
    buf: Vec<u8>,
    capacity: usize,
    status: CaptureStatus,
}

impl View for HeadCapture {
    type V = CaptureState;

    closed spec fn view(&self) -> CaptureState {
        CaptureState { capacity: self.capacity, data: self.buf@, status: self.status }
    }
}

/// The offset at which the terminator first stands in `bytes`.
pub fn find_terminator(bytes: &[u8]) -> (found: Option<usize>)
    ensures
        match found {
            Some(at) => first_occurrence(bytes@, terminator()) == Some(at as int),
            None => first_occurrence(bytes@, terminator()) is None,
        },
{
    let needle: [u8; 4] = [13, 10, 13, 10];
    assert(needle@ =~= terminator());
    find(bytes, needle.as_slice())
}

impl HeadCapture {
    /// The invariant of a capture: the status agrees with the bytes held.
    pub open spec fn wf(&self) -> bool {
        self@.valid()
    }

    /// An empty capture of [`DEFAULT_CAPACITY`] bytes.
    pub fn new() -> (capture: HeadCapture)
        ensures
            capture.wf(),
            capture@ == CaptureState::start(DEFAULT_CAPACITY),
    {
        HeadCapture::with_capacity(DEFAULT_CAPACITY)
    }

    /// An empty capture of `capacity` bytes. With no capacity at all it has
    /// overflowed from the start.
    pub fn with_capacity(capacity: usize) -> (capture: HeadCapture)
        ensures
            capture.wf(),
            capture@ == CaptureState::start(capacity),
    {
        let status = if capacity == 0 {
            CaptureStatus::Overflow
        } else {
            CaptureStatus::Reading
        };
        proof {
            lemma_empty_holds_no_terminator();
            lemma_first_occurrence_none(Seq::<u8>::empty(), terminator());
        }
        HeadCapture { buf: Vec::new(), capacity, status }
    }

    /// Takes in what one read from the client returned and says how far the
    /// capture has come. An empty chunk stands for a stream that the peer
    /// closed. Of a chunk longer than the room that is left, only what fits
    /// is taken, as a read into the free space would deliver it. A capture
    /// that has ended takes nothing more.
    pub fn feed(&mut self, chunk: &[u8]) -> (status: CaptureStatus)
        requires
            old(self).wf(),
        ensures
            final(self).wf(),
            final(self)@ == old(self)@.feed(chunk@),
            status == final(self)@.status,
    {
        match self.status {
            CaptureStatus::Reading => {},
            _ => {
                return self.status;
            },
        }
        if chunk.len() == 0 {
            self.status = CaptureStatus::Closed;
            return self.status;
        }
        let room: usize = self.capacity - self.buf.len();
        let take: usize = if chunk.len() <= room {
            chunk.len()
        } else {
            room
        };
        let ghost before = self.buf@;
        self.buf.extend_from_slice(&chunk[0..take]);
        assert(self.buf@ =~= before + old(self)@.accepted(chunk@));
        let found = find_terminator(self.buf.as_slice());
        self.status = match found {
            Some(at) => {
                proof {
                    lemma_first_occurrence_is(self.buf@, terminator(), at as int);
                }
                CaptureStatus::Complete { head_end: at }
            },
            None => {
                proof {
                    lemma_first_occurrence_none(self.buf@, terminator());
                }
                if self.buf.len() >= self.capacity {
                    CaptureStatus::Overflow
                } else {
                    CaptureStatus::Reading
                }
            },
        };
        self.status
    }

    /// How far the capture has come.
    pub fn status(&self) -> (status: CaptureStatus)
        ensures
            status == self@.status,
    {
        self.status
    }

    /// The most bytes that the capture holds.
    pub fn capacity(&self) -> (capacity: usize)
        ensures
            capacity == self@.capacity,
    {
        self.capacity
    }

    /// How many bytes the next read may deliver.
    pub fn room(&self) -> (room: usize)
        requires
            self.wf(),
        ensures
            room == self@.room(),
    {
        self.capacity - self.buf.len()
    }

    /// All the bytes read so far, those behind the terminator included.
    pub fn captured(&self) -> (bytes: &[u8])
        ensures
            bytes@ == self@.data,
    {
        self.buf.as_slice()
    }

    /// The bytes before the terminator, once the head is complete.
    pub fn head(&self) -> (head: Option<&[u8]>)
        requires
            self.wf(),
        ensures
            match head {
                Some(bytes) => self@.head() == Some(bytes@),
                None => self@.head() is None,
            },
    {
        match self.status {
            CaptureStatus::Complete { head_end } => {
                let bytes = self.buf.as_slice();
                Some(&bytes[0..head_end])
            },
            _ => None,
        }
    }
}

/// A buffer with no bytes holds no terminator.
pub proof fn lemma_empty_holds_no_terminator()
    ensures
        !contains(Seq::<u8>::empty(), terminator()),
{
}

/// Bytes appended to a buffer leave the first terminator where it was.
pub proof fn lemma_first_terminator_stays(data: Seq<u8>, more: Seq<u8>, at: int)
    requires
        first_occurrence_at(data, terminator(), at),
    ensures
        first_occurrence_at(data + more, terminator(), at),
{
    let longer = data + more;
    assert(occurs_at(longer, terminator(), at)) by {
        assert forall|k: int| 0 <= k < terminator().len() implies longer[at + k]
            == #[trigger] terminator()[k] by {
            assert(longer[at + k] == data[at + k]);
        }
    }
    assert forall|j: int| 0 <= j < at implies !occurs_at(longer, terminator(), j) by {
        if occurs_at(longer, terminator(), j) {
            assert forall|k: int| 0 <= k < terminator().len() implies data[j + k]
                == #[trigger] terminator()[k] by {
                assert(longer[j + k] == data[j + k]);
            }
            assert(occurs_at(data, terminator(), j));
        }
    }
}

impl CaptureState {
    /// The state after the reads that returned `chunks`, in that order.
    pub open spec fn feed_all(self, chunks: Seq<Seq<u8>>) -> CaptureState
        decreases chunks.len(),
    {
        if chunks.len() == 0 {
            self
        } else {
            self.feed(chunks.first()).feed_all(chunks.drop_first())
        }
    }

    /// A read keeps a capture valid.
    pub proof fn lemma_feed_valid(self, chunk: Seq<u8>)
        requires
            self.valid(),
        ensures
            self.feed(chunk).valid(),
    {
        if self.status is Reading && chunk.len() > 0 {
            let data = self.data + self.accepted(chunk);
            match first_occurrence(data, terminator()) {
                Some(at) => {
                    lemma_first_occurrence_is(data, terminator(), at);
                },
                None => {
                    lemma_first_occurrence_none(data, terminator());
                },
            }
        }
    }

    /// While a capture reads, every read that returns bytes adds at least one
    /// of them: a capture cannot read for ever.
    pub proof fn lemma_feed_grows(self, chunk: Seq<u8>)
        requires
            self.valid(),
            self.status is Reading,
            chunk.len() > 0,
        ensures
            self.feed(chunk).data.len() > self.data.len(),
            self.feed(chunk).data.len() <= self.capacity,
    {
    }

    /// Where a read is split in two, the capture comes to the same status and
    /// the same head as with the read in one piece; where the first piece
    /// leaves the head incomplete, it comes to the same state altogether.
    pub proof fn lemma_feed_split(self, first: Seq<u8>, second: Seq<u8>)
        requires
            self.valid(),
            first.len() > 0,
            second.len() > 0,
        ensures
            self.feed(first).feed(second).status == self.feed(first + second).status,
            self.feed(first).feed(second).head() == self.feed(first + second).head(),
            self.feed(first).status is Reading ==> self.feed(first).feed(second) == self.feed(
                first + second,
            ),
    {
        let whole = first + second;
        let one = self.feed(first);
        let apart = one.feed(second);
        let joined = self.feed(whole);
        self.lemma_feed_valid(first);
        if self.status is Reading {
            if first.len() > self.room() {
                assert(self.accepted(whole) =~= self.accepted(first));
            } else {
                assert(one.data == self.data + first);
                assert(joined.data =~= one.data + one.accepted(second));
                match one.status {
                    CaptureStatus::Complete { head_end } => {
                        lemma_first_terminator_stays(
                            one.data,
                            one.accepted(second),
                            head_end as int,
                        );
                        lemma_first_occurrence_is(joined.data, terminator(), head_end as int);
                        assert(joined.data.take(head_end as int) =~= one.data.take(
                            head_end as int,
                        ));
                    },
                    CaptureStatus::Overflow => {
                        assert(one.accepted(second) =~= Seq::<u8>::empty());
                        assert(joined.data =~= one.data);
                    },
                    _ => {},
                }
            }
        }
    }

    /// The status and the head that a capture comes to do not depend on how
    /// the stream is cut into reads.
    pub proof fn lemma_fragmentation(self, chunks: Seq<Seq<u8>>)
        requires
            self.valid(),
            chunks.len() > 0,
            forall|i: int| 0 <= i < chunks.len() ==> (#[trigger] chunks[i]).len() > 0,
        ensures
            chunks.flatten().len() > 0,
            self.feed_all(chunks).status == self.feed(chunks.flatten()).status,
            self.feed_all(chunks).head() == self.feed(chunks.flatten()).head(),
        decreases chunks.len(),
    {
        let rest = chunks.drop_first();
        let one = self.feed(chunks.first());
        assert(chunks.flatten() == chunks.first() + rest.flatten());
        if rest.len() == 0 {
            assert(rest.flatten() =~= Seq::<u8>::empty());
            assert(chunks.flatten() =~= chunks.first());
            assert(one.feed_all(rest) == one);
        } else {
            self.lemma_feed_valid(chunks.first());
            assert forall|i: int| 0 <= i < rest.len() implies (#[trigger] rest[i]).len() > 0 by {
                assert(rest[i] == chunks[i + 1]);
            }
            one.lemma_fragmentation(rest);
            self.lemma_feed_split(chunks.first(), rest.flatten());
        }
    }

    /// A stream whose first `capacity` bytes hold no terminator overflows the
    /// capture, however it is cut into reads.
    pub proof fn lemma_overflow(capacity: usize, chunks: Seq<Seq<u8>>)
        requires
            chunks.len() > 0,
            forall|i: int| 0 <= i < chunks.len() ==> (#[trigger] chunks[i]).len() > 0,
            chunks.flatten().len() >= capacity,
            !contains(chunks.flatten().take(capacity as int), terminator()),
        ensures
            CaptureState::start(capacity).feed_all(chunks).status is Overflow,
    {
        let start = CaptureState::start(capacity);
        let stream = chunks.flatten();
        lemma_empty_holds_no_terminator();
        lemma_first_occurrence_none(Seq::<u8>::empty(), terminator());
        start.lemma_fragmentation(chunks);
        if capacity > 0 {
            assert(start.data + start.accepted(stream) =~= stream.take(capacity as int));
            lemma_first_occurrence_none(stream.take(capacity as int), terminator());
        }
    }

    /// A capture that still reads after `chunks` holds at least one byte for
    /// each of them.
    pub proof fn lemma_reading_holds_a_byte_per_read(self, chunks: Seq<Seq<u8>>)
        requires
            self.valid(),
            forall|i: int| 0 <= i < chunks.len() ==> (#[trigger] chunks[i]).len() > 0,
            self.feed_all(chunks).status is Reading,
        ensures
            self.feed_all(chunks).data.len() >= self.data.len() + chunks.len(),
        decreases chunks.len(),
    {
        if chunks.len() > 0 {
            let rest = chunks.drop_first();
            let one = self.feed(chunks.first());
            self.lemma_feed_valid(chunks.first());
            assert forall|i: int| 0 <= i < rest.len() implies (#[trigger] rest[i]).len() > 0 by {
                assert(rest[i] == chunks[i + 1]);
            }
            if one.status is Reading {
                one.lemma_reading_holds_a_byte_per_read(rest);
            } else {
                one.lemma_stays_ended(rest);
            }
        }
    }

    /// A capture that no longer reads is not moved by further reads.
    pub proof fn lemma_stays_ended(self, chunks: Seq<Seq<u8>>)
        requires
            !(self.status is Reading),
        ensures
            self.feed_all(chunks) == self,
        decreases chunks.len(),
    {
        if chunks.len() > 0 {
            self.lemma_stays_ended(chunks.drop_first());
        }
    }

    /// No capture is left hanging: after as many reads as the buffer has
    /// bytes, each of which returned something, the capture has ended.
    pub proof fn lemma_capture_ends(self, chunks: Seq<Seq<u8>>)
        requires
            self.valid(),
            forall|i: int| 0 <= i < chunks.len() ==> (#[trigger] chunks[i]).len() > 0,
            chunks.len() >= self.room(),
        ensures
            !(self.feed_all(chunks).status is Reading),
    {
        if self.feed_all(chunks).status is Reading {
            self.lemma_reading_holds_a_byte_per_read(chunks);
            self.lemma_feed_all_valid(chunks);
        }
    }

    /// Reads keep a capture valid and leave its capacity as it is.
    pub proof fn lemma_feed_all_valid(self, chunks: Seq<Seq<u8>>)
        requires
            self.valid(),
        ensures
            self.feed_all(chunks).valid(),
            self.feed_all(chunks).capacity == self.capacity,
        decreases chunks.len(),
    {
        if chunks.len() > 0 {
            self.lemma_feed_valid(chunks.first());
            self.feed(chunks.first()).lemma_feed_all_valid(chunks.drop_first());
        }
    }
}

} // verus!
