//! Host copies that a graph capture can replay.
//!
//! While a capture is open, copies between host and device are recorded, not
//! executed: the graph keeps the host address and uses it again on every replay.
//! So the host side of such a copy has to outlive the graph. The source of an
//! upload is copied into memory that is never freed, and a read-back goes to a
//! buffer that is never freed. Both are counted, because a run in which neither
//! happened is a different statement from a capture that succeeded.
use vstd::layout;
use vstd::prelude::*;
use vstd::wrapping::u64_specs;

verus! {

/// An upload above this size inside a capture is bulk data rather than an index
/// vector: one mebibyte.
pub const BULK_BYTES: usize = 1_048_576;

/// The counts as plain numbers.
pub struct CountersView {
    /// Uploads whose source was retained.
    pub retained: u64,
    /// Bytes retained for them.
    pub retained_bytes: u64,
    /// Read-backs issued while a capture was open.
    pub read_backs: u64,
}

/// One thing that the counters hear of.
pub enum CopyEvent {
    /// A source of so many elements and so many bytes was retained.
    Retain(nat, nat),
    /// A read-back was issued; the flag tells whether a capture was open.
    ReadBack(bool),
}

impl CountersView {
    /// Nothing has been copied yet.
    pub open spec fn fresh() -> CountersView {
        CountersView { retained: 0, retained_bytes: 0, read_backs: 0 }
    }

    /// The counts after one event. An empty source is not counted, nor a read-back
    /// outside a capture. The counts wrap round.
    pub open spec fn after(self, event: CopyEvent) -> CountersView {
        match event {
            CopyEvent::Retain(len, bytes) => if len == 0 {
                self
            } else {
                CountersView {
                    retained: u64_specs::wrapping_add(self.retained, 1),
                    retained_bytes: u64_specs::wrapping_add(self.retained_bytes, bytes as u64),
                    ..self
                }
            },
            CopyEvent::ReadBack(capturing) => if capturing {
                CountersView { read_backs: u64_specs::wrapping_add(self.read_backs, 1), ..self }
            } else {
                self
            },
        }
    }

    /// The counts after a row of events.
    pub open spec fn after_all(self, events: Seq<CopyEvent>) -> CountersView
        decreases events.len(),
    {
        if events.len() == 0 {
            self
        } else {
            self.after_all(events.drop_last()).after(events.last())
        }
    }
}

/// What has been copied while capturing, since the start.
#[derive(Debug, Clone, Copy, PartialEq, Eq, Structural)]
pub struct CaptureCounters {
    htod_retained: u64,
    htod_bytes: u64,
    dtoh: u64,
}

impl View for CaptureCounters {
    type V = CountersView;

    closed spec fn view(&self) -> CountersView {
        CountersView {
            retained: self.htod_retained,
            retained_bytes: self.htod_bytes,
            read_backs: self.dtoh,
        }
    }
}

impl CaptureCounters {
    /// Nothing has been copied yet.
    pub fn new() -> (c: Self)
        ensures
            c@ == CountersView::fresh(),
    {
        CaptureCounters { htod_retained: 0, htod_bytes: 0, dtoh: 0 }
    }

    /// Count a read-back, if it is issued while a capture is open.
    pub fn note_read_back(&mut self, capturing: bool)
        ensures
            final(self)@ == old(self)@.after(CopyEvent::ReadBack(capturing)),
    {
        if capturing {
            self.dtoh = self.dtoh.wrapping_add(1);
        }
    }
}

/// Number and bytes of the uploads whose source was retained so far.
///
/// A run in which the retention never fired reports zeros, which is a different
/// statement from a capture that succeeded.
pub fn arc_capture_htod_retained(counters: &CaptureCounters) -> (r: (u64, u64))
    ensures
        r == (counters@.retained, counters@.retained_bytes),
{
    (counters.htod_retained, counters.htod_bytes)
}

/// Number of read-backs issued while a capture was open. Should be zero: a graph
/// cannot read a device value back to the host.
pub fn arc_capture_dtoh_count(counters: &CaptureCounters) -> (n: u64)
    ensures
        n == counters@.read_backs,
{
    counters.dtoh
}

/// Calls `Vec::leak` of the standard library. The claim: the reference is to the
/// contents of the vector, which is never freed.
#[verifier::external_body]
fn leak<T: 'static>(v: Vec<T>) -> (r: &'static [T])
    ensures
        r@ == v@,
{
    v.leak()
}

/// What to say about an upload whose source is retained.
#[derive(Debug, Clone, Copy, PartialEq, Eq, Structural)]
pub enum RetainNotice {
    /// There was nothing to retain.
    Empty,
    /// So many bytes are retained.
    Retained(usize),
    /// So many bytes are retained, more than a captured region should upload.
    Bulk(usize),
}

/// The bytes of a host slice.
pub open spec fn bytes_of<T>(src: Seq<T>) -> nat {
    src.len() * layout::size_of::<T>()
}

/// What to say of a source of `len` elements and `bytes` bytes.
pub open spec fn notice_of(len: nat, bytes: nat) -> RetainNotice {
    if len == 0 {
        RetainNotice::Empty
    } else if bytes > BULK_BYTES {
        RetainNotice::Bulk(bytes as usize)
    } else {
        RetainNotice::Retained(bytes as usize)
    }
}

/// A source is called bulk exactly if it is over one mebibyte; the notice tells its bytes.
pub proof fn law_bulk_is_more_than_a_mebibyte(len: nat, bytes: nat)
    requires
        bytes <= usize::MAX,
    ensures
        notice_of(len, bytes) is Empty <==> len == 0,
        notice_of(len, bytes) is Bulk <==> len > 0 && bytes > 1024 * 1024,
        notice_of(len, bytes) matches RetainNotice::Bulk(n) ==> n == bytes,
        notice_of(len, bytes) matches RetainNotice::Retained(n) ==> n == bytes,
{
}

/// What to say when `src` is retained. An empty source is not retained; more than
/// [`BULK_BYTES`] is retained all the same, because a graph that is too fat is
/// better than one that faults, but deserves a warning.
pub fn retain_notice<T>(src: &[T]) -> (n: RetainNotice)
    ensures
        n == notice_of(src@.len(), bytes_of(src@)),
        n == (if src@.len() == 0 {
            RetainNotice::Empty
        } else if bytes_of(src@) > BULK_BYTES {
            RetainNotice::Bulk(bytes_of(src@) as usize)
        } else {
            RetainNotice::Retained(bytes_of(src@) as usize)
        }),
{
    broadcast use vstd::layout::layout_of_slices;

    if src.len() == 0 {
        return RetainNotice::Empty;
    }
    let bytes: usize = core::mem::size_of_val(src);
    if bytes > BULK_BYTES {
        RetainNotice::Bulk(bytes)
    } else {
        RetainNotice::Retained(bytes)
    }
}

/// Retain the host source of an upload for ever: the result holds the same
/// elements and is never freed. Counts the upload and its bytes; both counts wrap
/// round. An empty source is not counted.
pub fn arc_capture_retain_host<T: Copy + 'static>(
    counters: &mut CaptureCounters,
    src: &[T],
) -> (retained: &'static [T])
    ensures
        retained@ == src@,
        final(counters)@ == old(counters)@.after(
            CopyEvent::Retain(src@.len(), bytes_of(src@)),
        ),
{
    broadcast use vstd::layout::layout_of_slices;

    if src.len() > 0 {
        let bytes: usize = core::mem::size_of_val(src);
        counters.htod_retained = counters.htod_retained.wrapping_add(1);
        counters.htod_bytes = counters.htod_bytes.wrapping_add(bytes as u64);
    }
    let mut copy: Vec<T> = Vec::new();
    let mut i: usize = 0;
    while i < src.len()
        invariant
            0 <= i <= src.len(),
            copy@ == src@.take(i as int),
        decreases src.len() - i,
    {
        copy.push(src[i]);
        assert(copy@ =~= src@.take(i + 1));
        i = i + 1;
    }
    assert(src@.take(i as int) =~= src@);
    leak(copy)
}

/// How many of the events retained a source that is not empty.
pub open spec fn number_retained(events: Seq<CopyEvent>) -> nat
    decreases events.len(),
{
    if events.len() == 0 {
        0
    } else {
        number_retained(events.drop_last()) + match events.last() {
            CopyEvent::Retain(len, _) => if len > 0 {
                1nat
            } else {
                0nat
            },
            CopyEvent::ReadBack(_) => 0nat,
        }
    }
}

/// The bytes of the sources that are not empty.
pub open spec fn total_retained(events: Seq<CopyEvent>) -> nat
    decreases events.len(),
{
    if events.len() == 0 {
        0
    } else {
        total_retained(events.drop_last()) + match events.last() {
            CopyEvent::Retain(len, bytes) => if len > 0 {
                bytes
            } else {
                0nat
            },
            CopyEvent::ReadBack(_) => 0nat,
        }
    }
}

/// How many of the events are read-backs issued while a capture was open.
pub open spec fn number_read_back(events: Seq<CopyEvent>) -> nat
    decreases events.len(),
{
    if events.len() == 0 {
        0
    } else {
        number_read_back(events.drop_last()) + match events.last() {
            CopyEvent::Retain(_, _) => 0nat,
            CopyEvent::ReadBack(capturing) => if capturing {
                1nat
            } else {
                0nat
            },
        }
    }
}

/// From the start on, whatever happened in between: the first pair of counts is
/// the number of sources that were retained, empty ones left out, and the sum of
/// their bytes, as long as the sum can be written down. It is zero exactly if no
/// such source was retained.
pub proof fn law_the_retained_counts_are_exact(events: Seq<CopyEvent>)
    requires
        events.len() <= u64::MAX,
        total_retained(events) <= u64::MAX,
    ensures
        ({
            let c = CountersView::fresh().after_all(events);
            &&& c.retained == number_retained(events)
            &&& c.retained_bytes == total_retained(events)
            &&& (c.retained, c.retained_bytes) == (0u64, 0u64) <==> number_retained(events) == 0
        }),
    decreases events.len(),
{
    if events.len() > 0 {
        law_the_retained_counts_are_exact(events.drop_last());
        lemma_number_retained_le(events.drop_last());
    }
    lemma_nothing_retained(events);
}

/// From the start on, whatever happened in between: the count of read-backs is the
/// number of those that were issued while a capture was open, by any route.
pub proof fn law_the_read_back_count_is_exact(events: Seq<CopyEvent>)
    requires
        events.len() <= u64::MAX,
    ensures
        CountersView::fresh().after_all(events).read_backs == number_read_back(events),
        number_read_back(events) <= events.len(),
    decreases events.len(),
{
    if events.len() > 0 {
        law_the_read_back_count_is_exact(events.drop_last());
    }
}

/// No more sources are retained than there are events.
proof fn lemma_number_retained_le(events: Seq<CopyEvent>)
    ensures
        number_retained(events) <= events.len(),
    decreases events.len(),
{
    if events.len() > 0 {
        lemma_number_retained_le(events.drop_last());
    }
}

/// Without a source there are no bytes.
proof fn lemma_nothing_retained(events: Seq<CopyEvent>)
    ensures
        number_retained(events) == 0 ==> total_retained(events) == 0,
    decreases events.len(),
{
    if events.len() > 0 {
        lemma_nothing_retained(events.drop_last());
    }
}

/// What one event does to the counts, as long as they can be written down: a source that
/// is not empty, of any size, is one more and its bytes are more; a read-back while a
/// capture is open is one more. Nothing else moves a count.
pub proof fn law_what_one_event_counts(
    c: CountersView,
    len: nat,
    bytes: nat,
    capturing: bool,
)
    ensures
        ({
            let end = c.after(CopyEvent::Retain(len, bytes));
            &&& len == 0 ==> end == c
            &&& len > 0 && c.retained < u64::MAX ==> end.retained == c.retained + 1
            &&& len > 0 && c.retained_bytes + bytes <= u64::MAX ==> end.retained_bytes
                == c.retained_bytes + bytes
            &&& end.read_backs == c.read_backs
        }),
        ({
            let end = c.after(CopyEvent::ReadBack(capturing));
            &&& !capturing ==> end == c
            &&& capturing && c.read_backs < u64::MAX ==> end.read_backs == c.read_backs + 1
            &&& end.retained == c.retained
            &&& end.retained_bytes == c.retained_bytes
        }),
        CountersView::fresh().retained == 0,
        CountersView::fresh().retained_bytes == 0,
        CountersView::fresh().read_backs == 0,
{
}

/// The numbers of the two laws above, counted out.
pub proof fn law_events_counted_out(events: Seq<CopyEvent>)
    ensures
        number_retained(events) == events.filter(
            |e: CopyEvent| e matches CopyEvent::Retain(len, _) && len > 0,
        ).len(),
        number_read_back(events) == events.filter(
            |e: CopyEvent| e == CopyEvent::ReadBack(true),
        ).len(),
    decreases events.len(),
{
    reveal(Seq::filter);
    if events.len() > 0 {
        law_events_counted_out(events.drop_last());
    }
}

/// The bytes of a slice: those of its parts together, and of one element its size.
pub proof fn law_bytes_of_a_slice<T>(a: Seq<T>, b: Seq<T>, x: T)
    ensures
        bytes_of(Seq::<T>::empty()) == 0,
        bytes_of(a + b) == bytes_of(a) + bytes_of(b),
        bytes_of(a.push(x)) == bytes_of(a) + layout::size_of::<T>(),
{
    let w = layout::size_of::<T>();
    assert(0 * w == 0) by (nonlinear_arith);
    assert((a.len() + b.len()) * w == a.len() * w + b.len() * w) by (nonlinear_arith);
    assert((a.len() + 1) * w == a.len() * w + w) by (nonlinear_arith);
}

} // verus!
