//! The order in which pooled buffers are given back to the driver.
//!
//! A pool maps a byte size to the stack of free buffers of that size, stamped
//! with the tick of its last use. Buffers leave in the order of the stamps,
//! the stalest size first, and within one size from the top of its stack.
use vstd::prelude::*;

verus! {

/// The free buffers of one byte size, and the stamp of the last use of that size.
#[verifier::ext_equal]
pub struct ClassView {
    pub ptrs: Seq<u64>,
    pub tick: u64,
}

/// `bytes` has at least one free buffer.
pub open spec fn stocked(free: Map<usize, ClassView>, bytes: usize) -> bool {
    free.contains_key(bytes) && free[bytes].ptrs.len() > 0
}

/// The sizes with at least one free buffer.
pub open spec fn stocked_sizes(free: Map<usize, ClassView>) -> Set<usize> {
    free.dom().filter(|b: usize| stocked(free, b))
}

/// Size `a` is given back before size `b`: it was used less recently, or the
/// stamps agree and it is the smaller size.
pub open spec fn staler(free: Map<usize, ClassView>, a: usize, b: usize) -> bool {
    free[a].tick < free[b].tick || (free[a].tick == free[b].tick && a < b)
}

/// `sizes` lists every stocked size once, the stalest first.
pub open spec fn is_lru_order(free: Map<usize, ClassView>, sizes: Seq<usize>) -> bool {
    &&& forall|i: int, j: int|
        0 <= i < j < sizes.len() ==> staler(free, #[trigger] sizes[i], #[trigger] sizes[j])
    &&& forall|b: usize| #[trigger] sizes.contains(b) <==> stocked(free, b)
}

/// The stocked sizes, the stalest first.
pub open spec fn lru_order(free: Map<usize, ClassView>) -> Seq<usize> {
    choose|sizes: Seq<usize>| is_lru_order(free, sizes)
}

/// The buffers of one size in the order in which they leave.
pub open spec fn class_run(bytes: usize, ptrs: Seq<u64>) -> Seq<(usize, u64)> {
    Seq::new(ptrs.len(), |i: int| (bytes, ptrs[ptrs.len() - 1 - i]))
}

/// The buffers of the given sizes in the order in which they leave.
pub open spec fn queue_of(free: Map<usize, ClassView>, sizes: Seq<usize>) -> Seq<(usize, u64)>
    decreases sizes.len(),
{
    if sizes.len() == 0 {
        Seq::empty()
    } else {
        class_run(sizes[0], free[sizes[0]].ptrs) + queue_of(free, sizes.drop_first())
    }
}

/// Every free buffer, in the order in which they leave.
pub open spec fn eviction_queue(free: Map<usize, ClassView>) -> Seq<(usize, u64)> {
    queue_of(free, lru_order(free))
}

/// How many buffers must leave the front of `queue` before `retained` bytes
/// come down to `low`; all of them where that is not enough.
pub open spec fn excess_len(queue: Seq<(usize, u64)>, retained: int, low: int) -> nat
    decreases queue.len(),
{
    if retained <= low || queue.len() == 0 {
        0
    } else {
        1 + excess_len(queue.drop_first(), retained - queue[0].0, low)
    }
}

/// The bytes of the listed buffers.
pub open spec fn bytes_in(bufs: Seq<(usize, u64)>) -> nat
    decreases bufs.len(),
{
    if bufs.len() == 0 {
        0
    } else {
        bytes_in(bufs.drop_last()) + bufs.last().0 as nat
    }
}

/// How many of the listed buffers have size `bytes`.
pub open spec fn number_at(bufs: Seq<(usize, u64)>, bytes: usize) -> nat
    decreases bufs.len(),
{
    if bufs.len() == 0 {
        0
    } else {
        number_at(bufs.drop_last(), bytes) + if bufs.last().0 == bytes {
            1nat
        } else {
            0nat
        }
    }
}

/// How many of the listed buffers have a size in `sizes`.
pub open spec fn number_within(bufs: Seq<(usize, u64)>, sizes: Set<usize>) -> nat
    decreases bufs.len(),
{
    if bufs.len() == 0 {
        0
    } else {
        number_within(bufs.drop_last(), sizes) + if sizes.contains(bufs.last().0) {
            1nat
        } else {
            0nat
        }
    }
}

/// The addresses of the listed buffers.
pub open spec fn ptrs_of(bufs: Seq<(usize, u64)>) -> Seq<u64> {
    bufs.map_values(|b: (usize, u64)| b.1)
}

/// The pool once the listed buffers have left the tops of their stacks. Sizes
/// with nothing left lose their entry.
pub open spec fn pool_after(free: Map<usize, ClassView>, gone: Seq<(usize, u64)>) -> Map<
    usize,
    ClassView,
> {
    Map::new(
        |b: usize| free.contains_key(b) && number_at(gone, b) < free[b].ptrs.len(),
        |b: usize|
            ClassView {
                ptrs: free[b].ptrs.take(free[b].ptrs.len() - number_at(gone, b)),
                tick: free[b].tick,
            },
    )
}

/// Of a finite set of sizes one is the stalest.
proof fn lemma_stalest(free: Map<usize, ClassView>, s: Set<usize>) -> (m: usize)
    requires
        s.finite(),
        s.len() > 0,
    ensures
        s.contains(m),
        forall|b: usize| s.contains(b) && b != m ==> staler(free, m, b),
    decreases s.len(),
{
    let a = s.choose();
    if s.len() == 1 {
        assert forall|b: usize| s.contains(b) && b != a implies staler(free, a, b) by {
            assert(s.remove(a).contains(b));
            assert(s.remove(a).len() == 0);
        }
        a
    } else {
        let m = lemma_stalest(free, s.remove(a));
        if staler(free, a, m) {
            a
        } else {
            m
        }
    }
}

/// A finite pool has an order.
proof fn lemma_order_of(free: Map<usize, ClassView>, s: Set<usize>) -> (sizes: Seq<usize>)
    requires
        s.finite(),
    ensures
        forall|i: int, j: int|
            0 <= i < j < sizes.len() ==> staler(free, #[trigger] sizes[i], #[trigger] sizes[j]),
        forall|b: usize| #[trigger] sizes.contains(b) <==> s.contains(b),
    decreases s.len(),
{
    if s.len() == 0 {
        assert(s =~= Set::empty());
        Seq::empty()
    } else {
        let m = lemma_stalest(free, s);
        let rest = lemma_order_of(free, s.remove(m));
        let sizes = seq![m] + rest;
        assert forall|b: usize| #[trigger] sizes.contains(b) <==> s.contains(b) by {
            if sizes.contains(b) {
                let i = choose|i: int| 0 <= i < sizes.len() && sizes[i] == b;
                if i > 0 {
                    assert(rest[i - 1] == b);
                    assert(rest.contains(b));
                }
            }
            if s.contains(b) {
                if b == m {
                    assert(sizes[0] == m);
                } else {
                    assert(rest.contains(b));
                    let i = choose|i: int| 0 <= i < rest.len() && rest[i] == b;
                    assert(sizes[i + 1] == b);
                }
            }
        }
        assert forall|i: int, j: int| 0 <= i < j < sizes.len() implies staler(
            free,
            #[trigger] sizes[i],
            #[trigger] sizes[j],
        ) by {
            assert(sizes[j] == rest[j - 1]);
            assert(rest.contains(sizes[j]));
            if i > 0 {
                assert(sizes[i] == rest[i - 1]);
            }
        }
        sizes
    }
}

/// The order of a finite pool is an order, so `lru_order` lists its stocked
/// sizes.
pub proof fn lemma_lru_order(free: Map<usize, ClassView>)
    requires
        free.dom().finite(),
    ensures
        is_lru_order(free, lru_order(free)),
{
    let s = stocked_sizes(free);
    let sizes = lemma_order_of(free, s);
    assert(is_lru_order(free, sizes));
}

/// There is only one such order.
pub proof fn lemma_lru_order_unique(free: Map<usize, ClassView>, a: Seq<usize>, b: Seq<usize>)
    requires
        forall|i: int, j: int|
            0 <= i < j < a.len() ==> staler(free, #[trigger] a[i], #[trigger] a[j]),
        forall|i: int, j: int|
            0 <= i < j < b.len() ==> staler(free, #[trigger] b[i], #[trigger] b[j]),
        forall|x: usize| #[trigger] a.contains(x) <==> b.contains(x),
    ensures
        a == b,
    decreases a.len(),
{
    if a.len() == 0 {
        if b.len() > 0 {
            assert(b.contains(b[0]));
            assert(a.contains(b[0]));
        }
        assert(a =~= b);
    } else {
        assert(a.contains(a[0]));
        assert(b.contains(a[0]));
        assert(b.contains(b[0]));
        assert(a.contains(b[0]));
        let i = choose|i: int| 0 <= i < b.len() && b[i] == a[0];
        let j = choose|j: int| 0 <= j < a.len() && a[j] == b[0];
        assert(a[0] == b[0]);
        let a1 = a.drop_first();
        let b1 = b.drop_first();
        assert forall|x: usize| #[trigger] a1.contains(x) <==> b1.contains(x) by {
            lemma_tail_contains(a, x);
            lemma_tail_contains(b, x);
            if a1.contains(x) {
                let k = choose|k: int| 0 <= k < a1.len() && a1[k] == x;
                assert(a[k + 1] == x);
            }
            if b1.contains(x) {
                let k = choose|k: int| 0 <= k < b1.len() && b1[k] == x;
                assert(b[k + 1] == x);
            }
        }
        lemma_lru_order_unique(free, a1, b1);
        assert(a =~= seq![a[0]] + a1);
        assert(b =~= seq![b[0]] + b1);
    }
}

/// A sequence is its head and its tail.
proof fn lemma_tail_contains(s: Seq<usize>, x: usize)
    requires
        s.len() > 0,
    ensures
        s.contains(x) <==> s[0] == x || s.drop_first().contains(x),
{
    if s.contains(x) {
        let i = choose|i: int| 0 <= i < s.len() && s[i] == x;
        if i > 0 {
            assert(s.drop_first()[i - 1] == x);
        }
    }
    if s.drop_first().contains(x) {
        let i = choose|i: int| 0 <= i < s.drop_first().len() && s.drop_first()[i] == x;
        assert(s[i + 1] == x);
    }
}

/// Counting runs over a concatenation part by part.
pub proof fn lemma_number_at_add(a: Seq<(usize, u64)>, b: Seq<(usize, u64)>, bytes: usize)
    ensures
        number_at(a + b, bytes) == number_at(a, bytes) + number_at(b, bytes),
    decreases b.len(),
{
    if b.len() == 0 {
        assert(a + b =~= a);
    } else {
        assert((a + b).drop_last() =~= a + b.drop_last());
        lemma_number_at_add(a, b.drop_last(), bytes);
    }
}

/// A run of one size counts its length there and nothing elsewhere.
proof fn lemma_run_number(bytes: usize, ptrs: Seq<u64>, n: int, b: usize)
    requires
        0 <= n <= ptrs.len(),
    ensures
        number_at(class_run(bytes, ptrs).take(n), b) == if b == bytes {
            n
        } else {
            0
        },
    decreases n,
{
    let run = class_run(bytes, ptrs);
    if n > 0 {
        assert(run.take(n).drop_last() =~= run.take(n - 1));
        assert(run.take(n).last() == run[n - 1]);
        lemma_run_number(bytes, ptrs, n - 1, b);
    }
}

/// What leaves next is the top of the stack of its size, with those that left
/// before it taken off.
pub proof fn lemma_queue_next(free: Map<usize, ClassView>, sizes: Seq<usize>, n: int)
    requires
        sizes.no_duplicates(),
        0 <= n < queue_of(free, sizes).len(),
    ensures
        ({
            let q = queue_of(free, sizes);
            let b = q[n].0;
            let m = number_at(q.take(n), b);
            &&& sizes.contains(b)
            &&& m < free[b].ptrs.len()
            &&& q[n].1 == free[b].ptrs[free[b].ptrs.len() - 1 - m]
        }),
    decreases sizes.len(),
{
    let q = queue_of(free, sizes);
    let b0 = sizes[0];
    let run = class_run(b0, free[b0].ptrs);
    let tail = sizes.drop_first();
    let rest = queue_of(free, tail);
    if n < run.len() {
        assert(q[n] == run[n]);
        assert(q.take(n) =~= run.take(n));
        lemma_run_number(b0, free[b0].ptrs, n, b0);
        assert(sizes.contains(sizes[0]));
    } else {
        let k = n - run.len();
        assert(q[n] == rest[k]);
        assert(tail.no_duplicates());
        lemma_queue_next(free, tail, k);
        let b = q[n].0;
        lemma_tail_contains(sizes, b);
        assert(b != b0) by {
            let j = choose|j: int| 0 <= j < tail.len() && tail[j] == b;
            assert(sizes[j + 1] == b);
        }
        assert(q.take(n) =~= run + rest.take(k));
        lemma_number_at_add(run, rest.take(k), b);
        assert(run.take(run.len() as int) =~= run);
        lemma_run_number(b0, free[b0].ptrs, run.len() as int, b);
    }
}

/// Taken whole, the queue holds every stack of the listed sizes.
pub proof fn lemma_queue_number(free: Map<usize, ClassView>, sizes: Seq<usize>, b: usize)
    requires
        sizes.no_duplicates(),
    ensures
        number_at(queue_of(free, sizes), b) == if sizes.contains(b) {
            free[b].ptrs.len()
        } else {
            0
        },
    decreases sizes.len(),
{
    if sizes.len() > 0 {
        let b0 = sizes[0];
        let run = class_run(b0, free[b0].ptrs);
        let tail = sizes.drop_first();
        lemma_tail_contains(sizes, b);
        assert(tail.no_duplicates());
        lemma_queue_number(free, tail, b);
        lemma_number_at_add(run, queue_of(free, tail), b);
        assert(run.take(run.len() as int) =~= run);
        lemma_run_number(b0, free[b0].ptrs, run.len() as int, b);
        if tail.contains(b) {
            let j = choose|j: int| 0 <= j < tail.len() && tail[j] == b;
            assert(sizes[j + 1] == b);
            assert(b != b0);
        }
    }
}

/// An order lists no size twice.
pub proof fn lemma_order_distinct(free: Map<usize, ClassView>, sizes: Seq<usize>)
    requires
        is_lru_order(free, sizes),
    ensures
        sizes.no_duplicates(),
{
}

/// A longer prefix counts no fewer buffers of a size.
pub proof fn lemma_number_at_prefix(q: Seq<(usize, u64)>, m: int, n: int, b: usize)
    requires
        0 <= m <= n <= q.len(),
    ensures
        number_at(q.take(m), b) <= number_at(q.take(n), b),
    decreases n,
{
    if m < n {
        assert(q.take(n).drop_last() =~= q.take(n - 1));
        lemma_number_at_prefix(q, m, n - 1, b);
    }
}

/// How far the sweep goes: the front leaves while too much is retained.
pub proof fn lemma_excess_step(q: Seq<(usize, u64)>, n: int, retained: int, low: int)
    requires
        0 <= n <= q.len(),
    ensures
        n == q.len() ==> excess_len(q.skip(n), retained, low) == 0,
        retained <= low ==> excess_len(q.skip(n), retained, low) == 0,
        n < q.len() && retained > low ==> excess_len(q.skip(n), retained, low) == 1 + excess_len(
            q.skip(n + 1),
            retained - q[n].0,
            low,
        ),
        excess_len(q.skip(n), retained, low) <= q.len() - n,
    decreases q.len() - n,
{
    if n < q.len() && retained > low {
        assert(q.skip(n).drop_first() =~= q.skip(n + 1));
        lemma_excess_step(q, n + 1, retained - q[n].0, low);
    }
}

/// A prefix has no more bytes than the whole.
pub proof fn lemma_bytes_in_prefix(bufs: Seq<(usize, u64)>, n: int)
    requires
        0 <= n <= bufs.len(),
    ensures
        bytes_in(bufs.take(n)) <= bytes_in(bufs),
    decreases bufs.len(),
{
    if n < bufs.len() {
        lemma_bytes_in_prefix(bufs.drop_last(), n);
        assert(bufs.drop_last().take(n) =~= bufs.take(n));
    } else {
        assert(bufs.take(n) =~= bufs);
    }
}

/// No more are within the sizes than there are.
pub proof fn lemma_number_within_le(bufs: Seq<(usize, u64)>, sizes: Set<usize>)
    ensures
        number_within(bufs, sizes) <= bufs.len(),
    decreases bufs.len(),
{
    if bufs.len() > 0 {
        lemma_number_within_le(bufs.drop_last(), sizes);
    }
}

/// One more buffer in the list.
pub proof fn lemma_take_push(q: Seq<(usize, u64)>, n: int)
    requires
        0 <= n < q.len(),
    ensures
        q.take(n + 1) == q.take(n).push(q[n]),
        bytes_in(q.take(n + 1)) == bytes_in(q.take(n)) + q[n].0,
        forall|b: usize| #[trigger]
            number_at(q.take(n + 1), b) == number_at(q.take(n), b) + if q[n].0 == b {
                1nat
            } else {
                0nat
            },
        forall|s: Set<usize>| #[trigger]
            number_within(q.take(n + 1), s) == number_within(q.take(n), s) + if s.contains(
                q[n].0,
            ) {
                1nat
            } else {
                0nat
            },
{
    assert(q.take(n + 1) =~= q.take(n).push(q[n]));
    assert(q.take(n + 1).drop_last() =~= q.take(n));
}

/// The bytes of two lists.
pub proof fn lemma_bytes_in_add(a: Seq<(usize, u64)>, b: Seq<(usize, u64)>)
    ensures
        bytes_in(a + b) == bytes_in(a) + bytes_in(b),
    decreases b.len(),
{
    if b.len() == 0 {
        assert(a + b =~= a);
    } else {
        assert((a + b).drop_last() =~= a + b.drop_last());
        lemma_bytes_in_add(a, b.drop_last());
    }
}

/// The bytes of one stack.
pub proof fn lemma_run_bytes(bytes: usize, ptrs: Seq<u64>, n: int)
    requires
        0 <= n <= ptrs.len(),
    ensures
        bytes_in(class_run(bytes, ptrs).take(n)) == bytes as nat * n as nat,
        n == ptrs.len() ==> bytes_in(class_run(bytes, ptrs)) == bytes as nat * n as nat,
    decreases n,
{
    let run = class_run(bytes, ptrs);
    if n > 0 {
        assert(run.take(n).drop_last() =~= run.take(n - 1));
        assert(run.take(n).last() == run[n - 1]);
        lemma_run_bytes(bytes, ptrs, n - 1);
        assert(bytes as nat * n as nat == bytes as nat * (n - 1) as nat + bytes)
            by (nonlinear_arith)
            requires
                n > 0,
        ;
    } else {
        assert(bytes as nat * 0 == 0) by (nonlinear_arith);
    }
    if n == ptrs.len() {
        assert(run.take(n) =~= run);
    }
}

/// The queue of sizes in two parts.
pub proof fn lemma_queue_add(free: Map<usize, ClassView>, a: Seq<usize>, b: Seq<usize>)
    ensures
        queue_of(free, a + b) == queue_of(free, a) + queue_of(free, b),
    decreases a.len(),
{
    if a.len() == 0 {
        assert(a + b =~= b);
        assert(queue_of(free, a) + queue_of(free, b) =~= queue_of(free, b));
    } else {
        assert((a + b).drop_first() =~= a.drop_first() + b);
        lemma_queue_add(free, a.drop_first(), b);
        assert(queue_of(free, a + b) =~= queue_of(free, a) + queue_of(free, b));
    }
}

/// A size loses a buffer only once every size ahead of it has lost all of its own.
pub proof fn lemma_front_first(
    free: Map<usize, ClassView>,
    sizes: Seq<usize>,
    n: int,
    i: int,
    j: int,
)
    requires
        sizes.no_duplicates(),
        0 <= n <= queue_of(free, sizes).len(),
        0 <= i < j < sizes.len(),
        number_at(queue_of(free, sizes).take(n), sizes[j]) > 0,
    ensures
        number_at(queue_of(free, sizes).take(n), sizes[i]) == free[sizes[i]].ptrs.len(),
    decreases sizes.len(),
{
    let ahead = sizes.take(i + 1);
    let rest = sizes.skip(i + 1);
    let q = queue_of(free, sizes);
    let qa = queue_of(free, ahead);
    let qr = queue_of(free, rest);
    assert(sizes =~= ahead + rest);
    lemma_queue_add(free, ahead, rest);
    assert(ahead.no_duplicates());
    assert(rest.no_duplicates());
    lemma_queue_number(free, ahead, sizes[j]);
    lemma_queue_number(free, ahead, sizes[i]);
    lemma_queue_number(free, rest, sizes[i]);
    assert(!ahead.contains(sizes[j]));
    assert(!rest.contains(sizes[i]));
    assert(ahead[i] == sizes[i]);
    if n <= qa.len() {
        assert(q.take(n) =~= qa.take(n));
        lemma_number_at_prefix(qa, n, qa.len() as int, sizes[j]);
        assert(qa.take(qa.len() as int) =~= qa);
    } else {
        let m = n - qa.len();
        assert(q.take(n) =~= qa + qr.take(m));
        lemma_number_at_add(qa, qr.take(m), sizes[i]);
        lemma_number_at_prefix(qr, m, qr.len() as int, sizes[i]);
        assert(qr.take(qr.len() as int) =~= qr);
    }
}

/// What leaves is enough where there is enough, and no more than needed.
pub proof fn lemma_excess_exact(q: Seq<(usize, u64)>, retained: int, low: int)
    ensures
        ({
            let n = excess_len(q, retained, low) as int;
            &&& 0 <= n <= q.len()
            &&& n == q.len() || retained - bytes_in(q.take(n)) <= low
            &&& n > 0 ==> retained - bytes_in(q.take(n - 1)) > low
        }),
    decreases q.len(),
{
    let n = excess_len(q, retained, low) as int;
    if n == 0 {
        assert(q.take(0) =~= Seq::empty());
    } else {
        let tail = q.drop_first();
        let m = excess_len(tail, retained - q[0].0, low) as int;
        lemma_excess_exact(tail, retained - q[0].0, low);
        let head = seq![q[0]];
        assert(head.drop_last() =~= Seq::empty());
        assert(bytes_in(head) == q[0].0) by {
            assert(bytes_in(head.drop_last()) == 0);
        }
        assert(q.take(n) =~= head + tail.take(m));
        lemma_bytes_in_add(head, tail.take(m));
        if m > 0 {
            assert(q.take(n - 1) =~= head + tail.take(m - 1));
            lemma_bytes_in_add(head, tail.take(m - 1));
        } else {
            assert(q.take(0) =~= Seq::empty());
        }
    }
}

/// The queue is in the order of its sizes.
pub proof fn lemma_queue_sorted(free: Map<usize, ClassView>, sizes: Seq<usize>, i: int, j: int)
    requires
        sizes.no_duplicates(),
        forall|x: int, y: int|
            0 <= x < y < sizes.len() ==> staler(free, #[trigger] sizes[x], #[trigger] sizes[y]),
        0 <= i < j < queue_of(free, sizes).len(),
    ensures
        ({
            let q = queue_of(free, sizes);
            q[i].0 == q[j].0 || staler(free, q[i].0, q[j].0)
        }),
    decreases sizes.len(),
{
    let q = queue_of(free, sizes);
    let run = class_run(sizes[0], free[sizes[0]].ptrs);
    let tail = sizes.drop_first();
    let n = run.len();
    assert(tail.no_duplicates());
    assert forall|x: int, y: int| 0 <= x < y < tail.len() implies staler(
        free,
        #[trigger] tail[x],
        #[trigger] tail[y],
    ) by {
        assert(staler(free, sizes[x + 1], sizes[y + 1]));
    }
    if j >= n {
        assert(q[j] == queue_of(free, tail)[j - n]);
        if i >= n {
            lemma_queue_sorted(free, tail, i - n, j - n);
        } else {
            lemma_queue_next(free, tail, j - n);
            let y = choose|y: int| 0 <= y < tail.len() && tail[y] == q[j].0;
            assert(staler(free, sizes[0], sizes[y + 1]));
        }
    }
}

/// The number of buffers of a size, counted out.
pub proof fn lemma_number_at_filter(bufs: Seq<(usize, u64)>, b: usize)
    ensures
        number_at(bufs, b) == bufs.filter(|x: (usize, u64)| x.0 == b).len(),
    decreases bufs.len(),
{
    reveal(Seq::filter);
    if bufs.len() > 0 {
        lemma_number_at_filter(bufs.drop_last(), b);
    }
}

/// A buffer in the list is one of its size.
pub proof fn lemma_number_at_some(bufs: Seq<(usize, u64)>, i: int)
    requires
        0 <= i < bufs.len(),
    ensures
        number_at(bufs, bufs[i].0) > 0,
    decreases bufs.len(),
{
    if i < bufs.len() - 1 {
        lemma_number_at_some(bufs.drop_last(), i);
    }
}

/// The number of buffers of some sizes, counted out.
pub proof fn lemma_number_within_filter(bufs: Seq<(usize, u64)>, sizes: Set<usize>)
    ensures
        number_within(bufs, sizes) == bufs.filter(|x: (usize, u64)| sizes.contains(x.0)).len(),
    decreases bufs.len(),
{
    reveal(Seq::filter);
    if bufs.len() > 0 {
        lemma_number_within_filter(bufs.drop_last(), sizes);
    }
}

/// The bytes of a list: none for none, one more size for one more buffer. The addresses
/// are those of its buffers, in order.
pub proof fn law_bytes_and_addresses_of_a_list(bufs: Seq<(usize, u64)>, bytes: usize, ptr: u64)
    ensures
        bytes_in(Seq::empty()) == 0,
        bytes_in(bufs.push((bytes, ptr))) == bytes_in(bufs) + bytes,
        ptrs_of(bufs).len() == bufs.len(),
        forall|i: int| 0 <= i < bufs.len() ==> #[trigger] ptrs_of(bufs)[i] == bufs[i].1,
{
    assert(bufs.push((bytes, ptr)).drop_last() =~= bufs);
}

} // verus!
