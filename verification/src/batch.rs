//! Batches: documents that are rendered in any order and written in theirs.
use vstd::prelude::*;
use vstd::set_lib::*;

verus! {

// ---------------------------------------------------------------------------------------------
// Putting rows back in order
// ---------------------------------------------------------------------------------------------
/// Rendered rows that wait for their turn.
pub struct OrderedQueue<T> {
    pub next: usize,
    pub pending: Vec<(usize, T)>,
}

/// Row `r` waits at place `k`.
pub open spec fn waits_at<T>(pending: Seq<(usize, T)>, r: int, k: int) -> bool {
    0 <= k < pending.len() && pending[k].0 == r
}

/// Row `r` waits.
pub open spec fn waits<T>(pending: Seq<(usize, T)>, r: int) -> bool {
    exists|k: int| waits_at(pending, r, k)
}

/// The rows that wait, each with what was rendered.
pub open spec fn held<T>(pending: Seq<(usize, T)>) -> Map<int, T> {
    Map::new(
        |r: int| waits(pending, r),
        |r: int| pending[choose|k: int| waits_at(pending, r, k)].1,
    )
}

/// No row waits twice.
pub open spec fn rows_distinct<T>(pending: Seq<(usize, T)>) -> bool {
    forall|j: int, k: int|
        0 <= j < k < pending.len() ==> (#[trigger] pending[j]).0 != (#[trigger] pending[k]).0
}

proof fn held_at<T>(pending: Seq<(usize, T)>, k: int)
    requires
        rows_distinct(pending),
        0 <= k < pending.len(),
    ensures
        held(pending).contains_key(pending[k].0 as int),
        held(pending)[pending[k].0 as int] == pending[k].1,
{
    let r = pending[k].0 as int;
    assert(waits_at(pending, r, k));
    let c = choose|c: int| waits_at(pending, r, c);
    assert(waits_at(pending, r, c));
    if c < k {
        assert(pending[c].0 != pending[k].0);
    } else if k < c {
        assert(pending[k].0 != pending[c].0);
    }
}

impl<T> OrderedQueue<T> {
    /// The rows that wait.
    pub open spec fn held(self) -> Map<int, T> {
        held(self.pending@)
    }

    /// No row waits twice.
    pub open spec fn is_valid(self) -> bool {
        rows_distinct(self.pending@)
    }

    /// A queue that starts with row nought.
    pub fn new() -> (q: Self)
        ensures
            q.is_valid(),
            q.next == 0,
            q.held() == Map::<int, T>::empty(),
    {
        let pending: Vec<(usize, T)> = Vec::new();
        let q = OrderedQueue { next: 0, pending };
        proof {
            assert forall|r: int| !q.held().contains_key(r) by {
                assert(!waits(q.pending@, r));
            }
            assert(q.held() =~= Map::<int, T>::empty());
        }
        q
    }

    fn place_of(&self, row: usize) -> (r: Option<usize>)
        ensures
            match r {
                Some(k) => waits_at(self.pending@, row as int, k as int),
                None => !waits(self.pending@, row as int),
            },
    {
        let mut k: usize = 0;
        while k < self.pending.len()
            invariant
                k <= self.pending@.len(),
                forall|m: int| 0 <= m < k ==> (#[trigger] self.pending@[m]).0 != row,
            decreases self.pending@.len() - k,
        {
            if self.pending[k].0 == row {
                return Some(k);
            }
            k += 1;
        }
        proof {
            assert forall|m: int| !waits_at(self.pending@, row as int, m) by {
                if 0 <= m < self.pending@.len() {
                    assert(self.pending@[m].0 != row);
                }
            }
        }
        None
    }

    /// Takes in a rendered row. What waited under the same row gives way.
    pub fn insert(&mut self, row: usize, item: T)
        requires
            old(self).is_valid(),
        ensures
            final(self).is_valid(),
            final(self).next == old(self).next,
            final(self).held() == old(self).held().insert(row as int, item),
    {
        let ghost before = self.pending@;
        match self.place_of(row) {
            Some(k) => {
                let _replaced = self.pending.remove(k);
            },
            None => {},
        }
        let ghost rest = self.pending@;
        proof {
            assert(rows_distinct(rest));
            assert(!waits(rest, row as int)) by {
                assert forall|m: int| !waits_at(rest, row as int, m) by {
                    if 0 <= m < rest.len() && rest[m].0 == row {
                        if waits(before, row as int) {
                            let k = choose|k: int|
                                waits_at(before, row as int, k) && rest == before.remove(k);
                            if m < k {
                                assert(before[m].0 == before[k].0);
                            } else {
                                assert(before[k].0 == before[m + 1].0);
                            }
                        } else {
                            assert(waits_at(before, row as int, m));
                        }
                    }
                }
            }
        }
        self.pending.push((row, item));
        proof {
            let now = self.pending@;
            assert(now == rest.push((row, item)));
            assert forall|m: int| 0 <= m < rest.len() implies (#[trigger] rest[m]).0 != row by {
                assert(!waits_at(rest, row as int, m));
            }
            assert(rows_distinct(now));
            assert(held(now) =~= held(before).insert(row as int, item)) by {
                held_at(now, rest.len() as int);
                assert forall|r: int| #[trigger]
                    held(now).contains_key(r) == held(before).insert(row as int, item).contains_key(
                        r,
                    ) by {
                    if r != row {
                        held_moves(before, rest, now, row, item, r);
                    }
                }
                assert forall|r: int| #[trigger]
                    held(now).contains_key(r) implies held(now)[r] == held(before).insert(
                    row as int,
                    item,
                )[r] by {
                    if r != row {
                        held_moves(before, rest, now, row, item, r);
                    }
                }
            }
        }
    }

    /// Hands out the row whose turn it is, if it waits.
    pub fn pop_next(&mut self) -> (r: Option<(usize, T)>)
        requires
            old(self).is_valid(),
            old(self).next < usize::MAX,
        ensures
            final(self).is_valid(),
            match r {
                Some((row, item)) => {
                    &&& old(self).held().contains_key(old(self).next as int)
                    &&& row == old(self).next
                    &&& item == old(self).held()[row as int]
                    &&& final(self).next == old(self).next + 1
                    &&& final(self).held() == old(self).held().remove(row as int)
                },
                None => {
                    &&& !old(self).held().contains_key(old(self).next as int)
                    &&& final(self).next == old(self).next
                    &&& final(self).held() == old(self).held()
                },
            },
    {
        let row: usize = self.next;
        match self.place_of(row) {
            Some(k) => {
                let ghost before = self.pending@;
                let entry = self.pending.remove(k);
                self.next = row + 1;
                proof {
                    let rest = self.pending@;
                    held_at(before, k as int);
                    assert(rows_distinct(rest));
                    assert(held(rest) =~= held(before).remove(row as int)) by {
                        assert forall|r: int| #[trigger]
                            held(rest).contains_key(r) == held(before).remove(
                                row as int,
                            ).contains_key(r) && (held(rest).contains_key(r) ==> held(rest)[r]
                            == held(before).remove(row as int)[r]) by {
                            held_without(before, k as int, rest, r);
                        }
                    }
                }
                Some((row, entry.1))
            },
            None => None,
        }
    }
}

proof fn held_without<T>(before: Seq<(usize, T)>, k: int, rest: Seq<(usize, T)>, r: int)
    requires
        rows_distinct(before),
        0 <= k < before.len(),
        rest == before.remove(k),
    ensures
        rows_distinct(rest),
        held(rest).contains_key(r) <==> held(before).contains_key(r) && r != before[k].0,
        held(rest).contains_key(r) ==> held(rest)[r] == held(before)[r],
{
    assert(rows_distinct(rest));
    if waits(rest, r) {
        let m = choose|m: int| waits_at(rest, r, m);
        held_at(rest, m);
        if m < k {
            assert(before[m] == rest[m]);
            held_at(before, m);
            assert(before[m].0 != before[k].0);
        } else {
            assert(before[m + 1] == rest[m]);
            held_at(before, m + 1);
            assert(before[k].0 != before[m + 1].0);
        }
    }
    if waits(before, r) && r != before[k].0 {
        let m = choose|m: int| waits_at(before, r, m);
        if m < k {
            assert(waits_at(rest, r, m));
        } else {
            assert(waits_at(rest, r, m - 1));
        }
    }
}

proof fn held_moves<T>(
    before: Seq<(usize, T)>,
    rest: Seq<(usize, T)>,
    now: Seq<(usize, T)>,
    row: usize,
    item: T,
    r: int,
)
    requires
        rows_distinct(before),
        rest == before || (exists|k: int|
            waits_at(before, row as int, k) && rest == before.remove(k)),
        now == rest.push((row, item)),
        rows_distinct(now),
        r != row,
    ensures
        held(now).contains_key(r) == held(before).contains_key(r),
        held(now).contains_key(r) ==> held(now)[r] == held(before)[r],
{
    if rest != before {
        let k = choose|k: int| waits_at(before, row as int, k) && rest == before.remove(k);
        held_without(before, k, rest, r);
    }
    assert(rows_distinct(rest)) by {
        assert forall|i: int, j: int| 0 <= i < j < rest.len() implies (#[trigger] rest[i]).0 != (
        #[trigger] rest[j]).0 by {
            assert(now[i].0 != now[j].0);
        }
    }
    if waits(now, r) {
        let m = choose|m: int| waits_at(now, r, m);
        assert(rest[m] == now[m]);
        held_at(now, m);
        held_at(rest, m);
    }
    if waits(rest, r) {
        let m = choose|m: int| waits_at(rest, r, m);
        assert(waits_at(now, r, m));
    }
}

// ---------------------------------------------------------------------------------------------
// A whole batch
// ---------------------------------------------------------------------------------------------
/// How a batch ends early.
pub enum BatchError<E> {
    /// A row failed.
    Failed(E),
    /// The renderers stopped before every row had arrived.
    Closed,
}

/// No two messages speak of one row, and every row is one of the batch.
pub open spec fn messages_valid<T, E>(msgs: Seq<(usize, Result<T, E>)>, total: int) -> bool {
    &&& forall|i: int| 0 <= i < msgs.len() ==> (#[trigger] msgs[i]).0 < total
    &&& forall|i: int, j: int|
        0 <= i < j < msgs.len() ==> (#[trigger] msgs[i]).0 != (#[trigger] msgs[j]).0
}

/// The first message that reports a failure.
pub open spec fn is_first_failure<T, E>(msgs: Seq<(usize, Result<T, E>)>, i: int) -> bool {
    &&& 0 <= i < msgs.len()
    &&& msgs[i].1 is Err
    &&& forall|k: int| 0 <= k < i ==> (#[trigger] msgs[k]).1 is Ok
}

/// One of the first `n` messages speaks of row `r`.
pub open spec fn row_seen<T, E>(msgs: Seq<(usize, Result<T, E>)>, n: int, r: int) -> bool {
    exists|i: int| 0 <= i < n && (#[trigger] msgs[i]).0 == r
}

/// What has been written and what waits, after the first `n` messages.
spec fn accounts<T, E>(
    msgs: Seq<(usize, Result<T, E>)>,
    n: int,
    out: Seq<T>,
    next: int,
    waiting: Map<int, T>,
) -> bool {
    &&& out.len() == next
    &&& forall|i: int|
        0 <= i < n && (#[trigger] msgs[i]).0 < next ==> out[msgs[i].0 as int] == msgs[i].1->Ok_0
    &&& forall|i: int|
        0 <= i < n && (#[trigger] msgs[i]).0 >= next ==> waiting.contains_key(msgs[i].0 as int)
            && waiting[msgs[i].0 as int] == msgs[i].1->Ok_0
    &&& forall|r: int| #[trigger] waiting.contains_key(r) ==> next <= r && row_seen(msgs, n, r)
    &&& forall|r: int| 0 <= r < next ==> #[trigger] row_seen(msgs, n, r)
}

/// As many different rows as the batch has are all its rows, and more there cannot be.
proof fn rows_fill_batch<T, E>(msgs: Seq<(usize, Result<T, E>)>, total: nat)
    requires
        messages_valid(msgs, total as int),
    ensures
        msgs.len() <= total,
        msgs.len() == total ==> forall|r: int|
            0 <= r < total ==> #[trigger] row_seen(msgs, msgs.len() as int, r),
{
    let rows = Seq::new(msgs.len(), |i: int| msgs[i].0 as int);
    assert(rows.no_duplicates()) by {
        assert forall|i: int, j: int|
            0 <= i < rows.len() && 0 <= j < rows.len() && i != j implies rows[i] != rows[j] by {
            if i < j {
                assert(msgs[i].0 != msgs[j].0);
            } else {
                assert(msgs[j].0 != msgs[i].0);
            }
        }
    }
    rows.unique_seq_to_set();
    let range = set_int_range(0, total as int);
    lemma_int_range(0, total as int);
    assert(rows.to_set().subset_of(range)) by {
        assert forall|r: int| rows.to_set().contains(r) implies range.contains(r) by {
            let i = choose|i: int| 0 <= i < rows.len() && rows[i] == r;
            assert(msgs[i].0 < total);
        }
    }
    lemma_len_subset(rows.to_set(), range);
    if msgs.len() == total {
        assert forall|r: int| 0 <= r < total implies #[trigger] row_seen(
            msgs,
            msgs.len() as int,
            r,
        ) by {
            if !row_seen(msgs, msgs.len() as int, r) {
                assert(rows.to_set().subset_of(range.remove(r))) by {
                    assert forall|x: int| rows.to_set().contains(x) implies range.remove(
                        r,
                    ).contains(x) by {
                        let i = choose|i: int| 0 <= i < rows.len() && rows[i] == x;
                        assert(msgs[i].0 == x);
                    }
                }
                lemma_len_subset(rows.to_set(), range.remove(r));
            }
        }
    }
}

/// Every row of a batch arrived, and each stands in its place.
pub open spec fn is_reassembled<T, E>(
    msgs: Seq<(usize, Result<T, E>)>,
    total: int,
    rows: Seq<T>,
) -> bool {
    &&& msgs.len() == total
    &&& rows.len() == total
    &&& forall|i: int|
        0 <= i < total ==> (#[trigger] msgs[i]).1 is Ok && rows[msgs[i].0 as int]
            == msgs[i].1->Ok_0
}

/// The messages of a batch are among those of another.
pub open spec fn are_among<T, E>(
    a: Seq<(usize, Result<T, E>)>,
    b: Seq<(usize, Result<T, E>)>,
) -> bool {
    forall|i: int| 0 <= i < a.len() ==> b.contains(#[trigger] a[i])
}

/// The order in which rows arrive makes no difference: however the work is spread over threads,
/// the batch comes out the same.
pub proof fn arrival_order_is_immaterial<T, E>(
    a: Seq<(usize, Result<T, E>)>,
    b: Seq<(usize, Result<T, E>)>,
    total: nat,
    rows_a: Seq<T>,
    rows_b: Seq<T>,
)
    requires
        messages_valid(a, total as int),
        messages_valid(b, total as int),
        are_among(a, b),
        is_reassembled(a, total as int, rows_a),
        is_reassembled(b, total as int, rows_b),
    ensures
        rows_a == rows_b,
{
    rows_fill_batch(a, total);
    assert forall|r: int| 0 <= r < total implies rows_a[r] == rows_b[r] by {
        assert(row_seen(a, a.len() as int, r));
        let i = choose|i: int| 0 <= i < a.len() && (#[trigger] a[i]).0 == r;
        assert(b.contains(a[i]));
        let j = choose|j: int| 0 <= j < b.len() && b[j] == a[i];
        assert(b[j].1 is Ok);
        assert(rows_b[b[j].0 as int] == b[j].1->Ok_0);
    }
    assert(rows_a =~= rows_b);
}

/// Writes a batch: takes the messages of the renderers in the order in which they arrive, and
/// hands out the rows in theirs. The first failure ends the batch.
pub fn reassemble<T, E>(total: usize, messages: Vec<(usize, Result<T, E>)>) -> (r: Result<
    Vec<T>,
    BatchError<E>,
>)
    requires
        messages_valid(messages@, total as int),
    ensures
        match r {
            Ok(v) => is_reassembled(messages@, total as int, v@),
            Err(BatchError::Failed(e)) => exists|i: int| #[trigger]
                is_first_failure(messages@, i) && messages@[i].1 == Err::<T, E>(e),
            Err(BatchError::Closed) => {
                &&& messages@.len() < total
                &&& forall|i: int| 0 <= i < messages@.len() ==> (#[trigger] messages@[i]).1 is Ok
            },
        },
{
    let ghost msgs = messages@;
    let mut rest = messages;
    let mut queue: OrderedQueue<T> = OrderedQueue::new();
    let mut out: Vec<T> = Vec::new();
    let ghost mut n: int = 0;
    proof {
        assert(msgs.skip(0) =~= msgs);
    }
    while rest.len() > 0
        invariant
            0 <= n <= msgs.len(),
            msgs == messages@,
            messages_valid(msgs, total as int),
            rest@ == msgs.skip(n),
            queue.is_valid(),
            queue.next <= total,
            !queue.held().contains_key(queue.next as int),
            accounts(msgs, n, out@, queue.next as int, queue.held()),
            forall|i: int| 0 <= i < n ==> (#[trigger] msgs[i]).1 is Ok,
        decreases rest@.len(),
    {
        let (row, result) = rest.remove(0);
        proof {
            assert(msgs.skip(n).remove(0) =~= msgs.skip(n + 1));
            assert(msgs[n] == (row, result));
        }
        match result {
            Err(e) => {
                proof {
                    assert(is_first_failure(msgs, n) && msgs[n].1 == Err::<T, E>(e));
                }
                return Err(BatchError::Failed(e));
            },
            Ok(item) => {
                let ghost before = queue.held();
                proof {
                    assert(msgs[n].0 < total);
                    if row < queue.next {
                        assert(row_seen(msgs, n, row as int));
                        let i = choose|i: int| 0 <= i < n && (#[trigger] msgs[i]).0 == row;
                        assert(msgs[i].0 != msgs[n].0);
                    }
                }
                queue.insert(row, item);
                proof {
                    assert forall|r: int| #[trigger] queue.held().contains_key(r) implies queue.next
                        <= r && row_seen(msgs, n + 1, r) by {
                        if r == row {
                            assert(msgs[n].0 == r);
                        } else {
                            assert(before.contains_key(r));
                            let i = choose|i: int| 0 <= i < n && (#[trigger] msgs[i]).0 == r;
                            assert(msgs[i].0 == r);
                        }
                    }
                    assert forall|r: int| 0 <= r < queue.next implies #[trigger] row_seen(
                        msgs,
                        n + 1,
                        r,
                    ) by {
                        assert(row_seen(msgs, n, r));
                        let i = choose|i: int| 0 <= i < n && (#[trigger] msgs[i]).0 == r;
                        assert(msgs[i].0 == r);
                    }
                    assert forall|i: int|
                        0 <= i < n + 1 && (#[trigger] msgs[i]).0 >= queue.next implies
                        queue.held().contains_key(msgs[i].0 as int) && queue.held()[msgs[i].0 as int]
                        == msgs[i].1->Ok_0 by {
                        if i < n {
                            assert(msgs[i].0 != msgs[n].0);
                        }
                    }
                    n = n + 1;
                }
                drain::<T, E>(&mut queue, &mut out, total, Ghost(msgs), Ghost(n));
            },
        }
    }
    proof {
        assert(n == msgs.len());
        rows_fill_batch(msgs, total as nat);
        if queue.next < total && msgs.len() == total {
            assert(row_seen(msgs, n, queue.next as int));
            let i = choose|i: int| 0 <= i < n && (#[trigger] msgs[i]).0 == queue.next;
            assert(queue.held().contains_key(msgs[i].0 as int));
        }
        if queue.next == total {
            all_rows_seen(msgs, total as nat);
        }
    }
    if queue.next < total {
        Err(BatchError::Closed)
    } else {
        Ok(out)
    }
}

/// A batch of which every row was spoken of has as many messages as rows.
proof fn all_rows_seen<T, E>(msgs: Seq<(usize, Result<T, E>)>, total: nat)
    requires
        messages_valid(msgs, total as int),
        forall|r: int| 0 <= r < total ==> #[trigger] row_seen(msgs, msgs.len() as int, r),
    ensures
        msgs.len() == total,
{
    rows_fill_batch(msgs, total);
    let rows = Seq::new(msgs.len(), |i: int| msgs[i].0 as int);
    let range = set_int_range(0, total as int);
    lemma_int_range(0, total as int);
    assert(range.subset_of(rows.to_set())) by {
        assert forall|r: int| range.contains(r) implies rows.to_set().contains(r) by {
            assert(row_seen(msgs, msgs.len() as int, r));
            let i = choose|i: int| 0 <= i < msgs.len() && (#[trigger] msgs[i]).0 == r;
            assert(rows[i] == r);
        }
    }
    rows.lemma_cardinality_of_set();
    lemma_len_subset(range, rows.to_set());
}

fn drain<T, E>(
    queue: &mut OrderedQueue<T>,
    out: &mut Vec<T>,
    total: usize,
    Ghost(msgs): Ghost<Seq<(usize, Result<T, E>)>>,
    Ghost(n): Ghost<int>,
)
    requires
        0 <= n <= msgs.len(),
        messages_valid(msgs, total as int),
        old(queue).is_valid(),
        old(queue).next <= total,
        accounts(msgs, n, old(out)@, old(queue).next as int, old(queue).held()),
    ensures
        final(queue).is_valid(),
        final(queue).next <= total,
        !final(queue).held().contains_key(final(queue).next as int),
        accounts(msgs, n, final(out)@, final(queue).next as int, final(queue).held()),
{
    loop
        invariant
            0 <= n <= msgs.len(),
            messages_valid(msgs, total as int),
            queue.is_valid(),
            queue.next <= total,
            accounts(msgs, n, out@, queue.next as int, queue.held()),
        decreases total - queue.next,
    {
        let ghost before = queue.held();
        let ghost next = queue.next as int;
        let ghost written = out@;
        proof {
            if before.contains_key(next) {
                assert(row_seen(msgs, n, next));
                let i = choose|i: int| 0 <= i < n && (#[trigger] msgs[i]).0 == next;
                assert(msgs[i].0 < total);
            }
        }
        if queue.next == total {
            return;
        }
        match queue.pop_next() {
            Some((_row, item)) => {
                out.push(item);
                proof {
                    assert forall|r: int| 0 <= r < queue.next implies #[trigger] row_seen(
                        msgs,
                        n,
                        r,
                    ) by {
                        if r == next {
                            assert(before.contains_key(next));
                        }
                    }
                    assert forall|i: int|
                        0 <= i < n && (#[trigger] msgs[i]).0 < queue.next implies out@[msgs[i].0 as int]
                        == msgs[i].1->Ok_0 by {
                        if msgs[i].0 < next {
                            assert(written[msgs[i].0 as int] == msgs[i].1->Ok_0);
                        } else {
                            assert(before[next] == msgs[i].1->Ok_0);
                        }
                    }
                }
            },
            None => {
                return;
            },
        }
    }
}

// ---------------------------------------------------------------------------------------------
// How much may be under way
// ---------------------------------------------------------------------------------------------
/// How many rendered documents may wait: four per thread, at most 256.
pub fn buffer_cap(parallelism: usize) -> (r: usize)
    ensures
        r == (if 4 * parallelism > 256 {
            256int
        } else {
            4 * parallelism
        }),
{
    if parallelism > 64 {
        256
    } else {
        parallelism * 4
    }
}

/// Whether a rendered document goes to disk: only where there is a store, and when as many wait
/// as may.
pub fn spills(has_store: bool, pending: usize, cap: usize) -> (r: bool)
    ensures
        r == (has_store && pending >= cap),
{
    has_store && pending >= cap
}

/// The rows of a batch that are under way. Rendering starts with a window of rows, and each row
/// that is written lets one more start.
pub struct ReflowWindow {
    pub total: usize,
    pub committed: usize,
    pub scheduled: usize,
    pub cap: usize,
}

/// How many threads render `total` rows.
pub open spec fn worker_limit(threads: int, total: int) -> int {
    let some = if threads < 1 {
        1
    } else {
        threads
    };
    if some < total {
        some
    } else {
        total
    }
}

/// How many rows may be under way with `workers` threads.
pub open spec fn window_size(workers: int) -> int {
    if 4 * workers > 256 {
        256
    } else if workers < 1 {
        1
    } else {
        4 * workers
    }
}

/// The smaller of two numbers.
pub open spec fn least(a: int, b: int) -> int {
    if a < b {
        a
    } else {
        b
    }
}

/// How many threads render `total` rows.
pub fn worker_count(threads: usize, total: usize) -> (r: usize)
    ensures
        r == worker_limit(threads as int, total as int),
{
    let some: usize = if threads < 1 {
        1
    } else {
        threads
    };
    if some < total {
        some
    } else {
        total
    }
}

impl ReflowWindow {
    /// The rows that have started are those that are written and a full window beyond, as far as
    /// there are rows.
    pub open spec fn is_valid(self) -> bool {
        &&& self.committed <= self.total
        &&& 1 <= self.cap <= 256
        &&& self.scheduled == least(self.total as int, self.committed + self.cap)
    }

    /// The window of a batch before anything is written.
    pub fn new(total: usize, workers: usize) -> (w: Self)
        ensures
            w.is_valid(),
            w.total == total,
            w.committed == 0,
            w.cap == window_size(workers as int),
    {
        let cap: usize = if workers > 64 {
            256
        } else if workers < 1 {
            1
        } else {
            workers * 4
        };
        let scheduled: usize = if total < cap {
            total
        } else {
            cap
        };
        ReflowWindow { total, committed: 0, scheduled, cap }
    }

    /// Notes that the next row was written, and says which row may start in its place.
    pub fn commit(&mut self) -> (r: Option<usize>)
        requires
            old(self).is_valid(),
            old(self).committed < old(self).total,
        ensures
            final(self).is_valid(),
            final(self).total == old(self).total,
            final(self).cap == old(self).cap,
            final(self).committed == old(self).committed + 1,
            r == (if old(self).scheduled < old(self).total {
                Some(old(self).scheduled)
            } else {
                None
            }),
    {
        self.committed = self.committed + 1;
        if self.scheduled < self.total {
            let row: usize = self.scheduled;
            self.scheduled = row + 1;
            Some(row)
        } else {
            None
        }
    }

    /// Tells whether every row is written.
    pub fn is_complete(&self) -> (r: bool)
        ensures
            r == (self.committed >= self.total),
    {
        self.committed >= self.total
    }
}

/// Never are more rows under way than the window allows: what waits for its turn, too, stays
/// within it.
pub proof fn window_bounds_waiting<T>(w: ReflowWindow, pending: Seq<(usize, T)>)
    requires
        w.is_valid(),
        rows_distinct(pending),
        forall|k: int|
            0 <= k < pending.len() ==> w.committed <= (#[trigger] pending[k]).0 < w.scheduled,
    ensures
        w.scheduled - w.committed <= w.cap,
        pending.len() <= w.cap,
{
    let rows = Seq::new(pending.len(), |i: int| pending[i].0 as int);
    assert(rows.no_duplicates()) by {
        assert forall|i: int, j: int|
            0 <= i < rows.len() && 0 <= j < rows.len() && i != j implies rows[i] != rows[j] by {
            if i < j {
                assert(pending[i].0 != pending[j].0);
            } else {
                assert(pending[j].0 != pending[i].0);
            }
        }
    }
    rows.unique_seq_to_set();
    let range = set_int_range(w.committed as int, w.scheduled as int);
    lemma_int_range(w.committed as int, w.scheduled as int);
    assert(rows.to_set().subset_of(range)) by {
        assert forall|r: int| rows.to_set().contains(r) implies range.contains(r) by {
            let i = choose|i: int| 0 <= i < rows.len() && rows[i] == r;
            assert(w.committed <= pending[i].0 < w.scheduled);
        }
    }
    lemma_len_subset(rows.to_set(), range);
}

/// What came of waiting for a renderer.
#[derive(Clone, Copy, Debug, PartialEq, Eq, Structural)]
pub enum Wait {
    Message,
    Timeout,
    Disconnected,
}

/// What the writer of a batch does next.
#[derive(Clone, Copy, Debug, PartialEq, Eq, Structural)]
pub enum LinkStep {
    /// Wait again.
    WaitAgain,
    /// Take the message.
    Take,
    /// End: the caller cancelled the batch.
    Cancelled,
    /// End: the renderers are gone.
    ClosedEarly,
}

/// Decides what the writer does after waiting. A cancelled batch ends whatever came, a silent
/// renderer is waited for.
pub fn link_step(cancelled_before: bool, wait: Wait, cancelled_after: bool) -> (r: LinkStep)
    ensures
        cancelled_before ==> r == LinkStep::Cancelled,
        !cancelled_before && wait == Wait::Timeout ==> r == LinkStep::WaitAgain,
        !cancelled_before && wait != Wait::Timeout && cancelled_after ==> r == LinkStep::Cancelled,
        !cancelled_before && !cancelled_after && wait == Wait::Message ==> r == LinkStep::Take,
        !cancelled_before && !cancelled_after && wait == Wait::Disconnected ==> r
            == LinkStep::ClosedEarly,
{
    if cancelled_before {
        return LinkStep::Cancelled;
    }
    match wait {
        Wait::Timeout => LinkStep::WaitAgain,
        Wait::Message => if cancelled_after {
            LinkStep::Cancelled
        } else {
            LinkStep::Take
        },
        Wait::Disconnected => if cancelled_after {
            LinkStep::Cancelled
        } else {
            LinkStep::ClosedEarly
        },
    }
}

// ---------------------------------------------------------------------------------------------
// Writing a batch while it is rendered
// ---------------------------------------------------------------------------------------------
/// The writer of a batch: the rows that are under way, and those that wait for their turn.
pub struct ReflowLink<T> {
    pub window: ReflowWindow,
    pub queue: OrderedQueue<T>,
}

/// A row to be written, and the row that may start once it is.
pub struct LinkWrite<T> {
    pub row: usize,
    pub item: T,
    pub start: Option<usize>,
}

impl<T> ReflowLink<T> {
    /// What waits is under way, and the next row to be written is the first that is not.
    pub open spec fn is_valid(self) -> bool {
        &&& self.window.is_valid()
        &&& self.queue.is_valid()
        &&& self.queue.next == self.window.committed
        &&& forall|r: int| #[trigger]
            self.queue.held().contains_key(r) ==> self.window.committed <= r
                < self.window.scheduled
    }

    /// The writer of a batch before anything is rendered. The rows before `window.scheduled` may
    /// start.
    pub fn new(total: usize, workers: usize) -> (l: Self)
        ensures
            l.is_valid(),
            l.window.total == total,
            l.window.committed == 0,
            l.window.cap == window_size(workers as int),
            l.queue.held() == Map::<int, T>::empty(),
    {
        ReflowLink { window: ReflowWindow::new(total, workers), queue: OrderedQueue::new() }
    }

    /// Takes in a row that was under way and has been rendered.
    pub fn receive(&mut self, row: usize, item: T)
        requires
            old(self).is_valid(),
            old(self).window.committed <= row < old(self).window.scheduled,
        ensures
            final(self).is_valid(),
            final(self).window == old(self).window,
            final(self).queue.held() == old(self).queue.held().insert(row as int, item),
    {
        self.queue.insert(row, item);
    }

    /// Hands out the next row to be written, if it has been rendered.
    pub fn take_next(&mut self) -> (r: Option<LinkWrite<T>>)
        requires
            old(self).is_valid(),
        ensures
            final(self).is_valid(),
            final(self).window.total == old(self).window.total,
            final(self).window.cap == old(self).window.cap,
            match r {
                Some(w) => {
                    &&& w.row == old(self).window.committed
                    &&& old(self).queue.held().contains_key(w.row as int)
                    &&& w.item == old(self).queue.held()[w.row as int]
                    &&& w.start == (if old(self).window.scheduled < old(self).window.total {
                        Some(old(self).window.scheduled)
                    } else {
                        None
                    })
                    &&& final(self).window.committed == old(self).window.committed + 1
                    &&& final(self).queue.held() == old(self).queue.held().remove(w.row as int)
                },
                None => {
                    &&& !old(self).queue.held().contains_key(old(self).window.committed as int)
                    &&& final(self).window == old(self).window
                    &&& final(self).queue.held() == old(self).queue.held()
                },
            },
    {
        if self.window.committed >= self.window.total {
            proof {
                assert(!self.queue.held().contains_key(self.window.committed as int));
            }
            return None;
        }
        let ghost before = self.queue.held();
        match self.queue.pop_next() {
            Some((row, item)) => {
                let start = self.window.commit();
                proof {
                    assert forall|r: int| #[trigger] self.queue.held().contains_key(r) implies
                        self.window.committed <= r < self.window.scheduled by {
                        assert(before.contains_key(r));
                    }
                }
                Some(LinkWrite { row, item, start })
            },
            None => None,
        }
    }
}

/// A batch cannot stall: until every row is written, a row is under way that can be written next.
pub proof fn some_row_is_under_way<T>(l: ReflowLink<T>)
    requires
        l.is_valid(),
        l.window.committed < l.window.total,
    ensures
        l.window.committed < l.window.scheduled,
{
}

/// Once everything under way has been rendered, the next row can be written.
pub proof fn rendered_window_can_be_written<T>(l: ReflowLink<T>)
    requires
        l.is_valid(),
        l.window.committed < l.window.total,
        forall|r: int|
            l.window.committed <= r < l.window.scheduled ==> #[trigger]
                l.queue.held().contains_key(r),
    ensures
        l.queue.held().contains_key(l.queue.next as int),
{
    some_row_is_under_way(l);
    assert(l.queue.held().contains_key(l.window.committed as int));
}

/// How a batch ends: a batch that was called off gives nothing, whatever else went wrong.
pub fn batch_outcome<E>(cancelled: bool, error: Option<E>) -> (r: Result<(), Option<E>>)
    ensures
        cancelled ==> r == Err::<(), Option<E>>(None),
        !cancelled ==> match error {
            Some(e) => r == Err::<(), Option<E>>(Some(e)),
            None => r == Ok::<(), Option<E>>(()),
        },
{
    if cancelled {
        Err(None)
    } else {
        match error {
            Some(e) => Err(Some(e)),
            None => Ok(()),
        }
    }
}

/// There is never a thread without a row, nor a row without a thread, and never more threads than
/// there are. Four rows per thread are under way at most, and no more than 256.
pub proof fn workers_suit_their_rows(threads: int, total: int)
    requires
        0 <= total,
    ensures
        ({
            let w = worker_limit(threads, total);
            let rows = window_size(w);
            &&& w <= total
            &&& total > 0 ==> w >= 1
            &&& threads >= 1 ==> w <= threads
            &&& threads >= 1 && w < threads ==> w == total
            &&& 1 <= rows <= 256
            &&& 1 <= w <= 64 ==> rows == 4 * w
            &&& w > 64 ==> rows == 256
        }),
{
}

} // verus!
