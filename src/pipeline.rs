use vstd::prelude::*;
use vstd::arithmetic::div_mod::{lemma_fundamental_div_mod, lemma_fundamental_div_mod_converse};

verus! {

/// The largest number of identifiers that one playlist mutation may carry.
pub const MAX_BATCH: usize = 75;

/// The identifiers kept from the searches, in track order: the top hit of each
/// search that found one; a search that failed or found nothing adds none.
pub open spec fn matched(tops: Seq<Option<String>>) -> Seq<String>
    decreases tops.len(),
{
    if tops.len() == 0 {
        seq![]
    } else {
        let prev = matched(tops.drop_last());
        match tops.last() {
            Option::Some(id) => prev.push(id),
            Option::None => prev,
        }
    }
}

/// The positions in `tops` whose identifiers `matched` keeps, in order.
pub open spec fn matched_positions(tops: Seq<Option<String>>) -> Seq<int>
    decreases tops.len(),
{
    if tops.len() == 0 {
        seq![]
    } else {
        let prev = matched_positions(tops.drop_last());
        match tops.last() {
            Option::Some(_) => prev.push(tops.len() - 1),
            Option::None => prev,
        }
    }
}

/// Number of batches of at most `b` items that `n` items make: `ceil(n / b)`.
pub open spec fn batch_count(n: nat, b: nat) -> nat
    recommends
        b > 0,
{
    ((n + b - 1) / b as int) as nat
}

/// One past the last index of batch `i` over `n` items.
pub open spec fn batch_end(n: int, b: int, i: int) -> int {
    if (i + 1) * b < n {
        (i + 1) * b
    } else {
        n
    }
}

/// `ids` cut left to right into consecutive batches of at most `b` items:
/// batch `i` covers the indices `[i * b, min((i + 1) * b, n))`.
pub open spec fn split_batches<A>(ids: Seq<A>, b: nat) -> Seq<Seq<A>> {
    Seq::new(
        batch_count(ids.len(), b),
        |i: int| ids.subrange(i * b, batch_end(ids.len() as int, b as int, i)),
    )
}

/// Keeps, in order, the identifier of each search that found a track.
/// `tops[i]` is the top hit of the search for the `i`-th track, or `None`
/// where that search failed or came back empty.
pub fn collect_ids(tops: &Vec<Option<String>>) -> (r: Vec<String>)
    ensures
        r@ == matched(tops@),
{
    let mut ids: Vec<String> = Vec::new();
    let mut i: usize = 0;
    while i < tops.len()
        invariant
            i <= tops.len(),
            ids@ == matched(tops@.subrange(0, i as int)),
        decreases tops.len() - i,
    {
        assert(tops@.subrange(0, i + 1).drop_last() == tops@.subrange(0, i as int));
        match &tops[i] {
            Option::Some(id) => {
                ids.push(id.clone());
            },
            Option::None => {},
        }
        i = i + 1;
    }
    assert(tops@.subrange(0, tops.len() as int) == tops@);
    ids
}

/// `k` batches of `b` reach `n` items, and `k - 1` do not: so `k` is
/// `ceil(n / b)`.
proof fn lemma_batch_count(n: nat, b: nat, k: nat)
    requires
        b > 0,
        k * b >= n,
        k == 0 || (k - 1) * b < n,
    ensures
        batch_count(n, b) == k,
{
    if k == 0 {
        assert(n == 0) by (nonlinear_arith)
            requires k * b >= n, k == 0;
        lemma_fundamental_div_mod_converse(n + b - 1, b as int, 0, b - 1);
    } else {
        let r = n + b - 1 - k * b;
        assert(0 <= r < b) by (nonlinear_arith)
            requires k * b >= n, (k - 1) * b < n, r == n + b - 1 - k * b, k > 0;
        lemma_fundamental_div_mod_converse(n + b - 1, b as int, k as int, r);
    }
}

/// Cuts `ids` into consecutive batches of at most `size` identifiers, in
/// order, the last one possibly shorter.
pub fn batches(ids: &Vec<String>, size: usize) -> (r: Vec<Vec<String>>)
    requires
        size > 0,
    ensures
        r@.map_values(|v: Vec<String>| v@) == split_batches(ids@, size as nat),
{
    let n = ids.len();
    let mut out: Vec<Vec<String>> = Vec::new();
    let mut start: usize = 0;
    let mut k: usize = 0;
    while start < n
        invariant
            n == ids.len(),
            size > 0,
            start <= n,
            k <= start,
            out@.len() == k,
            start == batch_end(n as int, size as int, k - 1) || k == 0,
            k == 0 ==> start == 0,
            start < n ==> start == k * size,
            k > 0 ==> (k - 1) * size < n,
            forall|i: int|
                0 <= i < k ==> #[trigger] out@[i]@ == ids@.subrange(
                    i * size,
                    batch_end(n as int, size as int, i),
                ),
        decreases n - start,
    {
        assert((k + 1) * size == k * size + size) by (nonlinear_arith);
        let end: usize = if n - start > size {
            start + size
        } else {
            n
        };
        assert(end == batch_end(n as int, size as int, k as int));
        let mut chunk: Vec<String> = Vec::new();
        let mut j: usize = start;
        while j < end
            invariant
                start <= j <= end <= n,
                n == ids.len(),
                chunk@ == ids@.subrange(start as int, j as int),
            decreases end - j,
        {
            chunk.push(ids[j].clone());
            j = j + 1;
            assert(chunk@ == ids@.subrange(start as int, j as int));
        }
        out.push(chunk);
        start = end;
        k = k + 1;
        assert(((k - 1) as int) * (size as int) < n);
    }
    proof {
        assert(k * size >= n) by (nonlinear_arith)
            requires
                start == n,
                k == 0 ==> start == 0,
                k > 0 ==> start == batch_end(n as int, size as int, k - 1),
                start == batch_end(n as int, size as int, k - 1) || k == 0,
                batch_end(n as int, size as int, k - 1) <= (k - 1 + 1) * size
                    || k == 0,
        {
        }
        lemma_batch_count(n as nat, size as nat, k as nat);
        assert(out@.map_values(|v: Vec<String>| v@) =~= split_batches(ids@, size as nat));
    }
    out
}

/// Order is kept: the identifiers kept are the hits of the tracks that
/// matched, at strictly increasing track positions, so they form a
/// subsequence of the input order; every track that matched has its hit
/// there, and unmatched tracks are simply absent.
pub proof fn lemma_matched_in_order(tops: Seq<Option<String>>)
    ensures
        matched_positions(tops).len() == matched(tops).len(),
        matched(tops).len() <= tops.len(),
        forall|j: int|
            0 <= j < matched(tops).len() ==> 0 <= #[trigger] matched_positions(tops)[j] < tops.len()
                && tops[matched_positions(tops)[j]] == Option::Some(matched(tops)[j]),
        forall|j: int, k: int|
            0 <= j < k < matched(tops).len() ==> #[trigger] matched_positions(tops)[j]
                < #[trigger] matched_positions(tops)[k],
        forall|i: int|
            0 <= i < tops.len() && tops[i] is Some ==> #[trigger] matched_positions(
                tops,
            ).contains(i),
    decreases tops.len(),
{
    if tops.len() > 0 {
        let prev = tops.drop_last();
        lemma_matched_in_order(prev);
        let p = matched_positions(tops);
        let pp = matched_positions(prev);
        assert forall|i: int| 0 <= i < tops.len() && tops[i] is Some implies p.contains(i) by {
            if i < tops.len() - 1 {
                assert(prev[i] == tops[i]);
                assert(pp.contains(i));
                let w = choose|w: int| 0 <= w < pp.len() && pp[w] == i;
                assert(p[w] == i);
            } else {
                assert(p[p.len() - 1] == i);
            }
        }
    }
}

/// `batch_count(n, b)` batches of `b` reach `n` items, and one fewer do not.
proof fn lemma_batch_count_bounds(n: nat, b: nat)
    requires
        b > 0,
    ensures
        batch_count(n, b) * b >= n,
        batch_count(n, b) == 0 || (batch_count(n, b) - 1) * b < n,
{
    let x = n + b - 1;
    let c = batch_count(n, b);
    lemma_fundamental_div_mod(x as int, b as int);
    let r = x % (b as int);
    assert(0 <= r < b);
    assert(x == b * c + r);
    assert(c * b >= n && (c == 0 || (c - 1) * b < n)) by (nonlinear_arith)
        requires
            x == b * c + r,
            0 <= r < b,
            x == n + b - 1,
            c >= 0,
    {
    }
}

/// The first `k` batches, put back together, are the identifiers up to the
/// end of batch `k - 1`.
proof fn lemma_batches_prefix<A>(ids: Seq<A>, b: nat, k: nat)
    requires
        b > 0,
        k <= batch_count(ids.len(), b),
    ensures
        split_batches(ids, b).take(k as int).flatten() == ids.subrange(
            0,
            if k == 0 {
                0
            } else {
                batch_end(ids.len() as int, b as int, k - 1)
            },
        ),
    decreases k,
{
    let n = ids.len() as int;
    let s = split_batches(ids, b);
    if k == 0 {
        assert(s.take(0) =~= Seq::<Seq<A>>::empty());
        assert(ids.subrange(0, 0) =~= Seq::<A>::empty());
    } else {
        lemma_batches_prefix(ids, b, (k - 1) as nat);
        lemma_batch_count_bounds(ids.len(), b);
        let c = batch_count(ids.len(), b);
        let start = (k - 1) * b;
        assert(start < n) by (nonlinear_arith)
            requires
                k <= c,
                k >= 1,
                (c - 1) * b < n,
                start == (k - 1) * b,
                b > 0,
        {
        }
        if k >= 2 {
            assert((k - 2 + 1) * b == start);
        }
        let end = batch_end(n, b as int, k - 1);
        assert((k - 1 + 1) * b == start + b) by (nonlinear_arith)
            requires
                start == (k - 1) * b,
        {
        }
        assert(start <= end <= n);
        assert(s.take(k as int) =~= s.take(k - 1).push(s[k - 1]));
        s.take(k - 1).lemma_flatten_push(s[k - 1]);
        assert(ids.subrange(0, start) + ids.subrange(start, end) =~= ids.subrange(0, end));
    }
}

/// Batching is a partition: the batches, in order, put back together give
/// the identifiers exactly, so they do not overlap and cover each one once;
/// none is empty or longer than `b`, and there are `ceil(n / b)` of them.
pub proof fn lemma_batches_partition<A>(ids: Seq<A>, b: nat)
    requires
        b > 0,
    ensures
        split_batches(ids, b).len() == batch_count(ids.len(), b),
        batch_count(ids.len(), b) == (ids.len() + b - 1) / (b as int),
        split_batches(ids, b).flatten() == ids,
        forall|i: int|
            0 <= i < split_batches(ids, b).len() ==> 0 < #[trigger] split_batches(
                ids,
                b,
            )[i].len() <= b,
{
    let s = split_batches(ids, b);
    let c = batch_count(ids.len(), b);
    let n = ids.len() as int;
    lemma_batch_count_bounds(ids.len(), b);
    lemma_batches_prefix(ids, b, c);
    assert(s.take(c as int) =~= s);
    if c > 0 {
        assert(c * b >= n);
        assert((c - 1 + 1) * b == c * b);
    } else {
        assert(n == 0) by (nonlinear_arith)
            requires
                c * b >= n,
                c == 0,
                n >= 0,
        {
        }
    }
    assert(s.flatten() =~= ids);
    assert forall|i: int| 0 <= i < s.len() implies 0 < #[trigger] s[i].len() <= b by {
        assert(i * b < n && (i + 1) * b == i * b + b) by (nonlinear_arith)
            requires
                0 <= i < c,
                (c - 1) * b < n,
                b > 0,
        {
        }
    }
}

/// When no search finds a track, no identifier is kept and no batch is sent.
pub proof fn lemma_no_match(tops: Seq<Option<String>>, b: nat)
    requires
        b > 0,
        forall|i: int| 0 <= i < tops.len() ==> #[trigger] tops[i] is None,
    ensures
        matched(tops) == Seq::<String>::empty(),
        split_batches(matched(tops), b).len() == 0,
    decreases tops.len(),
{
    if tops.len() > 0 {
        let prev = tops.drop_last();
        assert forall|i: int| 0 <= i < prev.len() implies #[trigger] prev[i] is None by {
            assert(prev[i] == tops[i]);
        }
        lemma_no_match(prev, b);
        assert(tops.last() is None);
    }
    lemma_fundamental_div_mod_converse(b - 1, b as int, 0, b - 1);
}

/// Progress of handing the batches to the playlist service, strictly one after
/// another: `next` is the batch to send now, `failed` counts the calls that
/// the service refused.
pub struct Submission {
    pub next: usize,
    pub total: usize,
    pub failed: usize,
}

impl Submission {
    pub open spec fn wf(&self) -> bool {
        self.failed <= self.next <= self.total
    }

    /// Nothing sent yet out of `total` batches.
    pub fn start(total: usize) -> (r: Submission)
        ensures
            r.wf(),
            r.next == 0,
            r.total == total,
            r.failed == 0,
    {
        Submission { next: 0, total, failed: 0 }
    }

    /// The index of the batch to send now, or `None` when all were sent.
    pub fn pending(&self) -> (r: Option<usize>)
        requires
            self.wf(),
        ensures
            r == (if self.next < self.total {
                Option::Some(self.next)
            } else {
                Option::None
            }),
    {
        if self.next < self.total {
            Option::Some(self.next)
        } else {
            Option::None
        }
    }

    /// Records the outcome of the batch just sent. A refused batch is counted
    /// and the next batch is due all the same: no retry, no stop.
    pub fn record(&mut self, succeeded: bool)
        requires
            old(self).wf(),
            old(self).next < old(self).total,
        ensures
            final(self).wf(),
            final(self).next == old(self).next + 1,
            final(self).total == old(self).total,
            final(self).failed == old(self).failed + (if succeeded {
                0int
            } else {
                1int
            }),
    {
        if !succeeded {
            self.failed = self.failed + 1;
        }
        self.next = self.next + 1;
    }

    /// Number of batches that the service accepted.
    pub fn accepted(&self) -> (r: usize)
        requires
            self.wf(),
        ensures
            r == self.next - self.failed,
    {
        self.next - self.failed
    }
}

} // verus!
