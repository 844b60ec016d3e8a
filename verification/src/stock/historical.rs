//! Historical bars and their ordering by date.

use vstd::prelude::*;
use vstd::seq_lib::{
    lemma_multiset_commutative, to_multiset_contains, to_multiset_len, to_multiset_remove,
    to_multiset_update,
};
use crate::error::TaError;
use crate::stock::datetime::{
    lemma_ordinal_orders, precedes, timestamp_fields, DateTime, Fields,
};
use crate::stock::price::Price;

verus! {

/// What one bar holds: when it was observed, the four prices and the
/// traded volume.
pub struct Bar {
    pub date: Fields,
    pub open: Price,
    pub high: Price,
    pub low: Price,
    pub close: Price,
    pub volume: u32,
}

/// One observation of open, high, low and close prices and of volume.
#[derive(Clone, Copy, Debug)]
pub struct HistoricalData {
    date: DateTime,
    open: Price,
    high: Price,
    low: Price,
    close: Price,
    volume: u32,
}

impl View for HistoricalData {
    type V = Bar;

    closed spec fn view(&self) -> Bar {
        Bar {
            date: self.date@,
            open: self.open,
            high: self.high,
            low: self.low,
            close: self.close,
            volume: self.volume,
        }
    }
}

impl HistoricalData {
    /// A bar observed at the time that `date` spells out. Refused where
    /// `date` is no timestamp.
    pub fn new(date: &str, open: Price, high: Price, low: Price, close: Price, volume: u32) -> (r:
        Result<HistoricalData, TaError>)
        ensures
            match r {
                Ok(d) => timestamp_fields(date@) is Some && d@ == (Bar {
                    date: timestamp_fields(date@)->0,
                    open,
                    high,
                    low,
                    close,
                    volume,
                }),
                Err(e) => e == TaError::MalformedTimestamp && timestamp_fields(date@) is None,
            },
    {
        match DateTime::new(date) {
            Ok(date) => Ok(HistoricalData { date, open, high, low, close, volume }),
            Err(e) => Err(e),
        }
    }

    pub fn get_date(&self) -> (r: &DateTime)
        ensures
            r@ == self@.date,
    {
        &self.date
    }

    /// Moves the bar to the time that `date` spells out. Where `date` is no
    /// timestamp the bar stays as it is.
    pub fn set_date(&mut self, date: &str) -> (r: Result<(), TaError>)
        ensures
            match r {
                Ok(_) => timestamp_fields(date@) is Some && final(self)@ == (Bar {
                    date: timestamp_fields(date@)->0,
                    ..old(self)@
                }),
                Err(e) => e == TaError::MalformedTimestamp && timestamp_fields(date@) is None
                    && *final(self) == *old(self),
            },
    {
        match DateTime::new(date) {
            Ok(date) => {
                self.date = date;
                Ok(())
            },
            Err(e) => Err(e),
        }
    }

    pub fn get_open(&self) -> (r: Price)
        ensures
            r == self@.open,
    {
        self.open
    }

    pub fn set_open(&mut self, open: Price)
        ensures
            final(self)@ == (Bar { open, ..old(self)@ }),
    {
        self.open = open;
    }

    pub fn get_high(&self) -> (r: Price)
        ensures
            r == self@.high,
    {
        self.high
    }

    pub fn set_high(&mut self, high: Price)
        ensures
            final(self)@ == (Bar { high, ..old(self)@ }),
    {
        self.high = high;
    }

    pub fn get_low(&self) -> (r: Price)
        ensures
            r == self@.low,
    {
        self.low
    }

    pub fn set_low(&mut self, low: Price)
        ensures
            final(self)@ == (Bar { low, ..old(self)@ }),
    {
        self.low = low;
    }

    pub fn get_close(&self) -> (r: Price)
        ensures
            r == self@.close,
    {
        self.close
    }

    pub fn set_close(&mut self, close: Price)
        ensures
            final(self)@ == (Bar { close, ..old(self)@ }),
    {
        self.close = close;
    }

    pub fn get_volume(&self) -> (r: u32)
        ensures
            r == self@.volume,
    {
        self.volume
    }

    pub fn set_volume(&mut self, volume: u32)
        ensures
            final(self)@ == (Bar { volume, ..old(self)@ }),
    {
        self.volume = volume;
    }
}

/// No bar of `s` is dated before a bar that stands earlier in `s`.
pub open spec fn ordered_by_date(s: Seq<HistoricalData>) -> bool {
    forall|i: int, j: int|
        #![trigger s[i], s[j]]
        0 <= i < j < s.len() ==> !precedes(s[j]@.date, s[i]@.date)
}

/// `ordered_by_date`, of the stretch from `lo` up to `hi` only.
spec fn ordered_within(s: Seq<HistoricalData>, lo: int, hi: int) -> bool {
    forall|i: int, j: int|
        #![trigger s[i], s[j]]
        lo <= i < j < hi ==> !precedes(s[j]@.date, s[i]@.date)
}

/// `a` and `b` differ at most in the stretch from `lo` up to `hi`.
spec fn same_outside(a: Seq<HistoricalData>, b: Seq<HistoricalData>, lo: int, hi: int) -> bool {
    a.len() == b.len() && forall|k: int|
        0 <= k < a.len() && !(lo <= k < hi) ==> #[trigger] a[k] == b[k]
}

/// The stretch from `lo` up to `hi` holds the same bars in `a` as in `b`,
/// each as often, in whatever order.
spec fn same_content(a: Seq<HistoricalData>, b: Seq<HistoricalData>, lo: int, hi: int) -> bool {
    a.subrange(lo, hi).to_multiset() == b.subrange(lo, hi).to_multiset()
}

/// `s` with the bars at `i` and `j` exchanged.
pub open spec fn exchanged(s: Seq<HistoricalData>, i: int, j: int) -> Seq<HistoricalData> {
    s.update(i, s[j]).update(j, s[i])
}

/// The scan of a partition, after the bars from `low` up to `j` have been
/// looked at: the bars as they then stand, and the place behind the bars
/// found to be dated before the pivot, which is the bar at `high`.
///
/// The scan goes from left to right. A bar dated before the pivot changes
/// places with the bar at that place, and the place moves one to the
/// right; any other bar stays where it is.
pub open spec fn scanned(s: Seq<HistoricalData>, low: int, high: int, j: int) -> (
    Seq<HistoricalData>,
    int,
)
    decreases j - low,
{
    if j <= low {
        (s, low)
    } else {
        let (t, store) = scanned(s, low, high, j - 1);
        if precedes(t[j - 1]@.date, s[high]@.date) {
            (exchanged(t, store, j - 1), store + 1)
        } else {
            (t, store)
        }
    }
}

/// The stretch from `low` to `high`, both included, parted around its last
/// bar: the bars after the scan of all bars but the last, with the last
/// bar brought to the place behind the bars dated before it; and that
/// place.
pub open spec fn partitioned(s: Seq<HistoricalData>, low: int, high: int) -> (
    Seq<HistoricalData>,
    int,
) {
    let (t, store) = scanned(s, low, high, high);
    (exchanged(t, store, high), store)
}

/// The stretch from `low` up to `high` sorted by the rule of the library:
/// a stretch of one bar or none stays as it is; a longer one is parted
/// around its last bar, and the bars before the pivot's place and those
/// behind it are sorted by the same rule, the pivot staying where it is.
pub open spec fn quicksorted(s: Seq<HistoricalData>, low: int, high: int) -> Seq<HistoricalData>
    decreases high - low,
{
    if high - low <= 1 {
        s
    } else {
        let (t, p) = partitioned(s, low, high - 1);
        if low <= p < high {
            quicksorted(quicksorted(t, low, p), p + 1, high)
        } else {
            s
        }
    }
}

/// Exchanging two bars of a stretch leaves the stretch's content as it was.
proof fn lemma_exchange_keeps_content(s: Seq<HistoricalData>, lo: int, hi: int, i: int, j: int)
    requires
        0 <= lo <= i < hi <= s.len(),
        lo <= j < hi,
    ensures
        same_content(exchanged(s, i, j), s, lo, hi),
{
    let r = s.subrange(lo, hi);
    let r1 = r.update(i - lo, r[j - lo]);
    let r2 = r1.update(j - lo, r[i - lo]);
    assert(exchanged(s, i, j).subrange(lo, hi) =~= r2);
    to_multiset_update(r, i - lo, r[j - lo]);
    to_multiset_update(r1, j - lo, r[i - lo]);
    to_multiset_contains(r, r[i - lo]);
    to_multiset_contains(r, r[j - lo]);
    assert(r.contains(r[i - lo]));
    assert(r.contains(r[j - lo]));
    assert(r2.to_multiset() =~= r.to_multiset());
}

/// A bar of a stretch of `a` is a bar of the same stretch of `b` when the
/// two stretches have the same content.
proof fn lemma_content_member(
    a: Seq<HistoricalData>,
    b: Seq<HistoricalData>,
    lo: int,
    hi: int,
    k: int,
) -> (m: int)
    requires
        0 <= lo <= k < hi <= a.len(),
        a.len() == b.len(),
        same_content(a, b, lo, hi),
    ensures
        lo <= m < hi,
        b[m] == a[k],
{
    let ra = a.subrange(lo, hi);
    let rb = b.subrange(lo, hi);
    assert(ra[k - lo] == a[k]);
    assert(ra.contains(a[k]));
    to_multiset_contains(ra, a[k]);
    to_multiset_contains(rb, a[k]);
    let w = choose|w: int| 0 <= w < rb.len() && rb[w] == a[k];
    lo + w
}

/// The content of a stretch is the content of its two parts together.
proof fn lemma_content_of_parts(
    a: Seq<HistoricalData>,
    b: Seq<HistoricalData>,
    lo: int,
    mid: int,
    hi: int,
)
    requires
        0 <= lo <= mid <= hi <= a.len(),
        a.len() == b.len(),
        same_content(a, b, lo, mid),
        same_content(a, b, mid, hi),
    ensures
        same_content(a, b, lo, hi),
{
    assert(a.subrange(lo, hi) =~= a.subrange(lo, mid) + a.subrange(mid, hi));
    assert(b.subrange(lo, hi) =~= b.subrange(lo, mid) + b.subrange(mid, hi));
    lemma_multiset_commutative(a.subrange(lo, mid), a.subrange(mid, hi));
    lemma_multiset_commutative(b.subrange(lo, mid), b.subrange(mid, hi));
}

/// Two sequences that agree on a stretch have the same content there.
proof fn lemma_content_of_equal(
    a: Seq<HistoricalData>,
    b: Seq<HistoricalData>,
    lo: int,
    hi: int,
)
    requires
        0 <= lo <= hi <= a.len(),
        a.len() == b.len(),
        forall|k: int| lo <= k < hi ==> a[k] == b[k],
    ensures
        same_content(a, b, lo, hi),
{
    assert(a.subrange(lo, hi) =~= b.subrange(lo, hi));
}

/// What the scan of a partition leaves: the bars before the place found
/// are dated before the pivot, those from the place on that were looked at
/// are not; no bar has left the stretch, and none outside of what was
/// looked at has moved.
proof fn lemma_scanned(s: Seq<HistoricalData>, low: int, high: int, j: int)
    requires
        0 <= low <= j <= high < s.len(),
    ensures
        ({
            let (t, store) = scanned(s, low, high, j);
            &&& low <= store <= j
            &&& same_outside(t, s, low, j)
            &&& same_content(t, s, low, high + 1)
            &&& forall|k: int| low <= k < store ==> precedes(#[trigger] t[k]@.date, s[high]@.date)
            &&& forall|k: int| store <= k < j ==> !precedes(#[trigger] t[k]@.date, s[high]@.date)
        }),
    decreases j - low,
{
    if j > low {
        lemma_scanned(s, low, high, j - 1);
        let (t, store) = scanned(s, low, high, j - 1);
        if precedes(t[j - 1]@.date, s[high]@.date) {
            lemma_exchange_keeps_content(t, low, high + 1, store, j - 1);
        }
    }
}

/// What a partition leaves: the pivot stands between the bars dated before
/// it and the others; no bar has left the stretch, and none outside it has
/// moved.
proof fn lemma_partitioned(s: Seq<HistoricalData>, low: int, high: int)
    requires
        0 <= low <= high < s.len(),
    ensures
        ({
            let (t, p) = partitioned(s, low, high);
            &&& low <= p <= high
            &&& same_outside(t, s, low, high + 1)
            &&& same_content(t, s, low, high + 1)
            &&& t[p] == s[high]
            &&& forall|k: int| low <= k < p ==> precedes(#[trigger] t[k]@.date, t[p]@.date)
            &&& forall|k: int| p < k <= high ==> !precedes(#[trigger] t[k]@.date, t[p]@.date)
        }),
{
    lemma_scanned(s, low, high, high);
    let (u, store) = scanned(s, low, high, high);
    assert(u[high] == s[high]);
    lemma_exchange_keeps_content(u, low, high + 1, store, high);
}

/// What the sort of a stretch leaves: the stretch is ordered by date; no
/// bar has left it, and none outside it has moved.
proof fn lemma_quicksorted(s: Seq<HistoricalData>, low: int, high: int)
    requires
        0 <= low <= high <= s.len(),
    ensures
        same_outside(quicksorted(s, low, high), s, low, high),
        same_content(quicksorted(s, low, high), s, low, high),
        ordered_within(quicksorted(s, low, high), low, high),
    decreases high - low,
{
    if high - low > 1 {
        lemma_partitioned(s, low, high - 1);
        let (s1, p) = partitioned(s, low, high - 1);
        lemma_quicksorted(s1, low, p);
        let s2 = quicksorted(s1, low, p);
        lemma_quicksorted(s2, p + 1, high);
        let s3 = quicksorted(s2, p + 1, high);
        assert(s3 == quicksorted(s, low, high));
        assert(s3[p] == s1[p]);
        assert forall|k: int| low <= k < p implies precedes(#[trigger] s3[k]@.date, s3[p]@.date) by {
            assert(s3[k] == s2[k]);
            let m = lemma_content_member(s2, s1, low, p, k);
            assert(precedes(s1[m]@.date, s1[p]@.date));
        }
        assert forall|k: int| p < k < high implies !precedes(#[trigger] s3[k]@.date, s3[p]@.date) by {
            let m = lemma_content_member(s3, s2, p + 1, high, k);
            assert(s2[m] == s1[m]);
            assert(!precedes(s1[m]@.date, s1[p]@.date));
        }
        assert forall|i: int, j: int| low <= i < j < high implies !precedes(
            s3[j]@.date,
            s3[i]@.date,
        ) by {
            lemma_ordinal_orders(s3[j]@.date, s3[i]@.date);
            lemma_ordinal_orders(s3[i]@.date, s3[p]@.date);
            lemma_ordinal_orders(s3[j]@.date, s3[p]@.date);
            lemma_ordinal_orders(s3[p]@.date, s3[j]@.date);
            if j < p {
                assert(s3[i] == s2[i] && s3[j] == s2[j]);
            } else if i > p {
            } else if i == p {
                assert(!precedes(s3[j]@.date, s3[p]@.date));
            } else if j == p {
                assert(precedes(s3[i]@.date, s3[p]@.date));
            } else {
                assert(precedes(s3[i]@.date, s3[p]@.date));
                assert(!precedes(s3[j]@.date, s3[p]@.date));
            }
        }
        // content: the three parts of the stretch, one by one
        lemma_content_of_equal(s3, s2, low, p);
        assert(same_content(s3, s1, low, p));
        lemma_content_of_equal(s3, s1, p, p + 1);
        lemma_content_of_equal(s2, s1, p + 1, high);
        assert(same_content(s3, s1, p + 1, high));
        lemma_content_of_parts(s3, s1, low, p, p + 1);
        lemma_content_of_parts(s3, s1, low, p + 1, high);
    }
}

/// `a` and `b` hold the same bars in the stretch from `lo` up to `hi`, each
/// at the same place.
spec fn agree(a: Seq<HistoricalData>, b: Seq<HistoricalData>, lo: int, hi: int) -> bool {
    a.len() == b.len() && forall|k: int| lo <= k < hi ==> #[trigger] a[k] == b[k]
}

/// The scan of a stretch reads no bar outside the stretch.
proof fn lemma_scan_is_local(
    a: Seq<HistoricalData>,
    b: Seq<HistoricalData>,
    low: int,
    high: int,
    j: int,
)
    requires
        0 <= low <= j <= high < a.len(),
        agree(a, b, low, high + 1),
    ensures
        scanned(a, low, high, j).1 == scanned(b, low, high, j).1,
        agree(scanned(a, low, high, j).0, scanned(b, low, high, j).0, low, high + 1),
    decreases j - low,
{
    if j > low {
        lemma_scan_is_local(a, b, low, high, j - 1);
        lemma_scanned(a, low, high, j - 1);
        lemma_scanned(b, low, high, j - 1);
        let (t, store) = scanned(a, low, high, j - 1);
        let (u, _) = scanned(b, low, high, j - 1);
        assert(t[j - 1] == u[j - 1]);
        assert(a[high] == b[high]);
    }
}

/// The sort of a stretch reads no bar outside the stretch.
proof fn lemma_sort_is_local(a: Seq<HistoricalData>, b: Seq<HistoricalData>, low: int, high: int)
    requires
        0 <= low <= high <= a.len(),
        agree(a, b, low, high),
    ensures
        agree(quicksorted(a, low, high), quicksorted(b, low, high), low, high),
    decreases high - low,
{
    if high - low > 1 {
        lemma_scan_is_local(a, b, low, high - 1, high - 1);
        lemma_scanned(a, low, high - 1, high - 1);
        lemma_scanned(b, low, high - 1, high - 1);
        lemma_partitioned(a, low, high - 1);
        lemma_partitioned(b, low, high - 1);
        let (a1, p) = partitioned(a, low, high - 1);
        let (b1, q) = partitioned(b, low, high - 1);
        assert(p == q);
        assert(agree(a1, b1, low, high));
        lemma_sort_is_local(a1, b1, low, p);
        lemma_quicksorted(a1, low, p);
        lemma_quicksorted(b1, low, p);
        let a2 = quicksorted(a1, low, p);
        let b2 = quicksorted(b1, low, p);
        assert(agree(a2, b2, low, high));
        lemma_sort_is_local(a2, b2, p + 1, high);
        lemma_quicksorted(a2, p + 1, high);
        lemma_quicksorted(b2, p + 1, high);
    }
}

/// Two stretches that do not meet can be sorted in either order.
proof fn lemma_sorts_commute(s: Seq<HistoricalData>, a: int, b: int, c: int, d: int)
    requires
        0 <= a <= b <= c <= d <= s.len(),
    ensures
        quicksorted(quicksorted(s, a, b), c, d) == quicksorted(quicksorted(s, c, d), a, b),
{
    let first = quicksorted(s, a, b);
    let second = quicksorted(s, c, d);
    let left = quicksorted(first, c, d);
    let right = quicksorted(second, a, b);
    lemma_quicksorted(s, a, b);
    lemma_quicksorted(s, c, d);
    lemma_quicksorted(first, c, d);
    lemma_quicksorted(second, a, b);
    lemma_sort_is_local(second, s, a, b);
    lemma_sort_is_local(first, s, c, d);
    assert(left =~= right);
}

/// The bars sorted by date, by the rule of the library.
pub open spec fn sorted_by_date(s: Seq<HistoricalData>) -> Seq<HistoricalData> {
    quicksorted(s, 0, s.len() as int)
}

/// The sorted bars are the bars, each as often as before, and none of them
/// is dated before a bar that precedes it.
pub proof fn lemma_sorted_by_date(s: Seq<HistoricalData>)
    ensures
        sorted_by_date(s).len() == s.len(),
        sorted_by_date(s).to_multiset() == s.to_multiset(),
        ordered_by_date(sorted_by_date(s)),
{
    lemma_quicksorted(s, 0, s.len() as int);
    let r = sorted_by_date(s);
    assert(r.subrange(0, s.len() as int) =~= r);
    assert(s.subrange(0, s.len() as int) =~= s);
}

/// Exchanges the bars at `i` and `j`.
fn exchange(a: &mut Vec<HistoricalData>, i: usize, j: usize)
    requires
        i < old(a).len(),
        j < old(a).len(),
    ensures
        final(a)@ == exchanged(old(a)@, i as int, j as int),
{
    let x = a[i];
    let y = a[j];
    a.set(i, y);
    a.set(j, x);
}

/// Parts the stretch from `low` to `high`, both included, around its last
/// bar, the pivot: the bars dated before the pivot come first, then the
/// pivot, then the others. Returns where the pivot stands.
fn partition(a: &mut Vec<HistoricalData>, low: usize, high: usize) -> (p: usize)
    requires
        low <= high < old(a).len(),
    ensures
        (final(a)@, p as int) == partitioned(old(a)@, low as int, high as int),
        low <= p <= high,
        final(a)@.len() == old(a)@.len(),
{
    let pivot = a[high];
    let mut store: usize = low;
    let mut j: usize = low;
    while j < high
        invariant
            low <= store <= j <= high < a.len(),
            a@.len() == old(a)@.len(),
            pivot == old(a)@[high as int],
            (a@, store as int) == scanned(old(a)@, low as int, high as int, j as int),
        decreases high - j,
    {
        if a[j].get_date().is_before(pivot.get_date()) {
            exchange(a, store, j);
            store = store + 1;
        }
        j = j + 1;
    }
    exchange(a, store, high);
    store
}

/// Sorts the stretch from `low` up to `high` by date.
///
/// Of the two parts that a partition leaves, the shorter is sorted by a
/// call and the longer by going round again: the calls nest no deeper than
/// the stretch can be halved.
fn quicksort(a: &mut Vec<HistoricalData>, low: usize, high: usize)
    requires
        low <= high <= old(a).len(),
    ensures
        final(a)@ == quicksorted(old(a)@, low as int, high as int),
        final(a)@.len() == old(a)@.len(),
    decreases high - low,
{
    let mut lo = low;
    let mut hi = high;
    while hi - lo > 1
        invariant
            low <= lo <= hi <= high <= a.len(),
            a@.len() == old(a)@.len(),
            quicksorted(a@, lo as int, hi as int) == quicksorted(
                old(a)@,
                low as int,
                high as int,
            ),
        decreases hi - lo,
    {
        let p = partition(a, lo, hi - 1);
        let ghost parted = a@;
        if p - lo < hi - 1 - p {
            quicksort(a, lo, p);
            lo = p + 1;
        } else {
            quicksort(a, p + 1, hi);
            proof {
                lemma_sorts_commute(parted, lo as int, p as int, p + 1, hi as int);
            }
            hi = p;
        }
    }
}

/// Sorts the bars by date, earliest first.
///
/// The bars afterwards are the bars before, each as often as before, and
/// none is dated before a bar that precedes it: in particular each bar is on
/// or before its successor. The sort is not stable: where bars of one date
/// come to stand is decided by the partition rule alone, which
/// `sorted_by_date` spells out.
pub fn sort_by_date(d: &mut Vec<HistoricalData>)
    ensures
        final(d)@ == sorted_by_date(old(d)@),
        final(d)@.to_multiset() == old(d)@.to_multiset(),
        ordered_by_date(final(d)@),
{
    let n = d.len();
    quicksort(d, 0, n);
    proof {
        lemma_sorted_by_date(old(d)@);
    }
}

/// Bars of one date are one and the same bar: no two bars of `s` share
/// their date and differ in a price or in the volume.
pub open spec fn dates_tell_bars_apart(s: Seq<HistoricalData>) -> bool {
    forall|i: int, j: int|
        #![trigger s[i], s[j]]
        0 <= i < s.len() && 0 <= j < s.len() && s[i]@.date == s[j]@.date ==> s[i] == s[j]
}

/// A bar of `a` is a bar of `b` when the two hold the same bars.
proof fn lemma_member(a: Seq<HistoricalData>, b: Seq<HistoricalData>, k: int) -> (m: int)
    requires
        0 <= k < a.len(),
        a.to_multiset() == b.to_multiset(),
    ensures
        0 <= m < b.len(),
        b[m] == a[k],
{
    assert(a.contains(a[k]));
    to_multiset_contains(a, a[k]);
    to_multiset_contains(b, a[k]);
    choose|m: int| 0 <= m < b.len() && b[m] == a[k]
}

/// Where dates tell bars apart, the bars can stand in one order only: two
/// date-ordered sequences of the same bars are the same sequence.
pub proof fn lemma_order_is_unique(a: Seq<HistoricalData>, b: Seq<HistoricalData>)
    requires
        a.to_multiset() == b.to_multiset(),
        ordered_by_date(a),
        ordered_by_date(b),
        dates_tell_bars_apart(a),
    ensures
        a == b,
    decreases a.len(),
{
    to_multiset_len(a);
    to_multiset_len(b);
    if a.len() == 0 {
        assert(a =~= b);
    } else {
        let n = a.len() - 1;
        let m = lemma_member(b, a, n);
        let k = lemma_member(a, b, n);
        assert(a[m] == b[n] && b[k] == a[n]);
        assert(!precedes(a[n]@.date, a[m]@.date)) by {
            if m < n {
                assert(!precedes(a[n]@.date, a[m]@.date));
            }
        }
        assert(!precedes(b[n]@.date, b[k]@.date)) by {
            if k < n {
                assert(!precedes(b[n]@.date, b[k]@.date));
            }
        }
        lemma_ordinal_orders(a[n]@.date, b[n]@.date);
        lemma_ordinal_orders(b[n]@.date, a[n]@.date);
        assert(a[n]@.date == a[m]@.date);
        assert(a[n] == a[m]);
        let a0 = a.drop_last();
        let b0 = b.drop_last();
        assert(a0 =~= a.remove(n));
        assert(b0 =~= b.remove(n));
        to_multiset_remove(a, n);
        to_multiset_remove(b, n);
        assert forall|i: int, j: int| 0 <= i < j < a0.len() implies !precedes(
            a0[j]@.date,
            a0[i]@.date,
        ) by {
            assert(a0[i] == a[i] && a0[j] == a[j]);
        }
        assert forall|i: int, j: int| 0 <= i < j < b0.len() implies !precedes(
            b0[j]@.date,
            b0[i]@.date,
        ) by {
            assert(b0[i] == b[i] && b0[j] == b[j]);
        }
        assert forall|i: int, j: int|
            0 <= i < a0.len() && 0 <= j < a0.len() && a0[i]@.date == a0[j]@.date implies a0[i]
            == a0[j] by {
            assert(a0[i] == a[i] && a0[j] == a[j]);
        }
        lemma_order_is_unique(a0, b0);
        assert(a =~= a0.push(a[n]));
        assert(b =~= b0.push(b[n]));
    }
}

/// Sorting what is sorted changes nothing, where dates tell bars apart.
///
/// The sort is not stable, so the condition cannot be dropped: two bars of
/// one date that differ elsewhere change places each time they are sorted.
pub proof fn lemma_sort_is_idempotent(x: Seq<HistoricalData>)
    requires
        dates_tell_bars_apart(x),
    ensures
        sorted_by_date(sorted_by_date(x)) == sorted_by_date(x),
{
    let once = sorted_by_date(x);
    let twice = sorted_by_date(once);
    lemma_sorted_by_date(x);
    lemma_sorted_by_date(once);
    assert forall|i: int, j: int|
        0 <= i < once.len() && 0 <= j < once.len() && once[i]@.date == once[j]@.date implies once[i]
        == once[j] by {
        let mi = lemma_member(once, x, i);
        let mj = lemma_member(once, x, j);
        assert(x[mi] == x[mj]);
    }
    lemma_order_is_unique(once, twice);
}

/// Each bar of a date-ordered sequence is on or before its successor.
pub proof fn lemma_ordered_neighbours(s: Seq<HistoricalData>, i: int)
    requires
        ordered_by_date(s),
        0 <= i,
        i + 1 < s.len(),
    ensures
        s[i]@.date == s[i + 1]@.date || precedes(s[i]@.date, s[i + 1]@.date),
{
    assert(!precedes(s[i + 1]@.date, s[i]@.date));
    lemma_ordinal_orders(s[i]@.date, s[i + 1]@.date);
    lemma_ordinal_orders(s[i + 1]@.date, s[i]@.date);
}

} // verus!
