//! What the indicators ask of the numbers that they compute with.
//!
//! The indicators are written once, for every kind of number: they say
//! which numbers are added, divided and compared, and in which order, and
//! leave it to the kind of number what a sum or a quotient is. A kind of
//! number says that by the functions below, each total: what the sum of
//! two numbers too large to add is, or a quotient by zero, is the kind's to
//! define.
//!
//! Each operation stands here twice: as what it is (`sum`), which the
//! contracts of the indicators speak of, and as the computation of it
//! (`plus`), which the indicators call.
//!
//! The fixed-point numbers of this library are one kind. The
//! single-precision numbers of the machine are another, which the caller
//! brings: the prices of the store are their encodings.

use vstd::prelude::*;

verus! {

/// Values that can be compared: prices, and levels of any other kind.
pub trait Level: Copy {
    /// `self` is less than `other`. Nothing more is asked of the relation:
    /// a kind may hold values that compare with nothing.
    spec fn under(self, other: Self) -> bool;

    /// Whether `self` is less than `other`.
    fn below(self, other: Self) -> (r: bool)
        ensures
            r == self.under(other),
    ;
}

/// Values to compute with.
pub trait Number: Level {
    /// The number that stands for a count of `n` things.
    spec fn of_count(n: usize) -> Self;

    /// The sum of two numbers.
    spec fn sum(self, other: Self) -> Self;

    /// `self` less `other`.
    spec fn difference(self, other: Self) -> Self;

    /// The product of two numbers.
    spec fn product(self, other: Self) -> Self;

    /// `self` divided by `other`.
    spec fn quotient(self, other: Self) -> Self;

    /// The square root of `self`.
    spec fn square_root(self) -> Self;

    fn count(n: usize) -> (r: Self)
        ensures
            r == Self::of_count(n),
    ;

    fn plus(self, other: Self) -> (r: Self)
        ensures
            r == self.sum(other),
    ;

    fn minus(self, other: Self) -> (r: Self)
        ensures
            r == self.difference(other),
    ;

    fn times(self, other: Self) -> (r: Self)
        ensures
            r == self.product(other),
    ;

    fn over(self, other: Self) -> (r: Self)
        ensures
            r == self.quotient(other),
    ;

    fn root(self) -> (r: Self)
        ensures
            r == self.square_root(),
    ;
}

/// The sum of the first `n` numbers of `s`, added one by one to nothing, in
/// their order.
pub open spec fn total<T: Number>(s: Seq<T>, n: int) -> T
    decreases n,
{
    if n <= 0 {
        T::of_count(0)
    } else {
        total(s, n - 1).sum(s[n - 1])
    }
}

/// The arithmetic mean of the numbers of `s`: their total divided by their
/// count.
pub open spec fn mean<T: Number>(s: Seq<T>) -> T {
    total(s, s.len() as int).quotient(T::of_count(s.len() as usize))
}

/// The total of the stretch of `v` from `from` up to `to`.
pub fn total_of<T: Number>(v: &Vec<T>, from: usize, to: usize) -> (r: T)
    requires
        from <= to <= v.len(),
    ensures
        r == total(v@.subrange(from as int, to as int), to - from),
{
    let ghost stretch = v@.subrange(from as int, to as int);
    let mut acc = T::count(0);
    let mut j: usize = from;
    while j < to
        invariant
            from <= j <= to <= v.len(),
            stretch == v@.subrange(from as int, to as int),
            acc == total(stretch, j - from),
        decreases to - j,
    {
        assert(stretch[j - from] == v@[j as int]);
        acc = acc.plus(v[j]);
        j = j + 1;
    }
    acc
}

/// The mean of the stretch of `v` from `from` up to `to`.
pub fn mean_of<T: Number>(v: &Vec<T>, from: usize, to: usize) -> (r: T)
    requires
        from <= to <= v.len(),
    ensures
        r == mean(v@.subrange(from as int, to as int)),
{
    total_of(v, from, to).over(T::count(to - from))
}

} // verus!
