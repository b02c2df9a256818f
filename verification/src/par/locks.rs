//! Row locking for concurrent commits.

use std::sync::{Mutex, MutexGuard, PoisonError};

use vstd::prelude::*;

verus! {

/// Two distinct rows, or one row named twice.
pub enum Pair<'a, T> {
    /// The rows were distinct; the references are in **caller order**.
    Two(&'a mut T, &'a mut T),
    /// One row, named twice.
    Same(&'a mut T),
}

/// Borrow two rows of a slice mutably, in caller order.
///
/// Returns `None` if either index is out of range, `Same` if they are equal.
pub fn pair_mut<T>(xs: &mut [T], r: usize, s: usize) -> (p: Option<Pair<'_, T>>)
    ensures
        p is Some <==> r < old(xs)@.len() && s < old(xs)@.len(),
        p is None ==> final(xs)@ == old(xs)@,
        match p {
            Some(Pair::Two(a, b)) => {
                &&& r != s
                &&& *a == old(xs)@[r as int]
                &&& *b == old(xs)@[s as int]
                &&& final(xs)@ == old(xs)@.update(r as int, *final(a)).update(s as int, *final(b))
            },
            Some(Pair::Same(a)) => {
                &&& r == s
                &&& *a == old(xs)@[r as int]
                &&& final(xs)@ == old(xs)@.update(r as int, *final(a))
            },
            None => true,
        },
{
    let n: usize = xs.len();
    if r >= n || s >= n {
        return None;
    }
    if r == s {
        return Some(Pair::Same(&mut xs[r]));
    }
    let ghost before = xs@;
    let (lo, hi) = if r < s {
        (r, s)
    } else {
        (s, r)
    };
    let (left, right) = xs.split_at_mut(hi);
    let a = &mut left[lo];
    let b = &mut right[0];
    assert(before.take(hi as int).update(lo as int, *final(a)) + before.skip(hi as int).update(
        0,
        *final(b),
    ) =~= before.update(lo as int, *final(a)).update(hi as int, *final(b)));
    assert(before.update(lo as int, *final(a)).update(hi as int, *final(b)) =~= before.update(
        hi as int,
        *final(b),
    ).update(lo as int, *final(a)));
    if r < s {
        Some(Pair::Two(a, b))
    } else {
        Some(Pair::Two(b, a))
    }
}

/// A mutex of std.
#[verifier::external_type_specification]
#[verifier::external_body]
#[verifier::reject_recursive_types(T)]
pub struct ExMutex<T: ?Sized>(Mutex<T>);

/// The guard of a mutex of std.
#[verifier::external_type_specification]
#[verifier::external_body]
#[verifier::reject_recursive_types(T)]
pub struct ExMutexGuard<'a, T: ?Sized + 'a>(MutexGuard<'a, T>);

/// `Mutex::new`: an unlocked mutex. Nothing is claimed of it.
#[verifier::external_body]
fn new_lock() -> (r: Mutex<()>) {
    Mutex::new(())
}

/// `Mutex::lock`, ignoring poison: the guarded datum is `()`, so there is no
/// invariant that a panicking holder can have left broken. Nothing is claimed
/// of the guard; that it excludes other threads until it is dropped is left
/// unsaid.
#[verifier::external_body]
fn acquire(m: &Mutex<()>) -> (r: MutexGuard<'_, ()>) {
    m.lock().unwrap_or_else(PoisonError::into_inner)
}

/// The order in which the locks of rows `r` and `s` are taken: ascending, and a
/// row named twice once.
pub fn lock_order(r: usize, s: usize) -> (order: (usize, Option<usize>))
    ensures
        r == s ==> order == (r, None::<usize>),
        r != s ==> order.1 is Some && order.0 < order.1->0,
        r < s ==> order == (r, Some(s)),
        s < r ==> order == (s, Some(r)),
{
    if r == s {
        (r, None)
    } else if r < s {
        (r, Some(s))
    } else {
        (s, Some(r))
    }
}

/// Per-row mutexes, acquired in ascending order.
pub struct RowLocks {
    pub(crate) rows: Vec<Mutex<()>>,
}

impl RowLocks {
    /// The number of rows.
    pub open(crate) spec fn row_count(self) -> nat {
        self.rows@.len()
    }

    /// One mutex per row.
    pub fn new(n: usize) -> (r: Self)
        ensures
            r.row_count() == n,
    {
        let mut rows: Vec<Mutex<()>> = Vec::new();
        let mut i: usize = 0;
        while i < n
            invariant
                i <= n,
                rows@.len() == i,
            decreases n - i,
        {
            rows.push(new_lock());
            i = i + 1;
        }
        RowLocks { rows }
    }

    /// Number of rows.
    #[inline]
    pub fn len(&self) -> (r: usize)
        ensures
            r == self.row_count(),
    {
        self.rows.len()
    }

    /// Whether there are no rows.
    #[inline]
    pub fn is_empty(&self) -> (r: bool)
        ensures
            r <==> self.row_count() == 0,
    {
        self.rows.len() == 0
    }

    /// Run `f` holding the locks for `r` and `s`, taken in the order of
    /// [`lock_order`], so that two commits never wait for each other in turn.
    ///
    /// A row named twice is locked once.
    pub fn with_pair<R, F: FnOnce() -> R>(&self, r: usize, s: usize, f: F) -> (out: R)
        requires
            r < self.row_count(),
            s < self.row_count(),
            call_requires(f, ()),
        ensures
            call_ensures(f, (), out),
    {
        match lock_order(r, s) {
            (only, None) => self.with_row(only, f),
            (lo, Some(hi)) => {
                let _glo = acquire(&self.rows[lo]);
                let _ghi = acquire(&self.rows[hi]);
                f()
            },
        }
    }

    /// Run `f` holding one row's lock.
    pub fn with_row<R, F: FnOnce() -> R>(&self, r: usize, f: F) -> (out: R)
        requires
            r < self.row_count(),
            call_requires(f, ()),
        ensures
            call_ensures(f, (), out),
    {
        let _g = acquire(&self.rows[r]);
        f()
    }
}

} // verus!
