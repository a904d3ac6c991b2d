//! A minimal growable, contiguous, generic array container.
//!
//! The container owns a backing store of `capacity` slots, of which the first
//! `length` hold constructed elements; the remaining slots are vacant and are
//! never read. Storage is allocated lazily: a fresh array owns nothing, the
//! first insertion allocates room for exactly four elements, and a full array
//! doubles its capacity. Reads are bounds-checked and yield an absent value
//! out of range; there is no removal, shrinking, or iteration.

use vstd::layout::size_of;
use vstd::pervasive::VecAdditionalExecFns;
use vstd::prelude::*;

verus! {

/// The capacity reached by doubling `cap` until it is at least `n`.
///
/// This mirrors the growth rule: storage starts at some base capacity and is
/// doubled, never grown by any other factor, until the demand `n` fits.
pub open spec fn grow_from(cap: nat, n: nat) -> nat
    decreases (if n <= cap { 0int } else { n - cap }) when cap >= 1
{
    if n <= cap {
        cap
    } else {
        grow_from(2 * cap, n)
    }
}

/// The capacity an array holding `n` elements owns: nothing while empty,
/// otherwise the base allocation of 4 doubled until `n` fits.
pub open spec fn cap_for(n: nat) -> nat {
    if n == 0 {
        0
    } else {
        grow_from(4, n)
    }
}

/// Doubling `cap` until `n` fits never lands below `cap` or below `n`.
proof fn lemma_grow_from_ge(cap: nat, n: nat)
    requires
        cap >= 1,
    ensures
        grow_from(cap, n) >= cap,
        grow_from(cap, n) >= n,
    decreases (if n <= cap { 0int } else { n - cap }),
{
    if n <= cap {
    } else {
        lemma_grow_from_ge(2 * cap, n);
    }
}

/// A capacity with spare room for one more element does not change when the
/// demand grows by one.
proof fn lemma_grow_from_stays(cap: nat, n: nat)
    requires
        cap >= 1,
        n + 1 <= grow_from(cap, n),
    ensures
        grow_from(cap, n + 1) == grow_from(cap, n),
    decreases (if n <= cap { 0int } else { n - cap }),
{
    if n <= cap {
    } else {
        lemma_grow_from_stays(2 * cap, n);
    }
}

/// A capacity filled exactly doubles when the demand grows by one.
proof fn lemma_grow_from_exact(cap: nat, n: nat)
    requires
        cap >= 1,
        grow_from(cap, n) == n,
    ensures
        grow_from(cap, n + 1) == 2 * n,
    decreases (if n <= cap { 0int } else { n - cap }),
{
    if n <= cap {
        assert(grow_from(2 * cap, n + 1) == 2 * cap);
    } else {
        lemma_grow_from_exact(2 * cap, n);
    }
}

/// How the owed capacity moves under one insertion: the first insertion
/// allocates 4 slots, an array with spare room keeps its capacity, and a full
/// array doubles it.
pub proof fn lemma_cap_for_step(n: nat)
    ensures
        cap_for(n) >= n,
        n == 0 ==> cap_for(n + 1) == 4,
        n >= 1 && n < cap_for(n) ==> cap_for(n + 1) == cap_for(n),
        n >= 1 && n == cap_for(n) ==> cap_for(n + 1) == 2 * n,
{
    if n >= 1 {
        lemma_grow_from_ge(4, n);
        if n < cap_for(n) {
            lemma_grow_from_stays(4, n);
        } else {
            lemma_grow_from_exact(4, n);
        }
    }
}

/// Two raised to the power `m`.
pub open spec fn pow2(m: nat) -> nat
    decreases m,
{
    if m == 0 {
        1
    } else {
        2 * pow2((m - 1) as nat)
    }
}

proof fn lemma_pow2_pos(m: nat)
    ensures
        pow2(m) >= 1,
    decreases m,
{
    if m > 0 {
        lemma_pow2_pos((m - 1) as nat);
    }
}

/// Doubling from `cap` only ever lands on `cap` times a power of two.
proof fn lemma_grow_from_shape(cap: nat, n: nat)
    requires
        cap >= 1,
    ensures
        exists|m: nat| grow_from(cap, n) == cap * pow2(m),
    decreases (if n <= cap { 0int } else { n - cap }),
{
    if n <= cap {
        assert(pow2(0) == 1);
        assert(grow_from(cap, n) == cap * pow2(0));
    } else {
        lemma_grow_from_shape(2 * cap, n);
        let m = choose|m: nat| grow_from(2 * cap, n) == (2 * cap) * pow2(m);
        assert((2 * cap) * pow2(m) == cap * pow2(m + 1)) by (nonlinear_arith)
            requires
                pow2(m + 1) == 2 * pow2(m),
        ;
        assert(grow_from(cap, n) == cap * pow2(m + 1));
    }
}

/// No capacity of the shape `cap` times a power of two that already fits `n`
/// lies below the one reached by doubling from `cap`.
proof fn lemma_grow_from_min(cap: nat, n: nat, m: nat)
    requires
        cap >= 1,
        cap * pow2(m) >= n,
    ensures
        cap * pow2(m) >= grow_from(cap, n),
    decreases (if n <= cap { 0int } else { n - cap }),
{
    lemma_pow2_pos(m);
    if n <= cap {
        assert(cap * pow2(m) >= cap) by (nonlinear_arith)
            requires
                pow2(m) >= 1,
        ;
    } else {
        if m == 0 {
            assert(cap * pow2(m) == cap) by (nonlinear_arith)
                requires
                    pow2(m) == 1,
            ;
            assert(false);
        } else {
            assert(cap * pow2(m) == (2 * cap) * pow2((m - 1) as nat)) by (nonlinear_arith)
                requires
                    pow2(m) == 2 * pow2((m - 1) as nat),
            ;
            lemma_grow_from_min(2 * cap, n, (m - 1) as nat);
        }
    }
}

/// Capacity growth law: after any number of insertions the capacity owed for
/// `k >= 1` stored elements is 4 while `k` is at most 4, and in general the
/// smallest power-of-two multiple of 4 at or above `k`.
pub proof fn lemma_capacity_growth(k: nat)
    requires
        k >= 1,
    ensures
        cap_for(k) >= k,
        k <= 4 ==> cap_for(k) == 4,
        exists|m: nat| cap_for(k) == 4 * pow2(m),
        forall|m: nat| 4 * pow2(m) >= k ==> cap_for(k) <= 4 * pow2(m),
{
    lemma_grow_from_ge(4, k);
    lemma_grow_from_shape(4, k);
    assert forall|m: nat| 4 * pow2(m) >= k implies cap_for(k) <= 4 * pow2(m) by {
        lemma_grow_from_min(4, k, m);
    }
}

/// Order preservation: a run of insertions that starts from an empty array
/// and appends `vals[0]`, `vals[1]`, ... in turn — so that each state's view
/// extends the previous one by the value inserted, as `push` ensures — ends
/// with the view equal to `vals` itself; by the contract of `get`, reading
/// index `i` of the final array then yields exactly `vals[i]`.
pub proof fn lemma_order_preservation<T>(states: Seq<Seq<T>>, vals: Seq<T>)
    requires
        states.len() == vals.len() + 1,
        states[0] == Seq::<T>::empty(),
        forall|j: int| 0 <= j < vals.len() ==> states[j + 1] == states[j].push(vals[j]),
    ensures
        states.last() == vals,
    decreases vals.len(),
{
    if vals.len() == 0 {
        assert(states.last() =~= vals);
    } else {
        lemma_order_preservation(states.drop_last(), vals.drop_last());
        assert(states.last() == states[vals.len() - 1].push(vals[vals.len() - 1]));
        assert(states.last() =~= vals);
    }
}

/// A growable array of `T` with doubling growth and bounds-checked reads.
pub struct MyVec<T> {
    storage: Vec<Option<T>>,
    len: usize,
}

impl<T> View for MyVec<T> {
    type V = Seq<T>;

    closed spec fn view(&self) -> Seq<T> {
        Seq::new(self.len as nat, |i: int| self.storage@[i]->0)
    }
}

impl<T> MyVec<T> {
    /// Well-formedness: the slot count is exactly the capacity owed for the
    /// current length, constructed elements fill the slots below `len`, and
    /// every slot at or above `len` is vacant.
    pub closed spec fn wf(&self) -> bool {
        &&& self.len <= self.storage@.len()
        &&& self.storage@.len() == cap_for(self.len as nat)
        &&& (forall|i: int| 0 <= i < self.len ==> self.storage@[i] is Some)
        &&& (forall|i: int| self.len <= i < self.storage@.len() ==> self.storage@[i] is None)
    }

    /// A new, empty array: no elements and no backing allocation.
    pub fn new() -> (v: Self)
        ensures
            v.wf(),
            v@ == Seq::<T>::empty(),
    {
        let v = MyVec { storage: Vec::new(), len: 0 };
        proof {
            assert(v@ =~= Seq::<T>::empty());
        }
        v
    }

    /// Appends `item` as the new last element, allocating 4 slots on the
    /// first insertion and doubling the backing store when it is full.
    ///
    /// Zero-sized element types are unsupported, and the backing store past
    /// the insertion must still be addressable; both are demanded of the
    /// caller rather than detected at run time.
    pub fn push(&mut self, item: T)
        requires
            old(self).wf(),
            size_of::<T>() != 0,
            cap_for(old(self)@.len() + 1) <= usize::MAX,
        ensures
            final(self).wf(),
            final(self)@ == old(self)@.push(item),
            final(self)@.len() == old(self)@.len() + 1,
    {
        proof {
            lemma_cap_for_step(self.len as nat);
        }
        if self.storage.len() == 0 {
            // First insertion: allocate room for exactly 4 elements and
            // construct the item in slot 0.
            self.storage.push(Some(item));
            self.storage.push(None);
            self.storage.push(None);
            self.storage.push(None);
            self.len = 1;
            proof {
                assert(self@ =~= old(self)@.push(item));
            }
        } else if self.len < self.storage.len() {
            // Room available: construct the item in the first vacant slot.
            self.storage.set(self.len, Some(item));
            self.len = self.len + 1;
            proof {
                assert(self@ =~= old(self)@.push(item));
            }
        } else {
            // Full: double the capacity, keeping every element in place, and
            // construct the item in the first of the fresh slots.
            let new_capacity = self.storage.len() * 2;
            self.storage.push(Some(item));
            while self.storage.len() < new_capacity
                invariant
                    new_capacity == 2 * old(self)@.len(),
                    self.len == old(self).len,
                    self.len == old(self)@.len(),
                    self.len < self.storage@.len() <= new_capacity,
                    forall|i: int| 0 <= i < self.len ==> self.storage@[i] == old(self).storage@[i],
                    self.storage@[self.len as int] == Some(item),
                    forall|i: int|
                        self.len < i < self.storage@.len() ==> self.storage@[i] is None,
                decreases new_capacity - self.storage@.len(),
            {
                self.storage.push(None);
            }
            self.len = self.len + 1;
            proof {
                assert(self@ =~= old(self)@.push(item));
            }
        }
    }

    /// A read-only view of the element at `index`, absent when `index` is at
    /// or past the number of constructed elements.
    pub fn get(&self, index: usize) -> (r: Option<&T>)
        requires
            self.wf(),
        ensures
            index < self@.len() ==> r == Some(&self@[index as int]),
            index >= self@.len() ==> r is None,
    {
        if index >= self.len {
            return None;
        }
        self.storage[index].as_ref()
    }

    /// The number of constructed elements.
    pub fn len(&self) -> (n: usize)
        ensures
            n == self@.len(),
    {
        self.len
    }

    /// The number of elements the current backing store can hold.
    pub fn capacity(&self) -> (c: usize)
        requires
            self.wf(),
        ensures
            c == cap_for(self@.len()),
    {
        self.storage.len()
    }
}

} // verus!
