use vstd::prelude::*;

verus! {

/// `cap` doubled until it reaches `needed` (unchanged when it already
/// does).
pub open spec fn doubled_until(cap: nat, needed: nat) -> nat
    decreases (if cap < needed { needed - cap } else { 0 }),
{
    if cap >= needed || cap == 0 {
        cap
    } else {
        doubled_until(2 * cap, needed)
    }
}

/// Whether doubling `cap` until it reaches `needed` ends, and stays within
/// `max` on the way.
pub open spec fn doubling_fits(cap: nat, needed: nat, max: nat) -> bool
    decreases (if cap < needed { needed - cap } else { 0 }),
{
    if cap >= needed {
        true
    } else if cap == 0 {
        false
    } else {
        2 * cap <= max && doubling_fits(2 * cap, needed, max)
    }
}

/// The capacity a growable GPU buffer needs for `needed` elements: the
/// current capacity, doubled until it is at least `needed`.
pub fn doubled_capacity(capacity: u64, needed: u64) -> (c: u64)
    requires
        doubling_fits(capacity as nat, needed as nat, u64::MAX as nat),
    ensures
        c == doubled_until(capacity as nat, needed as nat),
        c >= needed,
        c >= capacity,
{
    let mut c = capacity;
    while c < needed
        invariant
            doubling_fits(c as nat, needed as nat, u64::MAX as nat),
            doubled_until(c as nat, needed as nat) == doubled_until(capacity as nat, needed as nat),
            c >= capacity,
        decreases (if c < needed { needed - c } else { 0 }),
    {
        assert(c > 0);
        c = c * 2;
    }
    c
}

/// The capacity an instance buffer of `capacity` needs to hold `len`
/// instances: unchanged when they fit, otherwise twice the old capacity or
/// `len`, whichever is larger.
pub fn grown_capacity(capacity: usize, len: usize) -> (c: usize)
    requires
        len > capacity ==> 2 * capacity <= usize::MAX,
    ensures
        c == (if len <= capacity {
            capacity as int
        } else if 2 * capacity >= len {
            2 * capacity
        } else {
            len as int
        }),
        c >= len,
{
    if len > capacity {
        let doubled = capacity * 2;
        if doubled >= len {
            doubled
        } else {
            len
        }
    } else {
        capacity
    }
}

/// Whether `n` is a power of two.
pub open spec fn is_power_of_two(n: nat) -> bool
    decreases n,
{
    if n == 1 {
        true
    } else if n < 2 || n % 2 != 0 {
        false
    } else {
        is_power_of_two(n / 2)
    }
}

/// The smallest power of two that is at least `x`, searching from `p`.
pub open spec fn pow2_at_least(x: nat, p: nat) -> nat
    decreases (if p < x { x - p } else { 0 }),
{
    if p >= x || p == 0 {
        p
    } else {
        pow2_at_least(x, 2 * p)
    }
}

/// The smallest power of two that is at least `x` (1 for 0).
pub open spec fn next_pow2(x: nat) -> nat {
    pow2_at_least(x, 1)
}

/// Doubling a power of two gives a power of two.
proof fn lemma_double_is_power_of_two(p: nat)
    requires
        is_power_of_two(p),
    ensures
        is_power_of_two(2 * p),
{
    assert((2 * p) / 2 == p);
}

/// What searching from a power of two finds is a power of two, at least
/// `x`, and less than twice `x` unless it is where the search started.
proof fn lemma_pow2_at_least(x: nat, p: nat)
    requires
        is_power_of_two(p),
    ensures
        is_power_of_two(pow2_at_least(x, p)),
        pow2_at_least(x, p) >= x,
        pow2_at_least(x, p) >= p,
        pow2_at_least(x, p) == p || pow2_at_least(x, p) < 2 * x,
    decreases (if p < x { x - p } else { 0 }),
{
    if p < x {
        assert(p > 0);
        lemma_double_is_power_of_two(p);
        lemma_pow2_at_least(x, 2 * p);
    }
}

/// The smallest power of two that is at least `x`; 1 for 0.
pub fn next_power_of_two(x: usize) -> (r: usize)
    requires
        2 * x <= usize::MAX + 1,
    ensures
        r == next_pow2(x as nat),
        is_power_of_two(r as nat),
        r >= x,
        x > 0 ==> r < 2 * x,
{
    proof {
        lemma_pow2_at_least(x as nat, 1);
    }
    let mut p: usize = 1;
    while p < x
        invariant
            1 <= p,
            is_power_of_two(p as nat),
            p < 2 * x || p == 1,
            pow2_at_least(x as nat, p as nat) == next_pow2(x as nat),
            2 * x <= usize::MAX + 1,
        decreases (if p < x { x - p } else { 0 }),
    {
        proof { lemma_double_is_power_of_two(p as nat); }
        p = p * 2;
    }
    p
}

/// Make room for `required` instances in a batch buffer of `capacity`.
/// Returns whether the buffer has to be reallocated, and the new capacity:
/// the next power of two of the largest of `capacity`, 1 and `required`.
pub fn ensure_capacity(capacity: usize, required: usize) -> (r: (bool, usize))
    requires
        required > capacity ==> 2 * required <= usize::MAX + 1,
    ensures
        required <= capacity ==> r == (false, capacity),
        required > capacity ==> r.0 && r.1 == next_pow2(required as nat),
        r.1 >= required,
{
    if required <= capacity {
        return (false, capacity);
    }
    let m = if capacity > 1 { capacity } else { 1 };
    let m = if m > required { m } else { required };
    (true, next_power_of_two(m))
}

/// A cursor over a ring of `SIZE` buffers: which buffer is current, and how
/// many have been used since the ring was made (at most `SIZE`).
#[derive(Clone, Copy, Debug)]
pub struct RingBuffer<const SIZE: usize> {
    current_buffer: usize,
    count: usize,
}

impl<const SIZE: usize> RingBuffer<SIZE> {
    /// Index of the current buffer.
    pub closed spec fn spec_current(&self) -> nat {
        self.current_buffer as nat
    }

    /// Number of buffers used, at most `SIZE`.
    pub closed spec fn spec_count(&self) -> nat {
        self.count as nat
    }

    /// A ring on its first buffer, none used yet.
    pub fn new() -> (r: RingBuffer<SIZE>)
        ensures
            r.spec_current() == 0,
            r.spec_count() == 0,
    {
        RingBuffer { current_buffer: 0, count: 0 }
    }

    /// Move on to the next buffer, wrapping around after the last.
    pub fn advance(&mut self)
        requires
            SIZE > 0,
            old(self).spec_current() < SIZE,
        ensures
            final(self).spec_current() == (old(self).spec_current() + 1) % (SIZE as nat),
            final(self).spec_count() == if old(self).spec_count() < SIZE { old(self).spec_count() + 1 } else {
                old(self).spec_count()
            },
    {
        self.current_buffer = (self.current_buffer + 1) % SIZE;
        if self.count < SIZE {
            self.count = self.count + 1;
        }
    }

    /// Index of the current buffer.
    pub fn current_buffer(&self) -> (i: usize)
        ensures
            i == self.spec_current(),
    {
        self.current_buffer
    }

    /// Number of buffers used so far, at most `SIZE`.
    pub fn count(&self) -> (n: usize)
        ensures
            n == self.spec_count(),
    {
        self.count
    }
}

/// After `k` advances from a new ring, the current buffer is `k mod SIZE`
/// and `min(k, SIZE)` buffers have been used.
pub proof fn lemma_ring_after_advances(size: nat, k: nat)
    requires
        size > 0,
    ensures
        ring_state(size, k).0 == k % size,
        ring_state(size, k).1 == if k < size { k } else { size },
    decreases k,
{
    if k > 0 {
        lemma_ring_after_advances(size, (k - 1) as nat);
        let prev = (k - 1) as nat;
        assert(((prev % size) + 1) % size == k % size) by {
            if size == 1 {
                assert(((prev % size) + 1) % size == 0);
                assert(k % size == 0);
            } else {
                vstd::arithmetic::div_mod::lemma_add_mod_noop(prev as int, 1, size as int);
                vstd::arithmetic::div_mod::lemma_small_mod(1, size);
            }
        }
        let (c, n) = ring_state(size, prev);
        assert(c == prev % size);
        assert(n == if prev < size { prev } else { size });
        assert(ring_state(size, k).0 == (c + 1) % size);
        assert(ring_state(size, k).1 == if k < size { k } else { size });
        assert(ring_state(size, k).0 == k % size);
    }
}

/// The (current buffer, used count) of a ring of `size` after `k` advances
/// from new, step by step.
pub open spec fn ring_state(size: nat, k: nat) -> (nat, nat)
    decreases k,
{
    if k == 0 {
        (0, 0)
    } else {
        let (c, n) = ring_state(size, (k - 1) as nat);
        ((c + 1) % size, if n < size { n + 1 } else { n })
    }
}

} // verus!
