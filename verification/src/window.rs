//! The circular window `[head, tail)` of a ring of `n` slots.
//!
//! A ring keeps two positions, `head` and `tail`, both in `[0, n)`. The slots
//! that are ready to be consumed start at `head` and run, wrapping at the end
//! of the slot array, up to but excluding `tail`. This module holds the
//! arithmetic of that window as specification functions over `int`, and the
//! facts about it that the rest of the crate builds on.

use vstd::prelude::*;
use vstd::arithmetic::div_mod::{lemma_mod_add_multiples_vanish, lemma_mod_self_0, lemma_small_mod};

verus! {

/// Both positions lie inside a ring of `n` slots.
pub open spec fn positions_in_range(head: int, tail: int, n: int) -> bool {
    0 <= head < n && 0 <= tail < n
}

/// The position that follows `head` in a ring of `n` slots.
pub open spec fn spec_next_head(head: int, n: int) -> int {
    if head + 1 >= n {
        0
    } else {
        head + 1
    }
}

/// Whether `index` may be read through the window `[head, tail)`.
///
/// With `head < tail` the window is the contiguous range `head..tail`. With
/// `head >= tail` it is the end of the slot array from `head` on, together
/// with the start of the array before `tail`.
pub open spec fn in_window(head: int, tail: int, n: int, index: int) -> bool {
    if head < tail {
        head <= index < tail
    } else {
        (head <= index < n) || (0 <= index < tail)
    }
}

/// How many slots are queued between `head` and `tail`.
pub open spec fn window_len(head: int, tail: int, n: int) -> int {
    if head <= tail {
        tail - head
    } else {
        n - head + tail
    }
}

/// The position of the `k`-th queued slot, counting from `head`.
pub open spec fn window_at(head: int, n: int, k: int) -> int {
    if head + k < n {
        head + k
    } else {
        head + k - n
    }
}

/// How many steps lead from `head` to `index`, going round the ring: the
/// inverse of [`window_at`].
pub open spec fn window_rank(head: int, n: int, index: int) -> int {
    if index >= head {
        index - head
    } else {
        index + n - head
    }
}

/// The positions of the queued slots in the order in which they are consumed.
pub open spec fn window_indices(head: int, tail: int, n: int) -> Seq<int> {
    Seq::new(window_len(head, tail, n) as nat, |k: int| window_at(head, n, k))
}

/// The step from one position to the next is an increment modulo `n`, and
/// stays inside the ring.
pub proof fn lemma_next_head_is_increment_mod(head: int, n: int)
    requires
        0 <= head < n,
    ensures
        spec_next_head(head, n) == (head + 1) % n,
        0 <= spec_next_head(head, n) < n,
{
    if head + 1 >= n {
        lemma_mod_self_0(n);
    } else {
        lemma_small_mod((head + 1) as nat, n as nat);
    }
}

/// The `k`-th queued position is `head + k` modulo `n`, and lies inside the
/// ring.
pub proof fn lemma_window_at_is_offset_mod(head: int, n: int, k: int)
    requires
        0 <= head < n,
        0 <= k < n,
    ensures
        window_at(head, n, k) == (head + k) % n,
        0 <= window_at(head, n, k) < n,
{
    if head + k < n {
        lemma_small_mod((head + k) as nat, n as nat);
    } else {
        lemma_small_mod((head + k - n) as nat, n as nat);
        lemma_mod_add_multiples_vanish(head + k - n, n);
    }
}

/// The number of queued slots is `tail - head` modulo `n`; a ring never
/// queues all of its slots.
pub proof fn lemma_window_len_is_distance_mod(head: int, tail: int, n: int)
    requires
        positions_in_range(head, tail, n),
    ensures
        window_len(head, tail, n) == (tail - head) % n,
        0 <= window_len(head, tail, n) < n,
        window_len(head, tail, n) == 0 <==> head == tail,
{
    if head <= tail {
        lemma_small_mod((tail - head) as nat, n as nat);
    } else {
        lemma_small_mod((n - head + tail) as nat, n as nat);
        lemma_mod_add_multiples_vanish(tail - head, n);
    }
}

/// Every queued position passes the window check.
pub proof fn lemma_queued_position_is_in_window(head: int, tail: int, n: int, k: int)
    requires
        positions_in_range(head, tail, n),
        0 <= k < window_len(head, tail, n),
    ensures
        in_window(head, tail, n, window_at(head, n, k)),
        window_indices(head, tail, n)[k] == window_at(head, n, k),
{
}

/// Going `k` steps from `head` and counting the steps back gives `k`, and the
/// other way round.
pub proof fn lemma_window_rank_inverts_window_at(head: int, n: int, k: int)
    requires
        0 <= head < n,
        0 <= k < n,
    ensures
        window_rank(head, n, window_at(head, n, k)) == k,
        window_at(head, n, window_rank(head, n, k)) == k,
        0 <= window_rank(head, n, k) < n,
{
}

/// In a ring that is not empty, a position passes the window check exactly
/// when fewer steps lead to it from `head` than slots are queued.
pub proof fn lemma_in_window_iff_rank_below_len(head: int, tail: int, n: int, index: int)
    requires
        positions_in_range(head, tail, n),
        head != tail,
        0 <= index < n,
    ensures
        in_window(head, tail, n, index) <==> window_rank(head, n, index) < window_len(
            head,
            tail,
            n,
        ),
{
}

/// In a ring that is not empty, a position passes the window check exactly
/// when it is one of the queued positions.
pub proof fn lemma_in_window_iff_queued(head: int, tail: int, n: int, index: int)
    requires
        positions_in_range(head, tail, n),
        head != tail,
    ensures
        in_window(head, tail, n, index) <==> window_indices(head, tail, n).contains(index),
{
    let s = window_indices(head, tail, n);
    if in_window(head, tail, n, index) {
        let k = if index >= head {
            index - head
        } else {
            index + n - head
        };
        assert(0 <= k < s.len());
        assert(s[k] == index);
    }
    if s.contains(index) {
        let k = choose|k: int| 0 <= k < s.len() && s[k] == index;
        lemma_queued_position_is_in_window(head, tail, n, k);
    }
}

/// With `head == tail` nothing is queued, yet every position of the ring
/// passes the window check.
pub proof fn lemma_empty_window(head: int, n: int, index: int)
    requires
        0 <= head < n,
    ensures
        window_indices(head, head, n) =~= Seq::<int>::empty(),
        in_window(head, head, n, index) <==> 0 <= index < n,
{
}

/// No position is queued twice.
pub proof fn lemma_queued_positions_distinct(head: int, tail: int, n: int, j: int, k: int)
    requires
        positions_in_range(head, tail, n),
        0 <= j < window_len(head, tail, n),
        0 <= k < window_len(head, tail, n),
        j != k,
    ensures
        window_at(head, n, j) != window_at(head, n, k),
{
}

/// Consuming the slot at `head` removes the first queued position and keeps
/// the others in order.
pub proof fn lemma_window_after_step(head: int, tail: int, n: int)
    requires
        positions_in_range(head, tail, n),
        head != tail,
    ensures
        window_len(spec_next_head(head, n), tail, n) == window_len(head, tail, n) - 1,
        window_indices(head, tail, n)[0] == head,
        window_indices(spec_next_head(head, n), tail, n) =~= window_indices(
            head,
            tail,
            n,
        ).drop_first(),
{
}

} // verus!
