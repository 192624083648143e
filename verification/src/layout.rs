//! The arithmetic of a stack frame: how much room a sequence of slots takes
//! and where in the frame each of them lies.

use vstd::prelude::*;
use crate::ir::StackSlot;

verus! {

/// The least multiple of `a` that is not below `n`.
pub open spec fn align_up(n: nat, a: nat) -> nat {
    if n % a == 0 {
        n
    } else {
        (n + a - n % a) as nat
    }
}

/// The bytes that `slots` take when they are laid out one after another,
/// each one padded to a multiple of its own size.
pub open spec fn packed_size(slots: Seq<StackSlot>) -> nat
    decreases slots.len(),
{
    if slots.len() == 0 {
        0
    } else {
        align_up(packed_size(slots.drop_last()), slots.last().size().bytes())
            + slots.last().size().bytes()
    }
}

/// The size of the frame that holds `slots`: their packed size, rounded up
/// to a multiple of 16.
pub open spec fn frame_size(slots: Seq<StackSlot>) -> nat {
    align_up(packed_size(slots), 16)
}

/// The distance from the bottom of the frame to the slot at position `k`.
/// The slots are laid out from the top of the frame downwards, so the first
/// one lies highest.
pub open spec fn slot_offset(slots: Seq<StackSlot>, k: int) -> int {
    frame_size(slots) - packed_size(slots.take(k + 1))
}

/// Rounds `n` up to a multiple of `a`.
pub fn round_up(n: u16, a: u16) -> (rounded: u16)
    requires
        a > 0,
        align_up(n as nat, a as nat) <= u16::MAX,
    ensures
        rounded == align_up(n as nat, a as nat),
{
    let rest: u16 = n % a;
    if rest == 0 {
        n
    } else {
        n + (a - rest)
    }
}

/// Whether `a` is the size in bytes of a slot.
pub open spec fn is_slot_size(a: nat) -> bool {
    a == 1 || a == 2 || a == 4 || a == 8
}

/// Rounding up gives a multiple that is less than one step away.
pub proof fn lemma_align_up(n: nat, a: nat)
    requires
        is_slot_size(a) || a == 16,
    ensures
        align_up(n, a) % a == 0,
        n <= align_up(n, a) < n + a,
{
    if a == 1 {
        assert(align_up(n, 1) % 1 == 0);
    } else if a == 2 {
        assert(align_up(n, 2) % 2 == 0);
    } else if a == 4 {
        assert(align_up(n, 4) % 4 == 0);
    } else if a == 8 {
        assert(align_up(n, 8) % 8 == 0);
    } else {
        assert(align_up(n, 16) % 16 == 0);
    }
}

/// In a frame whose size is a multiple of 16, rounding the room that is
/// left above `used` bytes down to a slot size is rounding `used` up.
proof fn lemma_round_down(frame: nat, used: nat, a: nat)
    requires
        is_slot_size(a),
        frame % 16 == 0,
        used <= frame,
    ensures
        (frame - used) - (frame - used) % (a as int) == frame - align_up(used, a),
{
    if a == 1 {
    } else if a == 2 {
    } else if a == 4 {
    } else {
    }
}

/// A multiple of 16 less a multiple of a slot size is a multiple of that size.
proof fn lemma_aligned_difference(frame: nat, used: nat, a: nat)
    requires
        is_slot_size(a),
        frame % 16 == 0,
        used % a == 0,
        used <= frame,
    ensures
        (frame - used) % (a as int) == 0,
{
    if a == 1 {
        assert((frame - used) % 1 == 0);
    } else if a == 2 {
        assert(used % 2 == 0);
        assert((frame - used) % 2 == 0);
    } else if a == 4 {
        assert(used % 4 == 0);
        assert((frame - used) % 4 == 0);
    } else {
        assert(used % 8 == 0);
        assert((frame - used) % 8 == 0);
    }
}

/// What one more slot adds to the packed size of those before it.
pub proof fn lemma_packed_step(slots: Seq<StackSlot>, k: int)
    requires
        0 <= k < slots.len(),
    ensures
        packed_size(slots.take(k + 1)) == align_up(
            packed_size(slots.take(k)),
            slots[k].size().bytes(),
        ) + slots[k].size().bytes(),
{
    assert(slots.take(k + 1).drop_last() =~= slots.take(k));
}

/// A longer prefix of the slots never takes less room than a shorter one.
pub proof fn lemma_packed_monotone(slots: Seq<StackSlot>, j: int, k: int)
    requires
        0 <= j <= k <= slots.len(),
    ensures
        packed_size(slots.take(j)) <= packed_size(slots.take(k)),
    decreases k - j,
{
    if j < k {
        lemma_packed_step(slots, k - 1);
        lemma_packed_monotone(slots, j, k - 1);
    }
}

/// The packed size of any prefix fits in the frame.
pub proof fn lemma_prefix_fits(slots: Seq<StackSlot>, k: int)
    requires
        0 <= k <= slots.len(),
    ensures
        packed_size(slots.take(k)) <= packed_size(slots) <= frame_size(slots),
{
    lemma_packed_monotone(slots, k, slots.len() as int);
    assert(slots.take(slots.len() as int) =~= slots);
}

/// The frame size is a multiple of 16.
pub proof fn lemma_frame_aligned(slots: Seq<StackSlot>)
    ensures
        frame_size(slots) % 16 == 0,
{
    lemma_align_up(packed_size(slots), 16);
}

/// Every slot lies inside the frame, at a multiple of its own size.
pub proof fn lemma_slot_in_frame(slots: Seq<StackSlot>, k: int)
    requires
        0 <= k < slots.len(),
    ensures
        0 <= slot_offset(slots, k),
        slot_offset(slots, k) % (slots[k].size().bytes() as int) == 0,
        slot_offset(slots, k) + slots[k].size().bytes() <= frame_size(slots),
        slot_offset(slots, k) < frame_size(slots),
{
    let size = slots[k].size().bytes();
    let below = packed_size(slots.take(k));
    lemma_packed_step(slots, k);
    lemma_prefix_fits(slots, k + 1);
    lemma_align_up(below, size);
    lemma_align_up(packed_size(slots), 16);
    assert((align_up(below, size) + size) % size == 0) by {
        if size == 1 {
        } else if size == 2 {
        } else if size == 4 {
        } else {
        }
    }
    lemma_aligned_difference(frame_size(slots), packed_size(slots.take(k + 1)), size);
}

/// Two slots of one frame share no byte: the later one ends where the
/// earlier one begins, or below.
pub proof fn lemma_slots_disjoint(slots: Seq<StackSlot>, i: int, j: int)
    requires
        0 <= i < j < slots.len(),
    ensures
        slot_offset(slots, j) + slots[j].size().bytes() <= slot_offset(slots, i),
{
    lemma_packed_step(slots, j);
    lemma_packed_monotone(slots, i + 1, j);
    lemma_align_up(packed_size(slots.take(j)), slots[j].size().bytes());
}

/// Going one slot down from the top: rounding the room that is left down to
/// the slot's size and taking the slot off gives the slot's offset.
pub proof fn lemma_offset_step(slots: Seq<StackSlot>, k: int)
    requires
        0 <= k < slots.len(),
    ensures
        ({
            let above = frame_size(slots) - packed_size(slots.take(k));
            let size = slots[k].size().bytes() as int;
            slot_offset(slots, k) == above - above % size - size
        }),
{
    lemma_packed_step(slots, k);
    lemma_prefix_fits(slots, k);
    lemma_align_up(packed_size(slots), 16);
    lemma_round_down(frame_size(slots), packed_size(slots.take(k)), slots[k].size().bytes());
}

} // verus!
