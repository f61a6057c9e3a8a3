//! Decoding of compositor-pushed tag state.
//!
//! A tag is one workspace bit in a `u32` bitmask: tag index `n` stands for
//! the mask `1 << n`. The compositor pushes two kinds of state: a `focused`
//! bitmask, and a byte stream holding one little-endian `u32` mask per view
//! (window), the `occupied` list.

use vstd::prelude::*;

verus! {

/// The `u32` assembled from four bytes in little-endian order.
pub open spec fn u32_le(b0: u8, b1: u8, b2: u8, b3: u8) -> u32 {
    (b0 as u32) | ((b1 as u32) << 8) | ((b2 as u32) << 16) | ((b3 as u32) << 24)
}

/// True when tag index `n` is set in `mask`.
pub open spec fn tag_in_mask(mask: u32, n: u32) -> bool
    recommends
        n < 32,
{
    mask & (1u32 << n) != 0
}

/// True when some view's mask has tag index `n` set.
pub open spec fn tag_occupied(views: Seq<u32>, n: u32) -> bool
    recommends
        n < 32,
{
    exists|i: int| 0 <= i < views.len() && tag_in_mask(views[i], n)
}

/// The lowest set bit of `mask` at index `n` or above, if any.
pub open spec fn focus_scan(mask: u32, n: u32) -> Option<u32>
    recommends
        n <= 32,
    decreases 32 - n,
{
    if n >= 32 {
        None
    } else if tag_in_mask(mask, n) {
        Some(n)
    } else {
        focus_scan(mask, (n + 1) as u32)
    }
}

/// The canonical focused tag index of a focused-tags bitmask: the lowest set
/// bit, scanning upward from bit 0. `None` when no bit is set.
pub open spec fn focused_index(mask: u32) -> Option<u32> {
    focus_scan(mask, 0)
}

/// Splits a raw byte stream into little-endian 4-byte groups, one `u32` view
/// mask per group, in input order. A trailing group of fewer than 4 bytes is
/// dropped.
pub fn decode_view_tags(bytes: &Vec<u8>) -> (views: Vec<u32>)
    ensures
        views@.len() == bytes@.len() / 4,
        forall|i: int|
            0 <= i < views@.len() ==> views@[i] == u32_le(
                bytes@[4 * i],
                bytes@[4 * i + 1],
                bytes@[4 * i + 2],
                bytes@[4 * i + 3],
            ),
{
    let n = bytes.len() / 4;
    let mut views: Vec<u32> = Vec::new();
    let mut i: usize = 0;
    while i < n
        invariant
            n == bytes@.len() / 4,
            4 * n <= bytes@.len() <= usize::MAX,
            i <= n,
            views@.len() == i,
            forall|j: int|
                0 <= j < i ==> views@[j] == u32_le(
                    bytes@[4 * j],
                    bytes@[4 * j + 1],
                    bytes@[4 * j + 2],
                    bytes@[4 * j + 3],
                ),
        decreases n - i,
    {
        let b0 = bytes[4 * i];
        let b1 = bytes[4 * i + 1];
        let b2 = bytes[4 * i + 2];
        let b3 = bytes[4 * i + 3];
        let v = (b0 as u32) | ((b1 as u32) << 8) | ((b2 as u32) << 16) | ((b3 as u32) << 24);
        views.push(v);
        i = i + 1;
    }
    views
}

/// True when tag index `n` is set in `mask`.
pub fn is_tag_in_mask(mask: u32, n: u32) -> (r: bool)
    requires
        n < 32,
    ensures
        r == tag_in_mask(mask, n),
{
    mask & (1u32 << n) != 0
}

/// True when some view's mask has tag index `n` set.
pub fn is_tag_occupied(views: &Vec<u32>, n: u32) -> (r: bool)
    requires
        n < 32,
    ensures
        r == tag_occupied(views@, n),
{
    let mut i: usize = 0;
    while i < views.len()
        invariant
            n < 32,
            i <= views@.len(),
            forall|j: int| 0 <= j < i ==> !tag_in_mask(views@[j], n),
        decreases views@.len() - i,
    {
        if is_tag_in_mask(views[i], n) {
            return true;
        }
        i = i + 1;
    }
    false
}

/// The canonical focused tag index of `mask`: the lowest set bit, or `None`
/// when `mask` is 0.
pub fn resolve_focused(mask: u32) -> (r: Option<u32>)
    ensures
        r == focused_index(mask),
{
    let mut n: u32 = 0;
    while n < 32
        invariant
            n <= 32,
            focused_index(mask) == focus_scan(mask, n),
        decreases 32 - n,
    {
        if mask & (1u32 << n) != 0 {
            return Some(n);
        }
        n = n + 1;
    }
    None
}

/// Scanning from bit `k` reaches bit `n` when bit `n` is set and every bit
/// from `k` up to `n` is clear.
proof fn lemma_scan_reaches(mask: u32, k: u32, n: u32)
    requires
        k <= n < 32,
        tag_in_mask(mask, n),
        forall|m: u32| k <= m < n ==> !tag_in_mask(mask, m),
    ensures
        focus_scan(mask, k) == Some(n),
    decreases n - k,
{
    if k < n {
        assert(!tag_in_mask(mask, k));
        lemma_scan_reaches(mask, (k + 1) as u32, n);
    }
}

/// Round trip: encoding a tag index `n` as the mask `1 << n` and resolving
/// that mask's focused index returns `n`.
pub proof fn lemma_focus_round_trip(n: u32)
    requires
        n < 32,
    ensures
        focused_index(1u32 << n) == Some(n),
{
    let mask = 1u32 << n;
    assert((1u32 << n) & (1u32 << n) != 0) by (bit_vector)
        requires
            n < 32,
    ;
    assert forall|m: u32| 0 <= m < n implies !tag_in_mask(mask, m) by {
        assert((1u32 << n) & (1u32 << m) == 0) by (bit_vector)
            requires
                m < n < 32,
        ;
    }
    lemma_scan_reaches(mask, 0, n);
}

} // verus!
