//! 32-bit masks as sets of tile positions.

use vstd::prelude::*;
use vstd::set_lib::*;

verus! {

/// Whether bit `i` of `m` is set; false outside `0..32`.
pub open spec fn bit(m: u32, i: int) -> bool {
    0 <= i < 32 && (m >> (i as u32)) & 1u32 == 1u32
}

/// The positions whose bits are set in `m`, among those below `n`.
pub open spec fn mask_set_below(m: u32, n: int) -> Set<int> {
    set_int_range(0, n).filter(|i: int| bit(m, i))
}

/// The positions whose bits are set in `m`.
pub open spec fn mask_set(m: u32) -> Set<int> {
    mask_set_below(m, 32)
}

/// The number of set bits of `m`.
pub open spec fn popcount(m: u32) -> nat {
    mask_set(m).len()
}

/// Whether some entry of `pos` equals `i`.
pub open spec fn lists(pos: Seq<usize>, i: int) -> bool {
    exists|j: int| 0 <= j < pos.len() && pos[j] as int == i
}

pub proof fn lemma_or_bit(m: u32, p: u32, i: u32)
    requires
        p < 32,
        i < 32,
    ensures
        ((m | (1u32 << p)) >> i) & 1u32 == 1u32 <==> ((m >> i) & 1u32 == 1u32 || i == p),
{
    assert(((m | (1u32 << p)) >> i) & 1u32 == 1u32 <==> ((m >> i) & 1u32 == 1u32 || i == p))
        by (bit_vector)
        requires
            p < 32,
            i < 32,
    ;
}

proof fn lemma_test_bit(n: u32, i: u32)
    requires
        i < 32,
    ensures
        (n & (1u32 << i)) == (1u32 << i) <==> (n >> i) & 1u32 == 1u32,
{
    assert((n & (1u32 << i)) == (1u32 << i) <==> (n >> i) & 1u32 == 1u32) by (bit_vector)
        requires
            i < 32,
    ;
}

proof fn lemma_shift_step(n: u32, i: u32)
    requires
        i < 32,
    ensures
        (n >> i) >> 1u32 == n >> ((i + 1) as u32),
        (n >> i) & 1u32 == 1u32 || (n >> i) & 1u32 == 0u32,
{
    assert((n >> i) >> 1u32 == n >> ((i + 1) as u32)) by (bit_vector)
        requires
            i < 32,
    ;
    assert((n >> i) & 1u32 == 1u32 || (n >> i) & 1u32 == 0u32) by (bit_vector);
}

pub proof fn lemma_zero_bits(i: u32)
    ensures
        (0u32 >> i) & 1u32 == 0u32,
{
    assert((0u32 >> i) & 1u32 == 0u32) by (bit_vector);
}

/// Clearing the bits of `r` from `t`, written `t ^ (r & t)`.
pub proof fn lemma_clear_bits(t: u32, r: u32, i: u32)
    ensures
        ((t ^ (r & t)) >> i) & 1u32 == 1u32 <==> ((t >> i) & 1u32 == 1u32 && !((r >> i) & 1u32
            == 1u32)),
{
    assert(((t ^ (r & t)) >> i) & 1u32 == 1u32 <==> ((t >> i) & 1u32 == 1u32 && !((r >> i) & 1u32
        == 1u32))) by (bit_vector);
}

pub proof fn lemma_mask_set_finite(m: u32, n: int)
    requires
        0 <= n,
    ensures
        mask_set_below(m, n).finite(),
        mask_set_below(m, n).len() <= n,
{
    lemma_int_range(0, n);
    set_int_range(0, n).lemma_len_filter(|i: int| bit(m, i));
}

/// The mask with a bit set for each listed position, or an error when a
/// position does not fit in 32 bits.
pub fn bitmap_for_pos(pos_list: &[usize]) -> (r: Result<u32, crate::errors::InvalidError>)
    ensures
        r is Err <==> exists|j: int| 0 <= j < pos_list@.len() && pos_list@[j] >= 32,
        r matches Ok(m) ==> forall|i: int| bit(m, i) <==> lists(pos_list@, i),
{
    let mut bm: u32 = 0;
    let mut k: usize = 0;
    proof {
        assert forall|i: int| bit(bm, i) <==> lists(pos_list@.take(0), i) by {
            if 0 <= i < 32 {
                lemma_zero_bits(i as u32);
            }
        }
    }
    while k < pos_list.len()
        invariant
            k <= pos_list@.len(),
            forall|j: int| 0 <= j < k ==> pos_list@[j] < 32,
            forall|i: int| bit(bm, i) <==> lists(pos_list@.take(k as int), i),
        decreases pos_list@.len() - k,
    {
        let pos = pos_list[k];
        if pos > 31 {
            return Err(crate::errors::InvalidError::new(
                "bitmap_for_pos only takes member values 0 <= x < 32",
            ));
        }
        let old_bm = bm;
        bm = bm | (1u32 << pos as u32);
        proof {
            let before = pos_list@.take(k as int);
            let after = pos_list@.take(k as int + 1);
            assert forall|i: int| bit(bm, i) <==> lists(after, i) by {
                if 0 <= i < 32 {
                    lemma_or_bit(old_bm, pos as u32, i as u32);
                }
                if lists(after, i) {
                    let j = choose|j: int| 0 <= j < after.len() && after[j] as int == i;
                    if j < k {
                        assert(before[j] == after[j]);
                        assert(lists(before, i));
                    } else {
                        assert(after[j] == pos);
                    }
                }
                if lists(before, i) {
                    let j = choose|j: int| 0 <= j < before.len() && before[j] as int == i;
                    assert(after[j] == before[j]);
                    assert(lists(after, i));
                }
                if i == pos as int {
                    assert(after[k as int] == pos);
                    assert(lists(after, i));
                }
                if bit(bm, i) {
                    assert(bit(old_bm, i) || i == pos as int);
                }
            }
        }
        k = k + 1;
    }
    proof {
        assert(pos_list@.take(k as int) =~= pos_list@);
    }
    Ok(bm)
}

/// The positions of the set bits, in increasing order.
pub fn pos_from_bitmap(bitmap: &u32) -> (r: Vec<usize>)
    ensures
        forall|k: int| 0 <= k < r@.len() ==> bit(*bitmap, r@[k] as int),
        forall|i: int| bit(*bitmap, i) ==> lists(r@, i),
        forall|a: int, b: int| 0 <= a < b < r@.len() ==> r@[a] < r@[b],
{
    let mut res: Vec<usize> = Vec::new();
    let mut i: usize = 0;
    while i < 32
        invariant
            i <= 32,
            forall|k: int| 0 <= k < res@.len() ==> bit(*bitmap, res@[k] as int) && res@[k] < i,
            forall|p: int| 0 <= p < i && bit(*bitmap, p) ==> lists(res@, p),
            forall|a: int, b: int| 0 <= a < b < res@.len() ==> res@[a] < res@[b],
        decreases 32 - i,
    {
        if is_bit_set(bitmap, i) {
            let ghost before = res@;
            res.push(i);
            proof {
                assert forall|p: int| 0 <= p < i + 1 && bit(*bitmap, p) implies lists(res@, p) by {
                    if p < i {
                        let j = choose|j: int| 0 <= j < before.len() && before[j] as int == p;
                        assert(res@[j] == before[j]);
                    } else {
                        assert(res@[before.len() as int] == i);
                    }
                }
            }
        }
        i = i + 1;
    }
    res
}

/// The number of set bits.
pub fn num_ones(num: &u32) -> (r: u32)
    ensures
        r == popcount(*num),
        r <= 32,
{
    let mut x: u32 = *num;
    let mut s: u32 = 0;
    let mut k: u32 = 0;
    proof {
        assert(mask_set_below(*num, 0) =~= Set::empty());
        assert(*num >> 0u32 == *num) by (bit_vector);
    }
    while k < 32
        invariant
            k <= 32,
            x == *num >> k,
            s == mask_set_below(*num, k as int).len(),
            s <= k,
        decreases 32 - k,
    {
        proof {
            lemma_shift_step(*num, k);
            lemma_mask_set_finite(*num, k as int);
            let lo = mask_set_below(*num, k as int);
            let hi = mask_set_below(*num, k as int + 1);
            if bit(*num, k as int) {
                assert(hi =~= lo.insert(k as int));
            } else {
                assert(hi =~= lo);
            }
        }
        s = s + (x & 1u32);
        x = x >> 1u32;
        k = k + 1;
    }
    s
}

/// Whether bit `idx` of `num` is set; false for positions past the width.
pub fn is_bit_set(num: &u32, idx: usize) -> (r: bool)
    ensures
        r == bit(*num, idx as int),
{
    if idx >= 32 {
        return false;
    }
    let m: u32 = 1u32 << idx as u32;
    proof {
        lemma_test_bit(*num, idx as u32);
    }
    *num & m == m
}

} // verus!
