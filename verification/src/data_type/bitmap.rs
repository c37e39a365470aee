//! Fixed-size bitmap of `N` bits stored MSB-first in `W` 32-bit words.
//!
//! Bit `pos` lives in word `pos / 32` at bit `31 - pos % 32`, so the first
//! position of a word is its most significant bit.

use vstd::prelude::*;
use vstd::std_specs::bits::{u32_leading_zeros, axiom_u32_leading_zeros};

verus! {

/// Bit `b` (0 = least significant) of `w`.
pub open spec fn word_bit(w: u32, b: int) -> bool {
    (w >> (b as u32)) & 1u32 == 1u32
}

/// Whether position `p` is set in the words `data` (MSB-first layout).
pub open spec fn pos_bit(data: Seq<u32>, p: int) -> bool {
    word_bit(data[p / 32], 31 - p % 32)
}

/// Number of set bits among the `k` most significant bits of `w`.
pub open spec fn ones_from_top(w: u32, k: int) -> nat
    decreases k,
{
    if k <= 0 {
        0
    } else {
        ones_from_top(w, k - 1) + (if word_bit(w, 31 - (k - 1)) { 1nat } else { 0nat })
    }
}

/// Number of `true` entries of `s`.
pub open spec fn num_set(s: Seq<bool>) -> nat
    decreases s.len(),
{
    if s.len() == 0 {
        0
    } else {
        num_set(s.drop_last()) + (if s.last() { 1nat } else { 0nat })
    }
}

/// Number of set positions below `k` in `data`.
spec fn set_below(data: Seq<u32>, k: int) -> nat
    decreases k,
{
    if k <= 0 {
        0
    } else {
        set_below(data, k - 1) + (if pos_bit(data, k - 1) { 1nat } else { 0nat })
    }
}

/// The number of one bits of `x`.
fn word_count_ones(x: u32) -> (r: u32)
    ensures
        r == ones_from_top(x, 32),
{
    let mut count: u32 = 0;
    let mut k: u32 = 0;
    while k < 32
        invariant
            k <= 32,
            count == ones_from_top(x, k as int),
        decreases 32 - k,
    {
        proof {
            lemma_ones_from_top_bound(x, k as int);
        }
        if (x >> (31 - k)) & 1 == 1 {
            count = count + 1;
        }
        k = k + 1;
    }
    count
}

proof fn lemma_or_bit(w: u32, b: u32, j: u32)
    by (bit_vector)
    requires
        b < 32,
        j < 32,
    ensures
        ((w | (1u32 << b)) >> j) & 1u32 == (if j == b { 1u32 } else { (w >> j) & 1u32 }),
{
}

proof fn lemma_and_not_bit(w: u32, b: u32, j: u32)
    by (bit_vector)
    requires
        b < 32,
        j < 32,
    ensures
        ((w & !(1u32 << b)) >> j) & 1u32 == (if j == b { 0u32 } else { (w >> j) & 1u32 }),
{
}

proof fn lemma_test_bit(w: u32, b: u32)
    by (bit_vector)
    requires
        b < 32,
    ensures
        ((w & (1u32 << b)) != 0u32) == ((w >> b) & 1u32 == 1u32),
{
}

proof fn lemma_not_bit(w: u32, j: u32)
    by (bit_vector)
    requires
        j < 32,
    ensures
        ((!w >> j) & 1u32 == 0u32) == ((w >> j) & 1u32 == 1u32),
        ((!w >> j) & 1u32 != 0u32) == ((w >> j) & 1u32 != 1u32),
{
}

proof fn lemma_all_ones(w: u32, j: u32)
    by (bit_vector)
    requires
        j < 32,
        w == !0u32,
    ensures
        (w >> j) & 1u32 == 1u32,
{
}

proof fn lemma_zero_word(j: u32)
    by (bit_vector)
    requires
        j < 32,
    ensures
        (0u32 >> j) & 1u32 != 1u32,
{
}

/// Splitting a position into its word and bit.
proof fn lemma_pos_split(i: int, j: int)
    requires
        0 <= i,
        0 <= j < 32,
    ensures
        (32 * i + j) / 32 == i,
        (32 * i + j) % 32 == j,
{
    assert((32 * i + j) / 32 == i && (32 * i + j) % 32 == j) by (nonlinear_arith)
        requires
            0 <= i,
            0 <= j < 32,
    ;
}

proof fn lemma_ones_from_top_bound(w: u32, k: int)
    requires
        0 <= k,
    ensures
        ones_from_top(w, k) <= k,
    decreases k,
{
    if k > 0 {
        lemma_ones_from_top_bound(w, k - 1);
    }
}

proof fn lemma_set_below_word(data: Seq<u32>, i: int, j: int)
    requires
        0 <= i < data.len(),
        0 <= j <= 32,
    ensures
        set_below(data, 32 * i + j) == set_below(data, 32 * i) + ones_from_top(data[i], j),
    decreases j,
{
    if j > 0 {
        lemma_set_below_word(data, i, j - 1);
        lemma_pos_split(i, j - 1);
    }
}

proof fn lemma_set_below_bound(data: Seq<u32>, k: int)
    requires
        0 <= k,
    ensures
        set_below(data, k) <= k,
    decreases k,
{
    if k > 0 {
        lemma_set_below_bound(data, k - 1);
    }
}

proof fn lemma_set_below_clear_tail(data: Seq<u32>, n: int, k: int)
    requires
        0 <= n <= k,
        forall|p: int| n <= p < k ==> !pos_bit(data, p),
    ensures
        set_below(data, k) == set_below(data, n),
    decreases k,
{
    if k > n {
        lemma_set_below_clear_tail(data, n, k - 1);
    }
}

proof fn lemma_num_set_of_new(data: Seq<u32>, k: int)
    requires
        0 <= k,
    ensures
        num_set(Seq::new(k as nat, |p: int| pos_bit(data, p))) == set_below(data, k),
    decreases k,
{
    let s = Seq::new(k as nat, |p: int| pos_bit(data, p));
    if k > 0 {
        assert(s.drop_last() =~= Seq::new((k - 1) as nat, |p: int| pos_bit(data, p)));
        lemma_num_set_of_new(data, k - 1);
    }
}

/// Number of `true` entries never exceeds the length.
pub proof fn lemma_num_set_bound(s: Seq<bool>)
    ensures
        num_set(s) <= s.len(),
    decreases s.len(),
{
    if s.len() > 0 {
        lemma_num_set_bound(s.drop_last());
    }
}

/// A fixed-size bitmap of `N` bits held in `W` words.
pub struct BitMap<const N: usize, const W: usize> {
    data: Vec<u32>,
}

impl<const N: usize, const W: usize> View for BitMap<N, W> {
    type V = Seq<bool>;

    /// Bit `p` of the bitmap, for each `p < N`.
    closed spec fn view(&self) -> Seq<bool> {
        Seq::new(N as nat, |p: int| pos_bit(self.data@, p))
    }
}

impl<const N: usize, const W: usize> BitMap<N, W> {
    /// The layout of the words: `W` words hold all `N` bits, and the
    /// positions past `N` stay clear.
    pub closed spec fn wf(&self) -> bool {
        &&& self.data@.len() == W
        &&& N <= 32 * W
        &&& 32 * W <= usize::MAX
        &&& forall|p: int| N <= p < 32 * W ==> !#[trigger] pos_bit(self.data@, p)
    }

    /// The bitmap has `N` bits.
    pub proof fn lemma_view_len(&self)
        ensures
            self@.len() == N,
    {
    }

    /// An empty bitmap: no bit is set.
    pub fn new() -> (r: Self)
        requires
            N <= 32 * W,
            32 * W <= usize::MAX,
        ensures
            r.wf(),
            r@ == Seq::new(N as nat, |p: int| false),
    {
        let data: Vec<u32> = vec![0u32; W];
        let r = BitMap { data };
        assert forall|p: int| 0 <= p < 32 * W implies !#[trigger] pos_bit(r.data@, p) by {
            assert(0 <= p / 32 < W) by (nonlinear_arith)
                requires
                    0 <= p < 32 * W,
            ;
            assert(0 <= 31 - p % 32 < 32);
            lemma_zero_word((31 - p % 32) as u32);
        }
        assert(r@ =~= Seq::new(N as nat, |p: int| false));
        r
    }

    /// Sets bit `pos`; positions at or past `N` are ignored.
    pub fn set(&mut self, pos: usize)
        requires
            old(self).wf(),
        ensures
            final(self).wf(),
            old(self)@.len() == N,
            final(self)@.len() == N,
            final(self)@ == (if pos < N { old(self)@.update(pos as int, true) } else { old(self)@ }),
    {
        if pos < N {
            let index = pos / 32;
            let bit = 31 - (pos % 32);
            assert(index < W) by (nonlinear_arith)
                requires
                    pos < N,
                    N <= 32 * W,
                    index == pos / 32,
            ;
            let w = self.data[index];
            let nw = w | (1u32 << (bit as u32));
            self.data.set(index, nw);
            proof {
                assert forall|p: int| 0 <= p < 32 * W implies #[trigger] pos_bit(self.data@, p)
                    == (if p == pos { true } else { pos_bit(old(self).data@, p) }) by {
                    let pi = p / 32;
                    let pb = 31 - p % 32;
                    assert(0 <= pi < W) by (nonlinear_arith)
                        requires
                            0 <= p < 32 * W,
                            pi == p / 32,
                    ;
                    if pi == index as int {
                        lemma_or_bit(w, bit as u32, pb as u32);
                        if p != pos {
                            assert(pb != bit);
                        }
                    }
                }
                assert(self@ =~= old(self)@.update(pos as int, true));
            }
        }
    }

    /// Clears bit `pos`; positions at or past `N` are ignored.
    pub fn reset(&mut self, pos: usize)
        requires
            old(self).wf(),
        ensures
            final(self).wf(),
            old(self)@.len() == N,
            final(self)@.len() == N,
            final(self)@ == (if pos < N { old(self)@.update(pos as int, false) } else { old(self)@ }),
    {
        if pos < N {
            let index = pos / 32;
            let bit = 31 - (pos % 32);
            assert(index < W) by (nonlinear_arith)
                requires
                    pos < N,
                    N <= 32 * W,
                    index == pos / 32,
            ;
            let w = self.data[index];
            let nw = w & !(1u32 << (bit as u32));
            self.data.set(index, nw);
            proof {
                assert forall|p: int| 0 <= p < 32 * W implies #[trigger] pos_bit(self.data@, p)
                    == (if p == pos { false } else { pos_bit(old(self).data@, p) }) by {
                    let pi = p / 32;
                    let pb = 31 - p % 32;
                    assert(0 <= pi < W) by (nonlinear_arith)
                        requires
                            0 <= p < 32 * W,
                            pi == p / 32,
                    ;
                    if pi == index as int {
                        lemma_and_not_bit(w, bit as u32, pb as u32);
                        if p != pos {
                            assert(pb != bit);
                        }
                    }
                }
                assert(self@ =~= old(self)@.update(pos as int, false));
            }
        }
    }

    /// Whether bit `pos` is set; `false` at or past `N`.
    pub fn test(&self, pos: usize) -> (r: bool)
        requires
            self.wf(),
        ensures
            self@.len() == N,
            r == (pos < N && self@[pos as int]),
    {
        if pos < N {
            let index = pos / 32;
            let bit = 31 - (pos % 32);
            assert(index < W) by (nonlinear_arith)
                requires
                    pos < N,
                    N <= 32 * W,
                    index == pos / 32,
            ;
            let w = self.data[index];
            proof {
                lemma_test_bit(w, bit as u32);
            }
            (w & (1u32 << (bit as u32))) != 0
        } else {
            false
        }
    }

    /// The lowest clear position below `N`, if any.
    pub fn first_zero(&self) -> (r: Option<usize>)
        requires
            self.wf(),
        ensures
            self@.len() == N,
            match r {
                Some(p) => p < N && !self@[p as int] && forall|q: int| 0 <= q < p ==> self@[q],
                None => forall|q: int| 0 <= q < N ==> self@[q],
            },
    {
        broadcast use axiom_u32_leading_zeros;

        let mut i: usize = 0;
        while i < W
            invariant
                self.wf(),
                0 <= i <= W,
                forall|q: int| 0 <= q < N && q < 32 * i ==> #[trigger] pos_bit(self.data@, q),
            decreases W - i,
        {
            let w = self.data[i];
            if w != !0u32 {
                let lz = (!w).leading_zeros();
                assert(lz < 32) by {
                    assert(w != !0u32 ==> !w != 0u32) by (bit_vector);
                }
                let bit = lz as usize;
                assert(32 * i + 32 <= 32 * W) by (nonlinear_arith)
                    requires
                        i < W,
                ;
                let pos = i * 32 + bit;
                proof {
                    assert forall|q: int| 32 * i <= q < pos implies #[trigger] pos_bit(self.data@, q) by {
                        let j = q - 32 * i;
                        lemma_pos_split(i as int, j);
                        lemma_not_bit(w, (31 - j) as u32);
                    }
                    lemma_pos_split(i as int, bit as int);
                    lemma_not_bit(w, (31 - bit) as u32);
                }
                if pos < N {
                    return Some(pos);
                }
            } else {
                proof {
                    assert forall|q: int| 32 * i <= q < 32 * i + 32 implies #[trigger] pos_bit(
                        self.data@,
                        q,
                    ) by {
                        let j = q - 32 * i;
                        lemma_pos_split(i as int, j);
                        lemma_all_ones(w, (31 - j) as u32);
                    }
                }
            }
            i = i + 1;
        }
        proof {
            assert forall|q: int| 0 <= q < N implies self@[q] by {
                assert(pos_bit(self.data@, q));
            }
        }
        None
    }

    /// The lowest set position below `N`, if any.
    pub fn first_one(&self) -> (r: Option<usize>)
        requires
            self.wf(),
        ensures
            self@.len() == N,
            match r {
                Some(p) => p < N && self@[p as int] && forall|q: int| 0 <= q < p ==> !self@[q],
                None => forall|q: int| 0 <= q < N ==> !self@[q],
            },
    {
        broadcast use axiom_u32_leading_zeros;

        let mut i: usize = 0;
        while i < W
            invariant
                self.wf(),
                0 <= i <= W,
                forall|q: int| 0 <= q < N && q < 32 * i ==> !#[trigger] pos_bit(self.data@, q),
            decreases W - i,
        {
            let w = self.data[i];
            assert(32 * i + 32 <= 32 * W) by (nonlinear_arith)
                requires
                    i < W,
            ;
            if w != 0 {
                let lz = w.leading_zeros();
                let bit = lz as usize;
                let pos = i * 32 + bit;
                proof {
                    assert forall|q: int| 32 * i <= q < pos implies !#[trigger] pos_bit(self.data@, q) by {
                        let j = q - 32 * i;
                        lemma_pos_split(i as int, j);
                        assert((w >> ((31 - j) as u32)) & 1u32 == 0u32);
                    }
                    lemma_pos_split(i as int, bit as int);
                    let b = (31 - bit) as u32;
                    assert((w >> b) & 1u32 != 0u32 ==> (w >> b) & 1u32 == 1u32) by (bit_vector);
                }
                if pos < N {
                    return Some(pos);
                }
            } else {
                proof {
                    assert forall|q: int| 32 * i <= q < 32 * i + 32 implies !#[trigger] pos_bit(
                        self.data@,
                        q,
                    ) by {
                        let j = q - 32 * i;
                        lemma_pos_split(i as int, j);
                        lemma_zero_word((31 - j) as u32);
                    }
                }
            }
            i = i + 1;
        }
        proof {
            assert forall|q: int| 0 <= q < N implies !self@[q] by {
                assert(!pos_bit(self.data@, q));
            }
        }
        None
    }

    /// Number of set bits.
    pub fn count_ones(&self) -> (r: usize)
        requires
            self.wf(),
        ensures
            self@.len() == N,
            r == num_set(self@),
    {
        let mut total: usize = 0;
        let mut i: usize = 0;
        while i < W
            invariant
                self.wf(),
                0 <= i <= W,
                total == set_below(self.data@, 32 * i),
            decreases W - i,
        {
            let c = word_count_ones(self.data[i]);
            proof {
                lemma_set_below_word(self.data@, i as int, 32);
                lemma_set_below_bound(self.data@, 32 * i + 32);
                assert(32 * i + 32 <= 32 * W) by (nonlinear_arith)
                    requires
                        i < W,
                ;
            }
            total = total + c as usize;
            i = i + 1;
        }
        proof {
            lemma_set_below_clear_tail(self.data@, N as int, 32 * W);
            lemma_num_set_of_new(self.data@, N as int);
        }
        total
    }

    /// Number of clear bits: `N` minus the number of set bits.
    pub fn count_zeros(&self) -> (r: usize)
        requires
            self.wf(),
        ensures
            r == N - num_set(self@),
    {
        let ones = self.count_ones();
        proof {
            lemma_num_set_bound(self@);
        }
        N - ones
    }
}

/// Setting a clear bit raises the number of set bits by one; clearing a
/// set bit lowers it by one; setting or clearing a bit already in that state
/// changes nothing.
pub proof fn law_set_reset_count(v: Seq<bool>, p: int)
    requires
        0 <= p < v.len(),
    ensures
        num_set(v.update(p, true)) == num_set(v) + (if v[p] { 0int } else { 1int }),
        num_set(v.update(p, false)) == num_set(v) - (if v[p] { 1int } else { 0int }),
    decreases v.len(),
{
    let n = v.len() - 1;
    if p == n {
        assert(v.update(p, true).drop_last() =~= v.drop_last());
        assert(v.update(p, false).drop_last() =~= v.drop_last());
    } else {
        law_set_reset_count(v.drop_last(), p);
        assert(v.update(p, true).drop_last() =~= v.drop_last().update(p, true));
        assert(v.update(p, false).drop_last() =~= v.drop_last().update(p, false));
    }
}

/// A bit reads as set right after `set` and as clear right after `reset`,
/// and other bits keep their value.
pub proof fn law_set_then_test(v: Seq<bool>, p: int, q: int)
    requires
        0 <= p < v.len(),
        0 <= q < v.len(),
    ensures
        v.update(p, true)[p],
        !v.update(p, false)[p],
        q != p ==> v.update(p, true)[q] == v[q] && v.update(p, false)[q] == v[q],
{
}

/// Setting a clear bit and then clearing it again restores the bitmap.
pub proof fn law_set_then_reset(v: Seq<bool>, p: int)
    requires
        0 <= p < v.len(),
        !v[p],
    ensures
        v.update(p, true).update(p, false) == v,
{
    assert(v.update(p, true).update(p, false) =~= v);
}

} // verus!
