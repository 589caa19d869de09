use vstd::prelude::*;

verus! {

/// Number of set bits among the low `n` bits of `x`.
pub open spec fn ones_below(x: u64, n: nat) -> nat
    decreases n,
{
    if n == 0 {
        0
    } else {
        ((x & 1) as nat) + ones_below(x >> 1, (n - 1) as nat)
    }
}

/// Number of set bits of `x`.
pub open spec fn popcount(x: u64) -> nat {
    ones_below(x, 64)
}

/// Row `i` of the order-`2^t` Walsh-Hadamard matrix, held in the low `2^t`
/// bits, the row's leading entries in the upper bits.  Each order doubles the
/// previous one: a row is its half-order row twice over, the second copy
/// complemented when the half-order bit of the row index is set.
pub open spec fn hadamard_row(t: u64, i: u64) -> u64
    recommends
        t <= 6,
        i < (1u64 << t),
    decreases t,
{
    if t == 0 {
        1
    } else {
        let w = 1u64 << ((t - 1) as u64);
        let h = hadamard_row((t - 1) as u64, i & ((w - 1) as u64));
        if i & w == 0 {
            (h << w) | h
        } else {
            (h << w) | (h ^ (((1u64 << w) - 1) as u64))
        }
    }
}

/// Codeword `i` of the augmented code: the order-64 Walsh-Hadamard row for
/// `i < 64`, and the bitwise complement of row `i - 64` for `64 <= i < 128`.
pub open spec fn codeword(i: u64) -> u64
    recommends
        i < 128,
{
    if i < 64 {
        hadamard_row(6, i)
    } else {
        !hadamard_row(6, (i - 64) as u64)
    }
}

/// Row `i` of the order-`2^t` Walsh-Hadamard matrix, by repeated doubling.
fn hadamard_row_exec(t: u64, i: u64) -> (r: u64)
    requires
        t <= 6,
        i < (1u64 << t),
    ensures
        r == hadamard_row(t, i),
    decreases t,
{
    if t == 0 {
        1
    } else {
        proof {
            assert(1u64 << ((t - 1) as u64) >= 1 && 1u64 << ((t - 1) as u64) <= 32 && (i & (((1u64
                << ((t - 1) as u64)) - 1) as u64)) < 1u64 << ((t - 1) as u64)) by (bit_vector)
                requires
                    1 <= t <= 6,
            ;
        }
        let w: u64 = 1u64 << (t - 1);
        proof {
            assert(1u64 << w >= 1) by (bit_vector)
                requires
                    w <= 32,
            ;
        }
        let h = hadamard_row_exec(t - 1, i & (w - 1));
        if i & w == 0 {
            (h << w) | h
        } else {
            (h << w) | (h ^ ((1u64 << w) - 1))
        }
    }
}

/// The fixed 128-entry table of 64-bit codewords that maps tone combinations
/// to data symbols: the order-64 Walsh-Hadamard matrix followed by the
/// bitwise complement of each of its rows.
pub fn augmented_hadamard_matrix() -> (r: Vec<u64>)
    ensures
        r@.len() == 128,
        forall|i: int| 0 <= i < 128 ==> r@[i] == codeword(i as u64),
{
    let mut matrix: Vec<u64> = Vec::new();
    let mut i: u64 = 0;
    while i < 128
        invariant
            i <= 128,
            matrix@.len() == i as int,
            forall|k: int| 0 <= k < i ==> matrix@[k] == codeword(k as u64),
        decreases 128 - i,
    {
        proof {
            assert(1u64 << 6 == 64) by (bit_vector);
        }
        let row = if i < 64 {
            hadamard_row_exec(6, i)
        } else {
            !hadamard_row_exec(6, i - 64)
        };
        matrix.push(row);
        i = i + 1;
    }
    matrix
}

proof fn lemma_ones_below_zero(n: nat)
    ensures
        ones_below(0, n) == 0,
    decreases n,
{
    if n > 0 {
        assert(0u64 & 1 == 0 && 0u64 >> 1 == 0u64) by (bit_vector);
        lemma_ones_below_zero((n - 1) as nat);
    }
}

/// Counting the low `s + n` bits of a word assembled from a high part `x`
/// and a low part `y` of `s` bits counts each part separately.
proof fn lemma_ones_below_split(x: u64, y: u64, s: u64, n: nat)
    requires
        s <= 63,
        y < (1u64 << s),
        ((x << s) >> s) == x,
        s + n <= 64,
    ensures
        ones_below((x << s) | y, (s + n) as nat) == ones_below(x, n) + ones_below(y, s as nat),
    decreases s,
{
    if s == 0 {
        assert(y == 0) by (bit_vector)
            requires
                y < (1u64 << 0u64),
        ;
        assert((x << 0u64) | 0u64 == x) by (bit_vector);
    } else {
        assert(((x << s) | y) & 1 == y & 1) by (bit_vector)
            requires
                1 <= s <= 63,
        ;
        assert(((x << s) | y) >> 1 == (x << ((s - 1) as u64)) | (y >> 1)) by (bit_vector)
            requires
                1 <= s <= 63,
                y < (1u64 << s),
                ((x << s) >> s) == x,
        ;
        assert((x << ((s - 1) as u64)) >> ((s - 1) as u64) == x) by (bit_vector)
            requires
                1 <= s <= 63,
                ((x << s) >> s) == x,
        ;
        assert((y >> 1) < (1u64 << ((s - 1) as u64))) by (bit_vector)
            requires
                1 <= s <= 63,
                y < (1u64 << s),
        ;
        lemma_ones_below_split(x, y >> 1, (s - 1) as u64, n);
    }
}

/// Two words that differ in every one of their low `w` bits hold `n` set
/// bits between them over any `n <= w` of those positions.
proof fn lemma_ones_below_pair(x: u64, y: u64, w: u64, n: nat)
    requires
        w <= 63,
        n <= w,
        x ^ y == (1u64 << w) - 1,
    ensures
        ones_below(x, n) + ones_below(y, n) == n,
    decreases n,
{
    if n > 0 {
        assert((x & 1) + (y & 1) == 1) by (bit_vector)
            requires
                1 <= w <= 63,
                x ^ y == (1u64 << w) - 1,
        ;
        assert((x >> 1) ^ (y >> 1) == (1u64 << ((w - 1) as u64)) - 1) by (bit_vector)
            requires
                1 <= w <= 63,
                x ^ y == (1u64 << w) - 1,
        ;
        lemma_ones_below_pair(x >> 1, y >> 1, (w - 1) as u64, (n - 1) as nat);
    }
}

/// A word and its complement hold 64 set bits between them.
proof fn lemma_ones_below_not(x: u64)
    ensures
        ones_below(x, 64) + ones_below(!x, 64) == 64,
{
    assert((x & 1) + ((!x) & 1) == 1) by (bit_vector);
    assert((x >> 1) ^ ((!x) >> 1) == (1u64 << 63u64) - 1) by (bit_vector);
    lemma_ones_below_pair(x >> 1, (!x) >> 1, 63, 63);
}

/// A Walsh-Hadamard row of order `2^t` fits in its `2^t` bits.
proof fn lemma_hadamard_row_bound(t: u64, i: u64)
    requires
        t <= 5,
    ensures
        hadamard_row(t, i) < (1u64 << (1u64 << t)),
    decreases t,
{
    if t == 0 {
        assert(1u64 < (1u64 << (1u64 << 0u64))) by (bit_vector);
    } else {
        let w = 1u64 << ((t - 1) as u64);
        let h = hadamard_row((t - 1) as u64, i & ((w - 1) as u64));
        lemma_hadamard_row_bound((t - 1) as u64, i & ((w - 1) as u64));
        assert({
            let hc = h ^ (((1u64 << w) - 1) as u64);
            ((h << w) | h) < (1u64 << (1u64 << t)) && ((h << w) | hc) < (1u64 << (1u64 << t))
        }) by (bit_vector)
            requires
                1 <= t <= 5,
                w == 1u64 << ((t - 1) as u64),
                h < (1u64 << w),
        ;
    }
}

/// Two distinct rows of the order-`2^t` Walsh-Hadamard matrix differ in
/// exactly half of their `2^t` positions.
proof fn lemma_hadamard_distance(t: u64, i: u64, j: u64)
    requires
        1 <= t <= 6,
        i < (1u64 << t),
        j < (1u64 << t),
        i != j,
    ensures
        ones_below(hadamard_row(t, i) ^ hadamard_row(t, j), (1u64 << t) as nat) == 1u64 << ((t
            - 1) as u64),
    decreases t,
{
    let w = 1u64 << ((t - 1) as u64);
    let li = i & ((w - 1) as u64);
    let lj = j & ((w - 1) as u64);
    let hi = hadamard_row((t - 1) as u64, li);
    let hj = hadamard_row((t - 1) as u64, lj);
    let ones_w = ((1u64 << w) - 1) as u64;
    lemma_hadamard_row_bound((t - 1) as u64, li);
    lemma_hadamard_row_bound((t - 1) as u64, lj);
    assert(1 <= w <= 32 && 2 * w == 1u64 << t && li < w && lj < w) by (bit_vector)
        requires
            1 <= t <= 6,
            w == 1u64 << ((t - 1) as u64),
            li == i & ((w - 1) as u64),
            lj == j & ((w - 1) as u64),
    ;
    // A row and its complemented copy occupy disjoint bit fields, so the
    // xor of two rows splits into the xors of the half-order parts.
    assert(((hi << w) | hi) >> w == hi && ((hi << w) | (hi ^ ones_w)) >> w == hi) by (bit_vector)
        requires
            1 <= w <= 32,
            hi < (1u64 << w),
            ones_w == ((1u64 << w) - 1) as u64,
    ;
    let ri = hadamard_row(t, i);
    let rj = hadamard_row(t, j);
    if li == lj {
        // The low parts agree, so the rows differ exactly in the half-order
        // bit of the index, and the xor is the low-field mask.
        assert((i & w == 0) != (j & w == 0)) by (bit_vector)
            requires
                1 <= t <= 6,
                w == 1u64 << ((t - 1) as u64),
                i < (1u64 << t),
                j < (1u64 << t),
                i != j,
                i & ((w - 1) as u64) == j & ((w - 1) as u64),
        ;
        if i & w == 0 {
            assert(ri == (hi << w) | hi);
            assert(rj == (hi << w) | (hi ^ ones_w));
        } else {
            assert(ri == (hi << w) | (hi ^ ones_w));
            assert(rj == (hi << w) | hi);
        }
        assert(((hi << w) | hi) ^ ((hi << w) | (hi ^ ones_w)) == (0u64 << w) | ones_w && ((hi << w)
            | (hi ^ ones_w)) ^ ((hi << w) | hi) == (0u64 << w) | ones_w) by (bit_vector)
            requires
                1 <= w <= 32,
                hi < (1u64 << w),
                ones_w == ((1u64 << w) - 1) as u64,
        ;
        assert(ones_w < (1u64 << w) && ((0u64 << w) >> w) == 0u64 && w + w <= 64 && ones_w ^ 0u64
            == (1u64 << w) - 1) by (bit_vector)
            requires
                1 <= w <= 32,
                ones_w == ((1u64 << w) - 1) as u64,
        ;
        lemma_ones_below_split(0, ones_w, w, w as nat);
        lemma_ones_below_zero(w as nat);
        lemma_ones_below_pair(ones_w, 0, w, w as nat);
    } else {
        assert(2 <= t) by (bit_vector)
            requires
                1 <= t <= 6,
                w == 1u64 << ((t - 1) as u64),
                li == i & ((w - 1) as u64),
                lj == j & ((w - 1) as u64),
                li != lj,
        ;
        lemma_hadamard_distance((t - 1) as u64, li, lj);
        let d = ones_below(hi ^ hj, w as nat);
        assert((hi ^ hj) < (1u64 << w) && ((hi ^ hj) << w) >> w == (hi ^ hj) && w + w <= 64)
            by (bit_vector)
            requires
                1 <= w <= 32,
                hi < (1u64 << w),
                hj < (1u64 << w),
        ;
        if (i & w == 0) == (j & w == 0) {
            // Both copies plain, or both complemented: the mask cancels and
            // each half contributes the half-order distance.
            if i & w == 0 {
                assert(ri == (hi << w) | hi);
                assert(rj == (hj << w) | hj);
            } else {
                assert(ri == (hi << w) | (hi ^ ones_w));
                assert(rj == (hj << w) | (hj ^ ones_w));
            }
            assert(((hi << w) | hi) ^ ((hj << w) | hj) == ((hi ^ hj) << w) | (hi ^ hj)
                && ((hi << w) | (hi ^ ones_w)) ^ ((hj << w) | (hj ^ ones_w)) == ((hi ^ hj) << w) | (
            hi ^ hj)) by (bit_vector)
                requires
                    1 <= w <= 32,
                    hi < (1u64 << w),
                    hj < (1u64 << w),
                    ones_w == ((1u64 << w) - 1) as u64,
            ;
            lemma_ones_below_split(hi ^ hj, hi ^ hj, w, w as nat);
            assert(2 * (1u64 << ((t - 2) as u64)) == 1u64 << ((t - 1) as u64)) by (bit_vector)
                requires
                    2 <= t <= 6,
            ;
        } else {
            // One copy complemented: one half contributes the half-order
            // distance, the other its complement to the half width.
            if i & w == 0 {
                assert(ri == (hi << w) | hi);
                assert(rj == (hj << w) | (hj ^ ones_w));
            } else {
                assert(ri == (hi << w) | (hi ^ ones_w));
                assert(rj == (hj << w) | hj);
            }
            assert(((hi << w) | hi) ^ ((hj << w) | (hj ^ ones_w)) == ((hi ^ hj) << w) | (hi ^ hj
                ^ ones_w) && ((hi << w) | (hi ^ ones_w)) ^ ((hj << w) | hj) == ((hi ^ hj) << w) | (
            hi ^ hj ^ ones_w)) by (bit_vector)
                requires
                    1 <= w <= 32,
                    hi < (1u64 << w),
                    hj < (1u64 << w),
                    ones_w == ((1u64 << w) - 1) as u64,
            ;
            assert((hi ^ hj ^ ones_w) < (1u64 << w) && (hi ^ hj) ^ (hi ^ hj ^ ones_w) == (1u64 << w)
                - 1) by (bit_vector)
                requires
                    1 <= w <= 32,
                    hi < (1u64 << w),
                    hj < (1u64 << w),
                    ones_w == ((1u64 << w) - 1) as u64,
            ;
            lemma_ones_below_split(hi ^ hj, hi ^ hj ^ ones_w, w, w as nat);
            lemma_ones_below_pair(hi ^ hj, hi ^ hj ^ ones_w, w, w as nat);
        }
    }
}

/// Counting set bits distributes over words with disjoint set bits.
proof fn lemma_ones_below_disjoint(a: u64, b: u64, n: nat)
    requires
        a & b == 0,
    ensures
        ones_below(a | b, n) == ones_below(a, n) + ones_below(b, n),
    decreases n,
{
    if n > 0 {
        assert((a | b) & 1 == (a & 1) + (b & 1) && (a | b) >> 1 == (a >> 1) | (b >> 1) && (a >> 1)
            & (b >> 1) == 0) by (bit_vector)
            requires
                a & b == 0,
        ;
        lemma_ones_below_disjoint(a >> 1, b >> 1, (n - 1) as nat);
    }
}

/// A word holding one set bit below position `n` counts one.
proof fn lemma_ones_below_single(s: u64, n: nat)
    requires
        s < n <= 64,
    ensures
        ones_below(1u64 << s, n) == 1,
    decreases s,
{
    if s == 0 {
        assert((1u64 << 0u64) & 1 == 1 && (1u64 << 0u64) >> 1 == 0u64) by (bit_vector);
        lemma_ones_below_zero((n - 1) as nat);
    } else {
        assert((1u64 << s) & 1 == 0 && (1u64 << s) >> 1 == 1u64 << ((s - 1) as u64))
            by (bit_vector)
            requires
                1 <= s <= 63,
        ;
        lemma_ones_below_single((s - 1) as u64, (n - 1) as nat);
    }
}

/// Bit `2^t - 1 - j` of the order-`2^t` Walsh-Hadamard row `i` is set
/// exactly when `i & j` has even parity.
proof fn lemma_hadamard_row_bit(t: u64, i: u64, j: u64)
    requires
        t <= 6,
        i < (1u64 << t),
        j < (1u64 << t),
    ensures
        ((hadamard_row(t, i) >> (((1u64 << t) - 1 - j) as u64)) & 1 == 1) == (popcount(i & j) % 2
            == 0),
    decreases t,
{
    if t == 0 {
        assert(i == 0 && j == 0 && (1u64 >> (((1u64 << 0u64) - 1 - 0u64) as u64)) & 1 == 1 && 0u64
            & 0u64 == 0u64) by (bit_vector)
            requires
                i < (1u64 << 0u64),
                j < (1u64 << 0u64),
        ;
        lemma_ones_below_zero(64);
    } else {
        let w = 1u64 << ((t - 1) as u64);
        let li = i & ((w - 1) as u64);
        let h = hadamard_row((t - 1) as u64, li);
        let ones_w = ((1u64 << w) - 1) as u64;
        lemma_hadamard_row_bound((t - 1) as u64, li);
        assert(1 <= w <= 32 && w + w == 1u64 << t && li < w) by (bit_vector)
            requires
                1 <= t <= 6,
                w == 1u64 << ((t - 1) as u64),
                li == i & ((w - 1) as u64),
        ;
        if j < w {
            // The bit lies in the upper half, a plain copy of the half-order
            // row, and masking `i` to the half order does not change `i & j`.
            lemma_hadamard_row_bit((t - 1) as u64, li, j);
            assert(((((h << w) | h) >> ((w + w - 1 - j) as u64)) & 1) == ((h >> ((w - 1 - j)
                as u64)) & 1) && ((((h << w) | (h ^ ones_w)) >> ((w + w - 1 - j) as u64)) & 1) == ((
            h >> ((w - 1 - j) as u64)) & 1) && li & j == i & j) by (bit_vector)
                requires
                    1 <= t <= 6,
                    w == 1u64 << ((t - 1) as u64),
                    j < w,
                    h < (1u64 << w),
                    ones_w == ((1u64 << w) - 1) as u64,
                    li == i & ((w - 1) as u64),
        ;
        } else {
            // The bit lies in the lower half: the half-order row again, but
            // complemented exactly when the half-order bit of `i` is set,
            // while that same bit feeds the parity of `i & j`.
            let jl = (j - w) as u64;
            assert(jl < w && li & jl == i & jl && (i & j) == ((i & jl) | (i & w)) && (i & jl) & (i
                & w) == 0 && (i & w == 0 || i & w == w)) by (bit_vector)
                requires
                    1 <= t <= 6,
                    w == 1u64 << ((t - 1) as u64),
                    li == i & ((w - 1) as u64),
                    jl == j - w,
                    w <= j < (1u64 << t),
                    i < (1u64 << t),
            ;
            lemma_hadamard_row_bit((t - 1) as u64, li, jl);
            if i & w == 0 {
                lemma_ones_below_disjoint(i & jl, 0, 64);
                assert(((((h << w) | h) >> ((w + w - 1 - j) as u64)) & 1) == ((h >> ((w - 1 - jl)
                    as u64)) & 1) && (i & jl) | 0u64 == i & jl) by (bit_vector)
                    requires
                        1 <= w <= 32,
                        jl == j - w,
                        w <= j < w + w,
                        h < (1u64 << w),
            ;
            } else {
                lemma_ones_below_disjoint(i & jl, w, 64);
                lemma_ones_below_single((t - 1) as u64, 64);
                assert((((((h << w) | (h ^ ones_w)) >> ((w + w - 1 - j) as u64)) & 1 == 1) == !((h
                    >> ((w - 1 - jl) as u64)) & 1 == 1)) && (1u64 << ((t - 1) as u64)) == w)
                    by (bit_vector)
                    requires
                        1 <= t <= 6,
                        w == 1u64 << ((t - 1) as u64),
                        jl == j - w,
                        w <= j < w + w,
                        h < (1u64 << w),
                        ones_w == ((1u64 << w) - 1) as u64,
            ;
            }
        }
    }
}

/// The direct form of the code table: bit `63 - j` of codeword `i` is set
/// exactly when the parity of `i & j` matches whether `i` lies in the lower
/// half of the table.
pub proof fn lemma_codeword_parity(i: u64, j: u64)
    requires
        i < 128,
        j < 64,
    ensures
        ((codeword(i) >> ((63 - j) as u64)) & 1 == 1) == ((popcount(i & j) % 2 == 0) == (i & 0x40
            == 0)),
{
    assert(1u64 << 6u64 == 64) by (bit_vector);
    if i < 64 {
        lemma_hadamard_row_bit(6, i, j);
        assert(i & 0x40 == 0) by (bit_vector)
            requires
                i < 64,
        ;
    } else {
        let il = (i - 64) as u64;
        lemma_hadamard_row_bit(6, il, j);
        assert(il & j == i & j && i & 0x40 != 0 && ((!hadamard_row(6, il) >> ((63 - j) as u64)) & 1
            == 1) == !((hadamard_row(6, il) >> ((63 - j) as u64)) & 1 == 1)) by (bit_vector)
            requires
                64 <= i < 128,
                il == i - 64,
                j < 64,
        ;
    }
}

/// Row 0 of the code table has every bit set.
pub proof fn lemma_row_zero_all_ones()
    ensures
        codeword(0) == u64::MAX,
{
    assert(hadamard_row(6, 0) == 0xffff_ffff_ffff_ffffu64) by (bit_vector);
}

/// Row 1 of the code table alternates bits.
pub proof fn lemma_row_one_alternating()
    ensures
        codeword(1) == 0xaaaa_aaaa_aaaa_aaaau64,
{
    assert(hadamard_row(6, 1) == 0xaaaa_aaaa_aaaa_aaaau64) by (bit_vector);
}

/// Any two distinct codewords of the augmented code differ in at least 32 of
/// their 64 bits, so a maximum-likelihood symbol decision tolerates up to 15
/// bit errors; a row XORed with itself is all zero.
pub proof fn lemma_code_distance(i: u64, j: u64)
    requires
        i < 128,
        j < 128,
    ensures
        i != j ==> popcount(codeword(i) ^ codeword(j)) >= 32,
        i == j ==> popcount(codeword(i) ^ codeword(j)) == 0,
{
    if i == j {
        let c = codeword(i);
        assert(c ^ c == 0) by (bit_vector);
        lemma_ones_below_zero(64);
    } else {
        let ai = if i < 64 { i } else { (i - 64) as u64 };
        let aj = if j < 64 { j } else { (j - 64) as u64 };
        let hi = hadamard_row(6, ai);
        let hj = hadamard_row(6, aj);
        assert(1u64 << 6u64 == 64) by (bit_vector);
        if ai == aj {
            // One row is the complement of the other: they differ everywhere.
            assert(hi ^ !hj == u64::MAX && !hi ^ hj == u64::MAX) by (bit_vector)
                requires
                    hi == hj,
            ;
            lemma_ones_below_not(0);
            assert(!0u64 == u64::MAX) by (bit_vector);
            lemma_ones_below_zero(64);
        } else {
            lemma_hadamard_distance(6, ai, aj);
            assert(1u64 << 5u64 == 32) by (bit_vector);
            if (i < 64) == (j < 64) {
                assert(!hi ^ !hj == hi ^ hj) by (bit_vector);
            } else {
                // Complementing one operand complements the xor, so the
                // distance flips to the complement count.
                assert(hi ^ !hj == !(hi ^ hj) && !hi ^ hj == !(hi ^ hj)) by (bit_vector);
                lemma_ones_below_not(hi ^ hj);
            }
        }
    }
}

} // verus!
