use vstd::prelude::*;

verus! {

/// `n` is a power of two: 1, 2, 4, 8, ...
pub open spec fn is_pow2(n: nat) -> bool
    decreases n,
{
    if n <= 1 {
        n == 1
    } else {
        n % 2 == 0 && is_pow2(n / 2)
    }
}

/// The smallest multiple of `align` that is at least `offset`.
pub open spec fn align_up_spec(offset: int, align: int) -> int
    recommends
        align > 0,
{
    if offset % align == 0 {
        offset
    } else {
        offset + (align - offset % align)
    }
}

proof fn lemma_pow2_bits(a: usize)
    requires
        is_pow2(a as nat),
    ensures
        a > 0,
        a & (a - 1) as usize == 0,
    decreases a,
{
    if a > 1 {
        let b: usize = a / 2;
        lemma_pow2_bits(b);
        assert(a % 2 == 0 && b == a / 2 && b > 0 && b & ((b - 1) as usize) == 0 ==> a & ((a
            - 1) as usize) == 0) by (bit_vector);
    } else {
        assert(a == 1 ==> a & ((a - 1) as usize) == 0) by (bit_vector);
    }
}

proof fn lemma_low_bits_clear_is_multiple(y: usize, a: usize)
    requires
        is_pow2(a as nat),
        y & ((a - 1) as usize) == 0,
    ensures
        y % a == 0,
    decreases a,
{
    if a > 1 {
        let b: usize = a / 2;
        assert(a % 2 == 0 && b == a / 2 && b > 0 && y & ((a - 1) as usize) == 0 ==> y % 2 == 0)
            by (bit_vector);
        assert(a % 2 == 0 && b == a / 2 && b > 0 && y & ((a - 1) as usize) == 0 ==> (y / 2) & ((b
            - 1) as usize) == 0) by (bit_vector);
        lemma_low_bits_clear_is_multiple(y / 2, b);
        let k = (y / 2) as int / b as int;
        vstd::arithmetic::div_mod::lemma_fundamental_div_mod((y / 2) as int, b as int);
        assert(y as int == a as int * k) by (nonlinear_arith)
            requires
                y as int == 2 * (y / 2) as int,
                (y / 2) as int == b as int * k,
                a as int == 2 * b as int,
        ;
        vstd::arithmetic::div_mod::lemma_mod_multiples_basic(k, a as int);
        assert(y as int % a as int == (k * a) % a as int) by {
            vstd::arithmetic::mul::lemma_mul_is_commutative(k, a as int);
        }
    }
}

proof fn lemma_bits_pow2(a: usize)
    requires
        a > 0,
        a & (a - 1) as usize == 0,
    ensures
        is_pow2(a as nat),
    decreases a,
{
    if a > 1 {
        assert(a > 1 && a & (a - 1) as usize == 0 ==> a % 2 == 0) by (bit_vector);
        assert(a > 1 && a & (a - 1) as usize == 0 ==> (a / 2) & (a / 2 - 1) as usize == 0) by (bit_vector);
        lemma_bits_pow2(a / 2);
    }
}

/// Whether `align` is an admissible alignment, that is a power of two.
pub fn is_valid_align(align: usize) -> (r: bool)
    ensures
        r == is_pow2(align as nat),
{
    if align == 0 {
        false
    } else {
        let r = align & (align - 1) == 0;
        proof {
            if r {
                lemma_bits_pow2(align);
            } else if is_pow2(align as nat) {
                lemma_pow2_bits(align);
            }
        }
        r
    }
}

proof fn lemma_mask_round(x: usize, a: usize)
    requires
        is_pow2(a as nat),
    ensures
        x & !((a - 1) as usize) <= x,
        (x - (x & !((a - 1) as usize))) as usize <= ((a - 1) as usize),
        (x & !((a - 1) as usize)) % a == 0,
{
    assert(x & !((a - 1) as usize) <= x) by (bit_vector);
    assert((x - (x & !((a - 1) as usize))) as usize <= ((a - 1) as usize)) by (bit_vector);
    assert((x & !((a - 1) as usize)) & ((a - 1) as usize) == 0) by (bit_vector);
    lemma_low_bits_clear_is_multiple(x & !((a - 1) as usize), a);
}

proof fn lemma_round_unique(o: int, a: int, r: int)
    requires
        a > 0,
        o >= 0,
        r % a == 0,
        o <= r < o + a,
    ensures
        r == align_up_spec(o, a),
{
    vstd::arithmetic::div_mod::lemma_fundamental_div_mod(r, a);
    vstd::arithmetic::div_mod::lemma_fundamental_div_mod(o, a);
    let q = r / a;
    let p = o / a;
    assert(r == a * q);
    assert(o == a * p + o % a);
    assert(0 <= o % a < a) by {
        vstd::arithmetic::div_mod::lemma_mod_bound(o, a);
    }
    if o % a == 0 {
        assert(q - p < 1 && q - p > -1) by (nonlinear_arith)
            requires
                r == a * q,
                o == a * p,
                o <= r < o + a,
                a > 0,
        ;
    } else {
        assert(q == p + 1) by (nonlinear_arith)
            requires
                r == a * q,
                o == a * p + o % a,
                0 < o % a < a,
                o <= r < o + a,
                a > 0,
        ;
        assert(r == a * p + a) by (nonlinear_arith)
            requires
                r == a * q,
                q == p + 1,
        ;
    }
}

/// Rounds `offset` up to the next multiple of `align`.
pub fn align_up(offset: usize, align: usize) -> (r: usize)
    requires
        is_pow2(align as nat),
        offset + align - 1 <= usize::MAX,
    ensures
        r == align_up_spec(offset as int, align as int),
        r % align == 0,
        offset <= r < offset + align,
{
    proof {
        lemma_pow2_bits(align);
    }
    let x: usize = offset + (align - 1);
    let r = x & !(align - 1);
    proof {
        lemma_mask_round(x, align);
        lemma_round_unique(offset as int, align as int, r as int);
    }
    r
}

/// Rounds `offset` up to the next multiple of `align`, or `None` where that does not fit
/// in a `usize`.
pub fn checked_align_up(offset: usize, align: usize) -> (r: Option<usize>)
    requires
        is_pow2(align as nat),
    ensures
        r matches Some(v) ==> v == align_up_spec(offset as int, align as int),
        r is None ==> align_up_spec(offset as int, align as int) > usize::MAX,
{
    proof {
        lemma_pow2_bits(align);
    }
    if offset <= usize::MAX - (align - 1) {
        Some(align_up(offset, align))
    } else {
        let rem: usize = offset % align;
        let gap: usize = if rem == 0 {
            0
        } else {
            align - rem
        };
        if offset > usize::MAX - gap {
            None
        } else {
            Some(offset + gap)
        }
    }
}

} // verus!
