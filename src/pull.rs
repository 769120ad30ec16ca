//! How many tape samples each chunk of output consumes when the tape plays at
//! a ratio of two speeds. The fraction of a sample that a chunk leaves over is
//! carried into the next one, so no rounding error builds up over a session.
use vstd::arithmetic::div_mod::{
    lemma_div_is_ordered,
    lemma_div_is_ordered_by_denominator,
    lemma_fundamental_div_mod,
    lemma_fundamental_div_mod_converse,
    lemma_mod_bound,
};
use vstd::prelude::*;

verus! {

/// Tape samples that `len` output samples consume at a play ratio of
/// `num / den`, given a carried fraction of `carry / den` of a sample.
pub open spec fn pull_count(carry: nat, len: nat, num: nat, den: nat) -> nat {
    (carry + len * num) / den
}

/// The fraction of a sample, in units of `1 / den`, that such a chunk carries
/// over.
pub open spec fn pull_carry(carry: nat, len: nat, num: nat, den: nat) -> nat {
    (carry + len * num) % den
}

/// Tape samples for a chunk of `len` output samples at a play ratio of
/// `num / den`, and the fraction that it carries over.
pub fn pull(carry: u32, len: usize, num: u32, den: u32) -> (r: (u64, u32))
    requires
        den > 0,
        carry < den,
        len <= u32::MAX,
    ensures
        r.0 == pull_count(carry as nat, len as nat, num as nat, den as nat),
        r.1 == pull_carry(carry as nat, len as nat, num as nat, den as nat),
{
    let l = len as u64;
    let n = num as u64;
    assert(l * n <= 0xffff_fffe_0000_0001) by (nonlinear_arith)
        requires
            l <= 0xffff_ffff,
            n <= 0xffff_ffff,
    ;
    let total: u64 = carry as u64 + l * n;
    let d = den as u64;
    proof {
        lemma_mod_bound(total as int, d as int);
    }
    (total / d, (total % d) as u32)
}

/// A carried fraction of `carry / from` of a sample, re-expressed in units of
/// `1 / to`, rounded down.
pub open spec fn rescaled(carry: nat, from: nat, to: nat) -> nat {
    carry * to / from
}

/// Re-expressing a fraction in the units it already has leaves it as it is.
pub proof fn lemma_rescaled_same(carry: nat, den: nat)
    requires
        den > 0,
    ensures
        rescaled(carry, den, den) == carry,
{
    assert(carry * den == carry * den + 0);
    lemma_fundamental_div_mod_converse((carry * den) as int, den as int, carry as int, 0);
}

/// Carries the fraction of a sample over a change of the play ratio's
/// denominator from `from` to `to`, so the playback phase runs on.
pub fn rescale_carry(carry: u32, from: u32, to: u32) -> (r: u32)
    requires
        carry < from,
    ensures
        r == rescaled(carry as nat, from as nat, to as nat),
        to > 0 ==> r < to,
{
    let c = carry as u64;
    let t = to as u64;
    assert(c * t <= 0xffff_fffe_0000_0001) by (nonlinear_arith)
        requires
            c <= 0xffff_ffff,
            t <= 0xffff_ffff,
    ;
    let x = c * t;
    let f = from as u64;
    proof {
        if to > 0 {
            assert(x < f * t) by (nonlinear_arith)
                requires
                    c < f,
                    t > 0,
                    x == c * t,
            ;
            lemma_fundamental_div_mod(x as int, f as int);
            lemma_mod_bound(x as int, f as int);
            assert((x / f) < t) by (nonlinear_arith)
                requires
                    x == f * (x / f) + x % f,
                    x % f >= 0,
                    x < f * t,
                    f > 0,
            ;
        } else {
            assert(x == 0) by (nonlinear_arith)
                requires
                    x == c * t,
                    t == 0,
            ;
        }
    }
    (x / f) as u32
}

/// Total output samples of chunks of lengths `lens`.
pub open spec fn total_len(lens: Seq<nat>) -> nat
    decreases lens.len(),
{
    if lens.len() == 0 {
        0
    } else {
        total_len(lens.drop_last()) + lens.last()
    }
}

/// The carry after chunks of lengths `lens` at a constant ratio `num / den`.
pub open spec fn carry_after(carry: nat, lens: Seq<nat>, num: nat, den: nat) -> nat
    decreases lens.len(),
{
    if lens.len() == 0 {
        carry
    } else {
        pull_carry(carry_after(carry, lens.drop_last(), num, den), lens.last(), num, den)
    }
}

/// Tape samples that chunks of lengths `lens` consume at a constant ratio
/// `num / den`.
pub open spec fn pulled_over(carry: nat, lens: Seq<nat>, num: nat, den: nat) -> nat
    decreases lens.len(),
{
    if lens.len() == 0 {
        0
    } else {
        pulled_over(carry, lens.drop_last(), num, den) + pull_count(
            carry_after(carry, lens.drop_last(), num, den),
            lens.last(),
            num,
            den,
        )
    }
}

/// Held at a constant ratio `num / den`, the tape consumed over any run of
/// chunks is the output length times the ratio, short of less than one sample:
/// `den` times what was consumed, plus the carry left, is exactly the carry
/// at the start plus `num` times what was produced. The measured
/// input-to-output rate therefore tends to `num / den`.
pub proof fn lemma_constant_ratio_rate(carry: nat, lens: Seq<nat>, num: nat, den: nat)
    requires
        den > 0,
        carry < den,
    ensures
        pulled_over(carry, lens, num, den) * den + carry_after(carry, lens, num, den) == carry
            + num * total_len(lens),
        carry_after(carry, lens, num, den) < den,
    decreases lens.len(),
{
    if lens.len() > 0 {
        let rest = lens.drop_last();
        lemma_constant_ratio_rate(carry, rest, num, den);
        let c = carry_after(carry, rest, num, den);
        let l = lens.last();
        let x = c + l * num;
        lemma_fundamental_div_mod(x as int, den as int);
        lemma_mod_bound(x as int, den as int);
        let p = pulled_over(carry, rest, num, den);
        let k = pull_count(c, l, num, den);
        let r = pull_carry(c, l, num, den);
        assert(x == den * k + r);
        assert((p + k) * den == p * den + k * den) by (nonlinear_arith);
        assert(num * (total_len(rest) + l) == num * total_len(rest) + num * l) by (nonlinear_arith);
        assert(l * num == num * l) by (nonlinear_arith);
        assert(k * den == den * k) by (nonlinear_arith);
        assert(pulled_over(carry, lens, num, den) == p + k);
        assert(carry_after(carry, lens, num, den) == r);
        assert(total_len(lens) == total_len(rest) + l);
        let t = total_len(rest);
        assert(p * den + c == carry + num * t);
        assert((p + k) * den + r == carry + num * (t + l)) by (nonlinear_arith)
            requires
                p * den + c == carry + num * t,
                c + l * num == den * k + r,
        ;
    } else {
        assert(num * 0 == 0) by (nonlinear_arith);
        assert(0 * den == 0) by (nonlinear_arith);
    }
}

/// When the record and play speeds are equal, a chunk consumes exactly as many
/// tape samples as it produces and the carry stays as it was.
pub proof fn lemma_equal_speeds_pull_len(carry: nat, len: nat, speed: nat)
    requires
        carry < speed,
    ensures
        pull_count(carry, len, speed, speed) == len,
        pull_carry(carry, len, speed, speed) == carry,
{
    assert(carry + len * speed == len * speed + carry);
    lemma_fundamental_div_mod_converse(
        (carry + len * speed) as int,
        speed as int,
        len as int,
        carry as int,
    );
}

/// A chunk pulls the whole part of its length times the ratio, or one sample
/// more: so chunks of one length at one ratio pull within one sample of each
/// other, and a change of ratio moves the pull smoothly with the ratio, with
/// no jump beyond that sample.
pub proof fn lemma_pull_tracks_ratio(carry: nat, len: nat, num: nat, den: nat)
    requires
        carry < den,
    ensures
        (len * num) / den <= pull_count(carry, len, num, den) <= (len * num) / den + 1,
{
    let d = den as int;
    let ln: int = (len * num) as int;
    let x: int = (carry + len * num) as int;
    lemma_div_is_ordered(ln, x, d);
    let y: int = d + ln;
    lemma_div_is_ordered(x, y, d);
    lemma_fundamental_div_mod(ln, d);
    lemma_mod_bound(ln, d);
    assert((1 + ln / d) * d == d + d * (ln / d)) by (nonlinear_arith);
    lemma_fundamental_div_mod_converse(y, d, 1 + ln / d, ln % d);
}

/// A chunk of at most `chunk` samples, played at a ratio of speeds between
/// `min` and `max`, consumes at most `chunk * max / min + 1` tape samples.
pub proof fn lemma_pull_bound(
    carry: nat,
    len: nat,
    num: nat,
    den: nat,
    chunk: nat,
    min: nat,
    max: nat,
)
    requires
        0 < min <= den,
        num <= max,
        carry < den,
        len <= chunk,
    ensures
        pull_count(carry, len, num, den) <= (chunk * max) / min + 1,
{
    let x: int = (carry + len * num) as int;
    let cm: int = (chunk * max) as int;
    let d: int = den as int;
    assert(len * num <= chunk * max) by (nonlinear_arith)
        requires
            len <= chunk,
            num <= max,
    ;
    let y: int = d + cm;
    lemma_div_is_ordered(x, y, d);
    assert(y / d == 1 + cm / d) by {
        lemma_fundamental_div_mod(cm, d);
        lemma_mod_bound(cm, d);
        assert((1 + cm / d) * d == d + d * (cm / d)) by (nonlinear_arith);
        lemma_fundamental_div_mod_converse(y, d, 1 + cm / d, cm % d);
    }
    lemma_div_is_ordered_by_denominator(cm, min as int, d);
}

} // verus!
