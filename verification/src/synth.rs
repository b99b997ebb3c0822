//! Synthetic pings: background noise with bell-shaped echoes of contacts.
//!
//! A synthetic ping is laid out sample by sample as a `SampleSource`: either
//! background noise of some level, or a point of the bell curve of an echo.
//! The strength a source stands for is a float that the caller computes:
//! five plus the level for noise, and
//! `strength * (1 - offset * offset / (width * width))` for an echo point.
use vstd::prelude::*;
use crate::random::{random_below, thread_rng};

verus! {

/// Number of distinct noise levels: noise strengths run from five to ten.
pub const NOISE_LEVELS: u8 = 6;

/// Most echoes laid into one synthetic ping.
pub const MAX_ECHOES: usize = 10;

/// Narrowest echo, in samples.
pub const MIN_ECHO_WIDTH: i64 = 3;

/// Number of distinct echo widths: widths run from three to ten samples.
pub const ECHO_WIDTHS: i64 = 8;

/// Weakest echo peak strength.
pub const MIN_ECHO_STRENGTH: u32 = 40;

/// Number of distinct echo peak strengths: strengths run from forty to
/// ninety-nine.
pub const ECHO_STRENGTHS: u32 = 60;

/// What a sample of a synthetic ping holds.
#[derive(Clone, Copy, Debug, PartialEq, Eq, Structural)]
pub enum SampleSource {
    /// Background noise whose strength is five plus `level`.
    Noise { level: u8 },
    /// The point `offset` samples from the centre of an echo of peak
    /// `strength` and `width` samples.
    Echo { strength: u32, offset: i64, width: i64 },
}

/// An echo to be laid into a synthetic ping.
#[derive(Clone, Copy, Debug, PartialEq, Eq, Structural)]
pub struct EchoPlan {
    /// Position of the centre of the echo.
    pub center: usize,
    /// Width of the echo in samples; it covers the offsets from minus half
    /// the width to half the width.
    pub width: i64,
    /// Peak strength of the echo.
    pub strength: u32,
}

/// Position of the sample `offset` samples from `center`, wrapping around
/// the ends of a ping of `n` samples.
pub open spec fn wrapped(center: int, offset: int, n: int) -> int {
    (center + offset) % n
}

/// The source of the point `offset` of the echo `p`.
pub open spec fn echo_point(p: EchoPlan, offset: int) -> SampleSource {
    SampleSource::Echo { strength: p.strength, offset: offset as i64, width: p.width }
}

/// Half the width of an echo, rounded down.
pub open spec fn half_width(p: EchoPlan) -> int {
    p.width / 2
}

/// `s` with the first `count` points of the echo `p` written over it, from
/// the lowest offset up.
pub open spec fn stamp_through(s: Seq<SampleSource>, p: EchoPlan, count: int) -> Seq<
    SampleSource,
>
    decreases count,
{
    if count <= 0 {
        s
    } else {
        let offset = count - 1 - half_width(p);
        stamp_through(s, p, count - 1).update(
            wrapped(p.center as int, offset, s.len() as int),
            echo_point(p, offset),
        )
    }
}

/// `s` with all points of the echo `p` written over it.
pub open spec fn stamp(s: Seq<SampleSource>, p: EchoPlan) -> Seq<SampleSource> {
    stamp_through(s, p, 2 * half_width(p) + 1)
}

/// Background noise of the given levels.
pub open spec fn noise_samples(noise: Seq<u8>) -> Seq<SampleSource> {
    Seq::new(noise.len(), |i: int| SampleSource::Noise { level: noise[i] })
}

/// The ping laid out from noise levels and echoes: the noise, with the
/// echoes written over it in order, a later echo over an earlier one.
pub open spec fn laid_out(noise: Seq<u8>, plans: Seq<EchoPlan>) -> Seq<SampleSource>
    decreases plans.len(),
{
    if plans.len() == 0 {
        noise_samples(noise)
    } else {
        stamp(laid_out(noise, plans.drop_last()), plans.last())
    }
}

/// The echoes can be laid into a ping of `n` samples: each centre is a
/// position of the ping and each width is not negative.
pub open spec fn plans_fit(n: int, plans: Seq<EchoPlan>) -> bool {
    forall|k: int| 0 <= k < plans.len() ==> #[trigger] plans[k].center < n && plans[k].width >= 0
}

/// Position of the sample `offset` samples from `center` in a ping of `n`
/// samples, wrapping around its ends.
pub fn wrap_index(center: usize, offset: i64, n: usize) -> (idx: usize)
    requires
        n > 0,
    ensures
        idx == wrapped(center as int, offset as int, n as int),
        idx < n,
        (center as int + offset as int - idx as int) % (n as int) == 0,
{
    proof {
        let x = center as int + offset as int;
        vstd::arithmetic::div_mod::lemma_fundamental_div_mod(x, n as int);
        vstd::arithmetic::div_mod::lemma_mod_multiples_basic(x / (n as int), n as int);
        assert(x - x % (n as int) == (x / (n as int)) * (n as int)) by (nonlinear_arith)
            requires
                x == (n as int) * (x / (n as int)) + x % (n as int),
        ;
    }
    let c: u128 = center as u128;
    let m: u128 = n as u128;
    if offset >= 0 {
        let r = (c + offset as u128) % m;
        r as usize
    } else {
        let back: u128 = (-(offset as i128)) as u128;
        let back_mod = back % m;
        let r = (c + m - back_mod) % m;
        proof {
            let x = center as int + offset as int;
            let q = back as int / n as int;
            vstd::arithmetic::div_mod::lemma_fundamental_div_mod(back as int, n as int);
            assert(c + m - back_mod == n as int * (q + 1) + x) by (nonlinear_arith)
                requires
                    back as int == n as int * q + back_mod,
                    back as int == -(offset as int),
                    x == center as int + offset as int,
                    c == center,
                    m == n,
            ;
            vstd::arithmetic::div_mod::lemma_mod_multiples_vanish(q + 1, x, n as int);
        }
        r as usize
    }
}

/// Lays out a ping from its noise levels and its echoes: the noise, with
/// the echoes written over it in order; each echo writes its points from
/// the lowest offset up, wrapping around the ends of the ping.
pub fn lay_out(noise: &[u8], plans: &[EchoPlan]) -> (samples: Vec<SampleSource>)
    requires
        plans_fit(noise@.len() as int, plans@),
    ensures
        samples@ == laid_out(noise@, plans@),
{
    let n = noise.len();
    let mut samples: Vec<SampleSource> = Vec::new();
    let mut i: usize = 0;
    while i < n
        invariant
            n == noise@.len(),
            i <= n,
            samples@ == noise_samples(noise@.subrange(0, i as int)),
        decreases n - i,
    {
        samples.push(SampleSource::Noise { level: noise[i] });
        i = i + 1;
        assert(samples@ =~= noise_samples(noise@.subrange(0, i as int)));
    }
    assert(noise@.subrange(0, n as int) =~= noise@);
    assert(samples@ == laid_out(noise@, plans@.subrange(0, 0)));
    let mut k: usize = 0;
    while k < plans.len()
        invariant
            n == noise@.len(),
            k <= plans@.len(),
            plans_fit(n as int, plans@),
            samples@ == laid_out(noise@, plans@.subrange(0, k as int)),
        decreases plans@.len() - k,
    {
        let p = plans[k];
        let ghost before = samples@;
        assert(p == plans@[k as int]);
        assert(plans@[k as int].center < n && plans@[k as int].width >= 0);
        proof {
            let sub = plans@.subrange(0, k as int);
            assert(plans_fit(n as int, sub)) by {
                assert forall|j: int| 0 <= j < sub.len() implies #[trigger] sub[j].center < n
                    && sub[j].width >= 0 by {
                    assert(sub[j] == plans@[j]);
                }
            }
            lemma_laid_out_len(noise@, sub);
        }
        let h: i64 = p.width / 2;
        let mut offset: i64 = -h;
        while offset <= h
            invariant
                n == noise@.len(),
                n > 0,
                p.center < n,
                h == half_width(p),
                h >= 0,
                -h <= offset <= h + 1,
                before.len() == n,
                samples@ == stamp_through(before, p, offset + h),
            decreases h + 1 - offset,
        {
            let idx = wrap_index(p.center, offset, n);
            proof {
                lemma_stamp_through_len(before, p, offset + h);
            }
            samples.set(idx, SampleSource::Echo { strength: p.strength, offset, width: p.width });
            offset = offset + 1;
        }
        proof {
            let next = plans@.subrange(0, k + 1);
            assert(next.drop_last() =~= plans@.subrange(0, k as int));
            assert(next.last() == p);
        }
        k = k + 1;
    }
    assert(plans@.subrange(0, plans@.len() as int) =~= plans@);
    samples
}

/// Stamping keeps the length of a ping.
pub proof fn lemma_stamp_through_len(s: Seq<SampleSource>, p: EchoPlan, count: int)
    requires
        s.len() > 0,
    ensures
        stamp_through(s, p, count).len() == s.len(),
    decreases count,
{
    if count > 0 {
        lemma_stamp_through_len(s, p, count - 1);
        vstd::arithmetic::div_mod::lemma_mod_bound(
            p.center as int + (count - 1 - half_width(p)),
            s.len() as int,
        );
    }
}

/// Laying out keeps the length of the noise.
pub proof fn lemma_laid_out_len(noise: Seq<u8>, plans: Seq<EchoPlan>)
    requires
        plans_fit(noise.len() as int, plans),
    ensures
        laid_out(noise, plans).len() == noise.len(),
    decreases plans.len(),
{
    if plans.len() > 0 {
        let rest = plans.drop_last();
        assert(plans_fit(noise.len() as int, rest)) by {
            assert forall|k: int| 0 <= k < rest.len() implies #[trigger] rest[k].center
                < noise.len() && rest[k].width >= 0 by {
                assert(rest[k] == plans[k]);
            }
        }
        lemma_laid_out_len(noise, rest);
        assert(plans[plans.len() - 1].center < noise.len());
        lemma_stamp_through_len(laid_out(noise, rest), plans.last(), 2 * half_width(plans.last()) + 1);
    }
}


/// The source is one that a synthetic ping can hold: noise below
/// `NOISE_LEVELS`, or a point of an echo whose strength and width lie in the
/// drawn ranges, no farther from its centre than half its width.
pub open spec fn source_in_range(src: SampleSource) -> bool {
    match src {
        SampleSource::Noise { level } => level < NOISE_LEVELS,
        SampleSource::Echo { strength, offset, width } => {
            &&& MIN_ECHO_STRENGTH <= strength < MIN_ECHO_STRENGTH + ECHO_STRENGTHS
            &&& MIN_ECHO_WIDTH <= width < MIN_ECHO_WIDTH + ECHO_WIDTHS
            &&& -(width / 2) <= offset <= width / 2
        },
    }
}

/// The echo lies in the drawn ranges for a ping of `n` samples.
pub open spec fn plan_in_range(p: EchoPlan, n: int) -> bool {
    &&& p.center < n
    &&& MIN_ECHO_WIDTH <= p.width < MIN_ECHO_WIDTH + ECHO_WIDTHS
    &&& MIN_ECHO_STRENGTH <= p.strength < MIN_ECHO_STRENGTH + ECHO_STRENGTHS
}

/// Number of echoes drawn when `num_contacts` are asked for.
pub open spec fn echo_count(num_contacts: int) -> int {
    if num_contacts < MAX_ECHOES {
        num_contacts
    } else {
        MAX_ECHOES as int
    }
}

/// Each noise level is below `NOISE_LEVELS`.
pub open spec fn noise_in_range(noise: Seq<u8>) -> bool {
    forall|i: int| 0 <= i < noise.len() ==> #[trigger] noise[i] < NOISE_LEVELS
}

/// Each echo lies in the drawn ranges for a ping of `n` samples.
pub open spec fn plans_in_range(plans: Seq<EchoPlan>, n: int) -> bool {
    forall|k: int| 0 <= k < plans.len() ==> plan_in_range(#[trigger] plans[k], n)
}

/// Noise levels and echoes that can be drawn for a ping of `n` samples with
/// `num_contacts` contacts asked for: one noise level below `NOISE_LEVELS`
/// per sample, and at most `MAX_ECHOES` echoes in the drawn ranges.
pub open spec fn draws_valid(noise: Seq<u8>, plans: Seq<EchoPlan>, n: int, num_contacts: int) -> bool {
    &&& noise.len() == n
    &&& noise_in_range(noise)
    &&& plans.len() == echo_count(num_contacts)
    &&& plans_in_range(plans, n)
}

/// Writing the points of an echo in range over a ping in range leaves a
/// ping in range.
pub proof fn lemma_stamp_through_in_range(s: Seq<SampleSource>, p: EchoPlan, count: int)
    requires
        s.len() > 0,
        plan_in_range(p, s.len() as int),
        count <= 2 * half_width(p) + 1,
        forall|i: int| 0 <= i < s.len() ==> source_in_range(#[trigger] s[i]),
    ensures
        forall|i: int|
            0 <= i < s.len() ==> source_in_range(#[trigger] stamp_through(s, p, count)[i]),
    decreases count,
{
    if count > 0 {
        lemma_stamp_through_in_range(s, p, count - 1);
        lemma_stamp_through_len(s, p, count - 1);
        let offset = count - 1 - half_width(p);
        vstd::arithmetic::div_mod::lemma_mod_bound(p.center as int + offset, s.len() as int);
        assert(source_in_range(echo_point(p, offset)));
    }
}

/// A ping laid out from valid draws holds only sources in range.
pub proof fn laid_out_in_range(noise: Seq<u8>, plans: Seq<EchoPlan>, n: int)
    requires
        noise.len() == n,
        noise_in_range(noise),
        plans_in_range(plans, n),
    ensures
        forall|i: int| 0 <= i < n ==> source_in_range(#[trigger] laid_out(noise, plans)[i]),
    decreases plans.len(),
{
    if plans.len() > 0 {
        let rest = plans.drop_last();
        assert(plans_in_range(rest, n)) by {
            assert forall|k: int| 0 <= k < rest.len() implies plan_in_range(#[trigger] rest[k], n) by {
                assert(rest[k] == plans[k]);
            }
        }
        laid_out_in_range(noise, rest, n);
        assert(plans_fit(n, rest)) by {
            assert forall|k: int| 0 <= k < rest.len() implies #[trigger] rest[k].center < n
                && rest[k].width >= 0 by {
                assert(rest[k] == plans[k]);
                assert(plan_in_range(plans[k], n));
            }
        }
        lemma_laid_out_len(noise, rest);
        assert(plan_in_range(plans[plans.len() - 1], n));
        lemma_stamp_through_in_range(
            laid_out(noise, rest),
            plans.last(),
            2 * half_width(plans.last()) + 1,
        );
    }
}

/// Generates a synthetic ping of `data_points` samples: background noise
/// with a random level per sample, then up to ten echoes (as many as
/// `num_contacts` asks for) with random centres, widths and strengths,
/// written over the noise in order by `lay_out`. Needs at least one sample
/// where an echo is asked for.
pub fn generate_data(data_points: usize, num_contacts: usize) -> (samples: Vec<SampleSource>)
    requires
        data_points > 0 || num_contacts == 0,
    ensures
        samples@.len() == data_points,
        exists|noise: Seq<u8>, plans: Seq<EchoPlan>|
            draws_valid(noise, plans, data_points as int, num_contacts as int) && samples@
                == #[trigger] laid_out(noise, plans),
        forall|i: int| 0 <= i < data_points ==> source_in_range(#[trigger] samples@[i]),
        forall|i: int|
            0 <= i < data_points ==> (#[trigger] samples@[i] is Noise ==> samples@[i]->level < 6),
        forall|i: int|
            0 <= i < data_points ==> (#[trigger] samples@[i] is Echo ==> {
                &&& 40 <= samples@[i]->strength <= 99
                &&& 3 <= samples@[i]->width <= 10
                &&& -(samples@[i]->width / 2) <= samples@[i]->offset <= samples@[i]->width / 2
            }),
        num_contacts == 0 ==> forall|i: int|
            0 <= i < data_points ==> #[trigger] samples@[i] is Noise,
{
    let mut rng = thread_rng();
    let mut noise: Vec<u8> = Vec::new();
    let mut i: usize = 0;
    while i < data_points
        invariant
            i <= data_points,
            noise@.len() == i,
            forall|j: int| 0 <= j < i ==> #[trigger] noise@[j] < NOISE_LEVELS,
        decreases data_points - i,
    {
        let level = random_below(&mut rng, NOISE_LEVELS as u64);
        noise.push(level as u8);
        i = i + 1;
    }
    let count: usize = if num_contacts < MAX_ECHOES {
        num_contacts
    } else {
        MAX_ECHOES
    };
    let mut plans: Vec<EchoPlan> = Vec::new();
    let mut k: usize = 0;
    while k < count
        invariant
            k <= count,
            count == echo_count(num_contacts as int),
            data_points > 0 || count == 0,
            plans@.len() == k,
            forall|j: int| 0 <= j < k ==> plan_in_range(#[trigger] plans@[j], data_points as int),
        decreases count - k,
    {
        let center_draw = random_below(&mut rng, data_points as u64);
        let width_draw = random_below(&mut rng, ECHO_WIDTHS as u64);
        let strength_draw = random_below(&mut rng, ECHO_STRENGTHS as u64);
        plans.push(echo_plan_from_draws(center_draw, width_draw, strength_draw));
        k = k + 1;
    }
    proof {
        assert(plans_fit(data_points as int, plans@)) by {
            assert forall|j: int| 0 <= j < plans@.len() implies #[trigger] plans@[j].center
                < data_points && plans@[j].width >= 0 by {
                assert(plan_in_range(plans@[j], data_points as int));
            }
        }
        assert(draws_valid(noise@, plans@, data_points as int, num_contacts as int));
    }
    let samples = lay_out(noise.as_slice(), plans.as_slice());
    proof {
        lemma_laid_out_len(noise@, plans@);
        laid_out_in_range(noise@, plans@, data_points as int);
    }
    samples
}


/// Two offsets fewer than `n` apart land on different positions of a ping
/// of `n` samples.
proof fn lemma_wrapped_distinct(c: int, o1: int, o2: int, n: int)
    requires
        n > 0,
        o1 < o2,
        o2 - o1 < n,
    ensures
        wrapped(c, o1, n) != wrapped(c, o2, n),
{
    let x1 = c + o1;
    let x2 = c + o2;
    vstd::arithmetic::div_mod::lemma_fundamental_div_mod(x1, n);
    vstd::arithmetic::div_mod::lemma_fundamental_div_mod(x2, n);
    if x1 % n == x2 % n {
        let q1 = x1 / n;
        let q2 = x2 / n;
        assert(false) by (nonlinear_arith)
            requires
                x1 == n * q1 + x1 % n,
                x2 == n * q2 + x2 % n,
                x1 % n == x2 % n,
                0 < x2 - x1 < n,
                n > 0,
        ;
    }
}

/// What writing the first `count` points of an echo does, when they do not
/// wrap onto each other: each written offset holds its echo point, and every
/// other position keeps its sample.
proof fn lemma_stamp_through_effect(s: Seq<SampleSource>, p: EchoPlan, count: int)
    requires
        s.len() > 0,
        0 <= count <= s.len(),
    ensures
        forall|o: int|
            -half_width(p) <= o < -half_width(p) + count ==> stamp_through(s, p, count)[#[trigger] wrapped(
                p.center as int,
                o,
                s.len() as int,
            )] == echo_point(p, o),
        forall|i: int|
            0 <= i < s.len() && (forall|o: int|
                -half_width(p) <= o < -half_width(p) + count ==> #[trigger] wrapped(
                    p.center as int,
                    o,
                    s.len() as int,
                ) != i) ==> stamp_through(s, p, count)[i] == s[i],
    decreases count,
{
    if count > 0 {
        let n = s.len() as int;
        let c = p.center as int;
        let h = half_width(p);
        let o_new = count - 1 - h;
        lemma_stamp_through_effect(s, p, count - 1);
        lemma_stamp_through_len(s, p, count - 1);
        vstd::arithmetic::div_mod::lemma_mod_bound(c + o_new, n);
        assert forall|o: int| -h <= o < -h + count implies stamp_through(s, p, count)[#[trigger] wrapped(
            c,
            o,
            n,
        )] == echo_point(p, o) by {
            if o < o_new {
                lemma_wrapped_distinct(c, o, o_new, n);
                vstd::arithmetic::div_mod::lemma_mod_bound(c + o, n);
            }
        }
        assert forall|i: int|
            0 <= i < n && (forall|o: int| -h <= o < -h + count ==> #[trigger] wrapped(c, o, n) != i)
            implies stamp_through(s, p, count)[i] == s[i] by {
            assert(wrapped(c, o_new, n) != i);
            assert forall|o: int| -h <= o < -h + count - 1 implies #[trigger] wrapped(c, o, n) != i by {
                assert(wrapped(c, o, n) != i);
            }
        }
    }
}

/// An empty list of echoes leaves the noise: sample `i` is noise of level
/// `noise[i]`.
pub proof fn without_echoes_only_noise(noise: Seq<u8>)
    ensures
        laid_out(noise, Seq::empty()).len() == noise.len(),
        forall|i: int|
            0 <= i < noise.len() ==> #[trigger] laid_out(noise, Seq::empty())[i]
                == (SampleSource::Noise { level: noise[i] }),
{
}

/// The last echo, when narrower than the ping, covers every offset from
/// minus half its width to half its width (widths rounded down): the sample
/// at the centre plus the offset, wrapping around the ends, is the echo
/// point for that offset. Every other sample is what the earlier echoes
/// left there.
pub proof fn last_echo_covers_its_width(noise: Seq<u8>, plans: Seq<EchoPlan>)
    requires
        plans_fit(noise.len() as int, plans),
        plans.len() > 0,
        plans.last().width < noise.len(),
    ensures
        forall|o: int|
            -(plans.last().width / 2) <= o <= plans.last().width / 2 ==> laid_out(
                noise,
                plans,
            )[#[trigger] wrapped(plans.last().center as int, o, noise.len() as int)]
                == (SampleSource::Echo {
                strength: plans.last().strength,
                offset: o as i64,
                width: plans.last().width,
            }),
        forall|i: int|
            0 <= i < noise.len() && (forall|o: int|
                -(plans.last().width / 2) <= o <= plans.last().width / 2 ==> #[trigger] wrapped(
                    plans.last().center as int,
                    o,
                    noise.len() as int,
                ) != i) ==> #[trigger] laid_out(noise, plans)[i] == laid_out(
                noise,
                plans.drop_last(),
            )[i],
{
    let p = plans.last();
    let rest = plans.drop_last();
    let n = noise.len() as int;
    assert(p == plans[plans.len() - 1]);
    assert(p.center < n && p.width >= 0);
    assert(plans_fit(n, rest)) by {
        assert forall|k: int| 0 <= k < rest.len() implies #[trigger] rest[k].center < n
            && rest[k].width >= 0 by {
            assert(rest[k] == plans[k]);
        }
    }
    lemma_laid_out_len(noise, rest);
    let before = laid_out(noise, rest);
    let h = half_width(p);
    lemma_stamp_through_effect(before, p, 2 * h + 1);
    assert forall|o: int| -(p.width / 2) <= o <= p.width / 2 implies laid_out(noise, plans)[
        #[trigger] wrapped(p.center as int, o, n)] == (SampleSource::Echo {
        strength: p.strength,
        offset: o as i64,
        width: p.width,
    }) by {
        assert(wrapped(p.center as int, o, n) == wrapped(p.center as int, o, n));
    }
    assert forall|i: int|
        0 <= i < n && (forall|o: int|
            -(p.width / 2) <= o <= p.width / 2 ==> #[trigger] wrapped(p.center as int, o, n) != i)
        implies #[trigger] laid_out(noise, plans)[i] == before[i] by {
        assert forall|o: int| -h <= o < -h + 2 * h + 1 implies #[trigger] wrapped(p.center as int, o, n)
            != i by {
            assert(wrapped(p.center as int, o, n) != i);
        }
    }
}


/// After writing the first `count` points of an echo, every position that a
/// written offset lands on holds a point of that echo, of that offset or a
/// later one.
proof fn lemma_stamp_through_marks(s: Seq<SampleSource>, p: EchoPlan, count: int)
    requires
        s.len() > 0,
        p.width >= 0,
        count <= 2 * half_width(p) + 1,
    ensures
        forall|o: int|
            -half_width(p) <= o < -half_width(p) + count ==> {
                let src = stamp_through(s, p, count)[#[trigger] wrapped(
                    p.center as int,
                    o,
                    s.len() as int,
                )];
                &&& src is Echo
                &&& src->strength == p.strength
                &&& src->width == p.width
                &&& o <= src->offset < -half_width(p) + count
            },
    decreases count,
{
    if count > 0 {
        let n = s.len() as int;
        let c = p.center as int;
        let h = half_width(p);
        let o_new = count - 1 - h;
        lemma_stamp_through_marks(s, p, count - 1);
        lemma_stamp_through_len(s, p, count - 1);
        vstd::arithmetic::div_mod::lemma_mod_bound(c + o_new, n);
        assert forall|o: int| -h <= o < -h + count implies {
            let src = stamp_through(s, p, count)[#[trigger] wrapped(c, o, n)];
            &&& src is Echo
            &&& src->strength == p.strength
            &&& src->width == p.width
            &&& o <= src->offset < -h + count
        } by {
            vstd::arithmetic::div_mod::lemma_mod_bound(c + o, n);
            let prev = stamp_through(s, p, count - 1);
            let cur = stamp_through(s, p, count);
            assert(cur == prev.update(wrapped(c, o_new, n), echo_point(p, o_new)));
            if wrapped(c, o, n) == wrapped(c, o_new, n) {
                assert(cur[wrapped(c, o, n)] == echo_point(p, o_new));
                assert(o <= o_new);
            } else {
                assert(cur[wrapped(c, o, n)] == prev[wrapped(c, o, n)]);
                assert(o != o_new);
            }
        }
    }
}

/// Every echo, however wide against the ping, leaves each position that one
/// of its offsets (from minus half its width to half its width) lands on
/// holding one of its own points, of that offset or a later one, unless a
/// later echo is written there.
pub proof fn last_echo_marks_its_positions(noise: Seq<u8>, plans: Seq<EchoPlan>)
    requires
        plans_fit(noise.len() as int, plans),
        plans.len() > 0,
    ensures
        forall|o: int|
            -(plans.last().width / 2) <= o <= plans.last().width / 2 ==> {
                let src = laid_out(noise, plans)[#[trigger] wrapped(
                    plans.last().center as int,
                    o,
                    noise.len() as int,
                )];
                &&& src is Echo
                &&& src->strength == plans.last().strength
                &&& src->width == plans.last().width
                &&& o <= src->offset <= plans.last().width / 2
            },
{
    let p = plans.last();
    let rest = plans.drop_last();
    let n = noise.len() as int;
    assert(p == plans[plans.len() - 1]);
    assert(p.center < n && p.width >= 0);
    assert(plans_fit(n, rest)) by {
        assert forall|k: int| 0 <= k < rest.len() implies #[trigger] rest[k].center < n
            && rest[k].width >= 0 by {
            assert(rest[k] == plans[k]);
        }
    }
    lemma_laid_out_len(noise, rest);
    lemma_stamp_through_marks(laid_out(noise, rest), p, 2 * half_width(p) + 1);
}


/// The echo that three draws stand for: centred at the first draw, three
/// samples wider than the second, forty stronger than the third.
pub fn echo_plan_from_draws(center_draw: u64, width_draw: u64, strength_draw: u64) -> (p: EchoPlan)
    requires
        center_draw <= usize::MAX,
        width_draw < ECHO_WIDTHS,
        strength_draw < ECHO_STRENGTHS,
    ensures
        p.center == center_draw,
        p.width == 3 + width_draw,
        p.strength == 40 + strength_draw,
{
    EchoPlan {
        center: center_draw as usize,
        width: MIN_ECHO_WIDTH + width_draw as i64,
        strength: MIN_ECHO_STRENGTH + strength_draw as u32,
    }
}

/// No position of the ping is ruled out as the centre of an echo: for each
/// position `c` of a ping of `n` samples, and each of the drawn widths and
/// strengths, there are valid draws whose first echo is centred at `c` with
/// that width and strength.
pub proof fn every_echo_can_be_drawn(n: int, num_contacts: int, c: int, width: int, strength: int)
    requires
        0 <= c < n,
        num_contacts > 0,
        3 <= width <= 10,
        40 <= strength <= 99,
        c <= usize::MAX,
    ensures
        exists|noise: Seq<u8>, plans: Seq<EchoPlan>|
            #[trigger] draws_valid(noise, plans, n, num_contacts) && plans[0].center == c
                && plans[0].width == width && plans[0].strength == strength,
{
    let p = EchoPlan { center: c as usize, width: width as i64, strength: strength as u32 };
    let noise = Seq::new(n as nat, |i: int| 0u8);
    let plans = Seq::new(echo_count(num_contacts) as nat, |k: int| p);
    assert(draws_valid(noise, plans, n, num_contacts));
}

} // verus!
