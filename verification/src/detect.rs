//! Finding and classifying contact signatures in a smoothed ping.
//!
//! A smoothed ping is a sequence of sample patterns (see `level`). A
//! signature is a maximal run of consecutive samples above the noise
//! threshold. Signatures at least as wide as the minimum contact size become
//! contacts, in the order they appear, until the caller's room for contacts
//! is used up.
use vstd::prelude::*;
use crate::contact::{
    CONTACT_TYPE_MARINE_LIFE, CONTACT_TYPE_ROCK, CONTACT_TYPE_UNKNOWN, CONTACT_TYPE_VESSEL, MAX_SIGNALS,
};
use crate::level::{at_least, exceeds, greater, is_nan_bits, order_key, ZERO_BITS};

verus! {

/// Pattern of the float fifteen: the standard noise threshold.
pub const STANDARD_NOISE_THRESHOLD: u32 = 0x4170_0000u32;

/// The standard minimum width of a contact signature, in samples.
pub const STANDARD_MIN_CONTACT_SIZE: usize = 3;

/// Pattern of the float eighty: a peak above it marks a rock.
pub const ROCK_PEAK: u32 = 0x42a0_0000u32;

/// Pattern of the float forty: a narrow signature whose peak is below it
/// marks marine life.
pub const MARINE_LIFE_PEAK: u32 = 0x4220_0000u32;

/// A signature wider than this marks a vessel.
pub const VESSEL_MIN_WIDTH: usize = 10;

/// A signature narrower than this may be marine life.
pub const MARINE_LIFE_MAX_WIDTH: usize = 5;

/// Settings of the detector.
#[derive(Clone, Copy, Debug, PartialEq, Eq, Structural)]
pub struct DetectorSettings {
    /// Pattern of the float that a sample must exceed to belong to a signature.
    pub noise_threshold: u32,
    /// Minimum number of samples in a signature that becomes a contact.
    pub min_contact_size: usize,
}

/// A detected contact, in sample positions and sample patterns.
#[derive(Clone, Copy, Debug, PartialEq, Eq, Structural)]
pub struct Detection {
    /// Position of the first sample of the signature.
    pub start: usize,
    /// Number of samples in the signature.
    pub width: usize,
    /// Position of the peak sample (see `peak_reported`).
    pub peak_index: usize,
    /// Pattern of the peak strength.
    pub peak: u32,
    /// One of the `CONTACT_TYPE_*` codes.
    pub contact_type: i32,
}

impl DetectorSettings {
    /// The standard settings: a threshold of fifteen and a minimum contact
    /// size of three samples.
    pub fn standard() -> (s: DetectorSettings)
        ensures
            s.noise_threshold == STANDARD_NOISE_THRESHOLD,
            s.min_contact_size == STANDARD_MIN_CONTACT_SIZE,
            s.noise_threshold == 0x4170_0000u32,
            s.min_contact_size == 3,
    {
        DetectorSettings {
            noise_threshold: STANDARD_NOISE_THRESHOLD,
            min_contact_size: STANDARD_MIN_CONTACT_SIZE,
        }
    }
}

impl Default for DetectorSettings {
    fn default() -> (s: DetectorSettings)
        ensures
            s.noise_threshold == STANDARD_NOISE_THRESHOLD,
            s.min_contact_size == STANDARD_MIN_CONTACT_SIZE,
    {
        DetectorSettings::standard()
    }
}

/// Number of leading ping samples that the analysis looks at.
pub open spec fn analyzed_len(ping_len: int) -> int {
    if ping_len < MAX_SIGNALS {
        ping_len
    } else {
        MAX_SIGNALS as int
    }
}

/// Number of leading samples of a ping of `ping_len` samples that the
/// analysis looks at: all of them, up to `MAX_SIGNALS`.
pub fn analyzed_length(ping_len: usize) -> (n: usize)
    ensures
        n == analyzed_len(ping_len as int),
        n <= ping_len,
        n <= MAX_SIGNALS,
        n == ping_len || n == MAX_SIGNALS,
{
    proof {
        analyzed_len_is_min(ping_len as int);
    }
    if ping_len < MAX_SIGNALS {
        ping_len
    } else {
        MAX_SIGNALS
    }
}

/// Sample `i` is above the threshold.
pub open spec fn above(s: Seq<u32>, threshold: u32, i: int) -> bool {
    greater(s[i], threshold)
}

/// Samples `a..b` form a signature: all above the threshold, and neither
/// neighbour of the run is.
pub open spec fn is_signature(s: Seq<u32>, threshold: u32, a: int, b: int) -> bool {
    &&& 0 <= a < b <= s.len()
    &&& (a == 0 || !above(s, threshold, a - 1))
    &&& (b == s.len() || !above(s, threshold, b))
    &&& forall|j: int| a <= j < b ==> #[trigger] above(s, threshold, j)
}

/// Some sample in `a..b` is greater than zero.
pub open spec fn has_positive(s: Seq<u32>, a: int, b: int) -> bool {
    exists|k: int| a <= k < b && #[trigger] greater(s[k], ZERO_BITS)
}

/// Sample `p` is the first greatest sample of `a..b`, and it is greater than
/// zero.
pub open spec fn is_peak(s: Seq<u32>, a: int, b: int, p: int) -> bool {
    &&& a <= p < b
    &&& greater(s[p], ZERO_BITS)
    &&& forall|k: int| a <= k < b ==> !#[trigger] greater(s[k], s[p])
    &&& forall|k: int| a <= k < p ==> !#[trigger] at_least(s[k], s[p])
}

/// The peak of `a..b` is reported as position `index` with strength `peak`:
/// the first greatest sample where some sample is greater than zero, and
/// otherwise position zero with strength zero.
pub open spec fn peak_reported(s: Seq<u32>, a: int, b: int, index: int, peak: u32) -> bool {
    if has_positive(s, a, b) {
        is_peak(s, a, b, index) && peak == s[index]
    } else {
        index == 0 && peak == ZERO_BITS
    }
}

/// The contact type of a signature of `width` samples whose peak is `peak`.
pub open spec fn contact_type_for(peak: u32, width: int) -> i32 {
    if greater(peak, ROCK_PEAK) {
        CONTACT_TYPE_ROCK
    } else if width > VESSEL_MIN_WIDTH {
        CONTACT_TYPE_VESSEL
    } else if greater(MARINE_LIFE_PEAK, peak) && width < MARINE_LIFE_MAX_WIDTH {
        CONTACT_TYPE_MARINE_LIFE
    } else {
        CONTACT_TYPE_UNKNOWN
    }
}

/// `d` describes a signature of `s` wide enough to be a contact, with its
/// peak and its type.
pub open spec fn is_detection(s: Seq<u32>, settings: DetectorSettings, d: Detection) -> bool {
    &&& is_signature(s, settings.noise_threshold, d.start as int, d.start + d.width)
    &&& d.width >= settings.min_contact_size
    &&& peak_reported(s, d.start as int, d.start + d.width, d.peak_index as int, d.peak)
    &&& d.contact_type == contact_type_for(d.peak, d.width as int)
}

/// Samples `a..b` form a signature wide enough to be a contact.
pub open spec fn qualifies(s: Seq<u32>, settings: DetectorSettings, a: int, b: int) -> bool {
    is_signature(s, settings.noise_threshold, a, b) && b - a >= settings.min_contact_size
}

/// Every qualifying signature that ends by `limit` is in `out`, unless `out`
/// is full and the signature comes after all of `out`.
pub open spec fn complete_up_to(
    s: Seq<u32>,
    settings: DetectorSettings,
    max_contacts: int,
    out: Seq<Detection>,
    limit: int,
) -> bool {
    forall|a: int, b: int|
        #![trigger qualifies(s, settings, a, b)]
        qualifies(s, settings, a, b) && b <= limit ==> (exists|k: int|
            0 <= k < out.len() && #[trigger] out[k].start == a) || (out.len() == max_contacts
            && forall|k: int| 0 <= k < out.len() ==> #[trigger] out[k].start < a)
}

/// `out` is what the detector reports for the smoothed ping `s`: the
/// qualifying signatures of `s` in order of position, as many as fit in
/// `max_contacts`.
pub open spec fn reports(
    s: Seq<u32>,
    settings: DetectorSettings,
    max_contacts: int,
    out: Seq<Detection>,
) -> bool {
    &&& out.len() <= max_contacts
    &&& forall|k: int| 0 <= k < out.len() ==> is_detection(s, settings, #[trigger] out[k])
    &&& forall|k1: int, k2: int|
        0 <= k1 < k2 < out.len() ==> #[trigger] out[k1].start < #[trigger] out[k2].start
    &&& complete_up_to(s, settings, max_contacts, out, s.len() as int)
}

/// Classifies a signature of `width` samples whose peak is `peak`: a rock
/// above a peak of eighty, else a vessel wider than ten samples, else marine
/// life below a peak of forty and narrower than five samples, else unknown.
pub fn classify(peak: u32, width: usize) -> (t: i32)
    ensures
        t == contact_type_for(peak, width as int),
        greater(peak, ROCK_PEAK) ==> t == CONTACT_TYPE_ROCK,
        !greater(peak, ROCK_PEAK) && width > 10 ==> t == CONTACT_TYPE_VESSEL,
        !greater(peak, ROCK_PEAK) && width <= 10 && greater(MARINE_LIFE_PEAK, peak) && width < 5
            ==> t == CONTACT_TYPE_MARINE_LIFE,
        !greater(peak, ROCK_PEAK) && width <= 10 && !(greater(MARINE_LIFE_PEAK, peak) && width
            < 5) ==> t == CONTACT_TYPE_UNKNOWN,
{
    proof {
        contact_type_branches(peak, width as int);
    }
    if exceeds(peak, ROCK_PEAK) {
        CONTACT_TYPE_ROCK
    } else if width > VESSEL_MIN_WIDTH {
        CONTACT_TYPE_VESSEL
    } else if exceeds(MARINE_LIFE_PEAK, peak) && width < MARINE_LIFE_MAX_WIDTH {
        CONTACT_TYPE_MARINE_LIFE
    } else {
        CONTACT_TYPE_UNKNOWN
    }
}

/// Finds the peak of the samples `start..end`: the first greatest sample
/// that is greater than zero, or position zero with strength zero where
/// there is none.
pub fn find_peak(s: &[u32], start: usize, end: usize) -> (r: (usize, u32))
    requires
        start <= end <= s@.len(),
    ensures
        peak_reported(s@, start as int, end as int, r.0 as int, r.1),
{
    let mut best: u32 = ZERO_BITS;
    let mut index: usize = 0;
    let mut j: usize = start;
    while j < end
        invariant
            start <= j <= end <= s@.len(),
            has_positive(s@, start as int, j as int) ==> is_peak(s@, start as int, j as int, index as int)
                && best == s@[index as int],
            !has_positive(s@, start as int, j as int) ==> index == 0 && best == ZERO_BITS,
        decreases end - j,
    {
        let ghost old_has = has_positive(s@, start as int, j as int);
        if exceeds(s[j], best) {
            proof {
                assert(greater(s@[j as int], ZERO_BITS));
                assert forall|k: int| start <= k < j + 1 implies !#[trigger] greater(s@[k], s@[j as int]) by {
                    if k < j && old_has {
                        assert(!greater(s@[k], s@[index as int]));
                    }
                    if k < j && !old_has {
                        assert(!greater(s@[k], ZERO_BITS));
                    }
                }
                assert forall|k: int| start <= k < j implies !#[trigger] at_least(s@[k], s@[j as int]) by {
                    if old_has {
                        assert(!greater(s@[k], s@[index as int]));
                    } else {
                        assert(!greater(s@[k], ZERO_BITS));
                    }
                }
            }
            best = s[j];
            index = j;
        } else {
            proof {
                if !old_has {
                    assert(!greater(s@[j as int], ZERO_BITS));
                    assert forall|k: int| start <= k < j + 1 implies !#[trigger] greater(s@[k], ZERO_BITS) by {
                        if k < j {
                            assert(!(start <= k < j && greater(s@[k], ZERO_BITS)));
                        }
                    }
                }
            }
        }
        j = j + 1;
    }
    (index, best)
}


/// Finds the contacts of the smoothed ping `filtered`: its signatures (runs
/// of samples above the noise threshold) that are at least
/// `settings.min_contact_size` samples wide, in order of position, at most
/// `max_contacts` of them. Each comes with its peak and its type.
pub fn find_contacts(filtered: &[u32], settings: DetectorSettings, max_contacts: usize) -> (out:
    Vec<Detection>)
    ensures
        reports(filtered@, settings, max_contacts as int, out@),
{
    let n = filtered.len();
    let threshold = settings.noise_threshold;
    let ghost s = filtered@;
    let mut out: Vec<Detection> = Vec::new();
    let mut i: usize = 0;
    while i < n
        invariant
            n == s.len(),
            s == filtered@,
            threshold == settings.noise_threshold,
            i <= n,
            !(0 < i < n && above(s, threshold, i - 1) && above(s, threshold, i as int)),
            out@.len() <= max_contacts,
            forall|k: int|
                0 <= k < out@.len() ==> is_detection(s, settings, #[trigger] out@[k])
                    && out@[k].start + out@[k].width <= i,
            forall|k1: int, k2: int|
                0 <= k1 < k2 < out@.len() ==> #[trigger] out@[k1].start < #[trigger] out@[k2].start,
            complete_up_to(s, settings, max_contacts as int, out@, i as int),
        decreases n - i,
    {
        if !exceeds(filtered[i], threshold) {
            proof {
                assert forall|a: int, b: int|
                    #![trigger qualifies(s, settings, a, b)]
                    qualifies(s, settings, a, b) && b <= i + 1 implies b <= i by {
                    if b == i + 1 {
                        assert(above(s, threshold, b - 1));
                    }
                }
            }
            i = i + 1;
        } else {
            let start = i;
            while i < n && exceeds(filtered[i], threshold)
                invariant
                    n == s.len(),
                    s == filtered@,
                    threshold == settings.noise_threshold,
                    start <= i <= n,
                    start < n,
                    above(s, threshold, start as int),
                    start == 0 || !above(s, threshold, start - 1),
                    forall|j: int| start <= j < i ==> #[trigger] above(s, threshold, j),
                decreases n - i,
            {
                i = i + 1;
            }
            let width = i - start;
            proof {
                assert(is_signature(s, threshold, start as int, i as int));
                assert forall|a: int, b: int|
                    #![trigger qualifies(s, settings, a, b)]
                    qualifies(s, settings, a, b) && b <= i && b > start implies a == start
                        && b == i by {
                    if a < start {
                        assert(above(s, threshold, start - 1));
                    }
                    if a > start {
                        assert(above(s, threshold, a - 1));
                    }
                    if b < i {
                        assert(above(s, threshold, b));
                    }
                }
            }
            if width >= settings.min_contact_size && out.len() < max_contacts {
                let (peak_index, peak) = find_peak(filtered, start, i);
                let contact_type = classify(peak, width);
                let d = Detection { start, width, peak_index, peak, contact_type };
                let ghost old_out = out@;
                out.push(d);
                proof {
                    assert(out@[old_out.len() as int] == d);
                    assert forall|k: int| 0 <= k < old_out.len() implies #[trigger] out@[k].start
                        < start by {
                        assert(out@[k] == old_out[k]);
                    }
                    assert forall|a: int, b: int|
                        #![trigger qualifies(s, settings, a, b)]
                        qualifies(s, settings, a, b) && b <= i implies (exists|k: int|
                            0 <= k < out@.len() && #[trigger] out@[k].start == a) || (out@.len()
                            == max_contacts && forall|k: int|
                            0 <= k < out@.len() ==> #[trigger] out@[k].start < a) by {
                        if b <= start {
                            if exists|k: int| 0 <= k < old_out.len() && #[trigger] old_out[k].start == a {
                                let k = choose|k: int| 0 <= k < old_out.len() && #[trigger] old_out[k].start == a;
                                assert(out@[k] == old_out[k]);
                            }
                        } else {
                            assert(out@[old_out.len() as int].start == a);
                        }
                    }
                }
            }
        }
    }
    out
}


/// A signature is determined by where it starts.
pub proof fn signature_end_is_determined(s: Seq<u32>, threshold: u32, a: int, b1: int, b2: int)
    requires
        is_signature(s, threshold, a, b1),
        is_signature(s, threshold, a, b2),
    ensures
        b1 == b2,
{
    if b1 < b2 {
        assert(above(s, threshold, b1));
    }
    if b2 < b1 {
        assert(above(s, threshold, b2));
    }
}

/// A run of samples has at most one peak.
pub proof fn peak_is_determined(s: Seq<u32>, a: int, b: int, p: int, q: int)
    requires
        is_peak(s, a, b, p),
        is_peak(s, a, b, q),
    ensures
        p == q,
{
    if p < q {
        assert(!greater(s[q], s[p]));
        assert(!at_least(s[p], s[q]));
    }
    if q < p {
        assert(!greater(s[p], s[q]));
        assert(!at_least(s[q], s[p]));
    }
}

/// Two reports of the same ping list the same starts, position by position,
/// over their first `k` entries.
proof fn reported_starts_agree(
    s: Seq<u32>,
    settings: DetectorSettings,
    max_contacts: int,
    out1: Seq<Detection>,
    out2: Seq<Detection>,
    k: int,
)
    requires
        reports(s, settings, max_contacts, out1),
        reports(s, settings, max_contacts, out2),
        0 <= k <= out1.len(),
        k <= out2.len(),
    ensures
        forall|j: int| 0 <= j < k ==> #[trigger] out1[j].start == out2[j].start,
    decreases k,
{
    if k > 0 {
        let k = k - 1;
        reported_starts_agree(s, settings, max_contacts, out1, out2, k);
        let d1 = out1[k];
        let d2 = out2[k];
        assert(is_detection(s, settings, d1));
        assert(is_detection(s, settings, d2));
        assert(qualifies(s, settings, d1.start as int, d1.start + d1.width));
        assert(qualifies(s, settings, d2.start as int, d2.start + d2.width));
        if exists|j: int| 0 <= j < out2.len() && #[trigger] out2[j].start == d1.start {
            let j = choose|j: int| 0 <= j < out2.len() && #[trigger] out2[j].start == d1.start;
            if j < k {
                assert(out1[j].start == out2[j].start);
                assert(out1[j].start < out1[k].start);
            }
            if j > k {
                assert(out2[k].start < out2[j].start);
            }
        } else {
            assert(out2[k].start < d1.start);
        }
        if exists|j: int| 0 <= j < out1.len() && #[trigger] out1[j].start == d2.start {
            let j = choose|j: int| 0 <= j < out1.len() && #[trigger] out1[j].start == d2.start;
            if j < k {
                assert(out1[j].start == out2[j].start);
                assert(out2[j].start < out2[k].start);
            }
            if j > k {
                assert(out1[k].start < out1[j].start);
            }
        } else {
            assert(out1[k].start < d2.start);
        }
    }
}

/// The contacts reported for a smoothed ping are determined by the ping, the
/// settings and the room for contacts: two reports of the same ping agree.
pub proof fn reports_are_unique(
    s: Seq<u32>,
    settings: DetectorSettings,
    max_contacts: int,
    out1: Seq<Detection>,
    out2: Seq<Detection>,
)
    requires
        reports(s, settings, max_contacts, out1),
        reports(s, settings, max_contacts, out2),
    ensures
        out1 == out2,
{
    let t = settings.noise_threshold;
    let m = if out1.len() < out2.len() { out1.len() as int } else { out2.len() as int };
    reported_starts_agree(s, settings, max_contacts, out1, out2, m);
    if out1.len() < out2.len() {
        let d = out2[m];
        assert(is_detection(s, settings, d));
        assert(qualifies(s, settings, d.start as int, d.start + d.width));
        if exists|j: int| 0 <= j < out1.len() && #[trigger] out1[j].start == d.start {
            let j = choose|j: int| 0 <= j < out1.len() && #[trigger] out1[j].start == d.start;
            assert(out1[j].start == out2[j].start);
            assert(out2[j].start < out2[m].start);
        }
    }
    if out2.len() < out1.len() {
        let d = out1[m];
        assert(is_detection(s, settings, d));
        assert(qualifies(s, settings, d.start as int, d.start + d.width));
        if exists|j: int| 0 <= j < out2.len() && #[trigger] out2[j].start == d.start {
            let j = choose|j: int| 0 <= j < out2.len() && #[trigger] out2[j].start == d.start;
            assert(out1[j].start == out2[j].start);
            assert(out1[j].start < out1[m].start);
        }
    }
    assert forall|j: int| 0 <= j < out1.len() implies #[trigger] out1[j] == out2[j] by {
        let d1 = out1[j];
        let d2 = out2[j];
        assert(is_detection(s, settings, d1));
        assert(is_detection(s, settings, d2));
        signature_end_is_determined(s, t, d1.start as int, d1.start + d1.width, d2.start + d2.width);
        if has_positive(s, d1.start as int, d1.start + d1.width) {
            peak_is_determined(s, d1.start as int, d1.start + d1.width, d1.peak_index as int, d2.peak_index as int);
        }
    }
    assert(out1 =~= out2);
}

/// A ping none of whose samples is above the noise threshold yields no
/// contact.
pub proof fn quiet_ping_yields_no_contacts(
    s: Seq<u32>,
    settings: DetectorSettings,
    max_contacts: int,
    out: Seq<Detection>,
)
    requires
        reports(s, settings, max_contacts, out),
        forall|i: int| 0 <= i < s.len() ==> !#[trigger] greater(s[i], settings.noise_threshold),
    ensures
        out.len() == 0,
{
    if out.len() > 0 {
        let d = out[0];
        assert(is_detection(s, settings, d));
        assert(above(s, settings.noise_threshold, d.start as int));
    }
}


/// With a noise threshold that is a number not below zero, the peak of a
/// contact lies inside its signature and exceeds the threshold.
pub proof fn peak_lies_in_signature(s: Seq<u32>, settings: DetectorSettings, d: Detection)
    requires
        is_detection(s, settings, d),
        !is_nan_bits(settings.noise_threshold),
        order_key(settings.noise_threshold) >= 0,
    ensures
        d.start <= d.peak_index < d.start + d.width,
        greater(d.peak, settings.noise_threshold),
{
    let a = d.start as int;
    let b = d.start + d.width;
    assert(above(s, settings.noise_threshold, a));
    assert(0u32 & 0x7fff_ffffu32 == 0u32) by (bit_vector);
    assert(0u32 & 0x8000_0000u32 == 0u32) by (bit_vector);
    assert(0u32 & 0x7f80_0000u32 == 0u32) by (bit_vector);
    assert(greater(s[a], ZERO_BITS));
    assert(has_positive(s, a, b));
    assert(above(s, settings.noise_threshold, d.peak_index as int));
}


/// The analysed length is the smaller of the ping's length and
/// `MAX_SIGNALS`: a ping no longer than that is analysed whole.
pub proof fn analyzed_len_is_min(ping_len: int)
    requires
        ping_len >= 0,
    ensures
        analyzed_len(ping_len) <= ping_len,
        analyzed_len(ping_len) <= MAX_SIGNALS,
        analyzed_len(ping_len) == ping_len || analyzed_len(ping_len) == MAX_SIGNALS,
        ping_len <= MAX_SIGNALS ==> analyzed_len(ping_len) == ping_len,
        MAX_SIGNALS == 1000,
{
}

/// The type of a contact, branch by branch: above a peak of eighty a rock,
/// whatever the width; otherwise wider than ten samples a vessel, whatever
/// the peak; otherwise below a peak of forty and narrower than five samples
/// marine life; otherwise unknown. The peak counts only through these two
/// comparisons.
pub proof fn contact_type_branches(peak: u32, width: int)
    ensures
        greater(peak, ROCK_PEAK) ==> contact_type_for(peak, width) == CONTACT_TYPE_ROCK,
        !greater(peak, ROCK_PEAK) && width > 10 ==> contact_type_for(peak, width)
            == CONTACT_TYPE_VESSEL,
        !greater(peak, ROCK_PEAK) && width <= 10 && greater(MARINE_LIFE_PEAK, peak) && width < 5
            ==> contact_type_for(peak, width) == CONTACT_TYPE_MARINE_LIFE,
        !greater(peak, ROCK_PEAK) && width <= 10 && !(greater(MARINE_LIFE_PEAK, peak) && width
            < 5) ==> contact_type_for(peak, width) == CONTACT_TYPE_UNKNOWN,
        ROCK_PEAK == 0x42a0_0000u32,
        MARINE_LIFE_PEAK == 0x4220_0000u32,
{
}

/// Two peaks on the same side of both classification bounds, in signatures
/// of the same width, get the same type.
pub proof fn contact_type_depends_on_bounds_only(p: u32, q: u32, width: int)
    requires
        greater(p, ROCK_PEAK) == greater(q, ROCK_PEAK),
        greater(MARINE_LIFE_PEAK, p) == greater(MARINE_LIFE_PEAK, q),
    ensures
        contact_type_for(p, width) == contact_type_for(q, width),
{
    contact_type_branches(p, width);
    contact_type_branches(q, width);
}


/// Each reported contact is a run of samples all above the noise threshold,
/// bounded on each side by the end of the ping or by a sample that is not
/// above it, at least the minimum contact size wide; contacts come in order
/// of position with at least one sample between consecutive ones.
pub proof fn reported_contacts_are_runs(
    s: Seq<u32>,
    settings: DetectorSettings,
    max_contacts: int,
    out: Seq<Detection>,
    k: int,
)
    requires
        reports(s, settings, max_contacts, out),
        0 <= k < out.len(),
    ensures
        out[k].width >= 1,
        out[k].width >= settings.min_contact_size,
        out[k].start + out[k].width <= s.len(),
        forall|j: int|
            out[k].start <= j < out[k].start + out[k].width ==> greater(
                #[trigger] s[j],
                settings.noise_threshold,
            ),
        out[k].start > 0 ==> !greater(s[out[k].start - 1], settings.noise_threshold),
        out[k].start + out[k].width < s.len() ==> !greater(
            s[out[k].start + out[k].width],
            settings.noise_threshold,
        ),
        k > 0 ==> out[k - 1].start + out[k - 1].width < out[k].start,
{
    let d = out[k];
    assert(is_detection(s, settings, d));
    assert forall|j: int| d.start <= j < d.start + d.width implies greater(
        #[trigger] s[j],
        settings.noise_threshold,
    ) by {
        assert(above(s, settings.noise_threshold, j));
    }
    if k > 0 {
        let e = out[k - 1];
        assert(is_detection(s, settings, e));
        assert(e.start < d.start);
        if e.start + e.width >= d.start {
            assert(above(s, settings.noise_threshold, d.start - 1));
        }
    }
}

/// Every run of samples above the threshold, bounded by non-exceeding
/// samples or the ends of the ping and at least the minimum contact size
/// wide, is reported with its start and width, unless the report is full
/// and the run comes after every reported contact.
pub proof fn every_wide_run_is_reported(
    s: Seq<u32>,
    settings: DetectorSettings,
    max_contacts: int,
    out: Seq<Detection>,
    a: int,
    b: int,
)
    requires
        reports(s, settings, max_contacts, out),
        0 <= a,
        b <= s.len(),
        b - a >= settings.min_contact_size,
        b - a >= 1,
        forall|j: int| a <= j < b ==> greater(#[trigger] s[j], settings.noise_threshold),
        a > 0 ==> !greater(s[a - 1], settings.noise_threshold),
        b < s.len() ==> !greater(s[b], settings.noise_threshold),
    ensures
        (exists|k: int|
            0 <= k < out.len() && #[trigger] out[k].start == a && out[k].width == b - a) || (
        out.len() == max_contacts && forall|k: int| 0 <= k < out.len() ==> #[trigger] out[k].start < a),
{
    let t = settings.noise_threshold;
    assert forall|j: int| a <= j < b implies #[trigger] above(s, t, j) by {
        assert(greater(s[j], t));
    }
    assert(is_signature(s, t, a, b));
    assert(qualifies(s, settings, a, b));
    if exists|k: int| 0 <= k < out.len() && #[trigger] out[k].start == a {
        let k = choose|k: int| 0 <= k < out.len() && #[trigger] out[k].start == a;
        assert(is_detection(s, settings, out[k]));
        signature_end_is_determined(s, t, a, b, out[k].start + out[k].width);
    }
}

/// The reported peak of a contact whose run has a sample above zero is the
/// first greatest sample of the run: inside the run, with no sample of the
/// run above it and every earlier sample of the run below it. Where no
/// sample of the run is above zero, the peak is reported at position zero
/// with strength zero.
pub proof fn reported_peak_is_first_greatest(
    s: Seq<u32>,
    settings: DetectorSettings,
    max_contacts: int,
    out: Seq<Detection>,
    k: int,
)
    requires
        reports(s, settings, max_contacts, out),
        0 <= k < out.len(),
    ensures
        (exists|j: int|
            out[k].start <= j < out[k].start + out[k].width && #[trigger] greater(s[j], 0u32)) ==> {
            &&& out[k].start <= out[k].peak_index < out[k].start + out[k].width
            &&& out[k].peak == s[out[k].peak_index as int]
            &&& forall|j: int|
                out[k].start <= j < out[k].start + out[k].width ==> !greater(
                    #[trigger] s[j],
                    out[k].peak,
                )
            &&& forall|j: int|
                out[k].start <= j < out[k].peak_index ==> greater(out[k].peak, #[trigger] s[j])
                    || is_nan_bits(s[j])
        },
        !(exists|j: int|
            out[k].start <= j < out[k].start + out[k].width && #[trigger] greater(s[j], 0u32))
            ==> out[k].peak_index == 0 && out[k].peak == 0u32,
{
    let d = out[k];
    assert(is_detection(s, settings, d));
    let a = d.start as int;
    let b = d.start + d.width;
    if exists|j: int| a <= j < b && #[trigger] greater(s[j], 0u32) {
        let j = choose|j: int| a <= j < b && #[trigger] greater(s[j], 0u32);
        assert(has_positive(s, a, b));
        let p = d.peak_index as int;
        assert forall|i: int| a <= i < p implies greater(d.peak, #[trigger] s[i]) || is_nan_bits(
            s[i],
        ) by {
            assert(!at_least(s[i], s[p]));
        }
    } else {
        if has_positive(s, a, b) {
            let j = choose|j: int| a <= j < b && #[trigger] greater(s[j], ZERO_BITS);
            assert(greater(s[j], 0u32));
        }
    }
}

} // verus!
