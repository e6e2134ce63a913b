//! Frame-wise fundamental-frequency estimation (MPM): normalized square
//! difference over candidate lags, peak picking, parabolic refinement.
//!
//! Samples are integers and every quantity is exact integer arithmetic:
//! NSDF values are fixed point with [`FIXED_ONE`] standing for 1.0, lags
//! are refined in the same fixed point, and frequencies are in millihertz.
use vstd::prelude::*;

verus! {

/// Fixed-point unit of NSDF values and refined lags.
pub const FIXED_ONE: i64 = 1048576;

/// Largest sample magnitude accepted.
pub const SAMPLE_LIMIT: i64 = 1048576;

/// Largest frame accepted, in samples.
pub const FRAME_LIMIT: usize = 65536;

/// Integer division rounding toward zero (`d` non-zero).
pub open spec fn div_tz(a: int, d: int) -> int {
    let q = (if a < 0 { -a } else { a }) / (if d < 0 { -d } else { d });
    if (a < 0) != (d < 0) {
        -q
    } else {
        q
    }
}

/// Sum over the first `n` overlap positions of a frame starting at `s` of
/// `x[j] * x[j + tau]`.
pub open spec fn acf(x: Seq<i32>, s: int, tau: int, n: int) -> int
    decreases n,
{
    if n <= 0 {
        0
    } else {
        acf(x, s, tau, n - 1) + x[s + n - 1] * x[s + n - 1 + tau]
    }
}

/// Sum over the first `n` overlap positions of `x[j]^2 + x[j + tau]^2`.
pub open spec fn energy(x: Seq<i32>, s: int, tau: int, n: int) -> int
    decreases n,
{
    if n <= 0 {
        0
    } else {
        energy(x, s, tau, n - 1) + x[s + n - 1] * x[s + n - 1] + x[s + n - 1 + tau] * x[s + n - 1 + tau]
    }
}

/// NSDF of the frame `x[s .. s + frame]` at lag `tau`, in fixed point:
/// `2 * acf / energy` over the overlap, rounded toward zero; zero when the
/// overlap is shorter than two samples or the energy is zero.
pub open spec fn nsdf(x: Seq<i32>, s: int, frame: int, tau: int) -> int {
    let lim = frame - tau;
    if lim < 2 {
        0
    } else {
        let d = energy(x, s, tau, lim);
        if d == 0 {
            0
        } else {
            div_tz(2 * acf(x, s, tau, lim) * FIXED_ONE, d)
        }
    }
}

/// Scanning lags `tau .. hi` for the highest strict local maximum (greater
/// than its predecessor, at least its successor), starting from `best`;
/// the first of equal maxima wins.
pub open spec fn peak_from(x: Seq<i32>, s: int, frame: int, tau: int, hi: int, best: Option<int>) -> Option<int>
    decreases hi - tau,
{
    if tau >= hi {
        best
    } else {
        let cur = nsdf(x, s, frame, tau);
        let better = cur > nsdf(x, s, frame, tau - 1) && cur >= nsdf(x, s, frame, tau + 1) && (best is None
            || cur > nsdf(x, s, frame, best->Some_0));
        peak_from(x, s, frame, tau + 1, hi, if better { Some(tau) } else { best })
    }
}

/// Lag range and threshold derived from a configuration.
#[derive(Debug, Clone, Copy, PartialEq, Eq, Structural)]
pub struct LagRange {
    pub tau_min: u64,
    pub tau_max: u64,
    /// Voicing threshold in fixed point.
    pub threshold: i64,
    /// Sample rate, at least 1.
    pub rate: u64,
}

/// Sub-sample lag, in fixed point, from parabolic interpolation of the
/// NSDF values `l`, `c`, `r` around lag `t`, clamped to the lag range.
/// The interpolation is skipped when its denominator is zero, that is
/// smaller in magnitude than one fixed-point unit.
pub open spec fn refined_lag(t: int, l: int, c: int, r: int, tau_min: int, tau_max: int) -> int {
    let den = l - 2 * c + r;
    let raw = if den == 0 {
        t * FIXED_ONE
    } else {
        t * FIXED_ONE + div_tz((l - r) * FIXED_ONE, 2 * den)
    };
    if raw < tau_min * FIXED_ONE {
        tau_min * FIXED_ONE
    } else if raw > tau_max * FIXED_ONE {
        tau_max * FIXED_ONE
    } else {
        raw
    }
}

/// Fundamental frequency of the frame at `s`, in millihertz; zero when
/// the frame is unvoiced (no peak, or the peak's NSDF is below the
/// threshold).
pub open spec fn frame_f0(x: Seq<i32>, s: int, frame: int, g: LagRange) -> int {
    match peak_from(x, s, frame, g.tau_min + 1, g.tau_max as int, None) {
        None => 0,
        Some(t) => if nsdf(x, s, frame, t) < g.threshold {
            0
        } else {
            let lag = refined_lag(
                t,
                nsdf(x, s, frame, t - 1),
                nsdf(x, s, frame, t),
                nsdf(x, s, frame, t + 1),
                g.tau_min as int,
                g.tau_max as int,
            );
            (g.rate * 1000 * FIXED_ONE) / lag
        },
    }
}

pub open spec fn samples_bounded(x: Seq<i32>) -> bool {
    forall|i: int| 0 <= i < x.len() ==> -SAMPLE_LIMIT <= #[trigger] x[i] <= SAMPLE_LIMIT
}

proof fn lemma_product_bound(a: int, b: int)
    requires
        -SAMPLE_LIMIT <= a <= SAMPLE_LIMIT,
        -SAMPLE_LIMIT <= b <= SAMPLE_LIMIT,
    ensures
        -SAMPLE_LIMIT * SAMPLE_LIMIT <= a * b <= SAMPLE_LIMIT * SAMPLE_LIMIT,
        0 <= a * a <= SAMPLE_LIMIT * SAMPLE_LIMIT,
{
    assert(-SAMPLE_LIMIT * SAMPLE_LIMIT <= a * b <= SAMPLE_LIMIT * SAMPLE_LIMIT) by (nonlinear_arith)
        requires
            -SAMPLE_LIMIT <= a <= SAMPLE_LIMIT,
            -SAMPLE_LIMIT <= b <= SAMPLE_LIMIT,
    ;
    assert(0 <= a * a <= SAMPLE_LIMIT * SAMPLE_LIMIT) by (nonlinear_arith)
        requires
            -SAMPLE_LIMIT <= a <= SAMPLE_LIMIT,
    ;
}

fn div_toward_zero(a: i128, d: i128) -> (r: i128)
    requires
        d != 0,
        a > i128::MIN,
        d > i128::MIN,
    ensures
        r == div_tz(a as int, d as int),
{
    let ua = if a < 0 { -a } else { a };
    let ud = if d < 0 { -d } else { d };
    let q = ua / ud;
    if (a < 0) != (d < 0) {
        -q
    } else {
        q
    }
}

/// NSDF at lag `tau` of the frame starting at `s`.
fn nsdf_at(x: &Vec<i32>, s: usize, frame: usize, lag: u64) -> (r: i64)
    requires
        s + frame <= x@.len(),
        frame <= FRAME_LIMIT,
        samples_bounded(x@),
    ensures
        r == nsdf(x@, s as int, frame as int, lag as int),
        -2 * FIXED_ONE <= r <= 2 * FIXED_ONE,
{
    if lag >= frame as u64 || (frame as u64) - lag < 2 {
        return 0;
    }
    let tau = lag as usize;
    let lim = frame - tau;
    let _len = x.len();
    let mut num: i64 = 0;
    let mut den: i64 = 0;
    let mut j: usize = 0;
    while j < lim
        invariant
            s + frame <= x@.len(),
            frame <= FRAME_LIMIT,
            lim == frame - tau,
            x@.len() <= usize::MAX,
            tau < frame,
            j <= lim,
            samples_bounded(x@),
            num == acf(x@, s as int, tau as int, j as int),
            den == energy(x@, s as int, tau as int, j as int),
            -(j as int) * 1099511627776 <= num <= (j as int) * 1099511627776,
            0 <= den <= 2 * (j as int) * 1099511627776,
        decreases lim - j,
    {
        let a = x[s + j] as i64;
        let b = x[s + j + tau] as i64;
        proof {
            lemma_product_bound(a as int, b as int);
            lemma_product_bound(b as int, b as int);
            assert(SAMPLE_LIMIT * SAMPLE_LIMIT == 1099511627776);
            let ab = a * b;
            let aa = a * a;
            let bb = b * b;
            assert(-1099511627776 <= ab <= 1099511627776);
            assert(0 <= aa <= 1099511627776 && 0 <= bb <= 1099511627776);
            assert(-(j + 1) * 1099511627776 <= num + ab <= (j + 1) * 1099511627776);
            assert(0 <= den + aa + bb <= 2 * (j + 1) * 1099511627776);
            assert((j + 1) * 1099511627776 <= 72057594037927936);
        }
        num = num + a * b;
        den = den + a * a + b * b;
        j = j + 1;
    }
    if den == 0 {
        return 0;
    }
    let r = div_toward_zero(2 * (num as i128) * (FIXED_ONE as i128), den as i128);
    proof {
        // |2 * num| <= den, so the quotient lies within two units.
        lemma_nsdf_bound(x@, s as int, tau as int, lim as int);
        let a = 2 * num * FIXED_ONE;
        assert(div_tz(a as int, den as int) <= 2 * FIXED_ONE && div_tz(a as int, den as int) >= -2 * FIXED_ONE) by (nonlinear_arith)
            requires
                den > 0,
                -(den as int) <= 2 * num <= den,
                a == 2 * num * FIXED_ONE,
                div_tz(a as int, den as int) == (if a < 0 { -((-a) / den as int) } else { a / den as int }),
        ;
    }
    r as i64
}

/// Twice the correlation is bounded by the energy.
proof fn lemma_nsdf_bound(x: Seq<i32>, s: int, tau: int, n: int)
    ensures
        -energy(x, s, tau, n) <= 2 * acf(x, s, tau, n) <= energy(x, s, tau, n),
    decreases n,
{
    if n > 0 {
        lemma_nsdf_bound(x, s, tau, n - 1);
        let a = x[s + n - 1] as int;
        let b = x[s + n - 1 + tau] as int;
        assert(-(a * a + b * b) <= 2 * (a * b) <= a * a + b * b) by (nonlinear_arith);
    }
}

/// Analysis settings. The voicing threshold is in thousandths of the
/// NSDF scale (400 stands for 0.40).
#[derive(Debug, Clone, Copy, PartialEq, Eq, Structural)]
pub struct F0Config {
    pub sample_rate_hz: u32,
    pub frame_size: usize,
    pub hop_size: usize,
    pub fmin_hz: u32,
    pub fmax_hz: u32,
    pub threshold_permille: u32,
}

impl Default for F0Config {
    /// 24 kHz, 40 ms frames, 10 ms hop, 70 to 350 Hz, threshold 0.40.
    fn default() -> (r: F0Config)
        ensures
            r == (F0Config {
                sample_rate_hz: 24000,
                frame_size: 960,
                hop_size: 240,
                fmin_hz: 70,
                fmax_hz: 350,
                threshold_permille: 400,
            }),
    {
        F0Config {
            sample_rate_hz: 24000,
            frame_size: 960,
            hop_size: 240,
            fmin_hz: 70,
            fmax_hz: 350,
            threshold_permille: 400,
        }
    }
}

/// The lag range of a configuration: the shortest lag is
/// `floor(rate / fmax)`, at least 2; the longest `ceil(rate / fmin)`, at
/// least one more than the shortest. Rate and frequencies count as at
/// least 1, the threshold as at most 1.0.
pub open spec fn lag_range_of(cfg: F0Config) -> LagRange {
    let rate: nat = if cfg.sample_rate_hz >= 1 { cfg.sample_rate_hz as nat } else { 1 };
    let fmax: nat = if cfg.fmax_hz >= 1 { cfg.fmax_hz as nat } else { 1 };
    let fmin: nat = if cfg.fmin_hz >= 1 { cfg.fmin_hz as nat } else { 1 };
    let lo: nat = if rate / fmax >= 2 { rate / fmax } else { 2 };
    let up: nat = ((rate + fmin - 1) as nat) / fmin;
    let hi: nat = if up >= lo + 1 { up } else { lo + 1 };
    let pm: nat = if cfg.threshold_permille <= 1000 { cfg.threshold_permille as nat } else { 1000 };
    LagRange { tau_min: lo as u64, tau_max: hi as u64, threshold: (pm * FIXED_ONE / 1000) as i64, rate: rate as u64 }
}

pub open spec fn lag_range_wf(g: LagRange) -> bool {
    &&& 2 <= g.tau_min < g.tau_max <= 0x1_0000_0001
    &&& 1 <= g.rate <= 0xffff_ffff
    &&& 0 <= g.threshold <= FIXED_ONE
}

/// Computes the lag range and threshold of a configuration.
pub fn lag_range(cfg: &F0Config) -> (g: LagRange)
    ensures
        g == lag_range_of(*cfg),
        lag_range_wf(g),
{
    let rate: u64 = if cfg.sample_rate_hz >= 1 { cfg.sample_rate_hz as u64 } else { 1 };
    let fmax: u64 = if cfg.fmax_hz >= 1 { cfg.fmax_hz as u64 } else { 1 };
    let fmin: u64 = if cfg.fmin_hz >= 1 { cfg.fmin_hz as u64 } else { 1 };
    let lo: u64 = if rate / fmax >= 2 { rate / fmax } else { 2 };
    let up: u64 = (rate + fmin - 1) / fmin;
    let hi: u64 = if up >= lo + 1 { up } else { lo + 1 };
    let pm: u64 = if cfg.threshold_permille <= 1000 { cfg.threshold_permille as u64 } else { 1000 };
    proof {
        assert(rate / fmax <= rate) by (nonlinear_arith)
            requires
                fmax >= 1,
        ;
        assert(up <= rate + fmin - 1) by (nonlinear_arith)
            requires
                fmin >= 1,
                up as int == (rate + fmin - 1) as int / fmin as int,
        ;
        assert(up <= rate) by {
            assert((rate + fmin - 1) as int / fmin as int <= rate) by (nonlinear_arith)
                requires
                    fmin >= 1,
                    rate >= 1,
            ;
        }
        assert(pm * 1048576 / 1000 <= 1048576) by (nonlinear_arith)
            requires
                pm <= 1000,
        ;
    }
    LagRange { tau_min: lo, tau_max: hi, threshold: (pm * 1048576 / 1000) as i64, rate }
}

pub open spec fn lag_opt(o: Option<u64>) -> Option<int> {
    match o {
        Some(t) => Some(t as int),
        None => None,
    }
}

/// The lag of the highest strict local NSDF maximum strictly inside the
/// lag range.
fn pick_peak(x: &Vec<i32>, s: usize, frame: usize, g: LagRange) -> (r: Option<u64>)
    requires
        s + frame <= x@.len(),
        frame <= FRAME_LIMIT,
        samples_bounded(x@),
        lag_range_wf(g),
    ensures
        lag_opt(r) == peak_from(x@, s as int, frame as int, g.tau_min + 1, g.tau_max as int, None),
        r matches Some(t) ==> g.tau_min < t < g.tau_max,
{
    let mut tau: u64 = g.tau_min + 1;
    let mut prev = nsdf_at(x, s, frame, tau - 1);
    let mut cur = nsdf_at(x, s, frame, tau);
    let mut best: Option<u64> = None;
    let mut best_val: i64 = 0;
    while tau < g.tau_max
        invariant
            s + frame <= x@.len(),
            frame <= FRAME_LIMIT,
            samples_bounded(x@),
            lag_range_wf(g),
            g.tau_min + 1 <= tau <= g.tau_max || (tau == g.tau_min + 1),
            prev == nsdf(x@, s as int, frame as int, tau - 1),
            cur == nsdf(x@, s as int, frame as int, tau as int),
            best matches Some(b) ==> best_val == nsdf(x@, s as int, frame as int, b as int) && g.tau_min < b
                < tau,
            peak_from(x@, s as int, frame as int, g.tau_min + 1, g.tau_max as int, None) == peak_from(
                x@,
                s as int,
                frame as int,
                tau as int,
                g.tau_max as int,
                lag_opt(best),
            ),
        decreases g.tau_max - tau,
    {
        let next = nsdf_at(x, s, frame, tau + 1);
        if cur > prev && cur >= next && (best.is_none() || cur > best_val) {
            best = Some(tau);
            best_val = cur;
        }
        prev = cur;
        cur = next;
        tau = tau + 1;
    }
    best
}

/// Parabolic refinement of lag `t` from the NSDF values around it.
fn refine(t: u64, l: i64, c: i64, r: i64, tau_min: u64, tau_max: u64) -> (lag: i128)
    requires
        -2 * FIXED_ONE <= l <= 2 * FIXED_ONE,
        -2 * FIXED_ONE <= c <= 2 * FIXED_ONE,
        -2 * FIXED_ONE <= r <= 2 * FIXED_ONE,
        2 <= tau_min < tau_max <= 0x1_0000_0001,
        t <= tau_max,
    ensures
        lag == refined_lag(t as int, l as int, c as int, r as int, tau_min as int, tau_max as int),
        tau_min * FIXED_ONE <= lag <= tau_max * FIXED_ONE,
{
    let one = FIXED_ONE as i128;
    let den = (l as i128) - 2 * (c as i128) + (r as i128);
    let raw = if den == 0 {
        (t as i128) * one
    } else {
        (t as i128) * one + div_toward_zero(((l as i128) - (r as i128)) * one, 2 * den)
    };
    proof {
        if den != 0 {
            let a = ((l - r) * FIXED_ONE) as int;
            let d = 2 * den as int;
            assert(-4 * FIXED_ONE * FIXED_ONE <= a <= 4 * FIXED_ONE * FIXED_ONE) by (nonlinear_arith)
                requires
                    a == (l - r) * FIXED_ONE,
                    -4 * FIXED_ONE <= l - r <= 4 * FIXED_ONE,
            ;
            assert(-(if a < 0 { -a } else { a }) <= div_tz(a, d) <= (if a < 0 { -a } else { a })) by (nonlinear_arith)
                requires
                    d != 0,
                    div_tz(a, d) == (if (a < 0) != (d < 0) { -((if a < 0 { -a } else { a }) / (if d < 0 { -d } else { d })) } else { (if a < 0 { -a } else { a }) / (if d < 0 { -d } else { d }) }),
            ;
        }
    }
    let lo = (tau_min as i128) * one;
    let hi = (tau_max as i128) * one;
    if raw < lo {
        lo
    } else if raw > hi {
        hi
    } else {
        raw
    }
}

/// Fundamental frequency of the frame at `s` in millihertz, zero when it
/// is unvoiced.
fn frame_f0_at(x: &Vec<i32>, s: usize, frame: usize, g: LagRange) -> (f: u64)
    requires
        s + frame <= x@.len(),
        frame <= FRAME_LIMIT,
        samples_bounded(x@),
        lag_range_wf(g),
    ensures
        f as int == frame_f0(x@, s as int, frame as int, g),
{
    let t = match pick_peak(x, s, frame, g) {
        Some(t) => t,
        None => {
            return 0;
        },
    };
    let c = nsdf_at(x, s, frame, t);
    if c < g.threshold {
        return 0;
    }
    let l = nsdf_at(x, s, frame, t - 1);
    let r = nsdf_at(x, s, frame, t + 1);
    let lag = refine(t, l, c, r, g.tau_min, g.tau_max);
    let num = (g.rate as i128) * 1000 * (FIXED_ONE as i128);
    proof {
        assert(lag >= 2 * FIXED_ONE) by (nonlinear_arith)
            requires
                lag >= g.tau_min * FIXED_ONE,
                g.tau_min >= 2,
        ;
        assert(num <= 0xffff_ffff * 1000 * 1048576) by (nonlinear_arith)
            requires
                num == g.rate * 1000 * 1048576,
                g.rate <= 0xffff_ffff,
        ;
        assert(num / lag <= num) by (nonlinear_arith)
            requires
                lag >= 1,
                num >= 0,
        ;
    }
    (num / lag) as u64
}

/// Per-frame frequencies of the frames starting at `start`, `start +
/// hop`, ... while a whole frame fits.
pub open spec fn frames_f0(x: Seq<i32>, start: int, frame: int, hop: int, g: LagRange) -> Seq<int>
    decreases x.len() + hop - start,
{
    if hop < 1 || frame < 1 || start < 0 || start + frame > x.len() {
        Seq::empty()
    } else {
        seq![frame_f0(x, start, frame, g)] + frames_f0(x, start + hop, frame, hop, g)
    }
}

/// `s` is in ascending order.
pub open spec fn ascending(s: Seq<u64>) -> bool {
    forall|i: int, j: int| 0 <= i < j < s.len() ==> s[i] <= s[j]
}

/// Median of an ascending sequence: the middle value, or the mean of the
/// two middle values (rounded down) for an even count; none when empty.
pub open spec fn median_of_ascending(s: Seq<u64>) -> Option<int> {
    if s.len() == 0 {
        None
    } else if s.len() % 2 == 1 {
        Some(s[s.len() as int / 2] as int)
    } else {
        Some((s[s.len() as int / 2 - 1] + s[s.len() as int / 2]) / 2)
    }
}

/// The values of `v` in ascending order.
pub fn sorted_copy(v: &Vec<u64>) -> (r: Vec<u64>)
    ensures
        ascending(r@),
        r@.to_multiset() == v@.to_multiset(),
{
    broadcast use vstd::seq_lib::group_to_multiset_ensures;

    let mut out: Vec<u64> = Vec::new();
    let mut i: usize = 0;
    while i < v.len()
        invariant
            i <= v@.len(),
            ascending(out@),
            out@.to_multiset() == v@.subrange(0, i as int).to_multiset(),
        decreases v@.len() - i,
    {
        let x = v[i];
        let mut p: usize = 0;
        while p < out.len() && out[p] <= x
            invariant
                p <= out@.len(),
                forall|k: int| 0 <= k < p ==> out@[k] <= x,
            decreases out@.len() - p,
        {
            p = p + 1;
        }
        let ghost before = out@;
        out.insert(p, x);
        proof {
            assert forall|a: int, b: int| 0 <= a < b < out@.len() implies out@[a] <= out@[b] by {
                if a < p && b > p {
                    assert(out@[b] == before[b - 1]);
                    assert(before[a] <= before[b - 1]);
                } else if a == p && b > p {
                    assert(out@[b] == before[b - 1]);
                    assert(before[p as int] > x);
                    assert(before[p as int] <= before[b - 1]);
                } else if a > p {
                    assert(out@[a] == before[a - 1] && out@[b] == before[b - 1]);
                } else if b == p {
                    assert(out@[a] == before[a]);
                } else {
                    assert(out@[a] == before[a] && out@[b] == before[b]);
                }
            }
            assert(out@.remove(p as int) =~= before);
            assert(out@[p as int] == x);
            let m = out@.to_multiset();
            out@.to_multiset_ensures();
            v@.subrange(0, i as int).to_multiset_ensures();
            assert(out@.remove(p as int).to_multiset() =~= m.remove(x));
            assert(out@.contains(x));
            assert(m.count(x) > 0);
            assert(m =~= m.remove(x).insert(x));
            assert(v@.subrange(0, i + 1) =~= v@.subrange(0, i as int).push(x));
            assert(v@.subrange(0, i as int).push(x).to_multiset() =~= v@.subrange(0, i as int).to_multiset().insert(
                x,
            ));
        }
        i = i + 1;
    }
    assert(v@.subrange(0, v@.len() as int) =~= v@);
    out
}

/// The median of a list of values (see [`median_of_ascending`]).
pub fn median(v: &Vec<u64>) -> (r: Option<u64>)
    ensures
        exists|s: Seq<u64>|
            s.to_multiset() == v@.to_multiset() && ascending(s) && lag_opt(r) == median_of_ascending(s),
{
    let s = sorted_copy(v);
    let n = s.len();
    let r = if n == 0 {
        None
    } else if n % 2 == 1 {
        Some(s[n / 2])
    } else {
        let a = s[n / 2 - 1];
        let b = s[n / 2];
        Some(a / 2 + b / 2 + (a % 2 + b % 2) / 2)
    };
    assert(s@.to_multiset() == v@.to_multiset() && ascending(s@) && lag_opt(r) == median_of_ascending(s@));
    r
}

/// Voiced frames: those with a non-zero frequency.
pub open spec fn voiced_of(f: Seq<u64>) -> Seq<u64> {
    f.filter(|v: u64| v > 0)
}

/// Result of pitch estimation. Frequencies are in millihertz, zero for
/// unvoiced frames.
#[derive(Debug, Clone)]
pub struct F0Result {
    pub f0_mhz: Vec<u64>,
    pub voiced_flags: Vec<bool>,
    /// Median over voiced frames; none when no frame is voiced.
    pub median_mhz: Option<u64>,
    /// Number of voiced frames; `voiced_count / f0_mhz.len()` is the
    /// voiced ratio.
    pub voiced_count: usize,
}

/// Estimates the fundamental frequency of each frame of `samples` (frames
/// of `frame_size` samples every `hop_size`, at least 1, while a whole
/// frame fits), with the voiced flags, the median over voiced frames and
/// the number of voiced frames. Empty input or a frame shorter than three
/// samples gives an empty result.
pub fn estimate_f0_mpm(samples: &Vec<i32>, cfg: &F0Config) -> (r: F0Result)
    requires
        samples_bounded(samples@),
        cfg.frame_size <= FRAME_LIMIT,
    ensures
        r.voiced_flags@ == r.f0_mhz@.map_values(|v: u64| v > 0),
        r.voiced_count == voiced_of(r.f0_mhz@).len(),
        exists|s: Seq<u64>|
            s.to_multiset() == voiced_of(r.f0_mhz@).to_multiset() && ascending(s) && lag_opt(r.median_mhz)
                == median_of_ascending(s),
        if samples@.len() == 0 || cfg.frame_size < 3 {
            r.f0_mhz@.len() == 0
        } else {
            r.f0_mhz@.map_values(|v: u64| v as int) == frames_f0(
                samples@,
                0,
                cfg.frame_size as int,
                if cfg.hop_size >= 1 { cfg.hop_size as int } else { 1 },
                lag_range_of(*cfg),
            )
        },
{
    let mut f0: Vec<u64> = Vec::new();
    if samples.len() > 0 && cfg.frame_size >= 3 {
        let g = lag_range(cfg);
        let frame = cfg.frame_size;
        let hop = if cfg.hop_size >= 1 { cfg.hop_size } else { 1 };
        let mut start: usize = 0;
        let ghost all = frames_f0(samples@, 0, frame as int, hop as int, g);
        while frame <= samples.len() - start
            invariant
                samples_bounded(samples@),
                start <= samples@.len(),
                frame <= FRAME_LIMIT,
                frame >= 3,
                hop >= 1,
                lag_range_wf(g),
                all == frames_f0(samples@, 0, frame as int, hop as int, g),
                f0@.map_values(|v: u64| v as int) + frames_f0(samples@, start as int, frame as int, hop as int, g)
                    == all,
            decreases samples@.len() - start,
        {
            let v = frame_f0_at(samples, start, frame, g);
            let ghost rest = frames_f0(samples@, start + hop, frame as int, hop as int, g);
            let ghost before = f0@.map_values(|v: u64| v as int);
            f0.push(v);
            proof {
                assert(f0@.map_values(|v: u64| v as int) =~= before.push(v as int));
                assert(before + frames_f0(samples@, start as int, frame as int, hop as int, g) =~= before.push(
                    v as int,
                ) + rest);
            }
            if samples.len() - start < hop {
                proof {
                    assert(rest =~= Seq::<int>::empty());
                    assert(frames_f0(samples@, samples@.len() as int, frame as int, hop as int, g) =~= Seq::<
                        int,
                    >::empty());
                }
                start = samples.len();
            } else {
                start = start + hop;
            }
        }
        proof {
            assert(frames_f0(samples@, start as int, frame as int, hop as int, g) =~= Seq::<int>::empty());
            assert(f0@.map_values(|v: u64| v as int) =~= all);
        }
    }
    let mut flags: Vec<bool> = Vec::new();
    let mut voiced: Vec<u64> = Vec::new();
    let mut k: usize = 0;
    while k < f0.len()
        invariant
            k <= f0@.len(),
            flags@ == f0@.subrange(0, k as int).map_values(|v: u64| v > 0),
            voiced@ == voiced_of(f0@.subrange(0, k as int)),
        decreases f0@.len() - k,
    {
        let v = f0[k];
        flags.push(v > 0);
        if v > 0 {
            voiced.push(v);
        }
        proof {
            let p = f0@.subrange(0, k + 1);
            assert(p.drop_last() =~= f0@.subrange(0, k as int));
            assert(p.last() == v);
            assert(flags@ =~= p.map_values(|v: u64| v > 0));
            reveal(Seq::filter);
            assert(voiced@ =~= voiced_of(p));
        }
        k = k + 1;
    }
    proof {
        assert(f0@.subrange(0, f0@.len() as int) =~= f0@);
    }
    let median_mhz = median(&voiced);
    F0Result { f0_mhz: f0, voiced_flags: flags, median_mhz, voiced_count: voiced.len() }
}

proof fn lemma_silent_energy(x: Seq<i32>, s: int, tau: int, n: int)
    requires
        forall|i: int| 0 <= i < x.len() ==> #[trigger] x[i] == 0,
        0 <= s,
        0 <= tau,
        s + n + tau <= x.len(),
    ensures
        energy(x, s, tau, n) == 0,
    decreases n,
{
    if n > 0 {
        lemma_silent_energy(x, s, tau, n - 1);
        assert(x[s + n - 1] == 0 && x[s + n - 1 + tau] == 0);
    }
}

proof fn lemma_silent_nsdf(x: Seq<i32>, s: int, frame: int, tau: int)
    requires
        forall|i: int| 0 <= i < x.len() ==> #[trigger] x[i] == 0,
        0 <= s,
        0 <= tau,
        s + frame <= x.len(),
    ensures
        nsdf(x, s, frame, tau) == 0,
{
    let lim = frame - tau;
    if lim >= 2 {
        lemma_silent_energy(x, s, tau, lim);
    }
}

proof fn lemma_silent_peak(x: Seq<i32>, s: int, frame: int, tau: int, hi: int)
    requires
        forall|i: int| 0 <= i < x.len() ==> #[trigger] x[i] == 0,
        0 <= s,
        1 <= tau,
        s + frame <= x.len(),
    ensures
        peak_from(x, s, frame, tau, hi, None) is None,
    decreases hi - tau,
{
    if tau < hi {
        lemma_silent_nsdf(x, s, frame, tau);
        lemma_silent_nsdf(x, s, frame, tau - 1);
        lemma_silent_peak(x, s, frame, tau + 1, hi);
    }
}

/// Silence is unvoiced: on all-zero samples every frame's frequency is
/// zero, so no frame is voiced and there is no median.
pub proof fn lemma_silence_unvoiced(x: Seq<i32>, start: int, frame: int, hop: int, g: LagRange)
    requires
        forall|i: int| 0 <= i < x.len() ==> #[trigger] x[i] == 0,
        lag_range_wf(g),
        0 <= start,
    ensures
        forall|k: int|
            0 <= k < frames_f0(x, start, frame, hop, g).len() ==> #[trigger] frames_f0(x, start, frame, hop, g)[k]
                == 0,
    decreases x.len() + hop - start,
{
    if !(hop < 1 || frame < 1 || start + frame > x.len()) {
        lemma_silent_peak(x, start, frame, g.tau_min + 1, g.tau_max as int);
        lemma_silence_unvoiced(x, start + hop, frame, hop, g);
        let f = frames_f0(x, start, frame, hop, g);
        let rest = frames_f0(x, start + hop, frame, hop, g);
        assert forall|k: int| 0 <= k < f.len() implies #[trigger] f[k] == 0 by {
            if k > 0 {
                assert(f[k] == rest[k - 1]);
            }
        }
    }
}

/// A result whose frequencies are all zero has no voiced frame and no
/// median.
pub proof fn lemma_unvoiced_median(f: Seq<u64>, m: Option<u64>)
    requires
        forall|k: int| 0 <= k < f.len() ==> #[trigger] f[k] == 0,
        exists|s: Seq<u64>| s.to_multiset() == voiced_of(f).to_multiset() && ascending(s) && lag_opt(m)
            == median_of_ascending(s),
    ensures
        voiced_of(f).len() == 0,
        m is None,
{
    broadcast use vstd::seq_lib::group_to_multiset_ensures;

    reveal(Seq::filter);
    assert(voiced_of(f) =~= Seq::<u64>::empty()) by {
        lemma_filter_zero(f);
    }
    let s = choose|s: Seq<u64>| s.to_multiset() == voiced_of(f).to_multiset() && ascending(s) && lag_opt(m)
        == median_of_ascending(s);
    assert(s.to_multiset().len() == 0);
}

proof fn lemma_filter_zero(f: Seq<u64>)
    requires
        forall|k: int| 0 <= k < f.len() ==> #[trigger] f[k] == 0,
    ensures
        voiced_of(f) =~= Seq::<u64>::empty(),
    decreases f.len(),
{
    reveal(Seq::filter);
    if f.len() > 0 {
        lemma_filter_zero(f.drop_last());
        assert(f.last() == 0);
    }
}

} // verus!
