//! Sample-level audio logic: down-mixing captured frames to mono while
//! tracking the peak, resampling to 16 kHz, choosing the input device, and
//! the checks that reject too-short or dead-air captures before upload.
use vstd::prelude::*;
use crate::error::AppError;
use crate::rounding::{
    binade, floor_nearest, floor_of_nearest, in_binade, lemma_binade_exists,
    lemma_floor_of_nearest_exact, lemma_floor_of_nearest_scaled, lemma_nearest_error,
    lemma_nearest_exact, nearest,
    nearest_mantissa,
};
use vstd::arithmetic::power2::{
    pow2, lemma2_to64, lemma2_to64_rest, lemma_pow2_adds, lemma_pow2_pos,
    lemma_pow2_strictly_increases, lemma_pow2_unfold,
};
use crate::text::{chars_equal, chars_of, owned, trim, trimmed_chars};

verus! {

/// Sample rate sent to the transcription service.
pub const TARGET_SAMPLE_RATE: u32 = 16_000;

/// Half a second at the target rate: anything shorter is refused.
pub const MIN_SAMPLES: usize = 8_000;

/// Peak amplitude (against i16 full scale) below which a capture is dead air
/// rather than quiet speech: 64 / 32768, roughly -54 dBFS.
pub const SILENCE_PEAK_THRESHOLD: i32 = 64;

/// An input device offered to the user.
#[derive(Clone, Debug)]
pub struct MicrophoneDevice {
    pub name: String,
    pub is_default: bool,
}

/// Integer division rounding toward zero, as Rust's `/` does.
pub open spec fn trunc_div(a: int, b: int) -> int {
    if a >= 0 {
        a / b
    } else {
        -((-a) / b)
    }
}

/// Sum of `s`.
pub open spec fn sum(s: Seq<i16>) -> int
    decreases s.len(),
{
    if s.len() == 0 {
        0
    } else {
        sum(s.drop_last()) + s.last()
    }
}

/// Absolute value.
pub open spec fn abs(v: int) -> int {
    if v < 0 {
        -v
    } else {
        v
    }
}

/// The largest absolute sample value in `s`, 0 for no samples.
pub open spec fn peak_of(s: Seq<i16>) -> int
    decreases s.len(),
{
    if s.len() == 0 {
        0
    } else {
        let p = peak_of(s.drop_last());
        let a = abs(s.last() as int);
        if a > p {
            a
        } else {
            p
        }
    }
}

/// `data` mixed down to mono: each complete frame of `channels` interleaved
/// samples becomes their average (rounded toward zero); a trailing partial
/// frame is dropped. With at most one channel the data is kept as it is.
pub open spec fn downmixed(data: Seq<i16>, channels: int) -> Seq<i16> {
    if channels <= 1 {
        data
    } else {
        Seq::new(
            (data.len() as int / channels) as nat,
            |f: int| trunc_div(sum(data.subrange(f * channels, f * channels + channels)), channels) as i16,
        )
    }
}

/// The peak is the largest absolute sample: no sample exceeds it, and some
/// sample reaches it (it is 0 only when every sample is 0 or there are none).
pub proof fn lemma_peak_is_loudest_sample(s: Seq<i16>)
    ensures
        forall|i: int| 0 <= i < s.len() ==> abs(#[trigger] s[i] as int) <= peak_of(s),
        peak_of(s) == 0 || exists|k: int| 0 <= k < s.len() && peak_of(s) == abs(s[k] as int),
        0 <= peak_of(s) <= 32768,
    decreases s.len(),
{
    if s.len() > 0 {
        let init = s.drop_last();
        lemma_peak_is_loudest_sample(init);
        assert forall|i: int| 0 <= i < s.len() implies abs(#[trigger] s[i] as int) <= peak_of(s) by {
            if i < s.len() - 1 {
                assert(s[i] == init[i]);
            }
        }
        if peak_of(s) != 0 && peak_of(s) == peak_of(init) {
            let k = choose|k: int| 0 <= k < init.len() && peak_of(init) == abs(init[k] as int);
            assert(s[k] == init[k]);
        }
    }
}

/// The silence gate refuses exactly the captures in which no sample reaches
/// the threshold: a single audible sample anywhere, however quiet the rest
/// (speech with long pauses), lets a long-enough capture through.
pub proof fn lemma_silence_gate_accepts_any_audible_sample(s: Seq<i16>)
    ensures
        peak_of(s) >= SILENCE_PEAK_THRESHOLD <==> exists|i: int|
            0 <= i < s.len() && abs(#[trigger] s[i] as int) >= SILENCE_PEAK_THRESHOLD,
{
    lemma_peak_is_loudest_sample(s);
    if peak_of(s) >= SILENCE_PEAK_THRESHOLD {
        let k = choose|k: int| 0 <= k < s.len() && peak_of(s) == abs(s[k] as int);
        assert(abs(s[k] as int) >= SILENCE_PEAK_THRESHOLD);
    }
}

/// The average of one frame, rounded toward zero.
fn frame_average(data: &[i16], start: usize, channels: usize) -> (r: i16)
    requires
        2 <= channels <= 65535,
        start + channels <= data@.len(),
    ensures
        r as int == trunc_div(sum(data@.subrange(start as int, start + channels)), channels as int),
{
    let n = data.len();
    let mut total: i32 = 0;
    let mut k: usize = 0;
    while k < channels
        invariant
            n == data@.len(),
            k <= channels <= 65535,
            start + channels <= data@.len(),
            total as int == sum(data@.subrange(start as int, start + k)),
            -32768 * k <= total <= 32767 * k,
        decreases channels - k,
    {
        assert(data@.subrange(start as int, start + k + 1).drop_last() == data@.subrange(
            start as int,
            start + k,
        ));
        let x = data[start + k];
        assert(-32768 * (k + 1) <= total + x <= 32767 * (k + 1));
        assert(32767 * (k + 1) <= 32767 * 65535 && -32768 * 65535 <= -32768 * (k + 1)) by (nonlinear_arith)
            requires
                k + 1 <= 65535,
        ;
        total = total + x as i32;
        k = k + 1;
    }
    let c = channels as i32;
    let avg: i32 = if total >= 0 {
        let q = total / c;
        assert(q <= 32767) by (nonlinear_arith)
            requires
                0 <= total <= 32767 * c,
                c >= 2,
                q == total / c,
        ;
        q
    } else {
        let m = -total;
        let q = m / c;
        assert(0 <= q <= 32768) by (nonlinear_arith)
            requires
                0 < m <= 32768 * c,
                c >= 2,
                q == m / c,
        ;
        -q
    };
    avg as i16
}

/// Appends a captured chunk to `samples`, mixed down to mono, and raises
/// `peak` to the loudest new sample (absolute value) if that is louder.
pub fn push_samples(data: &[i16], channels: u16, samples: &mut Vec<i16>, peak: &mut i32)
    ensures
        final(samples)@ == old(samples)@ + downmixed(data@, channels as int),
        *final(peak) as int == if peak_of(downmixed(data@, channels as int)) > *old(peak) as int {
            peak_of(downmixed(data@, channels as int))
        } else {
            *old(peak) as int
        },
{
    let ghost start = samples@;
    let ghost mixed = downmixed(data@, channels as int);
    let mut chunk_peak: i32 = 0;
    if channels <= 1 {
        let mut i: usize = 0;
        while i < data.len()
            invariant
                i <= data@.len(),
                channels <= 1,
                mixed == data@,
                samples@ == start + data@.take(i as int),
                chunk_peak as int == peak_of(data@.take(i as int)),
            decreases data@.len() - i,
        {
            let s = data[i];
            samples.push(s);
            assert(data@.take(i + 1).drop_last() == data@.take(i as int));
            assert(data@.take(i + 1) == data@.take(i as int).push(s));
            let a: i32 = if s < 0 {
                -(s as i32)
            } else {
                s as i32
            };
            if a > chunk_peak {
                chunk_peak = a;
            }
            i = i + 1;
        }
        assert(data@.take(data@.len() as int) == data@);
    } else {
        let ch = channels as usize;
        let n = data.len();
        let frames = n / ch;
        let mut f: usize = 0;
        while f < frames
            invariant
                2 <= ch <= 65535,
                ch == channels as usize,
                frames == data@.len() as int / (ch as int),
                n == data@.len(),
                f <= frames,
                mixed.len() == frames,
                mixed == downmixed(data@, channels as int),
                samples@ == start + mixed.take(f as int),
                chunk_peak as int == peak_of(mixed.take(f as int)),
            decreases frames - f,
        {
            assert(f * ch + ch <= data@.len()) by (nonlinear_arith)
                requires
                    f < frames,
                    frames == data@.len() as int / (ch as int),
                    ch >= 2,
            ;
            assert(f * ch <= data@.len());
            let s = frame_average(data, f * ch, ch);
            assert(s == mixed[f as int]);
            samples.push(s);
            assert(mixed.take(f + 1).drop_last() == mixed.take(f as int));
            assert(mixed.take(f + 1) == mixed.take(f as int).push(s));
            let a: i32 = if s < 0 {
                -(s as i32)
            } else {
                s as i32
            };
            if a > chunk_peak {
                chunk_peak = a;
            }
            f = f + 1;
        }
        assert(mixed.take(frames as int) == mixed);
    }
    if chunk_peak > *peak {
        *peak = chunk_peak;
    }
}

/// The loudest sample's absolute value.
pub fn calculate_peak(samples: &[i16]) -> (r: i32)
    ensures
        r as int == peak_of(samples@),
{
    let mut best: i32 = 0;
    let mut i: usize = 0;
    while i < samples.len()
        invariant
            i <= samples@.len(),
            best as int == peak_of(samples@.take(i as int)),
        decreases samples@.len() - i,
    {
        let s = samples[i];
        assert(samples@.take(i + 1).drop_last() == samples@.take(i as int));
        let a: i32 = if s < 0 {
            -(s as i32)
        } else {
            s as i32
        };
        if a > best {
            best = a;
        }
        i = i + 1;
    }
    assert(samples@.take(samples@.len() as int) == samples@);
    best
}

/// The mantissa of the binary64 ratio `input_rate / 16000`.
pub open spec fn ratio_mantissa(input_rate: nat) -> nat {
    nearest_mantissa(input_rate, 16000)
}

/// The binade of the binary64 ratio `input_rate / 16000`: the ratio is
/// `ratio_mantissa * 2^(ratio_binade - 128)`.
pub open spec fn ratio_binade(input_rate: nat) -> nat {
    binade(input_rate, 16000)
}

/// How many output positions resampling `len` samples from `input_rate`
/// walks: `len / ratio` in binary64, rounded down.
pub open spec fn resampled_count(len: nat, input_rate: nat) -> nat {
    floor_of_nearest(
        len * pow2(128),
        ratio_mantissa(input_rate) * pow2(ratio_binade(input_rate)),
    )
}

/// The input position read for output position `i`: `i * ratio` in
/// binary64, rounded down.
pub open spec fn source_index(i: nat, input_rate: nat) -> nat {
    floor_of_nearest(
        i * ratio_mantissa(input_rate) * pow2(ratio_binade(input_rate)),
        pow2(128),
    )
}

/// The samples read for the first `n` output positions; a position whose
/// source lies past the end gives nothing.
pub open spec fn picked(samples: Seq<i16>, input_rate: nat, n: nat) -> Seq<i16>
    decreases n,
{
    if n == 0 {
        Seq::empty()
    } else {
        let before = picked(samples, input_rate, (n - 1) as nat);
        let src = source_index((n - 1) as nat, input_rate);
        if src < samples.len() {
            before.push(samples[src as int])
        } else {
            before
        }
    }
}

/// `samples` resampled to 16 kHz: unchanged at 16 kHz, else for each output
/// position the input sample at the same instant (rounded down), computed
/// with binary64 ratios.
pub open spec fn resampled(samples: Seq<i16>, input_rate: nat) -> Seq<i16> {
    if input_rate == 16000 {
        samples
    } else {
        picked(samples, input_rate, resampled_count(samples.len(), input_rate))
    }
}

/// When every one of the first `n` output positions reads inside the
/// capture, `picked` has `n` samples, the `k`-th read from `source_index(k)`.
proof fn lemma_picked_all(samples: Seq<i16>, input_rate: nat, n: nat)
    requires
        forall|k: nat| k < n ==> #[trigger] source_index(k, input_rate) < samples.len(),
    ensures
        picked(samples, input_rate, n).len() == n,
        forall|k: int|
            0 <= k < n ==> #[trigger] picked(samples, input_rate, n)[k] == samples[source_index(
                k as nat,
                input_rate,
            ) as int],
    decreases n,
{
    if n > 0 {
        lemma_picked_all(samples, input_rate, (n - 1) as nat);
        assert(source_index((n - 1) as nat, input_rate) < samples.len());
    }
}

/// Resampling keeps a capture's duration: where the rate is a multiple of
/// 125 Hz, so that `input_rate / 16000` is a binary fraction that binary64
/// holds exactly, the result has exactly `len * 16000 / input_rate` samples
/// (rounded down), and output sample `i` is input sample
/// `i * input_rate / 16000` (rounded down). An 8 kHz capture of `n` samples
/// gives `2n`, each input sample twice; a 48 kHz capture keeps every third.
pub proof fn lemma_resampling_keeps_duration(samples: Seq<i16>, input_rate: nat)
    requires
        0 < input_rate <= 0xffff_ffff,
        input_rate % 125 == 0,
        samples.len() < 0x4000_0000_0000,
    ensures
        resampled(samples, input_rate).len() == samples.len() * 16000 / input_rate,
        forall|i: int|
            0 <= i < resampled(samples, input_rate).len() ==> #[trigger] resampled(
                samples,
                input_rate,
            )[i] == samples[i * input_rate / 16000],
{
    let len = samples.len();
    let rate = input_rate;
    if rate == 16000 {
        assert(len * 16000 / 16000 == len) by (nonlinear_arith);
        assert forall|i: int| 0 <= i < len implies #[trigger] samples[i] == samples[i * 16000 / 16000] by {
            assert(i * 16000 / 16000 == i) by (nonlinear_arith);
        }
    } else {
        lemma2_to64();
        lemma2_to64_rest();
        lemma_pow2_adds(64, 64);
        lemma_pow2_adds(7, 46);
        lemma_pow2_pos(128);
        let t = pow2(128);
        assert(t == 0x1_0000_0000_0000_0000 * 0x1_0000_0000_0000_0000);
        let c = rate / 125;
        assert(rate == 125 * c);
        // The ratio is exact: `m * 16000 == rate * 2^128`.
        assert(pow2(52) * 16000 <= rate * t) by (nonlinear_arith)
            requires
                rate >= 1,
                t == 0x1_0000_0000_0000_0000 * 0x1_0000_0000_0000_0000,
                pow2(52) == 0x10_0000_0000_0000,
        ;
        lemma_binade_exists(rate, 16000);
        assert(rate * pow2(7) == c * 16000);
        lemma_nearest_exact(rate, 16000, c, 7);
        let m = ratio_mantissa(rate) * pow2(ratio_binade(rate));
        assert(m * 16000 == rate * t);
        assert(m * 128 == c * t) by (nonlinear_arith)
            requires
                m * 16000 == rate * t,
                rate == 125 * c,
        ;
        assert(m >= pow2(52)) by (nonlinear_arith)
            requires
                m * 16000 == rate * t,
                rate >= 125,
                t == 0x1_0000_0000_0000_0000 * 0x1_0000_0000_0000_0000,
                pow2(52) == 0x10_0000_0000_0000,
        ;
        // The output length.
        let count = resampled_count(len, rate);
        assert(len * 16000 / rate == len * 128 / c) by {
            lemma_scaled_div_mod_nat(len * 128, c, 125);
            assert(len * 128 * 125 == len * 16000) by (nonlinear_arith);
            assert(c * 125 == rate);
        }
        if len == 0 {
            assert(len * t == 0);
            assert(count == 0);
            assert(0nat * 128 / c == 0) by (nonlinear_arith)
                requires
                    c > 0,
            ;
        } else {
            assert(pow2(52) * m <= (len * t) * t) by (nonlinear_arith)
                requires
                    m * 16000 == rate * t,
                    rate <= 0xffff_ffff,
                    len >= 1,
                    t == 0x1_0000_0000_0000_0000 * 0x1_0000_0000_0000_0000,
                    pow2(52) == 0x10_0000_0000_0000,
            ;
            lemma_binade_exists(len * t, m);
            assert((len * t) * c == (len * 128) * m) by (nonlinear_arith)
                requires
                    m * 128 == c * t,
            ;
            assert(len * 128 < pow2(53)) by (nonlinear_arith)
                requires
                    len < 0x4000_0000_0000,
                    pow2(53) == 0x20_0000_0000_0000,
            ;
            lemma_floor_of_nearest_exact(len * t, m, len * 128, c);
        }
        assert(count == len * 16000 / rate);
        // Each output position reads the input at the same instant.
        assert forall|k: nat| k < count implies #[trigger] source_index(k, rate) == k * rate / 16000
            && k * rate / 16000 < len by {
            assert(k * rate < len * 16000) by (nonlinear_arith)
                requires
                    k < len * 16000 / rate,
                    rate > 0,
            ;
            assert(k * rate / 16000 < len) by (nonlinear_arith)
                requires
                    k * rate < len * 16000,
            ;
            assert(k * ratio_mantissa(rate) * pow2(ratio_binade(rate)) == k * m) by (nonlinear_arith)
                requires
                    m == ratio_mantissa(rate) * pow2(ratio_binade(rate)),
            ;
            if k == 0 {
                assert(0nat * m == 0);
            } else {
                assert(pow2(52) * t <= (k * m) * t) by (nonlinear_arith)
                    requires
                        m >= pow2(52),
                        k >= 1,
                        t > 0,
                ;
                lemma_binade_exists(k * m, t);
                assert((k * m) * 128 == (k * c) * t) by (nonlinear_arith)
                    requires
                        m * 128 == c * t,
                ;
                assert(k * c < pow2(53)) by (nonlinear_arith)
                    requires
                        k < len * 128 / c,
                        len < 0x4000_0000_0000,
                        c > 0,
                        pow2(53) == 0x20_0000_0000_0000,
                ;
                lemma_floor_of_nearest_exact(k * m, t, k * c, 128);
                lemma_scaled_div_mod_nat(k * c, 128, 125);
                assert(k * c * 125 == k * rate) by (nonlinear_arith)
                    requires
                        rate == 125 * c,
                ;
            }
        }
        lemma_picked_all(samples, rate, count);
    }
}

/// The binary64 ratio `input_rate / 16000`, times `2^128`, is within a
/// relative `2^-53` of the exact one.
proof fn lemma_ratio_error(rate: nat)
    requires
        0 < rate <= 0xffff_ffff,
    ensures
        ({
            let r = ratio_mantissa(rate) * pow2(ratio_binade(rate));
            let e = pow2(53);
            let t = pow2(128);
            &&& e * (r * 16000) <= (e + 1) * (rate * t)
            &&& (e - 1) * (rate * t) <= e * (r * 16000)
            &&& r > 0
            &&& r * 16000 <= 2 * rate * t
        }),
{
    lemma2_to64();
    lemma2_to64_rest();
    lemma_pow2_adds(64, 64);
    let t = pow2(128);
    let e = pow2(53);
    assert(pow2(52) * 16000 <= rate * t) by (nonlinear_arith)
        requires
            rate >= 1,
            t == 0x1_0000_0000_0000_0000 * 0x1_0000_0000_0000_0000,
            pow2(52) == 0x10_0000_0000_0000,
    ;
    lemma_binade_exists(rate, 16000);
    lemma_nearest_error(rate, 16000);
    let r = ratio_mantissa(rate) * pow2(ratio_binade(rate));
    assert(r > 0) by (nonlinear_arith)
        requires
            (e - 1) * (rate * t) <= e * (r * 16000),
            e == 0x20_0000_0000_0000,
            rate >= 1,
            t > 0,
            r >= 0,
    ;
    assert(r * 16000 <= 2 * rate * t) by (nonlinear_arith)
        requires
            e * (r * 16000) <= (e + 1) * (rate * t),
            e == 0x20_0000_0000_0000,
    ;
}

/// `a <= b` scaled by `c >= 0`.
proof fn lemma_le_scaled(a: int, b: int, c: int)
    requires
        a <= b,
        c >= 0,
    ensures
        a * c <= b * c,
{
    assert(a * c <= b * c) by (nonlinear_arith)
        requires
            a <= b,
            c >= 0,
    ;
}

/// The number of output positions is within one of the exact
/// `len * 16000 / input_rate`.
proof fn lemma_count_near(len: nat, rate: nat)
    requires
        0 < rate <= 0xffff_ffff,
        0 < len,
        len * 16000 < 0x8_0000_0000_0000 * rate,
    ensures
        resampled_count(len, rate) * rate < len * 16000 + rate,
        len * 16000 < (resampled_count(len, rate) + 2) * rate,
{
    lemma2_to64();
    lemma2_to64_rest();
    lemma_pow2_adds(64, 64);
    let t = pow2(128);
    let e = pow2(53);
    let k: int = 16000;
    lemma_ratio_error(rate);
    let r = ratio_mantissa(rate) * pow2(ratio_binade(rate));
    let p = len * t;
    assert(pow2(52) * r <= p * t) by (nonlinear_arith)
        requires
            r * 16000 <= 2 * rate * t,
            rate <= 0xffff_ffff,
            len >= 1,
            p == len * t,
            t == 0x1_0000_0000_0000_0000 * 0x1_0000_0000_0000_0000,
            pow2(52) == 0x10_0000_0000_0000,
    ;
    lemma_binade_exists(p, r);
    lemma_nearest_error(p, r);
    let v = nearest_mantissa(p, r) * pow2(binade(p, r));
    let count = resampled_count(len, rate);
    assert(p > 0) by (nonlinear_arith)
        requires
            len >= 1,
            t > 0,
            p == len * t,
    ;
    assert(count == v / t);
    // Upper bound: `(e - 1) * v * rate <= k * (e + 1) * len * t`.
    lemma_le_scaled(((e - 1) * (rate * t)) as int, (e * (r * k)) as int, (e * v) as int);
    lemma_le_scaled((e * (v * r)) as int, ((e + 1) * (p * t)) as int, (e * k) as int);
    assert((e - 1) * (rate * t) * (e * v) == ((e - 1) * v * rate) * (e * t)) by (nonlinear_arith);
    assert(e * (r * k) * (e * v) == e * (v * r) * (e * k)) by (nonlinear_arith);
    assert((e + 1) * (p * t) * (e * k) == (k * (e + 1) * len * t) * (e * t)) by (nonlinear_arith)
        requires
            p == len * t,
    ;
    assert((e - 1) * v * rate <= k * (e + 1) * len * t) by (nonlinear_arith)
        requires
            ((e - 1) * v * rate) * (e * t) <= (k * (e + 1) * len * t) * (e * t),
            e > 0,
            t > 0,
    ;
    assert(v * rate < t * (len * k + rate)) by (nonlinear_arith)
        requires
            (e - 1) * v * rate <= k * (e + 1) * len * t,
            len * 16000 < 0x8_0000_0000_0000 * rate,
            k == 16000,
            e == 0x20_0000_0000_0000,
            t > 0,
    ;
    vstd::arithmetic::div_mod::lemma_fundamental_div_mod(v as int, t as int);
    assert(count * rate < len * k + rate) by (nonlinear_arith)
        requires
            count * t <= v,
            v * rate < t * (len * k + rate),
            t > 0,
            rate > 0,
    ;
    // Lower bound: `(e - 1) * len * t * k <= (e + 1) * v * rate`.
    lemma_le_scaled(((e - 1) * (p * t)) as int, (e * (v * r)) as int, (e * k) as int);
    lemma_le_scaled((e * (r * k)) as int, ((e + 1) * (rate * t)) as int, (e * v) as int);
    assert((e - 1) * (p * t) * (e * k) == ((e - 1) * len * t * k) * (e * t)) by (nonlinear_arith)
        requires
            p == len * t,
    ;
    assert(e * (v * r) * (e * k) == e * (r * k) * (e * v)) by (nonlinear_arith);
    assert((e + 1) * (rate * t) * (e * v) == ((e + 1) * v * rate) * (e * t)) by (nonlinear_arith);
    assert((e - 1) * len * t * k <= (e + 1) * v * rate) by (nonlinear_arith)
        requires
            ((e - 1) * len * t * k) * (e * t) <= ((e + 1) * v * rate) * (e * t),
            e > 0,
            t > 0,
    ;
    assert(v * rate > t * (len * k - rate)) by (nonlinear_arith)
        requires
            (e - 1) * len * t * k <= (e + 1) * v * rate,
            len * 16000 < 0x8_0000_0000_0000 * rate,
            k == 16000,
            e == 0x20_0000_0000_0000,
            t > 0,
    ;
    assert(len * k < (count + 2) * rate) by (nonlinear_arith)
        requires
            v < count * t + t,
            v * rate > t * (len * k - rate),
            t > 0,
            rate > 0,
    ;
}

/// The input position read for output position `i` is within one of the
/// exact `i * input_rate / 16000`.
proof fn lemma_source_near(i: nat, rate: nat)
    requires
        0 < rate <= 0xffff_ffff,
        i * rate < 0x8_0000_0000_0000 * 16000,
    ensures
        source_index(i, rate) * 16000 < i * rate + 16000,
        i * rate < (source_index(i, rate) + 2) * 16000,
{
    if i == 0 {
        assert(0 * ratio_mantissa(rate) * pow2(ratio_binade(rate)) == 0) by (nonlinear_arith);
    } else {
        lemma2_to64();
        lemma2_to64_rest();
        lemma_pow2_adds(64, 64);
        let t = pow2(128);
        let e = pow2(53);
        let k: int = 16000;
        lemma_ratio_error(rate);
        let r = ratio_mantissa(rate) * pow2(ratio_binade(rate));
        let p = i * r;
        assert(p == i * ratio_mantissa(rate) * pow2(ratio_binade(rate))) by (nonlinear_arith)
            requires
                r == ratio_mantissa(rate) * pow2(ratio_binade(rate)),
                p == i * r,
        ;
        assert(r >= 1);
        assert(pow2(52) * t <= p * t) by (nonlinear_arith)
            requires
                (e - 1) * (rate * t) <= e * (r * 16000),
                e == 0x20_0000_0000_0000,
                rate >= 1,
                i >= 1,
                p == i * r,
                t == 0x1_0000_0000_0000_0000 * 0x1_0000_0000_0000_0000,
                pow2(52) == 0x10_0000_0000_0000,
        ;
        lemma_binade_exists(p, t);
        lemma_nearest_error(p, t);
        let v = nearest_mantissa(p, t) * pow2(binade(p, t));
        let src = source_index(i, rate);
        assert(p > 0) by (nonlinear_arith)
            requires
                i >= 1,
                r >= 1,
                p == i * r,
        ;
        assert(src == v / t);
        assert(e * v <= (e + 1) * p) by (nonlinear_arith)
            requires
                e * (v * t) <= (e + 1) * (p * t),
                t > 0,
        ;
        assert((e - 1) * p <= e * v) by (nonlinear_arith)
            requires
                (e - 1) * (p * t) <= e * (v * t),
                t > 0,
        ;
        // Upper bound.
        lemma_le_scaled((e * v) as int, ((e + 1) * p) as int, (e * k) as int);
        lemma_le_scaled((e * (r * k)) as int, ((e + 1) * (rate * t)) as int, ((e + 1) * i) as int);
        assert((e + 1) * p * (e * k) == e * (r * k) * ((e + 1) * i)) by (nonlinear_arith)
            requires
                p == i * r,
        ;
        assert(e * v * (e * k) <= (e + 1) * (rate * t) * ((e + 1) * i));
        assert(v * k < t * (i * rate + k)) by (nonlinear_arith)
            requires
                e * v * (e * k) <= (e + 1) * (rate * t) * ((e + 1) * i),
                i * rate < 0x8_0000_0000_0000 * 16000,
                k == 16000,
                e == 0x20_0000_0000_0000,
                t > 0,
        ;
        vstd::arithmetic::div_mod::lemma_fundamental_div_mod(v as int, t as int);
        assert(src * k < i * rate + k) by (nonlinear_arith)
            requires
                src * t <= v,
                v * k < t * (i * rate + k),
                t > 0,
                k > 0,
        ;
        // Lower bound.
        lemma_le_scaled(((e - 1) * p) as int, (e * v) as int, (e * k) as int);
        lemma_le_scaled(((e - 1) * (rate * t)) as int, (e * (r * k)) as int, ((e - 1) * i) as int);
        assert((e - 1) * p * (e * k) == e * (r * k) * ((e - 1) * i)) by (nonlinear_arith)
            requires
                p == i * r,
        ;
        assert((e - 1) * (rate * t) * ((e - 1) * i) <= e * v * (e * k));
        assert(v * k > t * (i * rate - k)) by (nonlinear_arith)
            requires
                (e - 1) * (rate * t) * ((e - 1) * i) <= e * v * (e * k),
                i * rate < 0x8_0000_0000_0000 * 16000,
                k == 16000,
                e == 0x20_0000_0000_0000,
                t > 0,
        ;
        assert(i * rate < (src + 2) * k) by (nonlinear_arith)
            requires
                v < src * t + t,
                v * k > t * (i * rate - k),
                t > 0,
                k > 0,
        ;
    }
}

/// Walking more output positions only appends to what `picked` holds.
proof fn lemma_picked_grows(samples: Seq<i16>, input_rate: nat, n: nat, n2: nat)
    requires
        n <= n2,
    ensures
        picked(samples, input_rate, n).len() <= picked(samples, input_rate, n2).len() <= n2,
        forall|k: int|
            0 <= k < picked(samples, input_rate, n).len() ==> #[trigger] picked(
                samples,
                input_rate,
                n2,
            )[k] == picked(samples, input_rate, n)[k],
    decreases n2,
{
    if n2 > 0 {
        lemma_picked_grows(samples, input_rate, 0, (n2 - 1) as nat);
    }
    if n < n2 {
        lemma_picked_grows(samples, input_rate, n, (n2 - 1) as nat);
        let before = picked(samples, input_rate, (n2 - 1) as nat);
        assert forall|k: int| 0 <= k < before.len() implies #[trigger] picked(
            samples,
            input_rate,
            n2,
        )[k] == before[k] by {}
    }
}

/// Resampling keeps a capture's duration at every rate other than 16 kHz
/// (which passes the capture through unchanged), to within a sample either
/// way: the result's length, taken at 16 kHz, is at most one output
/// sample longer than the capture and at most two output samples and one
/// input sample shorter; and each output sample is an input sample from
/// within one input sample of the output sample's instant (checked away from
/// the capture's last input sample, where positions may fall past the end).
pub proof fn lemma_resampling_keeps_duration_approximately(samples: Seq<i16>, input_rate: nat)
    requires
        0 < input_rate <= 0xffff_ffff,
        input_rate != 16000,
        samples.len() < 0x8_0000_0000_0000,
        samples.len() * 16000 < 0x8_0000_0000_0000 * input_rate,
    ensures
        resampled(samples, input_rate).len() * input_rate <= samples.len() * 16000 + input_rate,
        samples.len() * 16000 <= resampled(samples, input_rate).len() * input_rate + 2 * input_rate
            + 16000,
        forall|k: int|
            #![trigger resampled(samples, input_rate)[k]]
            0 <= k < resampled(samples, input_rate).len() && k * input_rate < (samples.len() - 1)
                * 16000 ==> exists|s: int|
                0 <= s < samples.len() && #[trigger] resampled(samples, input_rate)[k]
                    == #[trigger] samples[s] && s * 16000 < k * input_rate + 16000 && k
                    * input_rate < (s + 2) * 16000,
{
    let len = samples.len();
    let rate = input_rate;
    let out = resampled(samples, rate);
    if len == 0 {
        assert(len * pow2(128) == 0) by (nonlinear_arith)
            requires
                len == 0,
        ;
        assert(out.len() == 0);
        assert(out.len() * rate == 0) by (nonlinear_arith)
            requires
                out.len() == 0,
        ;
    } else {
        let count = resampled_count(len, rate);
        lemma_count_near(len, rate);
        lemma_picked_grows(samples, rate, count, count);
        // The positions before `good` all read inside the capture.
        let top: nat = ((len - 1) * 16000 + rate - 1) as nat;
        let good: nat = top / rate;
        assert(good * rate >= (len - 1) * 16000) by (nonlinear_arith)
            requires
                good == top / rate,
                top == (len - 1) * 16000 + rate - 1,
                rate > 0,
                len >= 1,
        ;
        assert forall|k: nat| k * rate < (len - 1) * 16000 implies #[trigger] source_index(k, rate) < len
            && source_index(k, rate) * 16000 < k * rate + 16000 && k * rate < (source_index(k, rate) + 2)
            * 16000 by {
            assert(k * rate < 0x8_0000_0000_0000 * 16000) by (nonlinear_arith)
                requires
                    k * rate < (len - 1) * 16000,
                    len < 0x8_0000_0000_0000,
            ;
            lemma_source_near(k, rate);
        }
        assert forall|k: nat| k < good implies #[trigger] (k * rate) < (len - 1) * 16000 by {
            assert(k * rate < (len - 1) * 16000) by (nonlinear_arith)
                requires
                    k < top / rate,
                    top == (len - 1) * 16000 + rate - 1,
                    rate > 0,
                    len >= 1,
            ;
        }
        let n1: nat = if count < good {
            count
        } else {
            good
        };
        assert forall|k: nat| k < n1 implies #[trigger] source_index(k, rate) < len by {
            assert(k * rate < (len - 1) * 16000);
        }
        lemma_picked_all(samples, rate, n1);
        lemma_picked_grows(samples, rate, n1, count);
        assert(out == picked(samples, rate, count));
        // Length bounds.
        assert(n1 * rate + 2 * rate + 16000 >= len * 16000) by (nonlinear_arith)
            requires
                n1 == count || n1 == good,
                len * 16000 < (count + 2) * rate,
                good * rate >= (len - 1) * 16000,
        ;
        assert(out.len() * rate <= len * 16000 + rate) by (nonlinear_arith)
            requires
                out.len() <= count,
                count * rate < len * 16000 + rate,
                rate > 0,
        ;
        assert(out.len() * rate >= n1 * rate) by (nonlinear_arith)
            requires
                out.len() >= n1,
                rate > 0,
        ;
        // Samples.
        assert forall|k: int|
            #![trigger out[k]]
            0 <= k < out.len() && k * rate < (len - 1) * 16000 implies exists|s: int|
            0 <= s < len && #[trigger] out[k] == #[trigger] samples[s] && s * 16000 < k * rate + 16000
                && k * rate < (s + 2) * 16000 by {
            let kn = k as nat;
            assert(kn < good) by (nonlinear_arith)
                requires
                    kn * rate < (len - 1) * 16000,
                    good * rate >= (len - 1) * 16000,
                    rate > 0,
            ;
            assert(kn < count);
            assert(kn < n1);
            let s = source_index(kn, rate);
            assert(kn * rate < (len - 1) * 16000);
            assert(out[k] == picked(samples, rate, n1)[k]);
            assert(out[k] == samples[s as int]);
        }
    }
}

/// Scaling numerator and denominator by `c` keeps the quotient.
proof fn lemma_scaled_div_mod_nat(n: nat, d: nat, c: nat)
    requires
        d > 0,
        c > 0,
    ensures
        (n * c) / (d * c) == n / d,
{
    vstd::arithmetic::div_mod::lemma_div_denominator((n * c) as int, c as int, d as int);
    vstd::arithmetic::div_mod::lemma_div_by_multiple(n as int, c as int);
    assert(c * d == d * c) by (nonlinear_arith);
}

/// The ratio `input_rate / 16000` in binary64, as its mantissa, the distance
/// `e` of its binade below the offset, and `2^e`.
fn rate_ratio(input_rate: u32) -> (r: (u128, u32, u128))
    requires
        input_rate > 0,
    ensures
        r.0 == ratio_mantissa(input_rate as nat),
        ratio_binade(input_rate as nat) == 128 - r.1,
        in_binade(input_rate as nat, 16000, (128 - r.1) as nat),
        r.2 == pow2(r.1 as nat),
        0 < r.1 <= 66,
        pow2(52) <= r.0 <= pow2(53),
{
    proof {
        lemma2_to64();
        lemma2_to64_rest();
        lemma_pow2_adds(64, 56);
        lemma_pow2_adds(64, 4);
        lemma_pow2_adds(64, 3);
        lemma_pow2_adds(64, 64);
        lemma_pow2_pos(128);
        assert(pow2(52) * 16000 <= (input_rate as nat) * pow2(128)) by (nonlinear_arith)
            requires
                pow2(52) * 16000 < pow2(64) * pow2(64),
                pow2(64) * pow2(64) == pow2(128),
                input_rate >= 1,
        ;
    }
    let (m, up, e, sc) = nearest(input_rate as u128, 16000);
    proof {
        assert(!up);
        if e > 66 {
            if e > 67 {
                lemma_pow2_strictly_increases(67, e as nat);
            }
            assert(pow2(67) <= sc);
            assert((input_rate as nat) * sc >= sc) by (nonlinear_arith)
                requires
                    input_rate >= 1,
            ;
            assert(false);
        }
    }
    (m, e, sc)
}

/// `resampled_count` of a capture of `len` samples at `input_rate`.
pub fn resampled_length(len: usize, input_rate: u32) -> (r: u128)
    requires
        input_rate > 0 || len == 0,
        len < 0x20_0000_0000_0000,
    ensures
        r == resampled_count(len as nat, input_rate as nat),
{
    if len == 0 {
        return 0;
    }
    let (m, s, sc) = rate_ratio(input_rate);
    proof {
        lemma_pow2_pos(s as nat);
        lemma2_to64();
        lemma2_to64_rest();
        lemma_pow2_adds(64, 56);
        lemma_pow2_adds(64, 4);
        lemma_pow2_adds(64, 2);
        lemma_pow2_adds(64, 64);
        if s < 66 {
            lemma_pow2_strictly_increases(s as nat, 66);
        }
        assert((len as nat) * sc < pow2(120)) by (nonlinear_arith)
            requires
                len < 0x20_0000_0000_0000,
                sc <= pow2(66),
                pow2(66) == 0x4_0000_0000_0000_0000,
                pow2(120) == 0x100_0000_0000_0000_0000_0000_0000_0000,
        ;
        assert(pow2(52) * m <= (len as nat) * sc * pow2(128)) by (nonlinear_arith)
            requires
                m <= pow2(53),
                pow2(53) == 0x20_0000_0000_0000,
                pow2(52) == 0x10_0000_0000_0000,
                pow2(128) == 0x1_0000_0000_0000_0000 * 0x1_0000_0000_0000_0000,
                len >= 1,
                sc >= 1,
        ;
        assert(sc >= 1) by {
            lemma_pow2_pos(s as nat);
        }
    }
    let count = floor_nearest(len as u128 * sc, m);
    proof {
        let j = (128 - s) as nat;
        lemma_pow2_adds(s as nat, j);
        assert(s as nat + j == 128);
        lemma_pow2_pos(j);
        let p: nat = ((len as nat) * sc) as nat;
        assert((len as nat) * pow2(128) == p * pow2(j)) by (nonlinear_arith)
            requires
                pow2(128) == sc * pow2(j),
                p == (len as nat) * sc,
        ;
        lemma_floor_of_nearest_scaled(p, m as nat, pow2(j));
    }
    count
}
/// The input position read for output position `i`, given the ratio as
/// `rate_ratio` returns it.
fn source_position(i: u128, input_rate: u32, m: u128, s: u32, sc: u128) -> (r: u128)
    requires
        i < 0x4000_0000_0000_0000,
        input_rate > 0,
        m == ratio_mantissa(input_rate as nat),
        ratio_binade(input_rate as nat) == 128 - s,
        sc == pow2(s as nat),
        0 < s <= 66,
        pow2(52) <= m <= pow2(53),
    ensures
        r == source_index(i as nat, input_rate as nat),
{
    if i == 0 {
        proof {
            assert(0 * m * pow2(ratio_binade(input_rate as nat)) == 0) by (nonlinear_arith);
        }
        return 0;
    }
    proof {
        lemma2_to64();
        lemma2_to64_rest();
        lemma_pow2_adds(64, 56);
        lemma_pow2_adds(64, 4);
        lemma_pow2_adds(64, 2);
        lemma_pow2_adds(64, 64);
        lemma_pow2_pos(s as nat);
        if s < 66 {
            lemma_pow2_strictly_increases(s as nat, 66);
        }
        assert(i * m < pow2(120)) by (nonlinear_arith)
            requires
                i < 0x4000_0000_0000_0000,
                m <= 0x20_0000_0000_0000,
                pow2(120) == 0x100_0000_0000_0000_0000_0000_0000_0000,
        ;
        assert(pow2(52) * sc <= i * m * pow2(128)) by (nonlinear_arith)
            requires
                i >= 1,
                m >= 1,
                sc <= 0x4_0000_0000_0000_0000,
                pow2(52) == 0x10_0000_0000_0000,
                pow2(128) == 0x1_0000_0000_0000_0000 * 0x1_0000_0000_0000_0000,
        ;
    }
    let src = floor_nearest(i * m, sc);
    proof {
        let j = (128 - s) as nat;
        lemma_pow2_adds(s as nat, j);
        assert(s as nat + j == 128);
        lemma_pow2_pos(j);
        let p: nat = (i * m) as nat;
        assert(p * pow2(j) == i * m * pow2(j)) by (nonlinear_arith)
            requires
                p == i * m,
        ;
        lemma_floor_of_nearest_scaled(p, sc as nat, pow2(j));
    }
    src
}

/// Resamples a mono capture to 16 kHz: each output position takes the input
/// sample at the same instant, rounded down, with the ratio and the
/// positions computed in binary64. Nothing to resample gives nothing,
/// whatever the rate.
pub fn downsample_to_16k(samples: &[i16], input_rate: u32) -> (r: Vec<i16>)
    requires
        input_rate > 0 || samples@.len() == 0,
        input_rate != 16000 ==> samples@.len() < 0x20_0000_0000_0000,
        input_rate != 16000 ==> resampled_count(samples@.len(), input_rate as nat)
            < 0x4000_0000_0000_0000,
    ensures
        r@ == resampled(samples@, input_rate as nat),
{
    if input_rate == TARGET_SAMPLE_RATE {
        let mut copy: Vec<i16> = Vec::new();
        let mut i: usize = 0;
        while i < samples.len()
            invariant
                i <= samples@.len(),
                copy@ == samples@.take(i as int),
            decreases samples@.len() - i,
        {
            copy.push(samples[i]);
            assert(samples@.take(i + 1) == samples@.take(i as int).push(samples@[i as int]));
            i = i + 1;
        }
        assert(samples@.take(samples@.len() as int) == samples@);
        return copy;
    }
    let count = resampled_length(samples.len(), input_rate);
    let mut output: Vec<i16> = Vec::new();
    if count == 0 {
        return output;
    }
    proof {
        if input_rate == 0 {
            assert(0 * pow2(128) == 0);
        }
    }
    let (m, s, sc) = rate_ratio(input_rate);
    let mut index: u128 = 0;
    while index < count
        invariant
            input_rate > 0,
            input_rate != 16000,
            count == resampled_count(samples@.len(), input_rate as nat),
            count < 0x4000_0000_0000_0000,
            m == ratio_mantissa(input_rate as nat),
            ratio_binade(input_rate as nat) == 128 - s,
            sc == pow2(s as nat),
            0 < s <= 66,
            pow2(52) <= m <= pow2(53),
            index <= count,
            output@ == picked(samples@, input_rate as nat, index as nat),
        decreases count - index,
    {
        let src = source_position(index, input_rate, m, s, sc);
        if src < samples.len() as u128 {
            output.push(samples[src as usize]);
        }
        index = index + 1;
    }
    output
}

/// Why a finished capture is not sent for transcription.
#[derive(Clone, Copy, Debug, PartialEq, Eq, Structural)]
pub enum CaptureRejection {
    /// Fewer than `MIN_SAMPLES` samples at 16 kHz.
    TooShort,
    /// No sample reached `SILENCE_PEAK_THRESHOLD`; `peak` is the loudest one.
    Silent { peak: i32 },
}

/// Accepts a 16 kHz capture when it lasts at least half a second and its
/// peak reaches the silence threshold; returns the peak when accepted.
pub fn check_capture(normalized: &[i16]) -> (r: Result<i32, CaptureRejection>)
    ensures
        normalized@.len() < MIN_SAMPLES ==> r == Err::<i32, CaptureRejection>(
            CaptureRejection::TooShort,
        ),
        normalized@.len() >= MIN_SAMPLES && peak_of(normalized@) < SILENCE_PEAK_THRESHOLD ==> r
            == Err::<i32, CaptureRejection>(
            CaptureRejection::Silent { peak: peak_of(normalized@) as i32 },
        ),
        r matches Ok(p) ==> normalized@.len() >= MIN_SAMPLES && p as int == peak_of(normalized@)
            && p >= SILENCE_PEAK_THRESHOLD,
        r is Ok <==> normalized@.len() >= MIN_SAMPLES && peak_of(normalized@)
            >= SILENCE_PEAK_THRESHOLD,
{
    if normalized.len() < MIN_SAMPLES {
        return Err(CaptureRejection::TooShort);
    }
    let peak = calculate_peak(normalized);
    if peak < SILENCE_PEAK_THRESHOLD {
        return Err(CaptureRejection::Silent { peak });
    }
    Ok(peak)
}

/// The explanation for a capture in which every sample was (nearly) zero,
/// which is what Windows hands an app that may not use the microphone;
/// `None` for a capture that was merely quiet, whose message quotes the
/// measured level.
pub fn dead_input_message(device: &str, peak: i32) -> (r: Option<String>)
    ensures
        r is Some <==> peak <= 1,
        r matches Some(m) ==> m@ == "No audio at all from \""@ + device@
            + "\" \u{2014} every sample was zero. Windows hands blocked apps pure silence: turn on Settings \u{203a} Privacy & security \u{203a} Microphone \u{203a} \"Let desktop apps access your microphone\", or pick another microphone below."@,
{
    if peak <= 1 {
        Some(
            owned("No audio at all from \"").concat(device).concat(
                "\" \u{2014} every sample was zero. Windows hands blocked apps pure silence: turn on Settings \u{203a} Privacy & security \u{203a} Microphone \u{203a} \"Let desktop apps access your microphone\", or pick another microphone below.",
            ),
        )
    } else {
        None
    }
}

/// Whether a start request opens the microphone.
pub open spec fn opens_stream(already_recording: bool) -> bool {
    !already_recording
}

/// Whether a recording runs after a start request: one already did, or the
/// request opened the microphone (`opened`). A start that runs into an
/// error leaves no recording behind.
pub open spec fn running_after_start(already_recording: bool, opened: bool) -> bool {
    already_recording || (opens_stream(already_recording) && opened)
}

/// Whether starting a recording must open the microphone: not while one is
/// already running, which makes starting idempotent.
pub fn must_open_stream(already_recording: bool) -> (r: bool)
    ensures
        r == opens_stream(already_recording),
{
    !already_recording
}

/// Starting twice acts as starting once: once a start has left a recording
/// running, a second start opens nothing and the recording keeps running.
pub proof fn lemma_start_is_idempotent(already_recording: bool, opened: bool, opened_again: bool)
    requires
        running_after_start(already_recording, opened),
    ensures
        !opens_stream(running_after_start(already_recording, opened)),
        running_after_start(running_after_start(already_recording, opened), opened_again),
{
}

/// `v` as `n` little-endian bytes.
pub open spec fn le_bytes(v: nat, n: nat) -> Seq<u8>
    decreases n,
{
    if n == 0 {
        Seq::empty()
    } else {
        seq![(v % 256) as u8] + le_bytes(v / 256, (n - 1) as nat)
    }
}

/// The samples as 16-bit little-endian two's complement.
pub open spec fn sample_bytes(samples: Seq<i16>) -> Seq<u8>
    decreases samples.len(),
{
    if samples.len() == 0 {
        Seq::empty()
    } else {
        sample_bytes(samples.drop_last()) + le_bytes(
            ((samples.last() as int + 65536) % 65536) as nat,
            2,
        )
    }
}

/// The ASCII tag "RIFF" that opens a WAV file.
pub open spec fn riff_tag() -> Seq<u8> {
    seq![82u8, 73u8, 70u8, 70u8]
}

/// The ASCII tag "WAVE" that names the RIFF form.
pub open spec fn wave_tag() -> Seq<u8> {
    seq![87u8, 65u8, 86u8, 69u8]
}

/// The ASCII tag "fmt " of the format chunk.
pub open spec fn fmt_tag() -> Seq<u8> {
    seq![102u8, 109u8, 116u8, 32u8]
}

/// The ASCII tag "data" of the sample chunk.
pub open spec fn data_tag() -> Seq<u8> {
    seq![100u8, 97u8, 116u8, 97u8]
}

/// A 16-bit mono PCM WAV file at `sample_rate` holding `samples`: the RIFF
/// header with the size of what follows it, a 16-byte PCM format chunk
/// (format 1, one channel, the rate, two bytes a second per hertz, two-byte
/// frames of 16 bits), then the data chunk.
pub open spec fn wav_file(samples: Seq<i16>, sample_rate: u32) -> Seq<u8> {
    let n = samples.len();
    riff_tag() + le_bytes(36 + 2 * n, 4) + wave_tag() + fmt_tag() + le_bytes(16, 4) + le_bytes(1, 2)
        + le_bytes(1, 2) + le_bytes(sample_rate as nat, 4) + le_bytes(2 * sample_rate as nat, 4)
        + le_bytes(2, 2) + le_bytes(16, 2) + data_tag() + le_bytes(2 * n, 4) + sample_bytes(samples)
}

/// Whether the encoder accepts these inputs: a positive rate whose byte rate
/// (two bytes a sample) fits in 32 bits, and a data size that, with the
/// header, fits the 32-bit RIFF size field.
pub open spec fn wav_encodable(sample_count: int, sample_rate: u32) -> bool {
    &&& 0 < sample_rate <= 0x7fff_ffff
    &&& 2 * sample_count + 36 <= 0xffff_ffff
}

/// The encoding step that failed, with the encoder's own message.
#[derive(Debug)]
pub enum WavFailure {
    Create(String),
    Sample(String),
    Finalize(String),
}

/// The text reported for a failed encoding step.
pub open spec fn wav_failure_text(f: WavFailure) -> Seq<char> {
    match f {
        WavFailure::Create(m) => "Cannot create WAV writer: "@ + m@,
        WavFailure::Sample(m) => "Cannot write WAV sample: "@ + m@,
        WavFailure::Finalize(m) => "Cannot finalize WAV data: "@ + m@,
    }
}

/// Writes `samples` with `hound::WavWriter` (`new` with a mono 16-bit integer
/// spec, `write_sample` for each sample, then `finalize`) into an in-memory
/// buffer. Claimed of hound: for this spec it writes the PCMWAVEFORMAT header
/// (`write_headers`, `write_pcmwaveformat`), each sample as two little-endian
/// bytes, and on finalizing patches the RIFF and data sizes, which gives
/// `wav_file`; and no step fails, since writing and seeking in memory do not
/// and one channel leaves no sample unfinished. Hound computes the byte rate
/// and the sizes in `u32` and divides by the rate, hence the `requires`.
#[verifier::external_body]
fn hound_encode_wav(samples: &[i16], sample_rate: u32) -> (r: Result<Vec<u8>, WavFailure>)
    requires
        wav_encodable(samples@.len() as int, sample_rate),
    ensures
        r is Ok,
        r matches Ok(b) ==> b@ == wav_file(samples@, sample_rate),
{
    let spec = hound::WavSpec { channels: 1, sample_rate, bits_per_sample: 16, sample_format: hound::SampleFormat::Int };
    let mut cursor = std::io::Cursor::new(Vec::new());
    let mut w = hound::WavWriter::new(&mut cursor, spec).map_err(|e| WavFailure::Create(e.to_string()))?;
    for s in samples {
        w.write_sample(*s).map_err(|e| WavFailure::Sample(e.to_string()))?;
    }
    w.finalize().map_err(|e| WavFailure::Finalize(e.to_string()))?;
    Ok(cursor.into_inner())
}

/// The audio error for a failed encoding step.
pub fn wav_error(f: WavFailure) -> (e: AppError)
    ensures
        e is Audio,
        e.spec_detail() == wav_failure_text(f),
{
    match f {
        WavFailure::Create(m) => AppError::Audio(owned("Cannot create WAV writer: ").concat(m.as_str())),
        WavFailure::Sample(m) => AppError::Audio(owned("Cannot write WAV sample: ").concat(m.as_str())),
        WavFailure::Finalize(m) => AppError::Audio(owned("Cannot finalize WAV data: ").concat(m.as_str())),
    }
}

/// Encodes the capture as a 16-bit mono WAV file for upload.
pub fn encode_wav(samples: &[i16], sample_rate: u32) -> (r: Result<Vec<u8>, AppError>)
    requires
        wav_encodable(samples@.len() as int, sample_rate),
    ensures
        r matches Ok(b) && b@ == wav_file(samples@, sample_rate),
{
    match hound_encode_wav(samples, sample_rate) {
        Ok(b) => Ok(b),
        Err(f) => Err(wav_error(f)),
    }
}

/// Why a 16 kHz capture would be refused, if it would.
pub open spec fn capture_rejection(normalized: Seq<i16>) -> Option<CaptureRejection> {
    if normalized.len() < MIN_SAMPLES {
        Some(CaptureRejection::TooShort)
    } else if peak_of(normalized) < SILENCE_PEAK_THRESHOLD {
        Some(CaptureRejection::Silent { peak: peak_of(normalized) as i32 })
    } else {
        None
    }
}

/// A stopped capture is refused exactly when it is shorter than half a
/// second at 16 kHz, or when no sample anywhere in it reaches the silence
/// threshold in absolute value; a silent refusal reports the largest
/// absolute sample of the whole capture.
pub proof fn lemma_refusal_reasons(normalized: Seq<i16>)
    ensures
        normalized.len() < MIN_SAMPLES ==> capture_rejection(normalized) == Some(
            CaptureRejection::TooShort,
        ),
        normalized.len() >= MIN_SAMPLES ==> (capture_rejection(normalized) is Some <==> forall|i: int|
            0 <= i < normalized.len() ==> -SILENCE_PEAK_THRESHOLD < #[trigger] normalized[i]
                < SILENCE_PEAK_THRESHOLD),
        capture_rejection(normalized) matches Some(CaptureRejection::Silent { peak }) ==> (
        forall|i: int|
            0 <= i < normalized.len() ==> -peak <= #[trigger] normalized[i] <= peak) && (exists|
            i: int,
        | 0 <= i < normalized.len() && (normalized[i] == peak || normalized[i] == -peak)),
{
    lemma_peak_is_loudest_sample(normalized);
    lemma_silence_gate_accepts_any_audible_sample(normalized);
    if normalized.len() >= MIN_SAMPLES {
        if peak_of(normalized) < SILENCE_PEAK_THRESHOLD {
            let peak = peak_of(normalized);
            assert forall|i: int| 0 <= i < normalized.len() implies -peak <= #[trigger] normalized[i]
                <= peak by {
                assert(abs(normalized[i] as int) <= peak);
            }
            if peak == 0 {
                assert(normalized[0] == 0) by {
                    assert(abs(normalized[0] as int) <= 0);
                }
            } else {
                let k = choose|k: int| 0 <= k < normalized.len() && peak == abs(normalized[k] as int);
                assert(normalized[k] == peak || normalized[k] == -peak);
            }
        } else {
            let k = choose|k: int|
                0 <= k < normalized.len() && abs(#[trigger] normalized[k] as int)
                    >= SILENCE_PEAK_THRESHOLD;
            assert(!(-SILENCE_PEAK_THRESHOLD < normalized[k] < SILENCE_PEAK_THRESHOLD));
        }
    }
}

/// What is uploaded for an accepted capture: its peak and its WAV file.
pub struct Upload {
    pub peak: i32,
    pub wav: Vec<u8>,
}

/// A stopped capture after resampling: the 16 kHz samples, and either the
/// upload or the reason it was refused.
pub struct ProcessedCapture {
    pub samples: Vec<i16>,
    pub outcome: Result<Upload, CaptureRejection>,
}

/// Everything done to a capture when recording stops: resample it to
/// 16 kHz, refuse it when too short or silent, else encode it as WAV.
pub fn process_capture(samples: &[i16], input_rate: u32) -> (r: ProcessedCapture)
    requires
        input_rate > 0 || samples@.len() == 0,
        input_rate != 16000 ==> samples@.len() < 0x20_0000_0000_0000,
        input_rate != 16000 ==> resampled_count(samples@.len(), input_rate as nat)
            < 0x4000_0000_0000_0000,
        wav_encodable(resampled(samples@, input_rate as nat).len() as int, TARGET_SAMPLE_RATE),
    ensures
        r.samples@ == resampled(samples@, input_rate as nat),
        r.outcome is Err <==> capture_rejection(r.samples@) is Some,
        r.outcome matches Err(e) ==> capture_rejection(r.samples@) == Some(e),
        r.outcome matches Ok(u) ==> u.peak == peak_of(r.samples@) && u.wav@ == wav_file(
            r.samples@,
            TARGET_SAMPLE_RATE,
        ),
{
    let normalized = downsample_to_16k(samples, input_rate);
    let outcome = match check_capture(&normalized) {
        Err(e) => Err(e),
        Ok(peak) => {
            let wav = match encode_wav(&normalized, TARGET_SAMPLE_RATE) {
                Ok(b) => b,
                // Encoding in memory does not fail.
                Err(_) => Vec::new(),
            };
            Ok(Upload { peak, wav })
        },
    };
    ProcessedCapture { samples: normalized, outcome }
}

/// The error reported for a capture shorter than half a second.
pub fn too_short_error() -> (e: AppError)
    ensures
        e matches AppError::Audio(m) && m@
            == "Recording is too short. Speak for at least half a second."@,
{
    AppError::Audio(owned("Recording is too short. Speak for at least half a second."))
}

/// An 8-bit sample scaled to 16 bits (`(v as i16) << 8`).
pub fn i8_sample_to_i16(v: i8) -> (r: i16)
    ensures
        r as int == v as int * 256,
{
    (v as i16) * 256
}

/// A 32-bit sample reduced to its upper 16 bits (`(v >> 16) as i16`, an
/// arithmetic shift: division by 65536 rounded down).
pub fn i32_sample_to_i16(v: i32) -> (r: i16)
    ensures
        r as int == (v as int) / 65536,
{
    if v >= 0 {
        (v / 65536) as i16
    } else {
        let m: i64 = 65535 - (v as i64);
        let q: i64 = m / 65536;
        assert(q == -((v as int) / 65536)) by (nonlinear_arith)
            requires
                v < 0,
                m == 65535 - v,
                q == m / 65536,
        ;
        (-q) as i16
    }
}

/// Which input device to open.
#[derive(Clone, Copy, Debug, PartialEq, Eq, Structural)]
pub enum DeviceChoice {
    /// The device at this index of the enumerated list.
    Named(usize),
    /// The system default input.
    Default,
}

/// The first index whose name equals `name`, if any.
pub open spec fn first_named(names: Seq<Seq<char>>, name: Seq<char>, k: int) -> Option<int>
    decreases names.len() - k,
{
    if k >= names.len() || k < 0 {
        None
    } else if names[k] == name {
        Some(k)
    } else {
        first_named(names, name, k + 1)
    }
}

/// The names of `devices`, as character sequences.
pub open spec fn name_views(devices: Seq<String>) -> Seq<Seq<char>> {
    Seq::new(devices.len(), |i: int| devices[i]@)
}

/// Honours the microphone chosen in settings but never fails because of it:
/// a preferred name (trimmed, when not blank) selects the first enumerated
/// device of that name; otherwise, or when no device has that name, the
/// system default is used. `warn` is set when a preferred device was missing.
pub fn resolve_input_device(preferred: Option<&str>, device_names: &[String]) -> (r: (
    DeviceChoice,
    bool,
))
    ensures
        ({
            let wanted = match preferred {
                Some(p) => trim(p@),
                None => Seq::<char>::empty(),
            };
            if wanted.len() == 0 {
                r == (DeviceChoice::Default, false)
            } else {
                match first_named(name_views(device_names@), wanted, 0) {
                    Some(k) => r == (DeviceChoice::Named(k as usize), false),
                    None => r == (DeviceChoice::Default, true),
                }
            }
        }),
{
    let wanted = match preferred {
        Some(p) => {
            let v = chars_of(p);
            trimmed_chars(v.as_slice())
        },
        None => Vec::new(),
    };
    if wanted.len() == 0 {
        return (DeviceChoice::Default, false);
    }
    let ghost names = name_views(device_names@);
    assert(wanted@ == match preferred {
        Some(p) => trim(p@),
        None => Seq::<char>::empty(),
    });
    let mut i: usize = 0;
    while i < device_names.len()
        invariant
            i <= device_names@.len(),
            names == name_views(device_names@),
            wanted@ == match preferred {
                Some(p) => trim(p@),
                None => Seq::<char>::empty(),
            },
            wanted@.len() > 0,
            first_named(names, wanted@, 0) == first_named(names, wanted@, i as int),
        decreases device_names@.len() - i,
    {
        let candidate = chars_of(device_names[i].as_str());
        assert(names[i as int] == candidate@);
        if chars_equal(&candidate, &wanted) {
            assert(first_named(names, wanted@, i as int) == Some(i as int));
            return (DeviceChoice::Named(i), false);
        }
        i = i + 1;
    }
    (DeviceChoice::Default, true)
}

/// The devices offered to the user, each marked when its name is the
/// default input's name.
pub fn microphone_list(device_names: Vec<String>, default_name: Option<String>) -> (r: Vec<
    MicrophoneDevice,
>)
    ensures
        r@.len() == device_names@.len(),
        forall|i: int|
            0 <= i < r@.len() ==> (#[trigger] r@[i]).name@ == device_names@[i]@ && r@[i].is_default
                == (default_name matches Some(d) && d@ == device_names@[i]@),
{
    let default_chars = match &default_name {
        Some(d) => Some(chars_of(d.as_str())),
        None => None,
    };
    let mut r: Vec<MicrophoneDevice> = Vec::new();
    let mut i: usize = 0;
    while i < device_names.len()
        invariant
            i <= device_names@.len(),
            r@.len() == i,
            match default_chars {
                Some(d) => default_name matches Some(n) && d@ == n@,
                None => default_name is None,
            },
            forall|j: int|
                0 <= j < i ==> (#[trigger] r@[j]).name@ == device_names@[j]@ && r@[j].is_default
                    == (default_name matches Some(d) && d@ == device_names@[j]@),
        decreases device_names@.len() - i,
    {
        let name = device_names[i].clone();
        let chars = chars_of(name.as_str());
        let is_default = match &default_chars {
            Some(d) => chars_equal(d, &chars),
            None => false,
        };
        r.push(MicrophoneDevice { name, is_default });
        i = i + 1;
    }
    r
}

} // verus!
