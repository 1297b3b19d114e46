//! Structural signal-path algorithms: finiteness screening of IEEE-754
//! single-precision bit patterns, and sample-rate downsampling by index
//! selection.

use vstd::prelude::*;

use crate::MFCC_SIZE;

verus! {

/// A single-precision value is finite exactly when its exponent field is not
/// all ones (all-ones exponents encode infinities and NaNs).
pub open spec fn sample_is_finite(bits: u32) -> bool {
    bits & 0x7f80_0000 != 0x7f80_0000
}

/// Every bit pattern in the sequence encodes a finite value.
pub open spec fn all_finite(s: Seq<u32>) -> bool {
    forall|i: int| 0 <= i < s.len() ==> sample_is_finite(s[i])
}

/// Screens one sample's bit pattern for finiteness.
pub fn is_finite_sample(bits: u32) -> (r: bool)
    ensures
        r == sample_is_finite(bits),
{
    bits & 0x7f80_0000 != 0x7f80_0000
}

/// Screens a whole vector of bit patterns for finiteness.
pub fn all_samples_finite(v: &Vec<u32>) -> (r: bool)
    ensures
        r == all_finite(v@),
{
    let mut i: usize = 0;
    while i < v.len()
        invariant
            i <= v.len(),
            forall|j: int| 0 <= j < i ==> sample_is_finite(v@[j]),
        decreases v.len() - i,
    {
        if !is_finite_sample(v[i]) {
            return false;
        }
        i += 1;
    }
    true
}

/// Rounds the rational `p / q` to the nearest integer, ties to even.
pub open spec fn round_half_even(p: int, q: int) -> int
    recommends
        0 <= p,
        1 <= q,
{
    let d = p / q;
    let r = p % q;
    if 2 * r < q {
        d
    } else if 2 * r > q {
        d + 1
    } else if d % 2 == 0 {
        d
    } else {
        d + 1
    }
}

/// Keeps every `skip`-th sample, starting at index 0.
pub open spec fn decimate(input: Seq<u32>, skip: int) -> Seq<u32>
    recommends
        1 <= skip,
{
    Seq::new((input.len() as int / skip) as nat, |i: int| input[i * skip])
}

/// Resampling at a fractional ratio picks, for each output position `j`, the
/// source sample at the floor of the exact fractional index `j * sr / tr`;
/// the output length is `len * tr / sr` rounded half to even. Linear
/// interpolation whose two endpoints both sit at the floored index reduces
/// to exactly this selection, computed here in integer arithmetic.
pub open spec fn fractional_pick(input: Seq<u32>, sr: int, tr: int) -> Seq<u32>
    recommends
        1 <= tr < sr,
{
    Seq::new(
        round_half_even(input.len() as int * tr, sr) as nat,
        |j: int| input[j * sr / tr],
    )
}

/// The downsampled sequence: unchanged when the input rate does not exceed
/// the target (no upsampling), plain decimation at an exact integer ratio,
/// and fractional-index selection otherwise.
pub open spec fn downsample_spec(input: Seq<u32>, sample_rate: u32, target_sample_rate: u32) -> Seq<
    u32,
>
    recommends
        1 <= target_sample_rate,
{
    if sample_rate <= target_sample_rate {
        input
    } else if sample_rate % target_sample_rate == 0 {
        decimate(input, sample_rate as int / target_sample_rate as int)
    } else {
        fractional_pick(input, sample_rate as int, target_sample_rate as int)
    }
}

/// The fractional output length never exceeds the input length.
proof fn lemma_fractional_len_bound(len: int, sr: int, tr: int)
    requires
        1 <= tr < sr,
        0 <= len,
    ensures
        0 <= round_half_even(len * tr, sr) <= len,
{
    let p = len * tr;
    let q = sr;
    assert(0 <= p) by (nonlinear_arith)
        requires
            0 <= len,
            1 <= tr,
            p == len * tr,
    ;
    if len == 0 {
        assert(p == 0) by (nonlinear_arith)
            requires
                len == 0,
                p == len * tr,
        ;
    } else {
        assert(p < len * q) by (nonlinear_arith)
            requires
                1 <= len,
                tr < q,
                p == len * tr,
        ;
        assert(p / q < len) by (nonlinear_arith)
            requires
                p < len * q,
                1 <= q,
                0 <= p,
        ;
    }
}

/// Every fractional source index selected for a valid output position lies
/// inside the input.
proof fn lemma_fractional_index_in_range(len: int, sr: int, tr: int, j: int)
    requires
        1 <= tr < sr,
        0 <= len,
        0 <= j < round_half_even(len * tr, sr),
    ensures
        0 <= j * sr / tr < len,
{
    let p = len * tr;
    let q = sr;
    let d = p / q;
    let r = p % q;
    assert(0 <= p) by (nonlinear_arith)
        requires
            0 <= len,
            1 <= tr,
            p == len * tr,
    ;
    assert(p == q * d + r && 0 <= r < q) by (nonlinear_arith)
        requires
            0 <= p,
            1 <= q,
            d == p / q,
            r == p % q,
    ;
    if 2 * r < q {
        assert(j * q < p) by (nonlinear_arith)
            requires
                j < d,
                p == q * d + r,
                0 <= r,
                1 <= q,
        ;
    } else {
        assert(j * q < p) by (nonlinear_arith)
            requires
                j <= d,
                p == q * d + r,
                2 * r >= q,
                2 <= q,
        ;
    }
    assert(j * sr / tr < len) by (nonlinear_arith)
        requires
            j * sr < len * tr,
            1 <= tr,
            0 <= j,
            1 <= sr,
    ;
    assert(0 <= j * sr / tr) by (nonlinear_arith)
        requires
            0 <= j,
            1 <= sr,
            1 <= tr,
    ;
}

/// Reduces the sample rate of `input` (bit patterns of single-precision
/// samples) from `sample_rate` to `target_sample_rate` into `out`, replacing
/// its previous contents. No upsampling takes place: at or below the target
/// rate the data passes through unchanged.
pub fn downsample(
    input: &Vec<u32>,
    sample_rate: u32,
    target_sample_rate: u32,
    out: &mut Vec<u32>,
)
    requires
        1 <= target_sample_rate,
    ensures
        final(out)@ == downsample_spec(input@, sample_rate, target_sample_rate),
{
    out.clear();
    if sample_rate <= target_sample_rate {
        let mut i: usize = 0;
        while i < input.len()
            invariant
                i <= input.len(),
                out@ == input@.take(i as int),
            decreases input.len() - i,
        {
            out.push(input[i]);
            proof {
                assert(out@ =~= input@.take(i as int + 1));
            }
            i += 1;
        }
        proof {
            assert(out@ =~= input@);
        }
        return ;
    }
    if sample_rate % target_sample_rate == 0 {
        proof {
            assert(sample_rate as int / target_sample_rate as int >= 1) by (nonlinear_arith)
                requires
                    1 <= target_sample_rate as int,
                    target_sample_rate as int <= sample_rate as int,
            ;
        }
        let skip: usize = (sample_rate / target_sample_rate) as usize;
        let out_len: usize = input.len() / skip;
        let ghost sk = skip as int;
        let mut i: usize = 0;
        while i < out_len
            invariant
                i <= out_len,
                input@.len() <= usize::MAX,
                out_len == input@.len() as int / sk,
                sk == skip as int,
                1 <= sk,
                out@.len() == i,
                forall|k: int| 0 <= k < i ==> out@[k] == input@[k * sk],
            decreases out_len - i,
        {
            proof {
                assert((i as int) * sk + sk <= sk * (input@.len() as int / sk)) by (nonlinear_arith)
                    requires
                        (i as int) < input@.len() as int / sk,
                        1 <= sk,
                ;
                assert(sk * (input@.len() as int / sk) <= input@.len() as int) by (nonlinear_arith)
                    requires
                        1 <= sk,
                        0 <= input@.len() as int,
                ;
            }
            out.push(input[i * skip]);
            i += 1;
        }
        proof {
            assert(out@ =~= decimate(input@, sk));
        }
        return ;
    }
    let len = input.len();
    proof {
        assert((len as int) * (target_sample_rate as int) < 0x1000000000000000000000000)
            by (nonlinear_arith)
            requires
                0 <= (len as int) && (len as int) < 0x10000000000000000,
                0 <= (target_sample_rate as int) && (target_sample_rate as int) < 0x100000000,
        ;
    }
    let p: u128 = (len as u128) * (target_sample_rate as u128);
    let q: u128 = sample_rate as u128;
    let d: u128 = p / q;
    let r: u128 = p % q;
    let out_len_wide: u128 = if 2 * r < q {
        d
    } else if 2 * r > q {
        d + 1
    } else if d % 2 == 0 {
        d
    } else {
        d + 1
    };
    proof {
        lemma_fractional_len_bound(len as int, sample_rate as int, target_sample_rate as int);
        assert(out_len_wide as int == round_half_even(
            len as int * target_sample_rate as int,
            sample_rate as int,
        ));
    }
    let out_len: usize = out_len_wide as usize;
    let ghost sri = sample_rate as int;
    let ghost tri = target_sample_rate as int;
    let mut j: usize = 0;
    while j < out_len
        invariant
            j <= out_len,
            out_len as int == round_half_even(len as int * tri, sri),
            len == input@.len(),
            sri == sample_rate as int,
            tri == target_sample_rate as int,
            1 <= tri < sri,
            out@.len() == j,
            forall|k: int| 0 <= k < j ==> out@[k] == input@[k * sri / tri],
        decreases out_len - j,
    {
        proof {
            lemma_fractional_index_in_range(len as int, sri, tri, j as int);
            assert((j as int) * (sample_rate as int) < 0x1000000000000000000000000)
                by (nonlinear_arith)
                requires
                    0 <= (j as int) && (j as int) < 0x10000000000000000,
                    0 <= (sample_rate as int) && (sample_rate as int) < 0x100000000,
            ;
        }
        let idx_wide: u128 = (j as u128) * (sample_rate as u128) / (target_sample_rate as u128);
        let idx: usize = idx_wide as usize;
        out.push(input[idx]);
        j += 1;
    }
    proof {
        assert(out@ =~= fractional_pick(input@, sri, tri));
    }
}

/// Law: with the input rate at or below the target rate, downsampling
/// returns the input exactly.
pub proof fn lemma_downsample_identity(input: Seq<u32>, sample_rate: u32, target_sample_rate: u32)
    requires
        sample_rate <= target_sample_rate,
    ensures
        downsample_spec(input, sample_rate, target_sample_rate) == input,
{
}

/// Law: at an input rate of exactly twice the target rate, the output keeps
/// every second sample — it has `floor(len / 2)` entries and entry `i` is
/// `input[2 * i]`.
pub proof fn lemma_downsample_halving(input: Seq<u32>, sample_rate: u32, target_sample_rate: u32)
    requires
        1 <= target_sample_rate,
        sample_rate == 2 * target_sample_rate,
    ensures
        downsample_spec(input, sample_rate, target_sample_rate).len() == input.len() as int / 2,
        forall|i: int|
            0 <= i < input.len() as int / 2 ==> downsample_spec(
                input,
                sample_rate,
                target_sample_rate,
            )[i] == input[2 * i],
{
    let tri = target_sample_rate as int;
    assert(sample_rate as int % tri == 0 && sample_rate as int / tri == 2) by (nonlinear_arith)
        requires
            1 <= tri,
            sample_rate as int == 2 * tri,
    ;
    assert(forall|i: int|
        0 <= i < input.len() as int / 2 ==> #[trigger] input[i * 2] == input[2 * i]);
}

/// Length of the windowed-sinc low-pass kernel for a given input rate and
/// transition width: `31 * rate / (10 * range)` — the exact rational form of
/// `3.1 / (range / rate)` — rounded half to even, then forced odd.
pub open spec fn kernel_len_spec(sample_rate: u32, transition_range: u32) -> int
    recommends
        1 <= transition_range,
{
    let n = round_half_even(31 * sample_rate as int, 10 * transition_range as int);
    if n % 2 == 0 {
        n + 1
    } else {
        n
    }
}

/// Computes the low-pass kernel length; the result is always odd, so the
/// kernel has a well-defined center tap.
pub fn low_pass_kernel_len(sample_rate: u32, transition_range: u32) -> (n: u64)
    requires
        1 <= transition_range,
    ensures
        n as int == kernel_len_spec(sample_rate, transition_range),
        n % 2 == 1,
{
    let p: u64 = 31 * (sample_rate as u64);
    let q: u64 = 10 * (transition_range as u64);
    let d: u64 = p / q;
    let r: u64 = p % q;
    let rounded: u64 = if 2 * r < q {
        d
    } else if 2 * r > q {
        d + 1
    } else if d % 2 == 0 {
        d
    } else {
        d + 1
    };
    if rounded % 2 == 0 {
        rounded + 1
    } else {
        rounded
    }
}

/// Splits `audio` into consecutive full frames of `frame_size` samples;
/// a trailing remainder shorter than one frame is discarded, never padded,
/// and audio shorter than one frame yields no frames at all.
pub fn split_frames(audio: &Vec<u32>, frame_size: usize) -> (frames: Vec<Vec<u32>>)
    requires
        1 <= frame_size,
    ensures
        frames@.len() == audio@.len() as int / frame_size as int,
        forall|k: int|
            0 <= k < frames@.len() ==> frames@[k]@ == audio@.subrange(
                k * frame_size as int,
                k * frame_size as int + frame_size as int,
            ),
{
    let count: usize = audio.len() / frame_size;
    let mut frames: Vec<Vec<u32>> = Vec::new();
    let mut k: usize = 0;
    while k < count
        invariant
            k <= count,
            audio@.len() <= usize::MAX,
            count == audio@.len() as int / frame_size as int,
            1 <= frame_size,
            frames@.len() == k,
            forall|t: int|
                0 <= t < k ==> frames@[t]@ == audio@.subrange(
                    t * frame_size as int,
                    t * frame_size as int + frame_size as int,
                ),
        decreases count - k,
    {
        proof {
            assert((k as int) * (frame_size as int) + frame_size as int <= (frame_size as int) * (
            audio@.len() as int / frame_size as int)) by (nonlinear_arith)
                requires
                    (k as int) < audio@.len() as int / frame_size as int,
                    1 <= frame_size as int,
            ;
            assert((frame_size as int) * (audio@.len() as int / frame_size as int)
                <= audio@.len() as int) by (nonlinear_arith)
                requires
                    1 <= frame_size as int,
                    0 <= audio@.len() as int,
            ;
        }
        let base: usize = k * frame_size;
        let mut chunk: Vec<u32> = Vec::new();
        let mut t: usize = 0;
        while t < frame_size
            invariant
                t <= frame_size,
                audio@.len() <= usize::MAX,
                base as int + frame_size as int <= audio@.len(),
                chunk@.len() == t,
                forall|u: int| 0 <= u < t ==> chunk@[u] == audio@[base as int + u],
            decreases frame_size - t,
        {
            chunk.push(audio[base + t]);
            t += 1;
        }
        proof {
            assert(chunk@ =~= audio@.subrange(
                k as int * frame_size as int,
                k as int * frame_size as int + frame_size as int,
            ));
        }
        frames.push(chunk);
        k += 1;
    }
    frames
}

/// The feature vector exposed from a cepstrum: the zeroth coefficient is
/// dropped and at most `MFCC_SIZE` of the following coefficients are kept.
pub open spec fn selected_coefficients(cepstrum: Seq<u32>) -> Seq<u32> {
    if cepstrum.len() == 0 {
        Seq::empty()
    } else if cepstrum.len() as int - 1 <= MFCC_SIZE as int {
        cepstrum.subrange(1, cepstrum.len() as int)
    } else {
        cepstrum.subrange(1, 1 + MFCC_SIZE as int)
    }
}

/// Selects the exposed cepstral coefficients from a full cepstrum.
pub fn select_coefficients(cepstrum: &Vec<u32>) -> (out: Vec<u32>)
    ensures
        out@ == selected_coefficients(cepstrum@),
{
    let mut out: Vec<u32> = Vec::new();
    if cepstrum.len() == 0 {
        proof {
            assert(out@ =~= selected_coefficients(cepstrum@));
        }
        return out;
    }
    let end: usize = if cepstrum.len() - 1 <= MFCC_SIZE {
        cepstrum.len()
    } else {
        1 + MFCC_SIZE
    };
    let mut i: usize = 1;
    while i < end
        invariant
            1 <= i <= end,
            end <= cepstrum@.len(),
            out@.len() == i - 1,
            forall|u: int| 0 <= u < i - 1 ==> out@[u] == cepstrum@[u + 1],
        decreases end - i,
    {
        out.push(cepstrum[i]);
        i += 1;
    }
    proof {
        assert(out@ =~= selected_coefficients(cepstrum@));
    }
    out
}

} // verus!
