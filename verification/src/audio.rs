//! G.711 mu-law coding of PCM16 samples, and PCM16 samples as little-endian bytes.

use vstd::prelude::*;

verus! {

/// What is added to a magnitude before it is coded.
pub const MULAW_BIAS: i32 = 132;

/// The largest magnitude that is coded; larger ones are clipped to it.
pub const MULAW_CLIP: i32 = 32635;

// ── The code ──

pub open spec fn abs(x: int) -> int {
    if x < 0 {
        -x
    } else {
        x
    }
}

/// The clipped and biased magnitude of a sample.
pub open spec fn biased(sample: int) -> int {
    (if abs(sample) > MULAW_CLIP {
        MULAW_CLIP as int
    } else {
        abs(sample)
    }) + MULAW_BIAS
}

/// The segment of a biased magnitude: each is twice as wide as the one before.
pub open spec fn segment(v: int) -> int {
    if v < 256 {
        0
    } else if v < 512 {
        1
    } else if v < 1024 {
        2
    } else if v < 2048 {
        3
    } else if v < 4096 {
        4
    } else if v < 8192 {
        5
    } else if v < 16384 {
        6
    } else {
        7
    }
}

/// The step of a biased magnitude within its segment, one of sixteen.
pub open spec fn mantissa(v: int) -> int {
    if v < 256 {
        (v / 8) % 16
    } else if v < 512 {
        (v / 16) % 16
    } else if v < 1024 {
        (v / 32) % 16
    } else if v < 2048 {
        (v / 64) % 16
    } else if v < 4096 {
        (v / 128) % 16
    } else if v < 8192 {
        (v / 256) % 16
    } else if v < 16384 {
        (v / 512) % 16
    } else {
        (v / 1024) % 16
    }
}

/// The biased magnitude in the middle of a step.
pub open spec fn middle(segment: int, mantissa: int) -> int {
    let m = 2 * mantissa + 33;
    if segment == 0 {
        m * 4
    } else if segment == 1 {
        m * 8
    } else if segment == 2 {
        m * 16
    } else if segment == 3 {
        m * 32
    } else if segment == 4 {
        m * 64
    } else if segment == 5 {
        m * 128
    } else if segment == 6 {
        m * 256
    } else {
        m * 512
    }
}

/// The mu-law code of a sample: sign, segment and step within it, complemented.
pub open spec fn mulaw_of(sample: i16) -> u8 {
    let v = biased(sample as int);
    (255 - ((if sample < 0 {
        128int
    } else {
        0
    }) + 16 * segment(v) + mantissa(v))) as u8
}

/// The sample that a mu-law code stands for: the middle of its step.
pub open spec fn sample_of(code: u8) -> i16 {
    let mu = 255 - code;
    let magnitude = middle((mu / 16) % 8, mu % 16) - MULAW_BIAS;
    (if mu >= 128 {
        -magnitude
    } else {
        magnitude
    }) as i16
}

/// Each sample coded.
pub open spec fn mulaw_seq(pcm: Seq<i16>) -> Seq<u8> {
    Seq::new(pcm.len(), |i: int| mulaw_of(pcm[i]))
}

/// Each code decoded.
pub open spec fn sample_seq(codes: Seq<u8>) -> Seq<i16> {
    Seq::new(codes.len(), |i: int| sample_of(codes[i]))
}

// ── Samples as bytes ──

/// The low and the high byte of a sample.
pub open spec fn sample_bytes(sample: i16) -> (u8, u8) {
    let bits = if sample < 0 {
        sample + 65536
    } else {
        sample as int
    };
    ((bits % 256) as u8, (bits / 256) as u8)
}

/// The sample with this low and high byte.
pub open spec fn bytes_sample(low: u8, high: u8) -> i16 {
    let bits = low + 256 * high;
    (if bits >= 32768 {
        bits - 65536
    } else {
        bits
    }) as i16
}

/// Each sample as two bytes, the low one first.
pub open spec fn pcm_bytes(pcm: Seq<i16>) -> Seq<u8> {
    Seq::new(
        2 * pcm.len(),
        |i: int|
            if i % 2 == 0 {
                sample_bytes(pcm[i / 2]).0
            } else {
                sample_bytes(pcm[i / 2]).1
            },
    )
}

/// The samples that pairs of bytes hold; a single byte at the end holds none.
pub open spec fn bytes_pcm(bytes: Seq<u8>) -> Seq<i16> {
    Seq::new(bytes.len() / 2, |i: int| bytes_sample(bytes[2 * i], bytes[2 * i + 1]))
}

// ── Laws ──

/// What coding and decoding costs a sample is at most a thirty-second part of its
/// magnitude and the bias.
pub proof fn law_mulaw_error(sample: i16)
    ensures
        32 * abs(sample_of(mulaw_of(sample)) - sample) <= abs(sample as int) + MULAW_BIAS,
{
    lemma_round_trip(sample);
    lemma_step(biased(sample as int));
}

/// A sample below 256 loses at most 4, save where it lies near the edge of one of the
/// steps of width 16 that begin at 124.
pub proof fn law_mulaw_small_error(sample: i16)
    requires
        abs(sample as int) < 256,
        abs(sample as int) >= 124 ==> 4 <= (abs(sample as int) + MULAW_BIAS) % 16 <= 12,
    ensures
        abs(sample_of(mulaw_of(sample)) - sample) <= 4,
{
    lemma_round_trip(sample);
}

/// A sample of at least 256 loses less than four percent, save where its magnitude is
/// 380.
pub proof fn law_mulaw_relative_error(sample: i16)
    requires
        abs(sample as int) >= 256,
        abs(sample as int) != 380,
    ensures
        25 * abs(sample_of(mulaw_of(sample)) - sample) < abs(sample as int),
{
    lemma_round_trip(sample);
    lemma_step(biased(sample as int));
}

/// Coding keeps the sign, and treats both signs alike.
pub proof fn law_mulaw_sign(sample: i16)
    requires
        sample > i16::MIN,
    ensures
        sample > 0 ==> sample_of(mulaw_of(sample)) >= 0,
        sample < 0 ==> sample_of(mulaw_of(sample)) <= 0,
        sample_of(mulaw_of((-sample) as i16)) == -sample_of(mulaw_of(sample)),
{
    lemma_round_trip(sample);
    lemma_round_trip((-sample) as i16);
}

/// Silence is coded as 0xFF, and decodes to silence.
pub proof fn law_mulaw_silence()
    ensures
        mulaw_of(0) == 0xFF,
        sample_of(0xFF) == 0,
{
}

/// Every code but 0x7F, the negative zero, survives decoding and coding.
pub proof fn law_mulaw_codes(code: u8)
    requires
        code != 0x7F,
    ensures
        mulaw_of(sample_of(code)) == code,
{
    let mu = 255 - code;
    let e = (mu / 16) % 8;
    let m = mu % 16;
    lemma_middle(e, m);
    let sample = sample_of(code);
    assert(132 <= middle(e, m) <= 32256);
    assert(biased(sample as int) == middle(e, m));
    assert(mu == (if mu >= 128 {
        128int
    } else {
        0
    }) + 16 * e + m);
}

/// Samples survive being written as bytes and read back.
pub proof fn law_pcm_bytes(pcm: Seq<i16>)
    ensures
        pcm_bytes(pcm).len() == 2 * pcm.len(),
        bytes_pcm(pcm_bytes(pcm)) == pcm,
{
    let bytes = pcm_bytes(pcm);
    assert forall|i: int| 0 <= i < pcm.len() implies bytes_pcm(bytes)[i] == pcm[i] by {
        assert((2 * i) % 2 == 0 && (2 * i) / 2 == i);
        assert((2 * i + 1) % 2 == 1 && (2 * i + 1) / 2 == i);
    }
    assert(bytes_pcm(bytes) =~= pcm);
}

/// Bytes survive being read as samples and written back, up to a single last byte.
pub proof fn law_bytes_pcm(bytes: Seq<u8>)
    ensures
        pcm_bytes(bytes_pcm(bytes)) == bytes.take(2 * (bytes.len() as int / 2)),
{
    let pcm = bytes_pcm(bytes);
    assert forall|i: int| 0 <= i < 2 * pcm.len() implies pcm_bytes(pcm)[i] == bytes[i] by {
        let k = i / 2;
        assert(i == 2 * k || i == 2 * k + 1);
        let low = bytes[2 * k];
        let high = bytes[2 * k + 1];
        assert(pcm[k] == bytes_sample(low, high));
        assert(sample_bytes(bytes_sample(low, high)) == (low, high));
    }
    assert(pcm_bytes(pcm) =~= bytes.take(2 * (bytes.len() as int / 2)));
}

/// How far the middle of a step is from the magnitudes in it.
proof fn lemma_step(v: int)
    requires
        132 <= v < 32768,
    ensures
        32 * abs(middle(segment(v), mantissa(v)) - v) <= v,
        256 <= v < 512 ==> abs(middle(segment(v), mantissa(v)) - v) <= 8,
        512 <= v < 1024 ==> middle(segment(v), mantissa(v)) == (v / 32) * 32 + 16,
        v == 32767 ==> middle(segment(v), mantissa(v)) == 32256,
{
    if v < 256 {
        assert(mantissa(v) == v / 8 - 16);
    } else if v < 512 {
        assert(mantissa(v) == v / 16 - 16);
    } else if v < 1024 {
        assert(mantissa(v) == v / 32 - 16);
    } else if v < 2048 {
        assert(mantissa(v) == v / 64 - 16);
    } else if v < 4096 {
        assert(mantissa(v) == v / 128 - 16);
    } else if v < 8192 {
        assert(mantissa(v) == v / 256 - 16);
    } else if v < 16384 {
        assert(mantissa(v) == v / 512 - 16);
    } else {
        assert(mantissa(v) == v / 1024 - 16);
    }
}

/// The middle of a step lies in that step.
proof fn lemma_middle(e: int, m: int)
    requires
        0 <= e < 8,
        0 <= m < 16,
    ensures
        132 <= middle(e, m) <= 32256,
        e > 0 || m > 0 ==> middle(e, m) > 132,
        segment(middle(e, m)) == e,
        mantissa(middle(e, m)) == m,
{
    let v = middle(e, m);
    if e == 0 {
        assert(v / 8 == 16 + m);
    } else if e == 1 {
        assert(v / 16 == 16 + m);
    } else if e == 2 {
        assert(v / 32 == 16 + m);
    } else if e == 3 {
        assert(v / 64 == 16 + m);
    } else if e == 4 {
        assert(v / 128 == 16 + m);
    } else if e == 5 {
        assert(v / 256 == 16 + m);
    } else if e == 6 {
        assert(v / 512 == 16 + m);
    } else {
        assert(v / 1024 == 16 + m);
    }
}

/// The sample that comes back is the middle of the step that the sample lies in.
proof fn lemma_round_trip(sample: i16)
    ensures
        ({
            let v = biased(sample as int);
            let magnitude = middle(segment(v), mantissa(v)) - MULAW_BIAS;
            sample_of(mulaw_of(sample)) == if sample < 0 {
                -magnitude
            } else {
                magnitude
            }
        }),
{
    let v = biased(sample as int);
    let e = segment(v);
    let m = mantissa(v);
    let sign: int = if sample < 0 {
        128
    } else {
        0
    };
    let mu = sign + 16 * e + m;
    assert(0 <= e < 8 && 0 <= m < 16);
    assert(mulaw_of(sample) == 255 - mu);
    assert((mu / 16) % 8 == e && mu % 16 == m);
}

// ── Coding ──

/// Codes one sample.
pub fn encode_sample(sample: i16) -> (res: u8)
    ensures
        res == mulaw_of(sample),
{
    let negative: bool = sample < 0;
    let mut v: i32 = if negative {
        -(sample as i32)
    } else {
        sample as i32
    };
    if v > MULAW_CLIP {
        v = MULAW_CLIP;
    }
    v = v + MULAW_BIAS;
    assert(v == biased(sample as int));
    let (e, m): (i32, i32) = if v < 256 {
        (0, (v / 8) % 16)
    } else if v < 512 {
        (1, (v / 16) % 16)
    } else if v < 1024 {
        (2, (v / 32) % 16)
    } else if v < 2048 {
        (3, (v / 64) % 16)
    } else if v < 4096 {
        (4, (v / 128) % 16)
    } else if v < 8192 {
        (5, (v / 256) % 16)
    } else if v < 16384 {
        (6, (v / 512) % 16)
    } else {
        (7, (v / 1024) % 16)
    };
    let sign: i32 = if negative {
        128
    } else {
        0
    };
    (255 - (sign + 16 * e + m)) as u8
}

/// Decodes one mu-law code.
pub fn decode_sample(code: u8) -> (res: i16)
    ensures
        res == sample_of(code),
{
    let mu: i32 = 255 - code as i32;
    let e: i32 = (mu / 16) % 8;
    let m: i32 = 2 * (mu % 16) + 33;
    let v: i32 = if e == 0 {
        m * 4
    } else if e == 1 {
        m * 8
    } else if e == 2 {
        m * 16
    } else if e == 3 {
        m * 32
    } else if e == 4 {
        m * 64
    } else if e == 5 {
        m * 128
    } else if e == 6 {
        m * 256
    } else {
        m * 512
    };
    let magnitude: i16 = (v - MULAW_BIAS) as i16;
    if mu >= 128 {
        -magnitude
    } else {
        magnitude
    }
}

/// Codes samples as mu-law.
pub fn pcm16_to_mulaw(pcm: &[i16]) -> (res: Vec<u8>)
    ensures
        res@ == mulaw_seq(pcm@),
{
    let mut out: Vec<u8> = Vec::new();
    pcm16_to_mulaw_into(pcm, &mut out);
    assert(out@ =~= mulaw_seq(pcm@));
    out
}

/// Codes samples as mu-law, appending to the output buffer.
pub fn pcm16_to_mulaw_into(pcm: &[i16], out: &mut Vec<u8>)
    ensures
        final(out)@ == old(out)@ + mulaw_seq(pcm@),
{
    let mut i: usize = 0;
    while i < pcm.len()
        invariant
            i <= pcm@.len(),
            out@ == old(out)@ + mulaw_seq(pcm@.take(i as int)),
        decreases pcm@.len() - i,
    {
        out.push(encode_sample(pcm[i]));
        assert(out@ =~= old(out)@ + mulaw_seq(pcm@.take(i + 1)));
        i += 1;
    }
    assert(pcm@.take(i as int) =~= pcm@);
}

/// Decodes mu-law codes to samples.
pub fn mulaw_to_pcm16(mulaw: &[u8]) -> (res: Vec<i16>)
    ensures
        res@ == sample_seq(mulaw@),
{
    let mut out: Vec<i16> = Vec::new();
    let mut i: usize = 0;
    while i < mulaw.len()
        invariant
            i <= mulaw@.len(),
            out@ == sample_seq(mulaw@.take(i as int)),
        decreases mulaw@.len() - i,
    {
        out.push(decode_sample(mulaw[i]));
        assert(out@ =~= sample_seq(mulaw@.take(i + 1)));
        i += 1;
    }
    assert(mulaw@.take(i as int) =~= mulaw@);
    out
}

/// Writes samples as little-endian bytes.
pub fn pcm16_to_bytes(pcm: &[i16]) -> (res: Vec<u8>)
    ensures
        res@ == pcm_bytes(pcm@),
{
    let mut out: Vec<u8> = Vec::new();
    pcm16_to_bytes_into(pcm, &mut out);
    assert(out@ =~= pcm_bytes(pcm@));
    out
}

/// Writes samples as little-endian bytes, appending to the output buffer.
pub fn pcm16_to_bytes_into(pcm: &[i16], out: &mut Vec<u8>)
    ensures
        final(out)@ == old(out)@ + pcm_bytes(pcm@),
{
    let mut i: usize = 0;
    while i < pcm.len()
        invariant
            i <= pcm@.len(),
            out@ == old(out)@ + pcm_bytes(pcm@.take(i as int)),
        decreases pcm@.len() - i,
    {
        let sample: i16 = pcm[i];
        let bits: i32 = if sample < 0 {
            sample as i32 + 65536
        } else {
            sample as i32
        };
        out.push((bits % 256) as u8);
        out.push((bits / 256) as u8);
        assert(out@ =~= old(out)@ + pcm_bytes(pcm@.take(i + 1))) by {
            assert((2 * i) % 2 == 0 && (2 * i) / 2 == i as int);
            assert((2 * i + 1) % 2 == 1 && (2 * i + 1) / 2 == i as int);
        }
        i += 1;
    }
    assert(pcm@.take(i as int) =~= pcm@);
}

/// Reads little-endian bytes as samples, leaving out a single last byte.
pub fn bytes_to_pcm16(bytes: &[u8]) -> (res: Vec<i16>)
    ensures
        res@ == bytes_pcm(bytes@),
{
    let mut out: Vec<i16> = Vec::new();
    let len: usize = bytes.len();
    let count: usize = len / 2;
    let mut i: usize = 0;
    while i < count
        invariant
            len == bytes@.len(),
            count == len / 2,
            i <= count,
            out@.len() == i,
            forall|j: int| 0 <= j < i ==> out@[j] == bytes_pcm(bytes@)[j],
        decreases count - i,
    {
        let low: u8 = bytes[2 * i];
        let high: u8 = bytes[2 * i + 1];
        let bits: i32 = low as i32 + 256 * (high as i32);
        let sample: i16 = if bits >= 32768 {
            (bits - 65536) as i16
        } else {
            bits as i16
        };
        out.push(sample);
        i += 1;
    }
    assert(out@ =~= bytes_pcm(bytes@));
    out
}

// ── More laws ──

/// A sample is written with its low byte first, and a negative one as if 65536 were added.
pub proof fn law_little_endian(pcm: Seq<i16>, i: int)
    requires
        0 <= i < pcm.len(),
    ensures
        pcm_bytes(pcm).len() == 2 * pcm.len(),
        pcm_bytes(pcm)[2 * i] + 256 * pcm_bytes(pcm)[2 * i + 1] == if pcm[i] < 0 {
            pcm[i] + 65536
        } else {
            pcm[i] as int
        },
{
    assert((2 * i) % 2 == 0 && (2 * i) / 2 == i);
    assert((2 * i + 1) % 2 == 1 && (2 * i + 1) / 2 == i);
}

/// The samples that the codes stand for: eight more for each step of the lowest segment,
/// twice as much with the bias of 132 for each further segment, and the opposite where the
/// highest bit of the code is clear. With the code of silence that gives all of them.
pub proof fn law_mulaw_steps(code: u8)
    ensures
        code >= 128 && code % 16 != 0 && code >= 240 ==> sample_of((code - 1) as u8) == sample_of(
            code,
        ) + 8,
        code >= 144 ==> sample_of((code - 16) as u8) + 132 == 2 * (sample_of(code) + 132),
        code >= 128 ==> sample_of((code - 128) as u8) == -sample_of(code),
{
    let mu = 255 - code;
    if code >= 144 {
        let next = mu + 16;
        assert(next % 16 == mu % 16);
        assert(next / 16 == mu / 16 + 1);
        assert((next / 16) % 8 == (mu / 16) % 8 + 1);
    }
    if code >= 128 {
        let other = mu + 128;
        assert(other % 16 == mu % 16);
        assert(other / 16 == mu / 16 + 8);
    }
}

/// Coding keeps the order of samples.
pub proof fn law_mulaw_order(a: i16, b: i16)
    requires
        a <= b,
    ensures
        sample_of(mulaw_of(a)) <= sample_of(mulaw_of(b)),
{
    let va = biased(a as int);
    let vb = biased(b as int);
    lemma_segment_range(va);
    lemma_segment_range(vb);
    if va <= vb {
        lemma_middle_order(va, vb);
    } else {
        lemma_middle_order(vb, va);
    }
    lemma_code_middle(a);
    lemma_code_middle(b);
}

proof fn lemma_segment_range(v: int)
    ensures
        0 <= segment(v) <= 7,
        0 <= mantissa(v) <= 15,
        132 <= middle(segment(v), mantissa(v)) <= 32256,
{
}

proof fn lemma_middle_order(v: int, w: int)
    requires
        132 <= v <= w <= 32767,
    ensures
        middle(segment(v), mantissa(v)) <= middle(segment(w), mantissa(w)),
{
    assert(segment(v) <= segment(w));
    if segment(v) == segment(w) {
        lemma_mantissa_order(v, w);
    }
}

/// Within a segment the steps rise with the magnitude.
#[verifier::spinoff_prover]
proof fn lemma_mantissa_order(v: int, w: int)
    requires
        132 <= v <= w <= 32767,
        segment(v) == segment(w),
    ensures
        mantissa(v) <= mantissa(w),
{
    if w < 256 {
        lemma_step_order(v / 8, w / 8);
    } else if w < 512 {
        lemma_step_order(v / 16, w / 16);
    } else if w < 1024 {
        lemma_step_order(v / 32, w / 32);
    } else if w < 2048 {
        lemma_step_order(v / 64, w / 64);
    } else if w < 4096 {
        lemma_step_order(v / 128, w / 128);
    } else if w < 8192 {
        lemma_step_order(v / 256, w / 256);
    } else if w < 16384 {
        lemma_step_order(v / 512, w / 512);
    } else {
        lemma_step_order(v / 1024, w / 1024);
    }
}

proof fn lemma_step_order(a: int, b: int)
    requires
        16 <= a <= b < 32,
    ensures
        a % 16 <= b % 16,
{
    assert(a % 16 == a - 16 && b % 16 == b - 16);
}

proof fn lemma_code_middle(sample: i16)
    ensures
        sample_of(mulaw_of(sample)) == if sample < 0 {
            132 - middle(segment(biased(sample as int)), mantissa(biased(sample as int)))
        } else {
            middle(segment(biased(sample as int)), mantissa(biased(sample as int))) - 132
        },
{
    let v = biased(sample as int);
    lemma_segment_range(v);
    let sign = if sample < 0 {
        128int
    } else {
        0
    };
    let mu = sign + 16 * segment(v) + mantissa(v);
    assert(255 - mulaw_of(sample) == mu);
    assert(mu % 16 == mantissa(v));
    assert((mu / 16) % 8 == segment(v));
}

} // verus!
