//! RIFF/WAVE files: finding the format and the samples.

use vstd::prelude::*;
use vstd::slice::slice_subrange;

use crate::text;

verus! {

/// The format that a WAV file declares.
#[derive(Debug, Clone, Copy, PartialEq, Eq, Structural)]
pub struct WavHeader {
    pub channels: u16,
    pub sample_rate: u32,
    pub bits_per_sample: u16,
}

/// Why a file is not accepted.
#[derive(Debug, Clone, Copy, PartialEq, Eq, Structural)]
pub enum WavError {
    TooShort,
    InvalidRiff,
    InvalidWave,
    MissingFmt,
    MissingData,
    UnsupportedFormat(u16),
    NotMono,
    Not8kHz(u32),
    Not16Bit(u16),
}

// ── The file format ──

/// The number in two bytes, the low one first.
pub open spec fn le16(bytes: Seq<u8>, i: int) -> u16 {
    (bytes[i] + 256 * bytes[i + 1]) as u16
}

/// The number in four bytes, the lowest one first.
pub open spec fn le32(bytes: Seq<u8>, i: int) -> u32 {
    (bytes[i] + 256 * bytes[i + 1] + 65536 * bytes[i + 2] + 16777216 * bytes[i + 3]) as u32
}

pub open spec fn riff_tag() -> Seq<u8> {
    seq![82u8, 73u8, 70u8, 70u8]
}

pub open spec fn wave_tag() -> Seq<u8> {
    seq![87u8, 65u8, 86u8, 69u8]
}

pub open spec fn fmt_tag() -> Seq<u8> {
    seq![102u8, 109u8, 116u8, 32u8]
}

pub open spec fn data_tag() -> Seq<u8> {
    seq![100u8, 97u8, 116u8, 97u8]
}

/// What the chunks of a file have given: the format and where the samples lie.
pub struct Chunks {
    pub header: Option<WavHeader>,
    pub data: Option<(int, int)>,
}

/// The format that a `fmt ` chunk declares whose content begins at `start`.
pub open spec fn fmt_chunk(bytes: Seq<u8>, start: int, size: int) -> Result<WavHeader, WavError> {
    if size < 16 || start + 16 > bytes.len() {
        Err(WavError::TooShort)
    } else if le16(bytes, start) != 1 {
        Err(WavError::UnsupportedFormat(le16(bytes, start)))
    } else {
        Ok(
            WavHeader {
                channels: le16(bytes, start + 2),
                sample_rate: le32(bytes, start + 4),
                bits_per_sample: le16(bytes, start + 14),
            },
        )
    }
}

/// Where the chunk ends that begins at `pos`: chunks begin at even positions.
pub open spec fn next_chunk(bytes: Seq<u8>, pos: int) -> int {
    let end = pos + 8 + le32(bytes, pos + 4);
    if end % 2 != 0 {
        end + 1
    } else {
        end
    }
}

/// What the chunks from `pos` on give: the last of each kind counts, one that is cut
/// off at the end of the file reaches up to it, and those of other kinds are passed
/// over.
#[verifier::opaque]
pub open spec fn walk(bytes: Seq<u8>, pos: int, found: Chunks) -> Result<Chunks, WavError>
    decreases
        (if pos < bytes.len() {
            bytes.len() - pos
        } else {
            0
        }),
{
    if pos < 0 || pos + 8 > bytes.len() {
        Ok(found)
    } else {
        let start = pos + 8;
        let size = le32(bytes, pos + 4) as int;
        let next = next_chunk(bytes, pos);
        if text::occurs_at(bytes, fmt_tag(), pos) {
            match fmt_chunk(bytes, start, size) {
                Ok(header) => walk(bytes, next, Chunks { header: Some(header), ..found }),
                Err(e) => Err(e),
            }
        } else if text::occurs_at(bytes, data_tag(), pos) {
            let end = if start + size < bytes.len() {
                start + size
            } else {
                bytes.len() as int
            };
            walk(bytes, next, Chunks { data: Some((start, end)), ..found })
        } else {
            walk(bytes, next, found)
        }
    }
}

/// The format and the samples of a file, or why it is not accepted.
pub open spec fn wav_spec(bytes: Seq<u8>) -> Result<(WavHeader, Seq<u8>), WavError> {
    if bytes.len() < 12 {
        Err(WavError::TooShort)
    } else if !text::occurs_at(bytes, riff_tag(), 0) {
        Err(WavError::InvalidRiff)
    } else if !text::occurs_at(bytes, wave_tag(), 8) {
        Err(WavError::InvalidWave)
    } else {
        match walk(bytes, 12, Chunks { header: None, data: None }) {
            Err(e) => Err(e),
            Ok(found) => match found.header {
                None => Err(WavError::MissingFmt),
                Some(header) => match found.data {
                    None => Err(WavError::MissingData),
                    Some((start, end)) => Ok((header, bytes.subrange(start, end))),
                },
            },
        }
    }
}

/// The check that a file is mono, 8 kHz and 16 bit.
pub open spec fn phone_format(header: WavHeader) -> Result<(), WavError> {
    if header.channels != 1 {
        Err(WavError::NotMono)
    } else if header.sample_rate != 8000 {
        Err(WavError::Not8kHz(header.sample_rate))
    } else if header.bits_per_sample != 16 {
        Err(WavError::Not16Bit(header.bits_per_sample))
    } else {
        Ok(())
    }
}

/// The text of an error.
pub open spec fn wav_error_text(e: WavError) -> Seq<char> {
    match e {
        WavError::TooShort => "WAV file too short"@,
        WavError::InvalidRiff => "not a RIFF file"@,
        WavError::InvalidWave => "not a WAVE file"@,
        WavError::MissingFmt => "missing fmt chunk"@,
        WavError::MissingData => "missing data chunk"@,
        WavError::UnsupportedFormat(tag) => "unsupported audio format: "@ + text::decimal(
            tag as nat,
        ) + " (expected PCM/1)"@,
        WavError::NotMono => "only mono audio supported"@,
        WavError::Not8kHz(rate) => "unsupported sample rate: "@ + text::decimal(rate as nat)
            + "Hz (expected 8000)"@,
        WavError::Not16Bit(bits) => "unsupported bit depth: "@ + text::decimal(bits as nat)
            + " (expected 16)"@,
    }
}

// ── Code ──

impl WavError {
    /// A description of the error.
    pub fn message(&self) -> (res: String)
        ensures
            res@ == wav_error_text(*self),
    {
        let mut out: String = String::new();
        match *self {
            WavError::TooShort => out.append("WAV file too short"),
            WavError::InvalidRiff => out.append("not a RIFF file"),
            WavError::InvalidWave => out.append("not a WAVE file"),
            WavError::MissingFmt => out.append("missing fmt chunk"),
            WavError::MissingData => out.append("missing data chunk"),
            WavError::UnsupportedFormat(tag) => {
                out.append("unsupported audio format: ");
                text::push_decimal(&mut out, tag as u64);
                out.append(" (expected PCM/1)");
            },
            WavError::NotMono => out.append("only mono audio supported"),
            WavError::Not8kHz(rate) => {
                out.append("unsupported sample rate: ");
                text::push_decimal(&mut out, rate as u64);
                out.append("Hz (expected 8000)");
            },
            WavError::Not16Bit(bits) => {
                out.append("unsupported bit depth: ");
                text::push_decimal(&mut out, bits as u64);
                out.append(" (expected 16)");
            },
        }
        assert(out@ =~= wav_error_text(*self));
        out
    }
}

fn read_le16(bytes: &[u8], i: usize) -> (res: u16)
    requires
        i + 2 <= bytes@.len(),
    ensures
        res == le16(bytes@, i as int),
{
    let n: usize = bytes.len();
    (bytes[i] as u32 + 256 * (bytes[i + 1] as u32)) as u16
}

fn read_le32(bytes: &[u8], i: usize) -> (res: u32)
    requires
        i + 4 <= bytes@.len(),
    ensures
        res == le32(bytes@, i as int),
{
    let n: usize = bytes.len();
    bytes[i] as u32 + 256 * (bytes[i + 1] as u32) + 65536 * (bytes[i + 2] as u32) + 16777216 * (
    bytes[i + 3] as u32)
}

/// Whether the four given bytes stand at position `i`.
fn tag_at(bytes: &[u8], i: usize, a: u8, b: u8, c: u8, d: u8) -> (res: bool)
    requires
        i + 4 <= bytes@.len(),
    ensures
        res == text::occurs_at(bytes@, seq![a, b, c, d], i as int),
{
    let n: usize = bytes.len();
    let res: bool = bytes[i] == a && bytes[i + 1] == b && bytes[i + 2] == c && bytes[i + 3] == d;
    proof {
        let w = bytes@.subrange(i as int, i + 4);
        assert(w[0] == bytes@[i as int] && w[1] == bytes@[i + 1] && w[2] == bytes@[i + 2] && w[3]
            == bytes@[i + 3]);
        if res {
            assert(w =~= seq![a, b, c, d]);
        } else {
            let t = seq![a, b, c, d];
            assert(t[0] == a && t[1] == b && t[2] == c && t[3] == d);
        }
    }
    res
}

/// Parses a WAV file into its format and its sample bytes.
pub fn parse_wav(bytes: &[u8]) -> (res: Result<(WavHeader, &[u8]), WavError>)
    ensures
        match res {
            Ok((header, data)) => wav_spec(bytes@) == Ok::<(WavHeader, Seq<u8>), WavError>(
                (header, data@),
            ),
            Err(e) => wav_spec(bytes@) == Err::<(WavHeader, Seq<u8>), WavError>(e),
        },
{
    let len: usize = bytes.len();
    if len < 12 {
        return Err(WavError::TooShort);
    }
    if !tag_at(bytes, 0, 82, 73, 70, 70) {
        return Err(WavError::InvalidRiff);
    }
    if !tag_at(bytes, 8, 87, 65, 86, 69) {
        return Err(WavError::InvalidWave);
    }
    proof {
        reveal(walk);
    }
    let mut header: Option<WavHeader> = None;
    let mut data: Option<(usize, usize)> = None;
    let mut pos: usize = 12;
    let mut more: bool = true;
    let ghost mut at: int = 12;
    let ghost all = walk(bytes@, 12, Chunks { header: None, data: None });
    while more && len - pos >= 8
        invariant
            len == bytes@.len(),
            len >= 12,
            text::occurs_at(bytes@, riff_tag(), 0),
            text::occurs_at(bytes@, wave_tag(), 8),
            all == walk(bytes@, 12, Chunks { header: None, data: None }),
            pos <= len,
            more ==> at == pos,
            !more ==> at + 8 > len && at >= 0,
            data matches Some(d) ==> d.0 <= d.1 && d.1 <= len,
            all == walk(
                bytes@,
                at,
                Chunks {
                    header,
                    data: match data {
                        Some((s, e)) => Some((s as int, e as int)),
                        None => None,
                    },
                },
            ),
        decreases len - pos + (if more {
            1int
        } else {
            0int
        }),
    {
        proof {
            reveal(walk);
        }
        let size: u32 = read_le32(bytes, pos + 4);
        let start: usize = pos + 8;
        let left: usize = len - start;
        let fits: bool = size as u64 <= left as u64;
        if tag_at(bytes, pos, 102, 109, 116, 32) {
            if size < 16 || left < 16 {
                return Err(WavError::TooShort);
            }
            let format: u16 = read_le16(bytes, start);
            if format != 1 {
                return Err(WavError::UnsupportedFormat(format));
            }
            header = Some(
                WavHeader {
                    channels: read_le16(bytes, start + 2),
                    sample_rate: read_le32(bytes, start + 4),
                    bits_per_sample: read_le16(bytes, start + 14),
                },
            );
        } else if tag_at(bytes, pos, 100, 97, 116, 97) {
            let end: usize = if fits {
                start + size as usize
            } else {
                len
            };
            data = Some((start, end));
        }
        proof {
            at = next_chunk(bytes@, pos as int);
        }
        more = false;
        if fits {
            let end: usize = start + size as usize;
            if end % 2 == 0 {
                pos = end;
                more = true;
            } else if end < len {
                pos = end + 1;
                more = true;
            }
        }
    }
    let header: WavHeader = match header {
        Some(h) => h,
        None => {
            return Err(WavError::MissingFmt);
        },
    };
    match data {
        Some((start, end)) => Ok((header, slice_subrange(bytes, start, end))),
        None => Err(WavError::MissingData),
    }
}

/// Checks that a WAV file is mono, 8 kHz and 16 bit, as a phone line is.
pub fn ensure_8khz_mono_16bit(header: &WavHeader) -> (res: Result<(), WavError>)
    ensures
        res == phone_format(*header),
{
    if header.channels != 1 {
        return Err(WavError::NotMono);
    }
    if header.sample_rate != 8000 {
        return Err(WavError::Not8kHz(header.sample_rate));
    }
    if header.bits_per_sample != 16 {
        return Err(WavError::Not16Bit(header.bits_per_sample));
    }
    Ok(())
}

// ── Laws ──

/// A number in two bytes.
pub open spec fn bytes16(n: u16) -> Seq<u8> {
    seq![(n % 256) as u8, (n / 256) as u8]
}

/// A number in four bytes.
pub open spec fn bytes32(n: u32) -> Seq<u8> {
    seq![
        (n % 256) as u8,
        ((n / 256) % 256) as u8,
        ((n / 65536) % 256) as u8,
        (n / 16777216) as u8,
    ]
}

/// A chunk: its tag, the length of its content, the content, and a zero byte where
/// that length is odd.
#[verifier::opaque]
pub open spec fn chunk(tag: Seq<u8>, content: Seq<u8>) -> Seq<u8> {
    tag + bytes32(content.len() as u32) + content + (if content.len() % 2 == 0 {
        Seq::empty()
    } else {
        seq![0u8]
    })
}

/// The content of a `fmt ` chunk; the six bytes in `rates` are those that no reader
/// here looks at.
pub open spec fn fmt_content(header: WavHeader, rates: Seq<u8>) -> Seq<u8> {
    bytes16(1) + bytes16(header.channels) + bytes32(header.sample_rate) + rates + bytes16(
        header.bits_per_sample,
    )
}

/// Chunks one after the other.
pub open spec fn chunk_list(chunks: Seq<(Seq<u8>, Seq<u8>)>) -> Seq<u8>
    decreases chunks.len(),
{
    if chunks.len() == 0 {
        Seq::empty()
    } else {
        chunk(chunks[0].0, chunks[0].1) + chunk_list(chunks.drop_first())
    }
}

/// A file with a `fmt ` chunk, other chunks, and a `data` chunk.
pub open spec fn wav_file(
    size: u32,
    header: WavHeader,
    rates: Seq<u8>,
    others: Seq<(Seq<u8>, Seq<u8>)>,
    data: Seq<u8>,
) -> Seq<u8> {
    riff_tag() + bytes32(size) + wave_tag() + chunk(fmt_tag(), fmt_content(header, rates))
        + chunk_list(others) + chunk(data_tag(), data)
}

/// Parsing a WAV file gives its format and its samples, whatever other chunks stand
/// between the two.
pub proof fn law_wav_round_trip(
    size: u32,
    header: WavHeader,
    rates: Seq<u8>,
    others: Seq<(Seq<u8>, Seq<u8>)>,
    data: Seq<u8>,
)
    requires
        rates.len() == 6,
        data.len() <= u32::MAX,
        forall|i: int|
            0 <= i < others.len() ==> {
                &&& (#[trigger] others[i]).0.len() == 4
                &&& others[i].0 != fmt_tag()
                &&& others[i].0 != data_tag()
                &&& others[i].1.len() <= u32::MAX
            },
    ensures
        wav_spec(wav_file(size, header, rates, others, data)) == Ok::<(WavHeader, Seq<u8>), WavError>(
            (header, data),
        ),
{
    let none = Seq::<(Seq<u8>, Seq<u8>)>::empty();
    let nothing = Seq::<u8>::empty();
    let start = file_start(size);
    let content = fmt_content(header, rates);
    let fmt = chunk(fmt_tag(), content);
    law_wav_chunks(size, none, others, none, header, rates, nothing, data);
    assert(content + nothing =~= content);
    assert(chunk_list(none) == nothing);
    assert(start + nothing =~= start);
    let file = wav_file(size, header, rates, others, data);
    assert(file + nothing =~= file);
}

/// A chunk in a file, as the walk over the file sees it.
proof fn lemma_chunk(before: Seq<u8>, tag: Seq<u8>, content: Seq<u8>, rest: Seq<u8>)
    requires
        before.len() % 2 == 0,
        tag.len() == 4,
        content.len() <= u32::MAX,
    ensures
        ({
            let bytes = before + chunk(tag, content) + rest;
            let pos = before.len() as int;
            &&& pos + 8 + content.len() <= bytes.len()
            &&& forall|other: Seq<u8>|
                #![trigger text::occurs_at(bytes, other, pos)]
                other.len() == 4 ==> (text::occurs_at(bytes, other, pos) <==> other == tag)
            &&& le32(bytes, pos + 4) == content.len()
            &&& next_chunk(bytes, pos) == (before + chunk(tag, content)).len()
            &&& bytes.subrange(pos + 8, pos + 8 + content.len()) == content
        }),
{
    reveal(chunk);
    let bytes = before + chunk(tag, content) + rest;
    let pos = before.len() as int;
    assert(bytes.subrange(pos, pos + 4) =~= tag);
    let size = content.len() as u32;
    let b = bytes32(size);
    assert(bytes[pos + 4] == b[0] && bytes[pos + 5] == b[1] && bytes[pos + 6] == b[2] && bytes[pos
        + 7] == b[3]);
    lemma_bytes32(size);
    assert(bytes.subrange(pos + 8, pos + 8 + content.len()) =~= content);
}

proof fn lemma_bytes32(n: u32)
    ensures
        le32(bytes32(n), 0) == n,
{
    let b = bytes32(n);
    assert(b[0] == n % 256 && b[1] == (n / 256) % 256 && b[2] == (n / 65536) % 256 && b[3] == n
        / 16777216);
    assert(n == n % 256 + 256 * ((n / 256) % 256) + 65536 * ((n / 65536) % 256) + 16777216 * (n
        / 16777216));
}

proof fn lemma_fmt_content(
    header: WavHeader,
    rates: Seq<u8>,
    bytes: Seq<u8>,
    start: int,
    size: int,
)
    requires
        rates.len() == 6,
        0 <= start,
        start + 16 <= bytes.len(),
        bytes.subrange(start, start + 16) == fmt_content(header, rates),
        size >= 16,
    ensures
        fmt_chunk(bytes, start, size) == Ok::<WavHeader, WavError>(header),
{
    let c = fmt_content(header, rates);
    assert forall|i: int| 0 <= i < 16 implies #[trigger] c[i] == bytes[start + i] by {
        assert(bytes.subrange(start, start + 16)[i] == bytes[start + i]);
    }
    assert(c[0] == bytes[start] && c[1] == bytes[start + 1] && c[2] == bytes[start + 2] && c[3]
        == bytes[start + 3]);
    assert(c[4] == bytes[start + 4] && c[5] == bytes[start + 5] && c[6] == bytes[start + 6] && c[7]
        == bytes[start + 7]);
    assert(c[14] == bytes[start + 14] && c[15] == bytes[start + 15]);
    let r = bytes32(header.sample_rate);
    assert(c[4] == r[0] && c[5] == r[1] && c[6] == r[2] && c[7] == r[3]);
    lemma_bytes32(header.sample_rate);
}

proof fn lemma_even(chunks: Seq<(Seq<u8>, Seq<u8>)>)
    requires
        forall|i: int| 0 <= i < chunks.len() ==> (#[trigger] chunks[i]).0.len() == 4,
    ensures
        chunk_list(chunks).len() % 2 == 0,
    decreases chunks.len(),
{
    if chunks.len() > 0 {
        let rest = chunks.drop_first();
        assert forall|i: int| 0 <= i < rest.len() implies (#[trigger] rest[i]).0.len() == 4 by {
            assert(rest[i] == chunks[i + 1]);
        }
        assert(chunks[0].0.len() == 4);
        lemma_even(rest);
        lemma_chunk_even(chunks[0].0, chunks[0].1);
    }
}

/// The walk passes over chunks of other kinds.
proof fn lemma_walk_others(
    before: Seq<u8>,
    others: Seq<(Seq<u8>, Seq<u8>)>,
    last: Seq<u8>,
    found: Chunks,
)
    requires
        before.len() % 2 == 0,
        forall|i: int|
            0 <= i < others.len() ==> {
                &&& (#[trigger] others[i]).0.len() == 4
                &&& others[i].0 != fmt_tag()
                &&& others[i].0 != data_tag()
                &&& others[i].1.len() <= u32::MAX
            },
    ensures
        walk(before + chunk_list(others) + last, before.len() as int, found) == walk(
            before + chunk_list(others) + last,
            (before + chunk_list(others)).len() as int,
            found,
        ),
    decreases others.len(),
{
    reveal(walk);
    let bytes = before + chunk_list(others) + last;
    if others.len() == 0 {
        assert(chunk_list(others).len() == 0);
    } else {
        let first = others[0];
        let rest = others.drop_first();
        assert(first.0.len() == 4);
        assert forall|i: int| 0 <= i < rest.len() implies {
            &&& (#[trigger] rest[i]).0.len() == 4
            &&& rest[i].0 != fmt_tag()
            &&& rest[i].0 != data_tag()
            &&& rest[i].1.len() <= u32::MAX
        } by {
            assert(rest[i] == others[i + 1]);
        }
        lemma_chunk(before, first.0, first.1, chunk_list(rest) + last);
        let c = chunk(first.0, first.1);
        assert(bytes =~= before + c + (chunk_list(rest) + last));
        lemma_walk_others(before + c, rest, last, found);
        assert(bytes =~= (before + c) + chunk_list(rest) + last);
        assert(((before + c) + chunk_list(rest)).len() == (before + chunk_list(others)).len());
    }
}

// ── Files with chunks in any order ──

/// Whether the chunks are of neither kind that is looked for, and can be written.
pub open spec fn other_chunks(chunks: Seq<(Seq<u8>, Seq<u8>)>) -> bool {
    forall|i: int|
        0 <= i < chunks.len() ==> {
            &&& (#[trigger] chunks[i]).0.len() == 4
            &&& chunks[i].0 != fmt_tag()
            &&& chunks[i].0 != data_tag()
            &&& chunks[i].1.len() <= u32::MAX
        }
}

/// What every WAV file begins with: `RIFF`, four bytes, `WAVE`.
pub open spec fn file_start(size: u32) -> Seq<u8> {
    seq![82u8, 73u8, 70u8, 70u8] + bytes32(size) + seq![87u8, 65u8, 86u8, 69u8]
}

/// Parsing a file gives the format and exactly the content of the data chunk, whichever of
/// the two chunks comes first, whatever other chunks stand before, between and after them,
/// and whatever the `fmt ` chunk holds behind what is looked at.
pub proof fn law_wav_chunks(
    size: u32,
    before: Seq<(Seq<u8>, Seq<u8>)>,
    between: Seq<(Seq<u8>, Seq<u8>)>,
    after: Seq<(Seq<u8>, Seq<u8>)>,
    header: WavHeader,
    rates: Seq<u8>,
    more: Seq<u8>,
    data: Seq<u8>,
)
    requires
        other_chunks(before),
        other_chunks(between),
        other_chunks(after),
        rates.len() == 6,
        more.len() <= u32::MAX - 16,
        data.len() <= u32::MAX,
    ensures
        ({
            let fmt = chunk(fmt_tag(), fmt_content(header, rates) + more);
            wav_spec(
                file_start(size) + chunk_list(before) + fmt + chunk_list(between) + chunk(
                    data_tag(),
                    data,
                ) + chunk_list(after),
            ) == Ok::<(WavHeader, Seq<u8>), WavError>((header, data))
        }),
        ({
            let fmt = chunk(fmt_tag(), fmt_content(header, rates) + more);
            wav_spec(
                file_start(size) + chunk_list(before) + chunk(data_tag(), data) + chunk_list(
                    between,
                ) + fmt + chunk_list(after),
            ) == Ok::<(WavHeader, Seq<u8>), WavError>((header, data))
        }),
{
    lemma_walk_all(size, before, between, after, header, rates, more, data, false);
    lemma_walk_all(size, before, between, after, header, rates, more, data, true);
}

/// The walk over a whole file.
proof fn lemma_walk_all(
    size: u32,
    before: Seq<(Seq<u8>, Seq<u8>)>,
    between: Seq<(Seq<u8>, Seq<u8>)>,
    after: Seq<(Seq<u8>, Seq<u8>)>,
    header: WavHeader,
    rates: Seq<u8>,
    more: Seq<u8>,
    data: Seq<u8>,
    data_first: bool,
)
    requires
        other_chunks(before),
        other_chunks(between),
        other_chunks(after),
        rates.len() == 6,
        more.len() <= u32::MAX - 16,
        data.len() <= u32::MAX,
    ensures
        ({
            let fmt = chunk(fmt_tag(), fmt_content(header, rates) + more);
            let samples = chunk(data_tag(), data);
            let (x, y) = if data_first {
                (samples, fmt)
            } else {
                (fmt, samples)
            };
            wav_spec(
                file_start(size) + chunk_list(before) + x + chunk_list(between) + y + chunk_list(
                    after,
                ),
            ) == Ok::<(WavHeader, Seq<u8>), WavError>((header, data))
        }),
{
    let content = fmt_content(header, rates) + more;
    let fmt = chunk(fmt_tag(), content);
    let samples = chunk(data_tag(), data);
    let (x, y) = if data_first {
        (samples, fmt)
    } else {
        (fmt, samples)
    };
    let head = file_start(size);
    let l1 = chunk_list(before);
    let l2 = chunk_list(between);
    let l3 = chunk_list(after);
    let a = head + l1;
    let b = a + x + l2;
    let c = b + y;
    let bytes = c + l3;
    lemma_even(before);
    lemma_even(between);
    lemma_chunk_even(fmt_tag(), content);
    lemma_chunk_even(data_tag(), data);
    lemma_assoc(b, y, l3);
    lemma_assoc(a + x, l2, y + l3);
    lemma_assoc(a, x, l2 + (y + l3));
    lemma_walk_first(size, l1 + (x + (l2 + (y + l3))));
    lemma_assoc(head, l1, x + (l2 + (y + l3)));
    let none = Chunks { header: None, data: None };
    let p1 = a.len() as int + 8;
    let p2 = b.len() as int + 8;
    let range = if data_first {
        (p1, p1 + data.len())
    } else {
        (p2, p2 + data.len())
    };
    let one = if data_first {
        Chunks { data: Some(range), ..none }
    } else {
        Chunks { header: Some(header), ..none }
    };
    let both = Chunks { header: Some(header), data: Some(range) };
    lemma_walk_others(head, before, x + (l2 + (y + l3)), none);
    if data_first {
        lemma_walk_data(a, data, l2 + (y + l3), none);
    } else {
        lemma_walk_fmt(a, header, rates, more, l2 + (y + l3), none);
    }
    lemma_walk_others(a + x, between, y + l3, one);
    if data_first {
        lemma_walk_fmt(b, header, rates, more, l3, one);
    } else {
        lemma_walk_data(b, data, l3, one);
    }
    let nothing = Seq::<u8>::empty();
    assert(c + l3 + nothing == bytes) by {
        assert(c + l3 + nothing =~= bytes);
    }
    lemma_walk_others(c, after, nothing, both);
    lemma_walk_last(bytes, both);
    assert(bytes.subrange(range.0, range.1) == data) by {
        if data_first {
            lemma_chunk(a, data_tag(), data, l2 + (y + l3));
        } else {
            lemma_chunk(b, data_tag(), data, l3);
        }
    }
}

proof fn lemma_assoc(a: Seq<u8>, b: Seq<u8>, c: Seq<u8>)
    ensures
        a + b + c == a + (b + c),
{
    assert(a + b + c =~= a + (b + c));
}

proof fn lemma_chunk_even(tag: Seq<u8>, content: Seq<u8>)
    requires
        tag.len() == 4,
    ensures
        chunk(tag, content).len() % 2 == 0,
{
    reveal(chunk);
}

/// The walk starts behind the first twelve bytes of a file.
proof fn lemma_walk_first(size: u32, rest: Seq<u8>)
    ensures
        file_start(size).len() == 12,
        text::occurs_at(file_start(size) + rest, riff_tag(), 0),
        text::occurs_at(file_start(size) + rest, wave_tag(), 8),
{
    let bytes = file_start(size) + rest;
    assert(bytes.subrange(0, 4) =~= riff_tag());
    assert(bytes.subrange(8, 12) =~= wave_tag());
}

/// The walk is over at the end of the file.
proof fn lemma_walk_last(bytes: Seq<u8>, found: Chunks)
    ensures
        walk(bytes, bytes.len() as int, found) == Ok::<Chunks, WavError>(found),
{
    reveal(walk);
}

/// The walk takes the format from a `fmt ` chunk.
proof fn lemma_walk_fmt(
    before: Seq<u8>,
    header: WavHeader,
    rates: Seq<u8>,
    more: Seq<u8>,
    rest: Seq<u8>,
    found: Chunks,
)
    requires
        before.len() % 2 == 0,
        rates.len() == 6,
        more.len() <= u32::MAX - 16,
    ensures
        ({
            let fmt = chunk(fmt_tag(), fmt_content(header, rates) + more);
            let bytes = before + fmt + rest;
            walk(bytes, before.len() as int, found) == walk(
                bytes,
                (before + fmt).len() as int,
                Chunks { header: Some(header), ..found },
            )
        }),
{
    let content = fmt_content(header, rates) + more;
    let fmt = chunk(fmt_tag(), content);
    let bytes = before + fmt + rest;
    let n = before.len() as int;
    lemma_chunk(before, fmt_tag(), content, rest);
    let c = fmt_content(header, rates);
    assert(c.len() == 16);
    assert(bytes.subrange(n + 8, n + 24) == c) by {
        let whole = bytes.subrange(n + 8, n + 8 + content.len());
        assert(whole.subrange(0, 16) =~= bytes.subrange(n + 8, n + 24));
        assert(content.subrange(0, 16) =~= c);
    }
    lemma_fmt_content(header, rates, bytes, n + 8, content.len() as int);
    assert(text::occurs_at(bytes, fmt_tag(), n));
    lemma_step_fmt(bytes, n, found);
}

/// One step of the walk, over a `fmt ` chunk.
proof fn lemma_step_fmt(bytes: Seq<u8>, pos: int, found: Chunks)
    requires
        0 <= pos,
        pos + 8 <= bytes.len(),
        text::occurs_at(bytes, fmt_tag(), pos),
    ensures
        walk(bytes, pos, found) == match fmt_chunk(bytes, pos + 8, le32(bytes, pos + 4) as int) {
            Ok(header) => walk(
                bytes,
                next_chunk(bytes, pos),
                Chunks { header: Some(header), ..found },
            ),
            Err(e) => Err(e),
        },
{
    reveal(walk);
}

/// The walk takes the samples from a `data` chunk.
proof fn lemma_walk_data(before: Seq<u8>, data: Seq<u8>, rest: Seq<u8>, found: Chunks)
    requires
        before.len() % 2 == 0,
        data.len() <= u32::MAX,
    ensures
        ({
            let samples = chunk(data_tag(), data);
            let bytes = before + samples + rest;
            let start = before.len() as int + 8;
            walk(bytes, before.len() as int, found) == walk(
                bytes,
                (before + samples).len() as int,
                Chunks { data: Some((start, start + data.len())), ..found },
            )
        }),
{
    let bytes = before + chunk(data_tag(), data) + rest;
    let n = before.len() as int;
    lemma_chunk(before, data_tag(), data, rest);
    assert(text::occurs_at(bytes, data_tag(), n));
    assert(data_tag()[0] != fmt_tag()[0]);
    assert(!text::occurs_at(bytes, fmt_tag(), n));
    lemma_step_data(bytes, n, found);
}

/// One step of the walk, over a `data` chunk that is all there.
proof fn lemma_step_data(bytes: Seq<u8>, pos: int, found: Chunks)
    requires
        0 <= pos,
        pos + 8 + le32(bytes, pos + 4) <= bytes.len(),
        !text::occurs_at(bytes, fmt_tag(), pos),
        text::occurs_at(bytes, data_tag(), pos),
    ensures
        walk(bytes, pos, found) == walk(
            bytes,
            next_chunk(bytes, pos),
            Chunks { data: Some((pos + 8, pos + 8 + le32(bytes, pos + 4))), ..found },
        ),
{
    reveal(walk);
}

/// A data chunk that says it is longer than the rest of the file reaches up to the end of
/// the file; one that is as long as the rest needs no byte behind it, be its length odd.
pub proof fn law_wav_cut_off(
    size: u32,
    header: WavHeader,
    rates: Seq<u8>,
    between: Seq<(Seq<u8>, Seq<u8>)>,
    claimed: u32,
    data: Seq<u8>,
)
    requires
        rates.len() == 6,
        other_chunks(between),
        data.len() <= claimed,
    ensures
        wav_spec(
            file_start(size) + chunk(fmt_tag(), fmt_content(header, rates)) + chunk_list(between)
                + seq![100u8, 97u8, 116u8, 97u8] + bytes32(claimed) + data,
        ) == Ok::<(WavHeader, Seq<u8>), WavError>((header, data)),
{
    let head = file_start(size);
    let nothing = Seq::<u8>::empty();
    let fmt = chunk(fmt_tag(), fmt_content(header, rates));
    let list = chunk_list(between);
    let last = data_tag() + bytes32(claimed) + data;
    let bytes = head + fmt + list + data_tag() + bytes32(claimed) + data;
    assert(bytes.subrange(0, 4) =~= riff_tag());
    assert(bytes.subrange(8, 12) =~= wave_tag());
    lemma_even(between);
    let none = Chunks { header: None, data: None };
    let one = Chunks { header: Some(header), data: None };
    assert(fmt_content(header, rates) + nothing =~= fmt_content(header, rates));
    assert(bytes =~= head + fmt + (list + last));
    lemma_walk_fmt(head, header, rates, nothing, list + last, none);
    assert(bytes =~= (head + fmt) + list + last);
    lemma_chunk_even(fmt_tag(), fmt_content(header, rates));
    lemma_walk_others(head + fmt, between, last, one);
    let n = (head + fmt + list).len() as int;
    assert(walk(bytes, n, one) == Ok::<Chunks, WavError>(
        Chunks { data: Some((n + 8, bytes.len() as int)), ..one },
    )) by {
        reveal(walk);
        assert(bytes.subrange(n, n + 4) =~= data_tag());
        assert(text::occurs_at(bytes, data_tag(), n));
        assert(data_tag()[0] != fmt_tag()[0]);
        assert(!text::occurs_at(bytes, fmt_tag(), n)) by {
            if text::occurs_at(bytes, fmt_tag(), n) {
                assert(bytes.subrange(n, n + 4)[0] == fmt_tag()[0]);
            }
        }
        let b = bytes32(claimed);
        assert(bytes[n + 4] == b[0] && bytes[n + 5] == b[1] && bytes[n + 6] == b[2] && bytes[n + 7]
            == b[3]);
        lemma_bytes32(claimed);
        assert(le32(bytes, n + 4) == claimed);
        assert(next_chunk(bytes, n) >= bytes.len());
        let all = Chunks { data: Some((n + 8, bytes.len() as int)), ..one };
        assert(walk(bytes, next_chunk(bytes, n), all) == Ok::<Chunks, WavError>(all));
    }
    assert(bytes.subrange(n + 8, bytes.len() as int) =~= data);
}

/// A file without a `fmt ` chunk, or with one and without a data chunk, is refused for
/// just that.
pub proof fn law_wav_missing(
    size: u32,
    before: Seq<(Seq<u8>, Seq<u8>)>,
    after: Seq<(Seq<u8>, Seq<u8>)>,
    header: WavHeader,
    rates: Seq<u8>,
    data: Seq<u8>,
)
    requires
        other_chunks(before),
        other_chunks(after),
        rates.len() == 6,
        data.len() <= u32::MAX,
    ensures
        wav_spec(
            file_start(size) + chunk_list(before) + chunk(data_tag(), data) + chunk_list(after),
        ) == Err::<(WavHeader, Seq<u8>), WavError>(WavError::MissingFmt),
        wav_spec(
            file_start(size) + chunk_list(before) + chunk(fmt_tag(), fmt_content(header, rates))
                + chunk_list(after),
        ) == Err::<(WavHeader, Seq<u8>), WavError>(WavError::MissingData),
{
    let nothing = Seq::<u8>::empty();
    assert(fmt_content(header, rates) + nothing =~= fmt_content(header, rates));
    lemma_one_chunk(size, before, after, header, rates, data, true);
    lemma_one_chunk(size, before, after, header, rates, data, false);
}

proof fn lemma_one_chunk(
    size: u32,
    before: Seq<(Seq<u8>, Seq<u8>)>,
    after: Seq<(Seq<u8>, Seq<u8>)>,
    header: WavHeader,
    rates: Seq<u8>,
    data: Seq<u8>,
    is_data: bool,
)
    requires
        other_chunks(before),
        other_chunks(after),
        rates.len() == 6,
        data.len() <= u32::MAX,
    ensures
        ({
            let x = if is_data {
                chunk(data_tag(), data)
            } else {
                chunk(fmt_tag(), fmt_content(header, rates))
            };
            wav_spec(file_start(size) + chunk_list(before) + x + chunk_list(after)) == Err::<
                (WavHeader, Seq<u8>),
                WavError,
            >(if is_data {
                WavError::MissingFmt
            } else {
                WavError::MissingData
            })
        }),
{
    let nothing = Seq::<u8>::empty();
    let content = fmt_content(header, rates);
    let x = if is_data {
        chunk(data_tag(), data)
    } else {
        chunk(fmt_tag(), content)
    };
    let head = file_start(size);
    let l1 = chunk_list(before);
    let l2 = chunk_list(after);
    let a = head + l1;
    let bytes = a + x + l2;
    lemma_even(before);
    lemma_chunk_even(fmt_tag(), content);
    lemma_chunk_even(data_tag(), data);
    lemma_assoc(a, x, l2);
    lemma_assoc(head, l1, x + l2);
    lemma_walk_first(size, l1 + (x + l2));
    let none = Chunks { header: None, data: None };
    let start = a.len() as int + 8;
    let one = if is_data {
        Chunks { data: Some((start, start + data.len())), ..none }
    } else {
        Chunks { header: Some(header), ..none }
    };
    lemma_walk_others(head, before, x + l2, none);
    if is_data {
        lemma_walk_data(a, data, l2, none);
    } else {
        assert(content + nothing =~= content);
        lemma_walk_fmt(a, header, rates, nothing, l2, none);
    }
    assert(a + x + l2 + nothing == bytes) by {
        assert(a + x + l2 + nothing =~= bytes);
    }
    lemma_walk_others(a + x, after, nothing, one);
    lemma_walk_last(bytes, one);
}

/// A file whose `fmt ` chunk names another format than PCM is refused with that format,
/// and one whose `fmt ` chunk is too small to name one as too short.
pub proof fn law_wav_format(
    size: u32,
    before: Seq<(Seq<u8>, Seq<u8>)>,
    content: Seq<u8>,
    rest: Seq<u8>,
    format: u16,
)
    requires
        other_chunks(before),
        content.len() <= u32::MAX,
        content.len() >= 16 ==> content[0] == format % 256 && content[1] == format / 256,
        format != 1,
    ensures
        wav_spec(file_start(size) + chunk_list(before) + chunk(fmt_tag(), content) + rest) == Err::<
            (WavHeader, Seq<u8>),
            WavError,
        >(
            if content.len() < 16 {
                WavError::TooShort
            } else {
                WavError::UnsupportedFormat(format)
            },
        ),
{
    let head = file_start(size);
    let l1 = chunk_list(before);
    let fmt = chunk(fmt_tag(), content);
    let a = head + l1;
    let bytes = a + fmt + rest;
    let n = a.len() as int;
    let none = Chunks { header: None, data: None };
    lemma_even(before);
    lemma_assoc(a, fmt, rest);
    lemma_assoc(head, l1, fmt + rest);
    lemma_walk_first(size, l1 + (fmt + rest));
    lemma_walk_others(head, before, fmt + rest, none);
    lemma_chunk(a, fmt_tag(), content, rest);
    assert(text::occurs_at(bytes, fmt_tag(), n));
    lemma_step_fmt(bytes, n, none);
    if content.len() >= 16 {
        let part = bytes.subrange(n + 8, n + 8 + content.len());
        assert(part[0] == bytes[n + 8] && part[1] == bytes[n + 9]);
        assert(le16(bytes, n + 8) == format);
    }
}

/// Bytes that do not begin as a WAV file does are refused.
pub proof fn law_wav_start(bytes: Seq<u8>)
    ensures
        wav_spec(bytes) is Ok ==> {
            &&& bytes.len() >= 12
            &&& bytes[0] == 82 && bytes[1] == 73 && bytes[2] == 70 && bytes[3] == 70
            &&& bytes[8] == 87 && bytes[9] == 65 && bytes[10] == 86 && bytes[11] == 69
        },
{
    if wav_spec(bytes) is Ok {
        let r = bytes.subrange(0, 4);
        let w = bytes.subrange(8, 12);
        assert(r[0] == bytes[0] && r[1] == bytes[1] && r[2] == bytes[2] && r[3] == bytes[3]);
        assert(w[0] == bytes[8] && w[1] == bytes[9] && w[2] == bytes[10] && w[3] == bytes[11]);
    }
}

/// Exactly mono files of 8000 samples a second and 16 bits are in the format of a phone
/// line.
pub proof fn law_phone_format(header: WavHeader)
    ensures
        phone_format(header) is Ok <==> header == (WavHeader {
            channels: 1,
            sample_rate: 8000,
            bits_per_sample: 16,
        }),
{
}

/// What is wrong with another format: first the channels count, the rate after them, and
/// the size of a sample last.
pub proof fn law_other_format(header: WavHeader)
    ensures
        phone_format(header) == Err::<(), WavError>(WavError::NotMono) <==> header.channels != 1,
        header.channels == 1 && header.sample_rate != 8000 ==> phone_format(header) == Err::<
            (),
            WavError,
        >(WavError::Not8kHz(header.sample_rate)),
        header.channels == 1 && header.sample_rate == 8000 && header.bits_per_sample != 16
            ==> phone_format(header) == Err::<(), WavError>(
            WavError::Not16Bit(header.bits_per_sample),
        ),
{
}

/// A chunk is its tag, four bytes that give the length of its content with the lowest byte
/// first, the content, and a zero behind content of odd length.
pub proof fn law_chunk_bytes(tag: Seq<u8>, content: Seq<u8>)
    requires
        tag.len() == 4,
        content.len() <= u32::MAX,
    ensures
        ({
            let c = chunk(tag, content);
            let end = 8 + content.len() as int;
            &&& c.subrange(0, 4) == tag
            &&& c[4] + 256 * c[5] + 65536 * c[6] + 16777216 * c[7] == content.len()
            &&& c.subrange(8, end) == content
            &&& content.len() % 2 == 0 ==> c.len() == end
            &&& content.len() % 2 == 1 ==> c.len() == end + 1 && c[end] == 0
        }),
{
    reveal(chunk);
    let c = chunk(tag, content);
    let size = bytes32(content.len() as u32);
    assert(c.subrange(0, 4) =~= tag);
    assert(c[4] == size[0] && c[5] == size[1] && c[6] == size[2] && c[7] == size[3]);
    lemma_bytes32(content.len() as u32);
    assert(c.subrange(8, 8 + content.len() as int) =~= content);
}

/// A `fmt ` chunk says, two bytes each and the low one first, that the samples are PCM and
/// how many channels there are; then the rate in four bytes, and behind six others the bits
/// of a sample. Its tag and that of the samples are these.
pub proof fn law_fmt_bytes(header: WavHeader, rates: Seq<u8>)
    requires
        rates.len() == 6,
    ensures
        fmt_tag() == seq![102u8, 109u8, 116u8, 32u8],
        data_tag() == seq![100u8, 97u8, 116u8, 97u8],
        ({
            let c = fmt_content(header, rates);
            &&& c.len() == 16
            &&& c[0] == 1 && c[1] == 0
            &&& c[2] + 256 * c[3] == header.channels
            &&& c[4] + 256 * c[5] + 65536 * c[6] + 16777216 * c[7] == header.sample_rate
            &&& c.subrange(8, 14) == rates
            &&& c[14] + 256 * c[15] == header.bits_per_sample
        }),
{
    let c = fmt_content(header, rates);
    let rate = bytes32(header.sample_rate);
    let channels = bytes16(header.channels);
    let bits = bytes16(header.bits_per_sample);
    assert(c[2] == channels[0] && c[3] == channels[1]);
    assert(c[4] == rate[0] && c[5] == rate[1] && c[6] == rate[2] && c[7] == rate[3]);
    assert(c[14] == bits[0] && c[15] == bits[1]);
    assert(c.subrange(8, 14) =~= rates);
    lemma_bytes32(header.sample_rate);
}

/// Of two `fmt ` chunks and two data chunks the last of each counts, and a few bytes at the
/// end that make no chunk are passed over.
pub proof fn law_wav_last(
    size: u32,
    first: WavHeader,
    last: WavHeader,
    rates: Seq<u8>,
    earlier: Seq<u8>,
    data: Seq<u8>,
    tail: Seq<u8>,
)
    requires
        rates.len() == 6,
        earlier.len() <= u32::MAX,
        data.len() <= u32::MAX,
        tail.len() < 8,
    ensures
        wav_spec(
            file_start(size) + chunk(fmt_tag(), fmt_content(first, rates)) + chunk(
                data_tag(),
                earlier,
            ) + chunk(fmt_tag(), fmt_content(last, rates)) + chunk(data_tag(), data) + tail,
        ) == Ok::<(WavHeader, Seq<u8>), WavError>((last, data)),
{
    let nothing = Seq::<u8>::empty();
    let head = file_start(size);
    let f1 = chunk(fmt_tag(), fmt_content(first, rates));
    let d1 = chunk(data_tag(), earlier);
    let f2 = chunk(fmt_tag(), fmt_content(last, rates));
    let d2 = chunk(data_tag(), data);
    let a = head + f1;
    let b = a + d1;
    let c = b + f2;
    let d = c + d2;
    let bytes = d + tail;
    assert(fmt_content(first, rates) + nothing =~= fmt_content(first, rates));
    assert(fmt_content(last, rates) + nothing =~= fmt_content(last, rates));
    lemma_chunk_even(fmt_tag(), fmt_content(first, rates));
    lemma_chunk_even(data_tag(), earlier);
    lemma_chunk_even(fmt_tag(), fmt_content(last, rates));
    lemma_assoc(c, d2, tail);
    lemma_assoc(b, f2, d2 + tail);
    lemma_assoc(a, d1, f2 + (d2 + tail));
    lemma_assoc(head, f1, d1 + (f2 + (d2 + tail)));
    lemma_walk_first(size, f1 + (d1 + (f2 + (d2 + tail))));
    let none = Chunks { header: None, data: None };
    let one = Chunks { header: Some(first), ..none };
    let p1 = a.len() as int + 8;
    let two = Chunks { data: Some((p1, p1 + earlier.len())), ..one };
    let three = Chunks { header: Some(last), ..two };
    let p2 = c.len() as int + 8;
    let four = Chunks { data: Some((p2, p2 + data.len())), ..three };
    lemma_walk_fmt(head, first, rates, nothing, d1 + (f2 + (d2 + tail)), none);
    lemma_walk_data(a, earlier, f2 + (d2 + tail), one);
    lemma_walk_fmt(b, last, rates, nothing, d2 + tail, two);
    lemma_walk_data(c, data, tail, three);
    assert(walk(bytes, d.len() as int, four) == Ok::<Chunks, WavError>(four)) by {
        reveal(walk);
    }
    lemma_chunk(c, data_tag(), data, tail);
}

/// What is said of a file that is refused; where that is for a number, the number is named.
pub proof fn law_error_texts(n: u16, rate: u32)
    ensures
        wav_error_text(WavError::TooShort) == "WAV file too short"@,
        wav_error_text(WavError::InvalidRiff) == "not a RIFF file"@,
        wav_error_text(WavError::InvalidWave) == "not a WAVE file"@,
        wav_error_text(WavError::MissingFmt) == "missing fmt chunk"@,
        wav_error_text(WavError::MissingData) == "missing data chunk"@,
        wav_error_text(WavError::NotMono) == "only mono audio supported"@,
        wav_error_text(WavError::UnsupportedFormat(n)) == "unsupported audio format: "@
            + text::decimal(n as nat) + " (expected PCM/1)"@,
        wav_error_text(WavError::Not8kHz(rate)) == "unsupported sample rate: "@ + text::decimal(
            rate as nat,
        ) + "Hz (expected 8000)"@,
        wav_error_text(WavError::Not16Bit(n)) == "unsupported bit depth: "@ + text::decimal(
            n as nat,
        ) + " (expected 16)"@,
{
}

} // verus!
