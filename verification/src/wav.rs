use vstd::prelude::*;

verus! {

/// Little-endian bytes of a 32-bit value.
pub open spec fn le_u32(x: nat) -> Seq<u8> {
    seq![(x % 256) as u8, ((x / 256) % 256) as u8, ((x / 65536) % 256) as u8, ((x / 16777216) % 256) as u8]
}

/// Little-endian bytes of a 16-bit value.
pub open spec fn le_u16(x: nat) -> Seq<u8> {
    seq![(x % 256) as u8, ((x / 256) % 256) as u8]
}

/// Bytes of the chunk tags.
pub open spec fn tag_riff() -> Seq<u8> {
    seq![0x52u8, 0x49u8, 0x46u8, 0x46u8]
}

pub open spec fn tag_wave() -> Seq<u8> {
    seq![0x57u8, 0x41u8, 0x56u8, 0x45u8]
}

pub open spec fn tag_fmt() -> Seq<u8> {
    seq![0x66u8, 0x6du8, 0x74u8, 0x20u8]
}

pub open spec fn tag_data() -> Seq<u8> {
    seq![0x64u8, 0x61u8, 0x74u8, 0x61u8]
}

/// Bytes of sample data for `frames` stereo frames of 16-bit samples.
pub open spec fn wav_data_bytes(frames: nat) -> nat {
    frames * 4
}

/// The 44-byte header of a RIFF/WAVE file of 16-bit PCM stereo audio with
/// `frames` frames at `sample_rate` frames per second.
pub open spec fn spec_wav_header(sample_rate: nat, frames: nat) -> Seq<u8> {
    tag_riff() + le_u32(36 + wav_data_bytes(frames)) + tag_wave() + tag_fmt() + le_u32(16) + le_u16(1)
        + le_u16(2) + le_u32(sample_rate) + le_u32(sample_rate * 4) + le_u16(4) + le_u16(16) + tag_data()
        + le_u32(wav_data_bytes(frames))
}

/// Appends the little-endian bytes of `x`.
fn push_u32_le(out: &mut Vec<u8>, x: u32)
    ensures
        final(out)@ == old(out)@ + le_u32(x as nat),
{
    out.push((x % 256) as u8);
    out.push(((x / 256) % 256) as u8);
    out.push(((x / 65536) % 256) as u8);
    out.push(((x / 16777216) % 256) as u8);
    assert(final(out)@ =~= old(out)@ + le_u32(x as nat));
}

/// Appends the little-endian bytes of `x`.
fn push_u16_le(out: &mut Vec<u8>, x: u16)
    ensures
        final(out)@ == old(out)@ + le_u16(x as nat),
{
    out.push((x % 256) as u8);
    out.push(((x / 256) % 256) as u8);
    assert(final(out)@ =~= old(out)@ + le_u16(x as nat));
}

/// Appends four tag bytes.
fn push_tag(out: &mut Vec<u8>, a: u8, b: u8, c: u8, d: u8)
    ensures
        final(out)@ == old(out)@ + seq![a, b, c, d],
{
    out.push(a);
    out.push(b);
    out.push(c);
    out.push(d);
    assert(final(out)@ =~= old(out)@ + seq![a, b, c, d]);
}

/// The header of a 16-bit PCM stereo WAV file of `frames` frames.
pub fn wav_header(sample_rate: u32, frames: u32) -> (header: Vec<u8>)
    requires
        36 + wav_data_bytes(frames as nat) <= u32::MAX,
        sample_rate * 4 <= u32::MAX,
    ensures
        header@ == spec_wav_header(sample_rate as nat, frames as nat),
        header@.len() == 44,
{
    let data_bytes: u32 = frames * 2 * 2;
    let riff_size: u32 = 36 + data_bytes;
    let mut out: Vec<u8> = Vec::new();
    push_tag(&mut out, 0x52, 0x49, 0x46, 0x46);
    push_u32_le(&mut out, riff_size);
    push_tag(&mut out, 0x57, 0x41, 0x56, 0x45);
    push_tag(&mut out, 0x66, 0x6d, 0x74, 0x20);
    push_u32_le(&mut out, 16);
    push_u16_le(&mut out, 1);
    push_u16_le(&mut out, 2);
    push_u32_le(&mut out, sample_rate);
    push_u32_le(&mut out, sample_rate * 2 * 2);
    push_u16_le(&mut out, 4);
    push_u16_le(&mut out, 16);
    push_tag(&mut out, 0x64, 0x61, 0x74, 0x61);
    push_u32_le(&mut out, data_bytes);
    assert(out@ =~= spec_wav_header(sample_rate as nat, frames as nat));
    out
}

/// Reads a little-endian 32-bit value back from its bytes.
pub open spec fn from_le_u32(b: Seq<u8>) -> nat {
    (b[0] as nat) + (b[1] as nat) * 256 + (b[2] as nat) * 65536 + (b[3] as nat) * 16777216
}

/// The size fields of a header tell the length of what follows them: the
/// RIFF size counts the file after its first eight bytes, and the data size
/// counts the sample bytes that follow the 44-byte header.
pub proof fn lemma_wav_sizes(sample_rate: nat, frames: nat)
    requires
        36 + wav_data_bytes(frames) <= u32::MAX,
    ensures
        spec_wav_header(sample_rate, frames).len() == 44,
        from_le_u32(spec_wav_header(sample_rate, frames).subrange(40, 44)) == wav_data_bytes(frames),
        from_le_u32(spec_wav_header(sample_rate, frames).subrange(4, 8)) + 8 == 44 + wav_data_bytes(
            frames,
        ),
{
    let h = spec_wav_header(sample_rate, frames);
    let d = wav_data_bytes(frames);
    assert(h.subrange(40, 44) =~= le_u32(d));
    assert(h.subrange(4, 8) =~= le_u32(36 + d));
    lemma_le_u32_round_trip(d);
    lemma_le_u32_round_trip(36 + d);
}

/// Reads a little-endian 16-bit value back from its bytes.
pub open spec fn from_le_u16(b: Seq<u8>) -> nat {
    (b[0] as nat) + (b[1] as nat) * 256
}

/// The format fields of a header describe what was asked for: chunk tags at
/// their places, uncompressed PCM, two channels, `sample_rate` frames per
/// second, `sample_rate * 4` bytes per second, four bytes per frame and
/// sixteen bits per sample.
pub proof fn lemma_wav_format(sample_rate: nat, frames: nat)
    requires
        36 + wav_data_bytes(frames) <= u32::MAX,
        sample_rate * 4 <= u32::MAX,
    ensures
        spec_wav_header(sample_rate, frames).subrange(0, 4) == seq![0x52u8, 0x49u8, 0x46u8, 0x46u8],
        spec_wav_header(sample_rate, frames).subrange(8, 12) == seq![0x57u8, 0x41u8, 0x56u8, 0x45u8],
        spec_wav_header(sample_rate, frames).subrange(12, 16) == seq![0x66u8, 0x6du8, 0x74u8, 0x20u8],
        from_le_u32(spec_wav_header(sample_rate, frames).subrange(16, 20)) == 16,
        from_le_u16(spec_wav_header(sample_rate, frames).subrange(20, 22)) == 1,
        from_le_u16(spec_wav_header(sample_rate, frames).subrange(22, 24)) == 2,
        from_le_u32(spec_wav_header(sample_rate, frames).subrange(24, 28)) == sample_rate,
        from_le_u32(spec_wav_header(sample_rate, frames).subrange(28, 32)) == sample_rate * 4,
        from_le_u16(spec_wav_header(sample_rate, frames).subrange(32, 34)) == 4,
        from_le_u16(spec_wav_header(sample_rate, frames).subrange(34, 36)) == 16,
        spec_wav_header(sample_rate, frames).subrange(36, 40) == seq![0x64u8, 0x61u8, 0x74u8, 0x61u8],
{
    let h = spec_wav_header(sample_rate, frames);
    assert(h.subrange(0, 4) =~= seq![0x52u8, 0x49u8, 0x46u8, 0x46u8]);
    assert(h.subrange(8, 12) =~= seq![0x57u8, 0x41u8, 0x56u8, 0x45u8]);
    assert(h.subrange(12, 16) =~= seq![0x66u8, 0x6du8, 0x74u8, 0x20u8]);
    assert(h.subrange(16, 20) =~= le_u32(16));
    lemma_le_u32_round_trip(16);
    assert(h.subrange(20, 22) =~= le_u16(1));
    assert(h.subrange(22, 24) =~= le_u16(2));
    assert(h.subrange(24, 28) =~= le_u32(sample_rate));
    lemma_le_u32_round_trip(sample_rate);
    assert(h.subrange(28, 32) =~= le_u32(sample_rate * 4));
    lemma_le_u32_round_trip(sample_rate * 4);
    assert(h.subrange(32, 34) =~= le_u16(4));
    assert(h.subrange(34, 36) =~= le_u16(16));
    assert(h.subrange(36, 40) =~= seq![0x64u8, 0x61u8, 0x74u8, 0x61u8]);
}

/// Little-endian bytes read back as the value they were written from.
pub proof fn lemma_le_u32_round_trip(x: nat)
    requires
        x <= u32::MAX,
    ensures
        from_le_u32(le_u32(x)) == x,
{
    let b = le_u32(x);
    assert(b[0] as nat == x % 256);
    assert(b[1] as nat == (x / 256) % 256);
    assert(b[2] as nat == (x / 65536) % 256);
    assert(b[3] as nat == (x / 16777216) % 256);
    assert((x % 256) + ((x / 256) % 256) * 256 + ((x / 65536) % 256) * 65536 + ((x / 16777216) % 256)
        * 16777216 == x) by (nonlinear_arith)
        requires
            x <= u32::MAX,
    ;
}

} // verus!
