//! 16-bit mono PCM WAV files.

use crate::kokoro::speech::SAMPLE_RATE;
use vstd::prelude::*;

verus! {

/// The low 16 bits of `x`, least significant byte first.
pub open spec fn le16(x: int) -> Seq<u8> {
    seq![(x % 256) as u8, (x / 256 % 256) as u8]
}

/// The low 32 bits of `x`, least significant byte first.
#[verifier::opaque]
pub open spec fn le32(x: int) -> Seq<u8> {
    le16(x) + le16(x / 65536)
}

/// How many bytes the samples take, as the 32 bits of the header can say it.
pub open spec fn data_len(samples: Seq<i16>) -> int {
    (samples.len() * 2 % 0x1_0000_0000) as int
}

/// The first `n` samples, least significant byte first.
pub open spec fn pcm(samples: Seq<i16>, n: int) -> Seq<u8>
    decreases n,
{
    if n <= 0 {
        Seq::empty()
    } else {
        pcm(samples, n - 1) + le16(samples[n - 1] as int)
    }
}

/// The 44 bytes before the samples.
pub open spec fn header(samples: Seq<i16>, sample_rate: int) -> Seq<u8> {
    riff() + le32(36 + data_len(samples)) + wave_fmt() + le32(16) + le16(1) + le16(1) + le32(
        sample_rate,
    ) + le32(sample_rate * 2) + le16(2) + le16(16) + data_tag() + le32(data_len(samples))
}

/// `RIFF`.
pub open spec fn riff() -> Seq<u8> {
    seq![0x52u8, 0x49u8, 0x46u8, 0x46u8]
}

/// `WAVEfmt `.
pub open spec fn wave_fmt() -> Seq<u8> {
    seq![0x57u8, 0x41u8, 0x56u8, 0x45u8, 0x66u8, 0x6du8, 0x74u8, 0x20u8]
}

/// `data`.
pub open spec fn data_tag() -> Seq<u8> {
    seq![0x64u8, 0x61u8, 0x74u8, 0x61u8]
}

/// A whole file.
pub open spec fn wav(samples: Seq<i16>, sample_rate: int) -> Seq<u8> {
    header(samples, sample_rate) + pcm(samples, samples.len() as int)
}

proof fn lemma_low_bytes(x: int)
    requires
        0 <= x,
    ensures
        le16(x % 65536) == le16(x),
{
    let hi = x / 65536;
    let lo = x % 65536;
    assert(x == 65536 * hi + lo);
    assert(x / 256 == 256 * hi + lo / 256);
    assert(lo % 256 == x % 256);
    assert(lo / 256 % 256 == x / 256 % 256);
}

fn push16(out: &mut Vec<u8>, x: u32)
    requires
        x < 0x1_0000,
    ensures
        final(out)@ == old(out)@ + le16(x as int),
{
    out.push((x % 256) as u8);
    out.push((x / 256) as u8);
    assert(out@ =~= old(out)@ + le16(x as int));
}

fn push32(out: &mut Vec<u8>, x: u32)
    ensures
        final(out)@ == old(out)@ + le32(x as int),
{
    push16(out, x % 65536);
    push16(out, x / 65536);
    proof {
        reveal(le32);
        lemma_low_bytes(x as int);
    }
    assert(out@ =~= old(out)@ + le32(x as int));
}

fn push_tag(out: &mut Vec<u8>, a: u8, b: u8, c: u8, d: u8)
    ensures
        final(out)@ == old(out)@ + seq![a, b, c, d],
{
    out.push(a);
    out.push(b);
    out.push(c);
    out.push(d);
    assert(out@ =~= old(out)@ + seq![a, b, c, d]);
}

/// Appends a WAV file with the given samples.
pub fn write_wav_i16(out: &mut Vec<u8>, samples: &[i16], sample_rate: u32)
    requires
        data_len(samples@) + 36 <= u32::MAX,
        sample_rate * 2 <= u32::MAX,
    ensures
        final(out)@ == old(out)@ + wav(samples@, sample_rate as int),
{
    let ghost before = out@;
    let data: u32 = ((samples.len() as u128) * 2 % 0x1_0000_0000) as u32;
    push_tag(out, 0x52, 0x49, 0x46, 0x46);
    push32(out, 36 + data);
    push_tag(out, 0x57, 0x41, 0x56, 0x45);
    push_tag(out, 0x66, 0x6d, 0x74, 0x20);
    push32(out, 16);
    push16(out, 1);
    push16(out, 1);
    push32(out, sample_rate);
    push32(out, sample_rate * 2);
    push16(out, 2);
    push16(out, 16);
    push_tag(out, 0x64, 0x61, 0x74, 0x61);
    push32(out, data);
    assert(out@ =~= before + header(samples@, sample_rate as int));
    let ghost head = out@;
    let mut i: usize = 0;
    while i < samples.len()
        invariant
            i <= samples@.len(),
            out@ == head + pcm(samples@, i as int),
        decreases samples@.len() - i,
    {
        let s: i32 = samples[i] as i32;
        let bits: u32 = if s < 0 {
            (s + 65536) as u32
        } else {
            s as u32
        };
        push16(out, bits);
        assert(le16(bits as int) =~= le16(s as int));
        assert(out@ =~= head + pcm(samples@, i + 1));
        i += 1;
    }
    assert(out@ =~= before + wav(samples@, sample_rate as int));
}

/// Appends a WAV file with samples at the rate of the model.
pub fn write_wav(out: &mut Vec<u8>, samples: &[i16])
    requires
        data_len(samples@) + 36 <= u32::MAX,
    ensures
        final(out)@ == old(out)@ + wav(samples@, 24000),
{
    write_wav_i16(out, samples, SAMPLE_RATE)
}

/// The 16 bits at `i`, read as a number without a sign.
pub open spec fn read16(bytes: Seq<u8>, i: int) -> int {
    bytes[i] + bytes[i + 1] * 256
}

/// The 32 bits at `i`, read as a number without a sign.
#[verifier::opaque]
pub open spec fn read32(bytes: Seq<u8>, i: int) -> int {
    read16(bytes, i) + read16(bytes, i + 2) * 65536
}

/// The sample that the 16 bits at `i` stand for.
pub open spec fn read_sample(bytes: Seq<u8>, i: int) -> int {
    let bits = read16(bytes, i);
    if bits < 32768 {
        bits
    } else {
        bits - 65536
    }
}

proof fn lemma_pcm(samples: Seq<i16>, n: int)
    requires
        0 <= n <= samples.len(),
    ensures
        pcm(samples, n).len() == 2 * n,
        forall|i: int|
            0 <= i < n ==> read_sample(pcm(samples, n), 2 * i) == #[trigger] samples[i] as int,
    decreases n,
{
    if n > 0 {
        lemma_pcm(samples, n - 1);
        let front = pcm(samples, n - 1);
        let all = pcm(samples, n);
        assert forall|i: int| 0 <= i < n implies read_sample(all, 2 * i)
            == #[trigger] samples[i] as int by {
            if i < n - 1 {
                assert(all[2 * i] == front[2 * i] && all[2 * i + 1] == front[2 * i + 1]);
                assert(read_sample(front, 2 * i) == samples[i] as int);
            } else {
                let s = samples[i] as int;
                assert(all[2 * i] == le16(s)[0] && all[2 * i + 1] == le16(s)[1]);
                lemma_sample(s);
            }
        }
    }
}

proof fn lemma_sample(s: int)
    requires
        -32768 <= s < 32768,
    ensures
        ({
            let bits = s % 256 + s / 256 % 256 * 256;
            s == if bits < 32768 {
                bits
            } else {
                bits - 65536
            }
        }),
{
    let q = s / 256;
    assert(-128 <= q < 128);
    assert(q % 256 == if q < 0 {
        q + 256
    } else {
        q
    });
}

proof fn lemma_le16(x: int)
    requires
        0 <= x < 0x1_0000,
    ensures
        read16(le16(x), 0) == x,
{
    assert(x / 256 % 256 == x / 256);
}

proof fn lemma_le32(x: int)
    requires
        0 <= x < 0x1_0000_0000,
    ensures
        le32(x).len() == 4,
        read32(le32(x), 0) == x,
{
    reveal(le32);
    reveal(read32);
    let lo = x % 65536;
    lemma_le16(lo);
    lemma_le16(x / 65536);
    lemma_low_bytes(x);
}

/// What a number reads like does not depend on what stands around it.
proof fn lemma_read(bytes: Seq<u8>, i: int, n: int)
    requires
        0 <= i,
        i + n <= bytes.len(),
        n == 2 || n == 4,
    ensures
        n == 2 ==> read16(bytes, i) == read16(bytes.subrange(i, i + n), 0),
        n == 4 ==> read32(bytes, i) == read32(bytes.subrange(i, i + n), 0),
{
    reveal(read32);
    let part = bytes.subrange(i, i + n);
    assert(forall|j: int| 0 <= j < n ==> #[trigger] part[j] == bytes[i + j]);
    assert(part[0] == bytes[i + 0] && part[1] == bytes[i + 1]);
    if n == 4 {
        assert(part[2] == bytes[i + 2] && part[3] == bytes[i + 3]);
    }
}

proof fn lemma_header(samples: Seq<i16>, sample_rate: int)
    ensures
        ({
            let h = header(samples, sample_rate);
            &&& h.len() == 44
            &&& h.subrange(0, 4) == riff()
            &&& h.subrange(4, 8) == le32(36 + data_len(samples))
            &&& h.subrange(8, 16) == wave_fmt()
            &&& h.subrange(16, 20) == le32(16)
            &&& h.subrange(20, 22) == le16(1)
            &&& h.subrange(22, 24) == le16(1)
            &&& h.subrange(24, 28) == le32(sample_rate)
            &&& h.subrange(28, 32) == le32(sample_rate * 2)
            &&& h.subrange(32, 34) == le16(2)
            &&& h.subrange(34, 36) == le16(16)
            &&& h.subrange(36, 40) == data_tag()
            &&& h.subrange(40, 44) == le32(data_len(samples))
        }),
{
    reveal(le32);
    let h = header(samples, sample_rate);
    assert(h.len() == 44);
    assert(h.subrange(0, 4) =~= riff());
    assert(h.subrange(4, 8) =~= le32(36 + data_len(samples)));
    assert(h.subrange(8, 16) =~= wave_fmt());
    assert(h.subrange(16, 20) =~= le32(16));
    assert(h.subrange(20, 22) =~= le16(1));
    assert(h.subrange(22, 24) =~= le16(1));
    assert(h.subrange(24, 28) =~= le32(sample_rate));
    assert(h.subrange(28, 32) =~= le32(sample_rate * 2));
    assert(h.subrange(32, 34) =~= le16(2));
    assert(h.subrange(34, 36) =~= le16(16));
    assert(h.subrange(36, 40) =~= data_tag());
    assert(h.subrange(40, 44) =~= le32(data_len(samples)));
}

proof fn lemma_field(samples: Seq<i16>, sample_rate: int, i: int, n: int)
    requires
        0 <= i,
        i + n <= 44,
        n == 2 || n == 4,
    ensures
        ({
            let part = header(samples, sample_rate).subrange(i, i + n);
            &&& n == 2 ==> read16(wav(samples, sample_rate), i) == read16(part, 0)
            &&& n == 4 ==> read32(wav(samples, sample_rate), i) == read32(part, 0)
        }),
{
    lemma_header(samples, sample_rate);
    let file = wav(samples, sample_rate);
    lemma_read(file, i, n);
    assert(file.subrange(i, i + n) =~= header(samples, sample_rate).subrange(i, i + n));
}

proof fn lemma_length(samples: Seq<i16>, rate: int)
    ensures
        wav(samples, rate).len() == 44 + 2 * samples.len(),
{
    lemma_pcm(samples, samples.len() as int);
    lemma_header(samples, rate);
}

proof fn lemma_lengths_are_read(samples: Seq<i16>, rate: int)
    requires
        samples.len() * 2 + 36 <= u32::MAX,
    ensures
        read32(wav(samples, rate), 4) == 36 + 2 * samples.len(),
        read32(wav(samples, rate), 40) == 2 * samples.len(),
{
    lemma_header(samples, rate);
    lemma_field(samples, rate, 4, 4);
    lemma_field(samples, rate, 40, 4);
    lemma_le32(36 + data_len(samples));
    lemma_le32(data_len(samples));
}

proof fn lemma_format_is_read(samples: Seq<i16>, rate: int)
    requires
        0 <= rate,
        rate * 2 <= u32::MAX,
    ensures
        read32(wav(samples, rate), 16) == 16,
        read16(wav(samples, rate), 20) == 1,
        read16(wav(samples, rate), 22) == 1,
        read32(wav(samples, rate), 24) == rate,
        read32(wav(samples, rate), 28) == rate * 2,
        read16(wav(samples, rate), 32) == 2,
        read16(wav(samples, rate), 34) == 16,
{
    lemma_header(samples, rate);
    lemma_field(samples, rate, 16, 4);
    lemma_field(samples, rate, 20, 2);
    lemma_field(samples, rate, 32, 2);
    lemma_le16(2);
    lemma_field(samples, rate, 22, 2);
    lemma_field(samples, rate, 24, 4);
    lemma_field(samples, rate, 28, 4);
    lemma_field(samples, rate, 34, 2);
    lemma_le32(rate);
    lemma_le32(rate * 2);
    lemma_le16(1);
    lemma_le16(16);
    lemma_le32(16);
}

/// The letters that a file is told by.
proof fn lemma_tags_are_read(samples: Seq<i16>, rate: int)
    ensures
        ({
            let file = wav(samples, rate);
            &&& file[0] == 'R' as u8 && file[1] == 'I' as u8 && file[2] == 'F' as u8 && file[3]
                == 'F' as u8
            &&& file[8] == 'W' as u8 && file[9] == 'A' as u8 && file[10] == 'V' as u8 && file[11]
                == 'E' as u8
            &&& file[12] == 'f' as u8 && file[13] == 'm' as u8 && file[14] == 't' as u8 && file[15]
                == ' ' as u8
            &&& file[36] == 'd' as u8 && file[37] == 'a' as u8 && file[38] == 't' as u8 && file[39]
                == 'a' as u8
        }),
{
    lemma_header(samples, rate);
    let h = header(samples, rate);
    let file = wav(samples, rate);
    assert(forall|i: int| 0 <= i < 44 ==> #[trigger] file[i] == h[i]);
    assert(forall|i: int| 0 <= i < 4 ==> #[trigger] h.subrange(0, 4)[i] == h[i]);
    assert(forall|i: int| 0 <= i < 8 ==> #[trigger] h.subrange(8, 16)[i] == h[8 + i]);
    assert(forall|i: int| 0 <= i < 4 ==> #[trigger] h.subrange(36, 40)[i] == h[36 + i]);
    assert(riff()[0] == h[0] && riff()[1] == h[1] && riff()[2] == h[2] && riff()[3] == h[3]);
    let w = wave_fmt();
    assert(w[0] == h[8] && w[1] == h[9] && w[2] == h[10] && w[3] == h[11]);
    assert(w[4] == h[12] && w[5] == h[13] && w[6] == h[14] && w[7] == h[15]);
    let d = data_tag();
    assert(d[0] == h[36] && d[1] == h[37] && d[2] == h[38] && d[3] == h[39]);
}

proof fn lemma_samples_are_read(samples: Seq<i16>, rate: int, i: int)
    requires
        0 <= i < samples.len(),
    ensures
        read_sample(wav(samples, rate), 44 + 2 * i) == samples[i] as int,
{
    let n = samples.len() as int;
    let file = wav(samples, rate);
    let body = pcm(samples, n);
    lemma_pcm(samples, n);
    lemma_header(samples, rate);
    assert(file[44 + 2 * i] == body[2 * i] && file[44 + 2 * i + 1] == body[2 * i + 1]);
    assert(read_sample(body, 2 * i) == samples[i] as int);
}

/// A file holds what was written: its header says that it is 16-bit mono PCM, how long it is and
/// at which rate it plays, and its samples are read back.
pub proof fn law_wav_is_read_back(samples: Seq<i16>, sample_rate: u32)
    requires
        samples.len() * 2 + 36 <= u32::MAX,
        sample_rate * 2 <= u32::MAX,
    ensures
        ({
            let file = wav(samples, sample_rate as int);
            &&& file.len() == 44 + 2 * samples.len()
            &&& file[0] == 'R' as u8 && file[1] == 'I' as u8 && file[2] == 'F' as u8 && file[3]
                == 'F' as u8
            &&& read32(file, 4) == file.len() - 8
            &&& file[8] == 'W' as u8 && file[9] == 'A' as u8 && file[10] == 'V' as u8 && file[11]
                == 'E' as u8
            &&& file[12] == 'f' as u8 && file[13] == 'm' as u8 && file[14] == 't' as u8 && file[15]
                == ' ' as u8
            &&& read32(file, 16) == 16
            &&& read16(file, 20) == 1
            &&& read16(file, 22) == 1
            &&& read32(file, 24) == sample_rate
            &&& read32(file, 28) == sample_rate * 2
            &&& read16(file, 32) == 2
            &&& read16(file, 34) == 16
            &&& file[36] == 'd' as u8 && file[37] == 'a' as u8 && file[38] == 't' as u8 && file[39]
                == 'a' as u8
            &&& read32(file, 40) == 2 * samples.len()
            &&& forall|i: int|
                0 <= i < samples.len() ==> read_sample(file, 44 + 2 * i)
                    == #[trigger] samples[i] as int
        }),
{
    let rate = sample_rate as int;
    lemma_length(samples, rate);
    lemma_lengths_are_read(samples, rate);
    lemma_format_is_read(samples, rate);
    lemma_tags_are_read(samples, rate);
    assert forall|i: int| 0 <= i < samples.len() implies read_sample(wav(samples, rate), 44 + 2 * i)
        == #[trigger] samples[i] as int by {
        lemma_samples_are_read(samples, rate, i);
    }
}

} // verus!
