//! Audio frame assembly and container encoding.
//!
//! A recording arrives as binary chunks; a fixed ten-byte sentinel inside a
//! chunk marks its end. The assembler accumulates the bytes before the
//! sentinel. The sentinel is only recognised within a single chunk: one that
//! spans a chunk boundary is not matched, a known limitation of the framing.
//! A completed recording's raw little-endian 16-bit PCM bytes are wrapped in
//! the standard playback container for the transcription backend.

use vstd::prelude::*;

verus! {

/// Length of the end-of-recording sentinel, in bytes.
pub const SENTINEL_LEN: usize = 10;

/// The end-of-recording sentinel: the bytes of the ASCII text `END_STREAM`.
pub open spec fn sentinel() -> Seq<u8> {
    seq![69u8, 78u8, 68u8, 95u8, 83u8, 84u8, 82u8, 69u8, 65u8, 77u8]
}

/// Whether the sentinel sits at offset `i` of `data`.
pub open spec fn sentinel_at(data: Seq<u8>, i: int) -> bool {
    0 <= i && i + SENTINEL_LEN <= data.len() && data.subrange(i, i + SENTINEL_LEN) == sentinel()
}

/// The first offset at or after `i` where the sentinel sits, if any.
pub open spec fn spec_find_sentinel_from(data: Seq<u8>, i: int) -> Option<int>
    decreases data.len() - i,
{
    if i < 0 || i + SENTINEL_LEN > data.len() {
        None
    } else if data.subrange(i, i + SENTINEL_LEN) == sentinel() {
        Some(i)
    } else {
        spec_find_sentinel_from(data, i + 1)
    }
}

/// The first offset where the sentinel sits, if any.
pub open spec fn spec_find_sentinel(data: Seq<u8>) -> Option<int> {
    spec_find_sentinel_from(data, 0)
}

/// Whether the ten bytes of `data` starting at `i` are the sentinel.
fn is_sentinel_at(data: &[u8], i: usize) -> (r: bool)
    requires
        i + SENTINEL_LEN <= data@.len(),
    ensures
        r == sentinel_at(data@, i as int),
{
    let dlen = data.len();
    let mut k: usize = 0;
    while k < SENTINEL_LEN
        invariant
            0 <= k <= SENTINEL_LEN,
            dlen == data@.len(),
            i + SENTINEL_LEN <= data@.len(),
            forall|j: int| 0 <= j < k ==> data@[i + j] == sentinel()[j],
        decreases SENTINEL_LEN - k,
    {
        let expected: u8 = sentinel_byte(k);
        proof {
            assert(i + k < dlen);
        }
        if data[i + k] != expected {
            proof {
                let sub = data@.subrange(i as int, i + SENTINEL_LEN as int);
                assert(sub[k as int] != sentinel()[k as int]);
            }
            return false;
        }
        k = k + 1;
    }
    proof {
        assert(data@.subrange(i as int, i + SENTINEL_LEN as int) =~= sentinel());
    }
    true
}

/// The sentinel's byte at offset `k`.
fn sentinel_byte(k: usize) -> (b: u8)
    requires
        k < SENTINEL_LEN,
    ensures
        b == sentinel()[k as int],
{
    let marker: [u8; 10] = [69u8, 78u8, 68u8, 95u8, 83u8, 84u8, 82u8, 69u8, 65u8, 77u8];
    marker[k]
}

/// The first offset of the sentinel within `data`, scanning left to right.
pub fn find_sentinel(data: &[u8]) -> (r: Option<usize>)
    ensures
        match r {
            Some(i) => spec_find_sentinel(data@) == Some(i as int) && i + SENTINEL_LEN
                <= data@.len(),
            None => spec_find_sentinel(data@) is None,
        },
{
    if data.len() < SENTINEL_LEN {
        return None;
    }
    let mut i: usize = 0;
    while i <= data.len() - SENTINEL_LEN
        invariant
            SENTINEL_LEN <= data@.len(),
            0 <= i <= data@.len() - SENTINEL_LEN + 1,
            spec_find_sentinel(data@) == spec_find_sentinel_from(data@, i as int),
        decreases data@.len() - i,
    {
        if is_sentinel_at(data, i) {
            return Some(i);
        }
        i = i + 1;
    }
    None
}

/// Accumulates the binary chunks of one recording until the sentinel marks
/// its end. Lives only between the first chunk and sentinel detection; the
/// buffer is handed out and reset when the recording completes or is dropped.
pub struct AudioAssembler {
    buffer: Vec<u8>,
}

impl View for AudioAssembler {
    type V = Seq<u8>;

    closed spec fn view(&self) -> Seq<u8> {
        self.buffer@
    }
}

impl AudioAssembler {
    pub fn new() -> (a: AudioAssembler)
        ensures
            a@ == Seq::<u8>::empty(),
    {
        AudioAssembler { buffer: Vec::new() }
    }

    /// Feed one chunk. If the sentinel sits in the chunk, only the bytes
    /// before its first occurrence are kept and the recording is complete;
    /// otherwise the whole chunk is kept and the recording goes on.
    pub fn feed(&mut self, chunk: &[u8]) -> (complete: bool)
        ensures
            match spec_find_sentinel(chunk@) {
                Some(pos) => complete && final(self)@ == old(self)@ + chunk@.take(pos),
                None => !complete && final(self)@ == old(self)@ + chunk@,
            },
    {
        match find_sentinel(chunk) {
            Some(pos) => {
                self.buffer.extend_from_slice(&chunk[0..pos]);
                proof {
                    assert(chunk@.subrange(0, pos as int) =~= chunk@.take(pos as int));
                }
                true
            },
            None => {
                self.buffer.extend_from_slice(chunk);
                proof {
                    assert(chunk@.subrange(0, chunk@.len() as int) =~= chunk@);
                }
                false
            },
        }
    }

    /// Bytes assembled so far.
    pub fn len(&self) -> (n: usize)
        ensures
            n == self@.len(),
    {
        self.buffer.len()
    }

    /// Hand out the assembled bytes and reset the assembler for the next
    /// recording.
    pub fn take_buffer(&mut self) -> (data: Vec<u8>)
        ensures
            data@ == old(self)@,
            final(self)@ == Seq::<u8>::empty(),
    {
        let mut data: Vec<u8> = Vec::new();
        core::mem::swap(&mut data, &mut self.buffer);
        data
    }
}

/// The value carried by one little-endian byte pair, as a signed 16-bit
/// sample.
pub open spec fn spec_sample(lo: u8, hi: u8) -> i16 {
    (if (hi as int) * 256 + (lo as int) < 32768 {
        (hi as int) * 256 + (lo as int)
    } else {
        (hi as int) * 256 + (lo as int) - 65536
    }) as i16
}

/// The sample stream carried by raw bytes: consecutive little-endian pairs;
/// a trailing odd byte carries no sample and is dropped.
pub open spec fn spec_samples(raw: Seq<u8>) -> Seq<i16> {
    Seq::new(raw.len() / 2, |i: int| spec_sample(raw[2 * i], raw[2 * i + 1]))
}

/// Decode raw little-endian PCM bytes into their 16-bit samples.
pub fn pcm_samples(raw: &[u8]) -> (samples: Vec<i16>)
    ensures
        samples@ == spec_samples(raw@),
{
    let rlen = raw.len();
    let n = rlen / 2;
    let mut samples: Vec<i16> = Vec::new();
    let mut i: usize = 0;
    while i < n
        invariant
            rlen == raw@.len(),
            n == raw@.len() / 2,
            0 <= i <= n,
            samples@ == spec_samples(raw@).take(i as int),
        decreases n - i,
    {
        proof {
            assert(2 * i + 1 < rlen);
        }
        let lo = raw[2 * i];
        let hi = raw[2 * i + 1];
        let s: i16 = if hi < 128 {
            (hi as i16) * 256 + (lo as i16)
        } else {
            ((hi as i16) - 256) * 256 + (lo as i16)
        };
        samples.push(s);
        proof {
            assert(s == spec_sample(raw@[2 * i as int], raw@[2 * i + 1]));
            assert(samples@ =~= spec_samples(raw@).take(i + 1 as int));
        }
        i = i + 1;
    }
    proof {
        assert(spec_samples(raw@).take(n as int) =~= spec_samples(raw@));
    }
    samples
}

/// Names the container bytes hound produces for one recording in the fixed
/// format used here: 16 kHz, one channel, 16-bit integer samples. A pure
/// function of the samples.
pub uninterp spec fn wav_bytes_of(samples: Seq<i16>) -> Seq<u8>;

/// Relies on hound's `WavWriter`: writing every sample with the fixed spec
/// into an in-memory buffer and finalizing yields the container bytes. With
/// 16-bit integer samples and one channel neither writing nor finalizing can
/// fail on an in-memory buffer; the length bound keeps the container's 32-bit
/// size fields from overflowing.
#[verifier::external_body]
fn wav_container(samples: &[i16]) -> (out: Vec<u8>)
    requires
        samples@.len() <= 0x0fff_ffff,
    ensures
        out@ == wav_bytes_of(samples@),
{
    let spec = hound::WavSpec {
        channels: 1,
        sample_rate: 16000,
        bits_per_sample: 16,
        sample_format: hound::SampleFormat::Int,
    };
    let mut cursor = std::io::Cursor::new(Vec::new());
    let mut writer = hound::WavWriter::new(&mut cursor, spec).expect("in-memory header write");
    for s in samples {
        writer.write_sample(*s).expect("in-memory sample write");
    }
    writer.finalize().expect("in-memory header update");
    cursor.into_inner()
}

/// Wrap raw little-endian PCM bytes in the standard playback container used
/// for transcription: 16 kHz, mono, 16-bit integer samples.
pub fn encode_wav(raw: &[u8]) -> (out: Vec<u8>)
    requires
        raw@.len() <= 0x1fff_fffe,
    ensures
        out@ == wav_bytes_of(spec_samples(raw@)),
{
    let samples = pcm_samples(raw);
    wav_container(samples.as_slice())
}

} // verus!
