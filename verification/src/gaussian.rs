//! The two records of a Gaussian: as stored in a point-cloud file, and as laid
//! out for the GPU. Every field is the bit pattern of a 32-bit float.

use vstd::prelude::*;
use crate::bytes::{le_word, read_le_word};

verus! {

/// Words in a stored record.
pub const RAW_GAUSSIAN_WORDS: usize = 62;

/// Bytes in a stored record.
pub const RAW_GAUSSIAN_SIZE: usize = 248;

/// Words in a GPU record.
pub const GPU_GAUSSIAN_WORDS: usize = 16;

/// Bytes in a GPU record.
pub const GPU_GAUSSIAN_SIZE: usize = 64;

/// A Gaussian as stored: position, normal, the constant spherical-harmonic
/// colour, 45 higher-order coefficients, the opacity logit, the logarithms of
/// the three scales, and the rotation quaternion as (w, x, y, z).
#[derive(Clone, Copy, Debug)]
pub struct RawGaussian {
    pub position: [u32; 3],
    pub normals: [u32; 3],
    pub sh_dc: [u32; 3],
    pub sh_rest: [u32; 45],
    pub opacity: u32,
    pub scale: [u32; 3],
    pub rotation: [u32; 4],
}

/// A Gaussian as the GPU reads it: four rows of four words, the two pad words
/// zero.
#[derive(Clone, Copy, Debug)]
pub struct GpuGaussian {
    pub position: [u32; 3],
    pub opacity_logit: u32,
    pub sh_dc: [u32; 3],
    pub _pad0: u32,
    pub scale_log: [u32; 3],
    pub _pad1: u32,
    pub rotation: [u32; 4],
}

impl RawGaussian {
    /// The 62 words of the record in stored order.
    pub open spec fn words(&self) -> Seq<u32> {
        self.position@ + self.normals@ + self.sh_dc@ + self.sh_rest@ + seq![self.opacity]
            + self.scale@ + self.rotation@
    }

    /// Decodes the record whose 248 bytes start at `data[at]`: 62 little-endian
    /// words in stored order.
    pub fn decode(data: &[u8], at: usize) -> (raw: RawGaussian)
        requires
            at + RAW_GAUSSIAN_SIZE <= data.len(),
        ensures
            raw.words() == stored_words(data@, at as int),
    {
        let position: [u32; 3] = [
            read_le_word(data, at),
            read_le_word(data, at + 4),
            read_le_word(data, at + 8),
        ];
        let normals: [u32; 3] = [
            read_le_word(data, at + 12),
            read_le_word(data, at + 16),
            read_le_word(data, at + 20),
        ];
        let sh_dc: [u32; 3] = [
            read_le_word(data, at + 24),
            read_le_word(data, at + 28),
            read_le_word(data, at + 32),
        ];
        let mut sh_rest: [u32; 45] = [0u32; 45];
        let mut k: usize = 0;
        while k < 45
            invariant
                k <= 45,
                at + RAW_GAUSSIAN_SIZE <= data.len(),
                forall|j: int|
                    0 <= j < k ==> #[trigger] sh_rest@[j] == le_word(data@, at + 36 + 4 * j),
            decreases 45 - k,
        {
            sh_rest[k] = read_le_word(data, at + 36 + 4 * k);
            k = k + 1;
        }
        let opacity: u32 = read_le_word(data, at + 216);
        let scale: [u32; 3] = [
            read_le_word(data, at + 220),
            read_le_word(data, at + 224),
            read_le_word(data, at + 228),
        ];
        let rotation: [u32; 4] = [
            read_le_word(data, at + 232),
            read_le_word(data, at + 236),
            read_le_word(data, at + 240),
            read_le_word(data, at + 244),
        ];
        let raw = RawGaussian { position, normals, sh_dc, sh_rest, opacity, scale, rotation };
        proof {
            let got = raw.words();
            let want = stored_words(data@, at as int);
            assert(got.len() == 62);
            assert forall|i: int| 0 <= i < 62 implies got[i] == want[i] by {
                if i < 3 {
                    assert(got[i] == position@[i]);
                } else if i < 6 {
                    assert(got[i] == normals@[i - 3]);
                } else if i < 9 {
                    assert(got[i] == sh_dc@[i - 6]);
                } else if i < 54 {
                    assert(got[i] == sh_rest@[i - 9]);
                } else if i < 55 {
                    assert(got[i] == opacity);
                } else if i < 58 {
                    assert(got[i] == scale@[i - 55]);
                } else {
                    assert(got[i] == rotation@[i - 58]);
                }
            }
            assert(got =~= want);
        }
        raw
    }
}

/// The 62 little-endian words that stand at `data[at..at + 248]`.
pub open spec fn stored_words(data: Seq<u8>, at: int) -> Seq<u32> {
    Seq::new(RAW_GAUSSIAN_WORDS as nat, |k: int| le_word(data, at + 4 * k))
}

impl GpuGaussian {
    /// The sixteen words of the record in buffer order.
    pub open spec fn words(&self) -> Seq<u32> {
        self.position@ + seq![self.opacity_logit] + self.sh_dc@ + seq![self._pad0]
            + self.scale_log@ + seq![self._pad1] + self.rotation@
    }

    /// A GPU record has sixteen words.
    pub proof fn lemma_words_len(&self)
        ensures
            self.words().len() == GPU_GAUSSIAN_WORDS,
    {
        assert(self.position@.len() == 3);
        assert(self.sh_dc@.len() == 3);
        assert(self.scale_log@.len() == 3);
        assert(self.rotation@.len() == 4);
    }

    /// The GPU record of a stored Gaussian, given its rotation already
    /// normalised: position, colour, opacity logit and log-scales are carried
    /// over unchanged, the normal and the higher-order coefficients are
    /// dropped, and both pad words are zero.
    pub fn from_raw(raw: &RawGaussian, rotation: [u32; 4]) -> (gpu: GpuGaussian)
        ensures
            gpu.position == raw.position,
            gpu.opacity_logit == raw.opacity,
            gpu.sh_dc == raw.sh_dc,
            gpu._pad0 == 0,
            gpu.scale_log == raw.scale,
            gpu._pad1 == 0,
            gpu.rotation == rotation,
    {
        GpuGaussian {
            position: raw.position,
            opacity_logit: raw.opacity,
            sh_dc: raw.sh_dc,
            _pad0: 0,
            scale_log: raw.scale,
            _pad1: 0,
            rotation,
        }
    }

    /// Appends the sixteen words of the record to `out`.
    pub fn push_words(&self, out: &mut Vec<u32>)
        ensures
            final(out)@ == old(out)@ + self.words(),
    {
        out.push(self.position[0]);
        out.push(self.position[1]);
        out.push(self.position[2]);
        out.push(self.opacity_logit);
        out.push(self.sh_dc[0]);
        out.push(self.sh_dc[1]);
        out.push(self.sh_dc[2]);
        out.push(self._pad0);
        out.push(self.scale_log[0]);
        out.push(self.scale_log[1]);
        out.push(self.scale_log[2]);
        out.push(self._pad1);
        out.push(self.rotation[0]);
        out.push(self.rotation[1]);
        out.push(self.rotation[2]);
        out.push(self.rotation[3]);
        proof {
            self.lemma_words_len();
        }
        assert(out@ =~= old(out)@ + self.words());
    }
}

/// The words of all the records, one record after the other.
pub open spec fn all_words(gaussians: Seq<GpuGaussian>) -> Seq<u32> {
    Seq::new(
        gaussians.len() * GPU_GAUSSIAN_WORDS as nat,
        |k: int| gaussians[k / GPU_GAUSSIAN_WORDS as int].words()[k % GPU_GAUSSIAN_WORDS as int],
    )
}

/// The words of all the records, one record after the other: what the
/// Gaussian buffer holds, word for word.
pub fn gaussian_words(gaussians: &[GpuGaussian]) -> (words: Vec<u32>)
    ensures
        words@ == all_words(gaussians@),
{
    let mut words: Vec<u32> = Vec::new();
    let mut i: usize = 0;
    while i < gaussians.len()
        invariant
            i <= gaussians@.len(),
            words@ == all_words(gaussians@.take(i as int)),
        decreases gaussians@.len() - i,
    {
        let ghost before = words@;
        gaussians[i].push_words(&mut words);
        proof {
            let done = gaussians@.take(i as int);
            let next = gaussians@.take(i + 1);
            gaussians@[i as int].lemma_words_len();
            assert forall|k: int| 0 <= k < words@.len() implies words@[k] == all_words(next)[k] by {
                if k < before.len() {
                    assert(before[k] == all_words(done)[k]);
                    assert(done[k / 16] == next[k / 16]);
                } else {
                    assert(k / 16 == i && k % 16 == k - before.len());
                }
            }
            assert(words@ =~= all_words(next));
        }
        i = i + 1;
    }
    assert(gaussians@.take(gaussians@.len() as int) =~= gaussians@);
    words
}

} // verus!
