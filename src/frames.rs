use vstd::prelude::*;
use vstd::string::*;
use ndarray::{Array2, ShapeBuilder};

verus! {

/// The largest frame count a buffer may hold: its stereo matrix then
/// stays addressable on every target.
pub const MAX_FRAMES: usize = 0x1fff_ffff;

/// Number of channels of every captured buffer: the design is stereo only.
pub const CHANNELS: usize = 2;

/// A frame-by-channel matrix of samples, held in an ndarray `Array2`.
/// The array stays private: Verus does not take a declaration of
/// `ArrayBase` with its `RawData` bound, so the matrix is reached only
/// through the functions below and described by `samples_of`.
#[verifier::external_body]
pub struct SampleMatrix {
    m: Array2<i16>,
}

/// The rows of a two-dimensional sample array, each a sequence of samples.
pub uninterp spec fn samples_of(m: SampleMatrix) -> Seq<Seq<i16>>;

/// Relies on ndarray's `Array2::zeros` with a column-major shape: `rows`
/// rows of `cols` zeros. It panics where the product of the non-zero axis
/// lengths exceeds `isize::MAX`, and its `Vec` where the bytes of the
/// elements (two each) do.
#[verifier::external_body]
fn zero_matrix(rows: usize, cols: usize) -> (m: SampleMatrix)
    requires
        rows <= isize::MAX,
        cols <= isize::MAX,
        rows * cols * 2 <= isize::MAX,
    ensures
        samples_of(m) == Seq::new(rows as nat, |f: int| Seq::new(cols as nat, |c: int| 0i16)),
{
    SampleMatrix { m: Array2::zeros((rows, cols).f()) }
}

/// Relies on ndarray's `IndexMut<[usize; 2]>`: writes the one element at
/// row `f`, column `c`, and panics out of bounds.
#[verifier::external_body]
fn set_sample(m: &mut SampleMatrix, f: usize, c: usize, v: i16)
    requires
        f < samples_of(*old(m)).len(),
        c < samples_of(*old(m))[f as int].len(),
    ensures
        samples_of(*final(m)) == samples_of(*old(m)).update(
            f as int,
            samples_of(*old(m))[f as int].update(c as int, v),
        ),
{
    m.m[[f, c]] = v;
}

/// Relies on ndarray's `Index<[usize; 2]>`: the element at row `f`,
/// column `c`; it panics out of bounds.
#[verifier::external_body]
fn sample_at(m: &SampleMatrix, f: usize, c: usize) -> (v: i16)
    requires
        f < samples_of(*m).len(),
        c < samples_of(*m)[f as int].len(),
    ensures
        v == samples_of(*m)[f as int][c as int],
{
    m.m[[f, c]]
}

impl SampleMatrix {
    /// The sample of channel `c` in frame `f`.
    pub fn get(&self, f: usize, c: usize) -> (v: i16)
        requires
            f < samples_of(*self).len(),
            c < samples_of(*self)[f as int].len(),
        ensures
            v == samples_of(*self)[f as int][c as int],
    {
        sample_at(self, f, c)
    }
}

/// One captured buffer: a frame-major matrix of 16-bit samples with the
/// metadata that describes it.
pub struct AudioRaw {
    /// Samples, `r[f][c]` being channel `c` of frame `f`.
    pub r: SampleMatrix,
    /// Sample format tag.
    pub rt: String,
    /// Matrix layout tag.
    pub ml: String,
    /// Channel count.
    pub cc: usize,
    /// Frame count.
    pub sc: usize,
    /// Sample rate in Hz.
    pub sr: i32,
}

pub open spec fn format_tag() -> Seq<char> {
    "S16LE"@
}

pub open spec fn layout_tag() -> Seq<char> {
    "column"@
}

impl AudioRaw {
    /// The sample matrix as nested sequences.
    pub open spec fn matrix(&self) -> Seq<Seq<i16>> {
        samples_of(self.r)
    }

    /// Two channels, `sc` rows of two samples each, and the fixed tags.
    pub open spec fn wf(&self) -> bool {
        &&& self.cc == CHANNELS
        &&& self.sc <= MAX_FRAMES
        &&& self.matrix().len() == self.sc
        &&& forall|f: int| 0 <= f < self.sc ==> (#[trigger] self.matrix()[f]).len() == CHANNELS
        &&& self.rt@ == format_tag()
        &&& self.ml@ == layout_tag()
    }
}

/// Copies a buffer given channel by channel (`channels[c][f]`) into the
/// frame-major matrix of an `AudioRaw`, frames outer, channels inner.
pub fn copy_data_and_create_audio_raw_struct(channels: &Vec<Vec<i16>>, sample_rate: i32) -> (ar: AudioRaw)
    requires
        channels@.len() == CHANNELS,
        channels@[0]@.len() == channels@[1]@.len(),
        channels@[0]@.len() <= MAX_FRAMES,
    ensures
        ar.wf(),
        ar.sc == channels@[0]@.len(),
        ar.sr == sample_rate,
        forall|f: int, c: int|
            0 <= f < ar.sc && 0 <= c < CHANNELS ==> #[trigger] ar.matrix()[f][c] == channels@[c]@[f],
{
    let frames = channels[0].len();
    let mut arr = zero_matrix(frames, CHANNELS);
    let mut f: usize = 0;
    while f < frames
        invariant
            frames == channels@[0]@.len(),
            channels@.len() == CHANNELS,
            channels@[0]@.len() == channels@[1]@.len(),
            f <= frames,
            samples_of(arr).len() == frames,
            forall|g: int| 0 <= g < frames ==> (#[trigger] samples_of(arr)[g]).len() == CHANNELS,
            forall|g: int, c: int|
                0 <= g < f && 0 <= c < CHANNELS ==> #[trigger] samples_of(arr)[g][c] == channels@[c]@[g],
        decreases frames - f,
    {
        let mut c: usize = 0;
        while c < CHANNELS
            invariant
                channels@.len() == CHANNELS,
                frames == channels@[0]@.len(),
                f < frames,
                channels@[0]@.len() == channels@[1]@.len(),
                c <= CHANNELS,
                samples_of(arr).len() == frames,
                forall|g: int| 0 <= g < frames ==> (#[trigger] samples_of(arr)[g]).len() == CHANNELS,
                forall|g: int, k: int|
                    0 <= g < f && 0 <= k < CHANNELS ==> #[trigger] samples_of(arr)[g][k] == channels@[k]@[g],
                forall|k: int| 0 <= k < c ==> #[trigger] samples_of(arr)[f as int][k] == channels@[k]@[f as int],
            decreases CHANNELS - c,
        {
            set_sample(&mut arr, f, c, channels[c][f]);
            c = c + 1;
        }
        f = f + 1;
    }
    let ar = AudioRaw {
        r: arr,
        rt: String::from_str("S16LE"),
        ml: String::from_str("column"),
        cc: CHANNELS,
        sc: frames,
        sr: sample_rate,
    };
    ar
}

} // verus!
