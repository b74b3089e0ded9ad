//! What the README figure shows and where it is written; drawing it is left to the caller.
use vstd::prelude::*;

verus! {

/// Number of sample points in the README figure.
pub const README_SAMPLES: u32 = 40;

/// The README figure: sine and cosine sampled at `x = 0.08 * pi * i` for each sample index
/// `i`, in order, written as an image to `path`.
pub struct ReadmeFigure {
    pub sample_indices: Vec<u32>,
    pub path: String,
}

/// The README figure's sample indices `0, 1, ..., README_SAMPLES - 1` and its output file,
/// `/tmp/simple.png`.
pub fn readme() -> (r: ReadmeFigure)
    ensures
        r.sample_indices@ == Seq::new(README_SAMPLES as nat, |i: int| i as u32),
        r.path@ == "/tmp/simple.png"@,
{
    let mut sample_indices: Vec<u32> = Vec::with_capacity(README_SAMPLES as usize);
    for i in 0..README_SAMPLES
        invariant
            sample_indices@ == Seq::new(i as nat, |k: int| k as u32),
    {
        sample_indices.push(i);
        assert(sample_indices@ =~= Seq::new((i + 1) as nat, |k: int| k as u32));
    }
    let path = String::from_str("/tmp/simple.png");
    ReadmeFigure { sample_indices, path }
}

} // verus!
