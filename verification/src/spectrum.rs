//! The spectrum display: which band a frequency bin of the transform counts to.

use crate::ui::WAVEFORM_SIZE;
use vstd::prelude::*;

verus! {

/// The number of bands.
pub const BANDS: usize = 8;

/// The number of bins in a band.
pub const BINS_PER_BAND: usize = 16;

/// The first bin that is shown; the one before it is the mean of the signal.
pub const FIRST_BIN: usize = 1;

/// The bin after the last that is shown. The bins from here on mirror those before.
pub const END_BIN: usize = 128;

/// The band of a bin.
pub open spec fn band(bin: int) -> int {
    if bin / BINS_PER_BAND as int >= BANDS {
        BANDS - 1
    } else {
        bin / BINS_PER_BAND as int
    }
}

/// The band that a bin counts to.
pub fn band_of_bin(bin: usize) -> (r: usize)
    ensures
        r == band(bin as int),
        r < BANDS,
{
    let b: usize = bin / BINS_PER_BAND;
    if b >= BANDS {
        BANDS - 1
    } else {
        b
    }
}

/// The captions of the bands, from low to high.
pub open spec fn band_captions() -> Seq<Seq<char>> {
    seq!["Sub"@, "Bass"@, "LoMid"@, "Mid"@, "HiMid"@, "Pres"@, "Treb"@, "Air"@]
}

/// The caption of a band.
pub fn band_caption(i: usize) -> (r: &'static str)
    requires
        i < BANDS,
    ensures
        r@ == band_captions()[i as int],
{
    match i {
        0 => "Sub",
        1 => "Bass",
        2 => "LoMid",
        3 => "Mid",
        4 => "HiMid",
        5 => "Pres",
        6 => "Treb",
        _ => "Air",
    }
}

/// The bins that are shown are the lower half of the transform without its mean, and
/// the bands share them out in order: a band has the bins between sixteen times its
/// number and sixteen times the next.
pub proof fn law_bands_share_bins(bin: int, b: int)
    requires
        FIRST_BIN <= bin < END_BIN,
        0 <= b < BANDS,
    ensures
        2 * END_BIN == WAVEFORM_SIZE,
        band(bin) == b <==> BINS_PER_BAND * b <= bin < BINS_PER_BAND * (b + 1),
{
}

/// A higher bin never counts to a lower band.
pub proof fn law_bands_ascend(low: int, high: int)
    requires
        0 <= low <= high,
    ensures
        band(low) <= band(high),
{
}

} // verus!
