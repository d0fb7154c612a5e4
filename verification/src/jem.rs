//! Configuration rules of the jet-engine-modulation (micro-Doppler)
//! analyser: CIC decimation per analysis mode and accepted FFT sizes.
use vstd::prelude::*;
use crate::cic::{CicDecimator, CicState};
use crate::text::same_str;

verus! {

/// Analysis band of the micro-Doppler analyser.
#[derive(Clone, Copy, Debug, PartialEq, Eq, Structural)]
pub enum CicMode {
    /// Breathing and other very slow motion (decimate by 80).
    Seismic,
    /// Rotor and blade modulation (decimate by 8).
    Rotary,
    /// Audio band (no decimation).
    Acoustic,
}

/// CIC stages used in every mode.
pub const CIC_STAGES: usize = 3;

/// Decimation factor of a mode.
pub open spec fn mode_factor(mode: CicMode) -> usize {
    match mode {
        CicMode::Seismic => 80,
        CicMode::Rotary => 8,
        CicMode::Acoustic => 1,
    }
}

/// Decimation factor of a mode.
pub fn cic_decimation_factor(mode: CicMode) -> (r: usize)
    ensures
        r == mode_factor(mode),
{
    match mode {
        CicMode::Seismic => 80,
        CicMode::Rotary => 8,
        CicMode::Acoustic => 1,
    }
}

/// The fresh three-stage decimator of a mode.
pub fn decimator_for_mode(mode: CicMode) -> (d: CicDecimator)
    ensures
        d.wf(),
        d.view().r == mode_factor(mode),
        d.view().n == CIC_STAGES,
        d.view().counter == 0,
        d.view().int_re == Seq::new(CIC_STAGES as nat, |i: int| 0i64),
        d.view().int_im == Seq::new(CIC_STAGES as nat, |i: int| 0i64),
        d.view().comb_re == Seq::new(CIC_STAGES as nat, |i: int| 0i64),
        d.view().comb_im == Seq::new(CIC_STAGES as nat, |i: int| 0i64),
{
    CicDecimator::new(cic_decimation_factor(mode), CIC_STAGES)
}

/// FFT sizes the analyser accepts: powers of two from 256 to 8192.
pub open spec fn supported_fft_size(size: usize) -> bool {
    size == 256 || size == 512 || size == 1024 || size == 2048 || size == 4096 || size == 8192
}

/// Whether a requested FFT size is accepted.
pub fn is_supported_fft_size(size: usize) -> (b: bool)
    ensures
        b == supported_fft_size(size),
{
    size == 256 || size == 512 || size == 1024 || size == 2048 || size == 4096 || size == 8192
}

/// Whether a size request changes the analyser: the size is accepted and
/// differs from the current one. Other requests are ignored.
pub fn fft_size_change(current: usize, requested: usize) -> (b: bool)
    ensures
        b == (supported_fft_size(requested) && requested != current),
{
    is_supported_fft_size(requested) && requested != current
}

/// The mode a name selects: "Seismic", "Rotary" or "Acoustic".
pub open spec fn cic_mode_named(name: Seq<char>) -> Option<CicMode> {
    if name == "Seismic"@ {
        Some(CicMode::Seismic)
    } else if name == "Rotary"@ {
        Some(CicMode::Rotary)
    } else if name == "Acoustic"@ {
        Some(CicMode::Acoustic)
    } else {
        None
    }
}

/// The mode a name selects, if any.
pub fn parse_cic_mode(name: &str) -> (m: Option<CicMode>)
    ensures
        m == cic_mode_named(name@),
{
    if same_str(name, "Seismic") {
        Some(CicMode::Seismic)
    } else if same_str(name, "Rotary") {
        Some(CicMode::Rotary)
    } else if same_str(name, "Acoustic") {
        Some(CicMode::Acoustic)
    } else {
        None
    }
}

/// Decimation that the vibrometer reports for a mode name: that of the
/// named analysis band, and none (1) for any other name, such as "Bypass".
pub fn vibrometer_decimation(mode: &str) -> (r: usize)
    ensures
        r == match cic_mode_named(mode@) {
            Some(m) => mode_factor(m),
            None => 1,
        },
{
    match parse_cic_mode(mode) {
        Some(m) => cic_decimation_factor(m),
        None => 1,
    }
}

} // verus!
