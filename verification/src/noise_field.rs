//! The noise field: one fractal-noise generator shared by all chunk
//! generation, sampled at integer tile coordinates and quantized to the
//! engine's sample scale.

use vstd::prelude::*;
use crate::tile::NOISE_SCALE;
use noise::MultiFractal;
use noise::NoiseFn;

verus! {

/// Declares the outside generator type so that it can stand in a field; its
/// inside stays opaque.
#[verifier::external_type_specification]
#[verifier::external_body]
#[verifier::reject_recursive_types(T)]
pub struct ExFbm<T>(noise::Fbm<T>);

/// Declares the outside base-noise type used to instantiate the generator.
#[verifier::external_type_specification]
#[verifier::external_body]
pub struct ExOpenSimplex(noise::OpenSimplex);

/// The quantized noise value of the field with the given seed at an integer
/// tile coordinate. The outside generator computes it from the seed, the
/// fixed fractal parameters and the point alone, so the value is named rather
/// than spelled out; it is the same in every run for the same arguments.
pub uninterp spec fn noise_sample(seed: u32, x: int, y: int) -> u16;

/// A fractal Brownian motion noise field over an OpenSimplex base,
/// parameterized once at construction and immutable thereafter. Sampling is a
/// pure function of the seed and the sample point: the same seed gives the
/// same terrain forever.
pub struct NoiseField {
    fbm: noise::Fbm<noise::OpenSimplex>,
    seed: u32,
}

/// Relies on noise::Fbm::new and the noise::MultiFractal setters: builds a
/// fractal Brownian motion generator over an OpenSimplex base from the seed,
/// with frequency 0.01, persistence 0.6, lacunarity 2.0 and 5 octaves. The
/// fractional parameters are handed over as exact second values of integer
/// durations. The builder seeds each octave's source with `seed` plus the
/// octave index, an unchecked addition, so seeds at the top of the `u32`
/// range are left out.
#[verifier::external_body]
fn make_fbm(seed: u32) -> noise::Fbm<noise::OpenSimplex>
    requires
        seed <= u32::MAX - 8,
{
    let frequency = std::time::Duration::from_millis(10).as_secs_f64();
    let persistence = std::time::Duration::from_millis(600).as_secs_f64();
    let lacunarity = std::time::Duration::from_secs(2).as_secs_f64();
    noise::Fbm::<noise::OpenSimplex>::new(seed)
        .set_frequency(frequency)
        .set_persistence(persistence)
        .set_lacunarity(lacunarity)
        .set_octaves(5)
}

impl NoiseField {
    /// The seed this field was built with.
    pub closed spec fn seed_spec(&self) -> u32 {
        self.seed
    }

    /// Builds the noise field for a seed, with the engine's fixed fractal
    /// parameters. The outside builder offsets the seed by each octave
    /// index, so seeds at the very top of the `u32` range are excluded.
    pub fn new(seed: u32) -> (r: NoiseField)
        requires
            seed <= u32::MAX - 8,
        ensures
            r.seed_spec() == seed,
    {
        NoiseField { fbm: make_fbm(seed), seed }
    }

    /// Relies on noise::Fbm::get (through noise::NoiseFn<f64, 2>): a
    /// deterministic function of the generator's seed, its fractal parameters
    /// and the sample point, with a result scaled into [-1, 1]. The result v
    /// is remapped to the unit interval by (v + 1) / 2 and quantized to
    /// `NOISE_SCALE` steps, clamped into [0, NOISE_SCALE]; the `fbm` field
    /// was built by `make_fbm` from `self.seed`, so the quantized value is a
    /// function of the seed and the point alone.
    #[verifier::external_body]
    pub fn sample(&self, x: i32, y: i32) -> (r: u16)
        ensures
            r == noise_sample(self.seed_spec(), x as int, y as int),
            r <= NOISE_SCALE,
    {
        let v = self.fbm.get([x, y].map(Into::into));
        let half_scale = Into::into(5000u16);
        let q = v.mul_add(half_scale, half_scale);
        let zero = Into::into(0u8);
        if q < zero {
            0
        } else {
            let q16 = q as u16;
            if q16 > 10000 { 10000 } else { q16 }
        }
    }
}

} // verus!
