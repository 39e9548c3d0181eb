//! The order of work in a render: which ray to cast next, and when a pixel is
//! complete.
//!
//! A render hands out one step at a time. The caller casts the ray that a
//! `Sample` step asks for and adds its colour to the pixel's sum; on `Emit` it
//! averages the sum, quantizes it and delivers the pixel. Pixels are taken in
//! the order in which they leave, each with the configured number of samples,
//! and the delivered pixels are the body of the written file.

use vstd::prelude::*;
use crate::error::ConfigError;
use crate::image::lemma_raster_in_range;
use crate::image::lemma_raster_round_trip;
use crate::image::height_for;
use crate::image::ImageSize;
use crate::jitter::lemma_numerator;
use crate::jitter::Jitter;
use crate::jitter::JitterSource;
use crate::ppm::encode;
use crate::ppm::lemma_file_format;
use crate::ppm::ppm_text;
use crate::ppm::split_lines;
use crate::ppm::Pixel;
use crate::scalar::Scalar;
use crate::scene::validate_radii;
use crate::scene::zero;

verus! {

/// What the caller is to do next.
#[derive(Clone, Copy, Debug, PartialEq, Eq, Structural)]
pub enum Step {
    /// Cast a ray through the pixel at `column`, `row`, offset by the two
    /// jitters, and add its colour to the pixel's sum.
    Sample { column: u32, row: u32, jitter_u: Jitter, jitter_v: Jitter },
    /// Divide the sum by the number of samples, quantize, and deliver the pixel
    /// at `column`, `row`.
    Emit { column: u32, row: u32 },
    /// Every pixel has been delivered.
    Done,
}

/// How far a render has come.
pub struct Progress {
    pub size: ImageSize,
    /// The samples that every pixel gets.
    pub samples: nat,
    /// The samples of the current pixel that have been handed out.
    pub taken: nat,
    /// The pixels delivered so far, in the order in which they leave.
    pub delivered: Seq<Pixel>,
}

impl Progress {
    pub open spec fn wf(self) -> bool {
        &&& self.size.wf()
        &&& self.samples >= 1
        &&& self.taken <= self.samples
        &&& self.delivered.len() <= self.size.pixel_count()
        &&& self.done() ==> self.taken == 0
    }

    /// Nothing has been sampled and nothing delivered.
    pub open spec fn fresh(self) -> bool {
        self.taken == 0 && self.delivered.len() == 0
    }

    /// Every pixel has been delivered.
    pub open spec fn done(self) -> bool {
        self.delivered.len() == self.size.pixel_count()
    }

    /// The current pixel has all its samples and is waited for.
    pub open spec fn awaiting_pixel(self) -> bool {
        !self.done() && self.taken == self.samples
    }

    /// The samples and deliveries that are still to come.
    pub open spec fn remaining(self) -> int {
        (self.size.pixel_count() - self.delivered.len()) * (self.samples + 1) - self.taken
    }

    /// The offset that a sample gets: with one sample per pixel none, whatever
    /// was drawn.
    pub open spec fn effective(self, jitter: Jitter) -> Jitter {
        if self.samples == 1 {
            Jitter::with_numerator(0)
        } else {
            jitter
        }
    }

    /// The offsets that the step that is due takes from a stream: two for a
    /// sample of a pixel that has several, none otherwise.
    pub open spec fn draws(self) -> nat {
        if !self.done() && self.taken < self.samples && self.samples > 1 {
            2
        } else {
            0
        }
    }

    /// The step that is due, should the two jitters be drawn for it.
    pub open spec fn due(self, jitter_u: Jitter, jitter_v: Jitter) -> Step {
        let k = self.delivered.len() as int;
        if self.done() {
            Step::Done
        } else if self.taken < self.samples {
            Step::Sample {
                column: self.size.column_of(k) as u32,
                row: self.size.row_of(k) as u32,
                jitter_u: self.effective(jitter_u),
                jitter_v: self.effective(jitter_v),
            }
        } else {
            Step::Emit { column: self.size.column_of(k) as u32, row: self.size.row_of(k) as u32 }
        }
    }

    /// The progress once `step` has been handed out: a sample counts as taken.
    pub open spec fn after(self, step: Step) -> Progress {
        if step is Sample {
            Progress { taken: self.taken + 1, ..self }
        } else {
            self
        }
    }

    /// The progress once `pixel` has been delivered.
    pub open spec fn after_delivery(self, pixel: Pixel) -> Progress {
        Progress { taken: 0, delivered: self.delivered.push(pixel), ..self }
    }
}

/// What is wrong with a configuration, if anything: the first of the faults, in
/// the order of the aspect ratio, the width, the height, the samples and the
/// radii of the spheres.
pub open spec fn fault(
    width: u32,
    ratio_width: u32,
    ratio_height: u32,
    samples: u32,
    radii: Seq<Scalar>,
) -> Option<ConfigError> {
    let height = height_for(width as int, ratio_width as int, ratio_height as int);
    if ratio_width == 0 || ratio_height == 0 {
        Some(ConfigError::AspectRatioNotPositive)
    } else if width < 2 {
        Some(ConfigError::WidthTooSmall)
    } else if height < 2 {
        Some(ConfigError::HeightTooSmall)
    } else if height > u32::MAX {
        Some(ConfigError::HeightTooLarge)
    } else if samples == 0 {
        Some(ConfigError::NoSamples)
    } else if exists|i: int| 0 <= i < radii.len() && !zero().less(#[trigger] radii[i]) {
        Some(ConfigError::RadiusNotPositive)
    } else {
        None
    }
}

/// A render in progress.
pub struct Render {
    size: ImageSize,
    samples: u32,
    taken: u32,
    pixels: Vec<Pixel>,
}

impl View for Render {
    type V = Progress;

    closed spec fn view(&self) -> Progress {
        Progress {
            size: self.size,
            samples: self.samples as nat,
            taken: self.taken as nat,
            delivered: self.pixels@,
        }
    }
}

impl Render {
    /// Every render that a program holds is well formed.
    #[verifier::type_invariant]
    pub open spec fn wf(&self) -> bool {
        self@.wf() && self@.samples <= u32::MAX
    }

    /// A render of an image of the given size with `samples` samples per pixel.
    pub fn new(size: ImageSize, samples: u32) -> (r: Result<Render, ConfigError>)
        ensures
            r is Ok <==> samples >= 1,
            r matches Err(e) ==> e == ConfigError::NoSamples,
            r matches Ok(render) ==> render.wf() && render@.fresh() && render@.size == size
                && render@.samples == samples,
    {
        if samples == 0 {
            return Err(ConfigError::NoSamples);
        }
        proof {
            use_type_invariant(&size);
            assert(0 <= size.width() * size.height()) by (nonlinear_arith);
        }
        Ok(Render { size, samples, taken: 0, pixels: Vec::new() })
    }

    /// A render of a scene of spheres with the given radii, in an image of the
    /// given width and aspect ratio `ratio_width : ratio_height`, with `samples`
    /// samples per pixel. A faulty configuration is refused before any ray is
    /// cast.
    pub fn configure(
        width: u32,
        ratio_width: u32,
        ratio_height: u32,
        samples: u32,
        radii: &Vec<Scalar>,
    ) -> (r: Result<Render, ConfigError>)
        ensures
            r is Ok <==> fault(width, ratio_width, ratio_height, samples, radii@) is None,
            r matches Err(e) ==> fault(width, ratio_width, ratio_height, samples, radii@)
                == Some(e),
            r matches Ok(render) ==> render.wf() && render@.fresh() && render@.samples == samples
                && render@.size.width() == width && render@.size.height() == height_for(
                width as int,
                ratio_width as int,
                ratio_height as int,
            ),
    {
        let size = match ImageSize::with_aspect_ratio(width, ratio_width, ratio_height) {
            Ok(size) => size,
            Err(e) => {
                return Err(e);
            },
        };
        let render = match Render::new(size, samples) {
            Ok(render) => render,
            Err(e) => {
                return Err(e);
            },
        };
        match validate_radii(radii) {
            Ok(()) => Ok(render),
            Err(e) => Err(e),
        }
    }

    /// The dimensions of the image.
    pub fn size(&self) -> (size: ImageSize)
        ensures
            size == self@.size,
    {
        self.size
    }

    /// The samples that every pixel gets.
    pub fn samples(&self) -> (samples: u32)
        ensures
            samples == self@.samples,
    {
        self.samples
    }

    /// The samples of the current pixel that have been handed out.
    pub fn taken(&self) -> (taken: u32)
        ensures
            taken == self@.taken,
    {
        self.taken
    }

    /// The pixels delivered so far, in the order in which they leave.
    pub fn pixels(&self) -> (pixels: &Vec<Pixel>)
        ensures
            pixels@ == self@.delivered,
    {
        &self.pixels
    }

    /// Whether every pixel has been delivered.
    pub fn is_done(&self) -> (done: bool)
        ensures
            done == self@.done(),
    {
        self.pixels.len() as u64 == self.size.count()
    }

    /// The step that is due, with the given jitters should it be a sample.
    pub fn step_with(&mut self, jitter_u: Jitter, jitter_v: Jitter) -> (step: Step)
        ensures
            old(self).wf(),
            final(self).wf(),
            step == old(self)@.due(jitter_u, jitter_v),
            final(self)@ == old(self)@.after(step),
    {
        proof {
            use_type_invariant(&*self);
        }
        let place = self.size.pixel_at(self.pixels.len() as u64);
        match place {
            None => Step::Done,
            Some((column, row)) => {
                if self.taken < self.samples {
                    self.taken = self.taken + 1;
                    if self.samples == 1 {
                        Step::Sample {
                            column,
                            row,
                            jitter_u: Jitter::zero(),
                            jitter_v: Jitter::zero(),
                        }
                    } else {
                        Step::Sample { column, row, jitter_u, jitter_v }
                    }
                } else {
                    Step::Emit { column, row }
                }
            },
        }
    }

    /// The step that is due. Where it is a sample of a pixel that has several,
    /// its two jitters are the next of `source`; no other step draws from it.
    pub fn step(&mut self, source: &mut JitterSource) -> (step: Step)
        ensures
            old(self).wf(),
            final(self).wf(),
            exists|jitter_u: Jitter, jitter_v: Jitter|
                jitter_u.wf() && jitter_v.wf() && step == old(self)@.due(jitter_u, jitter_v),
            final(self)@ == old(self)@.after(step),
            final(source).drawn() == old(source).drawn() + old(self)@.draws(),
    {
        let jittered = self.samples > 1 && self.taken < self.samples && !self.is_done();
        if jittered {
            let jitter_u = source.next_jitter();
            let jitter_v = source.next_jitter();
            self.step_with(jitter_u, jitter_v)
        } else {
            self.step_with(Jitter::zero(), Jitter::zero())
        }
    }

    /// Takes the pixel that the last `Emit` step asked for. A pixel that is not
    /// waited for is refused, and nothing changes.
    pub fn deliver(&mut self, pixel: Pixel) -> (accepted: bool)
        ensures
            old(self).wf(),
            final(self).wf(),
            accepted == old(self)@.awaiting_pixel(),
            final(self)@ == (if accepted {
                old(self)@.after_delivery(pixel)
            } else {
                old(self)@
            }),
    {
        proof {
            use_type_invariant(&*self);
        }
        if self.is_done() || self.taken < self.samples {
            return false;
        }
        // A push may unwind, and a render must be whole whenever it can be seen:
        // the pixels are taken out while they grow.
        let mut pixels: Vec<Pixel> = Vec::new();
        core::mem::swap(&mut self.pixels, &mut pixels);
        pixels.push(pixel);
        self.taken = 0;
        core::mem::swap(&mut self.pixels, &mut pixels);
        true
    }

    /// The written file, once every pixel has been delivered; `None` before.
    pub fn finish(&self) -> (file: Option<Vec<u8>>)
        ensures
            file is Some <==> self@.done(),
            file matches Some(bytes) ==> bytes@ == ppm_text(self@.size, self@.delivered),
    {
        encode(&self.size, &self.pixels)
    }
}

/// The work still to come is counted down to zero, which is reached exactly
/// when every pixel has been delivered. A fresh render has `samples + 1` steps
/// of work for every pixel.
pub proof fn lemma_remaining(progress: Progress)
    requires
        progress.wf(),
    ensures
        progress.remaining() >= 0,
        progress.remaining() == 0 <==> progress.done(),
        progress.fresh() ==> progress.remaining() == progress.size.pixel_count() * (
        progress.samples + 1),
{
    let rest = progress.size.pixel_count() - progress.delivered.len();
    let per_pixel = progress.samples + 1;
    assert(rest >= 1 ==> rest * per_pixel >= per_pixel) by (nonlinear_arith)
        requires
            per_pixel >= 1,
    ;
    assert(rest == 0 ==> rest * per_pixel == 0) by (nonlinear_arith);
}

/// Every step leaves a render well formed. A sample is one piece of work done;
/// `Emit` and `Done` change nothing. `Emit` is due exactly while a pixel is
/// waited for, `Done` exactly when no work remains. The pixel of a step lies in
/// the image and is the one that leaves next; its jitters are less than a pixel.
pub proof fn lemma_step(progress: Progress, jitter_u: Jitter, jitter_v: Jitter)
    requires
        progress.wf(),
    ensures
        progress.after(progress.due(jitter_u, jitter_v)).wf(),
        progress.due(jitter_u, jitter_v) is Sample ==> progress.after(
            progress.due(jitter_u, jitter_v),
        ).remaining() == progress.remaining() - 1,
        progress.due(jitter_u, jitter_v) is Emit <==> progress.awaiting_pixel(),
        progress.due(jitter_u, jitter_v) is Done <==> progress.remaining() == 0,
        jitter_u.wf() && jitter_v.wf() ==> (progress.due(jitter_u, jitter_v) matches Step::Sample {
            jitter_u: offset_u,
            jitter_v: offset_v,
            ..
        } ==> offset_u.wf() && offset_v.wf()),
        progress.due(jitter_u, jitter_v) matches Step::Sample { column, row, .. } ==> column
            < progress.size.width() && row < progress.size.height() && progress.size.index_of(
            column as int,
            row as int,
        ) == progress.delivered.len(),
        progress.due(jitter_u, jitter_v) matches Step::Emit { column, row } ==> column
            < progress.size.width() && row < progress.size.height() && progress.size.index_of(
            column as int,
            row as int,
        ) == progress.delivered.len(),
{
    lemma_remaining(progress);
    lemma_numerator(0, 0);
    if !progress.done() {
        let k = progress.delivered.len() as int;
        lemma_raster_in_range(progress.size, k);
        lemma_raster_round_trip(progress.size, k, 0, 0);
    }
}

/// A delivery that is waited for leaves a render well formed, is one piece of
/// work done, and starts the next pixel without a sample.
pub proof fn lemma_delivery(progress: Progress, pixel: Pixel)
    requires
        progress.wf(),
        progress.awaiting_pixel(),
    ensures
        progress.after_delivery(pixel).wf(),
        progress.after_delivery(pixel).remaining() == progress.remaining() - 1,
        progress.after_delivery(pixel).taken == 0,
        progress.after_delivery(pixel).delivered.len() == progress.delivered.len() + 1,
{
    let rest = progress.size.pixel_count() - progress.delivered.len();
    let per_pixel = progress.samples + 1;
    assert((rest - 1) * per_pixel == rest * per_pixel - per_pixel) by (nonlinear_arith);
}

/// The file of a finished render has one line for every pixel of the image
/// after the three lines of its header.
pub proof fn lemma_finished_file(progress: Progress)
    requires
        progress.wf(),
        progress.done(),
    ensures
        split_lines(ppm_text(progress.size, progress.delivered)).len() == 3
            + progress.size.width() * progress.size.height(),
{
    lemma_file_format(progress.size, progress.delivered);
}

} // verus!
