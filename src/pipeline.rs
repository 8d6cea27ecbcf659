use vstd::prelude::*;

use crate::cache::StageCache;
use crate::coordinate::{Coordinate, CoordinateOutput, CoordinateView};
use crate::imaging::{luma_view, thumbnail, thumbnail_view, to_luma};
use crate::raster::{gray_to_rgba, gray_to_rgba_view, RgbaRaster, RgbaView};
use crate::sampling::{farthest_point_sampling, fps_indices, grid_sampling, grid_sampling_spec};
use crate::thresholding::{bradley_adaptive_threshold, bradley_view};
use crate::transformation::{coords_within, extracted, image_to_coordinates, ImgType};

verus! {

/// The largest size to which the image is scaled before extraction.
#[derive(Debug, Clone, Copy, PartialEq, Eq, Structural)]
pub struct ResizeBound {
    pub max_width: u32,
    pub max_height: u32,
}

/// Which sampler reduces the extracted coordinates.
#[derive(Debug, Clone, Copy, PartialEq, Eq, Structural)]
pub enum SamplingType {
    Grid,
    Farthest,
}

/// Parameters of the preprocessing stage: thresholding, resizing and extraction.
#[derive(Debug, Clone, Copy)]
pub struct PreprocessingParams {
    pub img_type: ImgType,
    pub resize: Option<ResizeBound>,
    /// Fraction of the bright pixels kept, in millionths (clamped to one million).
    pub percentile_ppm: u32,
    pub use_bradley: bool,
    pub bradley_size: u32,
    pub bradley_threshold: u8,
    /// Identifies the loaded image; a new image gets a new number, so that it invalidates
    /// the cached stages.
    pub image_generation: u64,
}

/// Parameters of the sampling stage. `sample_count` is the number of points kept by
/// farthest-point sampling, and the cell side length for grid sampling.
#[derive(Debug, Clone, Copy)]
pub struct SamplingParams {
    pub sample_count: u32,
    pub sampling_type: SamplingType,
}

impl PartialEq for PreprocessingParams {
    fn eq(&self, other: &Self) -> (r: bool) {
        self.img_type == other.img_type && self.resize == other.resize && self.percentile_ppm
            == other.percentile_ppm && self.use_bradley == other.use_bradley && self.bradley_size
            == other.bradley_size && self.bradley_threshold == other.bradley_threshold
            && self.image_generation == other.image_generation
    }
}

impl vstd::std_specs::cmp::PartialEqSpecImpl for PreprocessingParams {
    open spec fn obeys_eq_spec() -> bool {
        true
    }

    open spec fn eq_spec(&self, other: &Self) -> bool {
        *self == *other
    }
}

impl PartialEq for SamplingParams {
    fn eq(&self, other: &Self) -> (r: bool) {
        self.sample_count == other.sample_count && self.sampling_type == other.sampling_type
    }
}

impl vstd::std_specs::cmp::PartialEqSpecImpl for SamplingParams {
    open spec fn obeys_eq_spec() -> bool {
        true
    }

    open spec fn eq_spec(&self, other: &Self) -> bool {
        *self == *other
    }
}

impl Default for PreprocessingParams {
    fn default() -> (r: Self)
        ensures
            r == (PreprocessingParams {
                img_type: ImgType::BlackOnWhite,
                resize: Some(ResizeBound { max_width: 256, max_height: 256 }),
                percentile_ppm: 10_000,
                use_bradley: false,
                bradley_size: 50,
                bradley_threshold: 15,
                image_generation: 0,
            }),
    {
        PreprocessingParams {
            img_type: ImgType::BlackOnWhite,
            resize: Some(ResizeBound { max_width: 256, max_height: 256 }),
            percentile_ppm: 10_000,
            use_bradley: false,
            bradley_size: 50,
            bradley_threshold: 15,
            image_generation: 0,
        }
    }
}

impl Default for SamplingParams {
    fn default() -> (r: Self)
        ensures
            r == (SamplingParams { sample_count: 30, sampling_type: SamplingType::Farthest }),
    {
        SamplingParams { sample_count: 30, sampling_type: SamplingType::Farthest }
    }
}

impl SamplingParams {
    pub fn new(sample_count: u32, sampling_type: SamplingType) -> (r: Self)
        ensures
            r == (SamplingParams { sample_count, sampling_type }),
    {
        SamplingParams { sample_count, sampling_type }
    }
}

/// A parameter that no stage can work with.
#[derive(Debug, Clone, Copy, PartialEq, Eq, Structural)]
pub enum PipelineError {
    /// Adaptive thresholding with a window size of zero.
    WindowSizeZero,
    /// Adaptive thresholding with a threshold percent above 100.
    ThresholdPercentOutOfRange,
    /// A resize bound whose image could not be held in memory.
    ResizeBoundTooLarge,
    /// Grid sampling with cells of side zero.
    CellSizeZero,
}

/// An image within the bound can be addressed in memory.
pub open spec fn resize_fits(b: ResizeBound) -> bool {
    4 * ((b.max_width as int + 1) * (b.max_height as int + 1)) <= usize::MAX
}

/// The error, if any, that preprocessing parameters cause.
pub open spec fn preprocessing_fault(p: PreprocessingParams) -> Option<PipelineError> {
    if p.use_bradley && p.bradley_size == 0 {
        Some(PipelineError::WindowSizeZero)
    } else if p.use_bradley && p.bradley_threshold > 100 {
        Some(PipelineError::ThresholdPercentOutOfRange)
    } else {
        match p.resize {
            Some(b) => if resize_fits(b) { None } else { Some(PipelineError::ResizeBoundTooLarge) },
            None => None,
        }
    }
}

/// The image that extraction reads: thresholded (as luma, then back to RGBA) if asked,
/// then resized if a bound is given.
pub open spec fn prepared_image(p: PreprocessingParams, img: RgbaView) -> RgbaView {
    let a = if p.use_bradley {
        gray_to_rgba_view(bradley_view(luma_view(img), p.bradley_size as int, p.bradley_threshold as int))
    } else {
        img
    };
    match p.resize {
        Some(b) => thumbnail_view(a, b.max_width, b.max_height),
        None => a,
    }
}

/// What the preprocessing stage returns: nothing without an image, else the extracted
/// coordinates of the prepared image with its size.
pub open spec fn preprocess_spec(p: PreprocessingParams, image: Option<RgbaView>) -> Result<
    Option<CoordinateView>,
    PipelineError,
> {
    match image {
        None => Ok(None),
        Some(img) => match preprocessing_fault(p) {
            Some(e) => Err(e),
            None => {
                let b = prepared_image(p, img);
                Ok(
                    Some(
                        CoordinateView {
                            coords: extracted(b, p.percentile_ppm as int, p.img_type),
                            width: b.width,
                            height: b.height,
                        },
                    ),
                )
            },
        },
    }
}

/// What the sampling stage returns for the coordinates `coords`.
pub open spec fn sample_spec(p: SamplingParams, coords: Seq<Coordinate>) -> Result<
    Seq<Coordinate>,
    PipelineError,
> {
    match p.sampling_type {
        SamplingType::Farthest => Ok(
            fps_indices(coords, p.sample_count as nat).map_values(|i: int| coords[i]),
        ),
        SamplingType::Grid => if p.sample_count == 0 {
            Err(PipelineError::CellSizeZero)
        } else {
            Ok(grid_sampling_spec(coords, p.sample_count as int))
        },
    }
}

pub open spec fn image_view(image: Option<RgbaRaster>) -> Option<RgbaView> {
    match image {
        Some(i) => Some(i@),
        None => None,
    }
}

pub open spec fn output_view(o: Option<CoordinateOutput>) -> Option<CoordinateView> {
    match o {
        Some(c) => Some(c@),
        None => None,
    }
}

/// The coordinates of an intermediate output; none when there is none.
pub open spec fn coords_of(o: Option<CoordinateView>) -> Seq<Coordinate> {
    match o {
        Some(c) => c.coords,
        None => seq![],
    }
}

/// Runs thresholding (if asked), resizing (if asked) and extraction on the loaded image.
/// Without an image there is nothing to extract.
pub fn run_preprocessing_stage(params: &PreprocessingParams, image: &Option<RgbaRaster>) -> (r: Result<
    Option<CoordinateOutput>,
    PipelineError,
>)
    requires
        image is Some ==> image->Some_0.wf(),
    ensures
        match r {
            Ok(o) => preprocess_spec(*params, image_view(*image)) == Ok::<
                Option<CoordinateView>,
                PipelineError,
            >(output_view(o)),
            Err(e) => preprocess_spec(*params, image_view(*image)) == Err::<
                Option<CoordinateView>,
                PipelineError,
            >(e),
        },
{
    match image {
        Some(img) => match prepare_and_extract(params, img) {
            Ok(o) => Ok(Some(o)),
            Err(e) => Err(e),
        },
        None => Ok(None),
    }
}

/// The preprocessing stage on a loaded image (see `preprocess_spec`).
pub fn prepare_and_extract(params: &PreprocessingParams, source: &RgbaRaster) -> (r: Result<
    CoordinateOutput,
    PipelineError,
>)
    requires
        source.wf(),
    ensures
        match r {
            Ok(o) => preprocess_spec(*params, Some(source@)) == Ok::<
                Option<CoordinateView>,
                PipelineError,
            >(Some(o@)),
            Err(e) => preprocess_spec(*params, Some(source@)) == Err::<
                Option<CoordinateView>,
                PipelineError,
            >(e),
        },
        r is Ok ==> coords_within(r->Ok_0@.coords, r->Ok_0@.width, r->Ok_0@.height),
{
    if params.use_bradley && params.bradley_size == 0 {
        return Err(PipelineError::WindowSizeZero);
    }
    if params.use_bradley && params.bradley_threshold > 100 {
        return Err(PipelineError::ThresholdPercentOutOfRange);
    }
    if let Some(b) = params.resize {
        let (bw, bh) = (b.max_width as u128 + 1, b.max_height as u128 + 1);
        assert(bw * bh <= 0x1_0000_0000 * 0x1_0000_0000) by (nonlinear_arith)
            requires bw <= 0x1_0000_0000, bh <= 0x1_0000_0000;
        if bw * bh > (usize::MAX / 4) as u128 {
            return Err(PipelineError::ResizeBoundTooLarge);
        }
    }
    let len = source.data.len();
    let thresholded: RgbaRaster;
    let staged: &RgbaRaster = if params.use_bradley {
        let luma = to_luma(source);
        let binary = match bradley_adaptive_threshold(&luma, params.bradley_size, params.bradley_threshold) {
            Ok(b) => b,
            Err(_) => {
                return Err(PipelineError::WindowSizeZero);
            },
        };
        thresholded = gray_to_rgba(&binary);
        &thresholded
    } else {
        source
    };
    let resized: RgbaRaster;
    let prepared: &RgbaRaster = match params.resize {
        Some(b) => {
            resized = thumbnail(staged, b.max_width, b.max_height);
            &resized
        },
        None => staged,
    };
    let coords = image_to_coordinates(prepared, params.percentile_ppm, params.img_type);
    Ok(CoordinateOutput::new(coords, prepared.width, prepared.height))
}

/// Samples the intermediate coordinates (none when there is no intermediate output)
/// with the selected sampler.
pub fn run_sampling_stage(params: &SamplingParams, intermediate: Option<CoordinateOutput>) -> (r: Result<
    Vec<Coordinate>,
    PipelineError,
>)
    ensures
        match r {
            Ok(v) => sample_spec(*params, coords_of(output_view(intermediate))) == Ok::<
                Seq<Coordinate>,
                PipelineError,
            >(v@),
            Err(e) => sample_spec(*params, coords_of(output_view(intermediate))) == Err::<
                Seq<Coordinate>,
                PipelineError,
            >(e),
        },
{
    let initial = match intermediate {
        Some(o) => o.borrow_coords(),
        None => Vec::new(),
    };
    match params.sampling_type {
        SamplingType::Farthest => Ok(farthest_point_sampling(&initial, params.sample_count)),
        SamplingType::Grid => match grid_sampling(&initial, params.sample_count) {
            Ok(v) => Ok(v),
            Err(_) => Err(PipelineError::CellSizeZero),
        },
    }
}

/// Which stages an evaluation ran.
#[derive(Debug, Clone, Copy, PartialEq, Eq, Structural)]
pub struct StageReport {
    pub preprocessed: bool,
    pub sampled: bool,
}

/// The two cached stages: preprocessing, whose output is the intermediate coordinates,
/// and sampling, whose output is the final coordinates.
pub struct Pipeline {
    preprocessing: StageCache<PreprocessingParams, Option<CoordinateOutput>>,
    sampling: StageCache<SamplingParams, Vec<Coordinate>>,
}

/// `Pipeline` as a mathematical value.
pub struct PipelineState {
    pub applied_preprocessing: Option<PreprocessingParams>,
    pub intermediate: Option<CoordinateView>,
    pub applied_sampling: Option<SamplingParams>,
    pub final_coords: Seq<Coordinate>,
}

impl View for Pipeline {
    type V = PipelineState;

    closed spec fn view(&self) -> PipelineState {
        PipelineState {
            applied_preprocessing: self.preprocessing.applied,
            intermediate: output_view(self.preprocessing.output),
            applied_sampling: self.sampling.applied,
            final_coords: self.sampling.output@,
        }
    }
}

/// One evaluation: the report and the state after it. Preprocessing re-runs when its
/// parameters differ from those last applied, and then sampling re-runs too; otherwise
/// sampling re-runs when its own parameters differ. A stage that fails leaves its cache
/// as it was (a failed re-sample after a fresh preprocessing also forgets the sampling
/// parameters, so that the next evaluation samples again).
pub open spec fn evaluate_spec(
    s: PipelineState,
    pre: PreprocessingParams,
    samp: SamplingParams,
    image: Option<RgbaView>,
) -> (Result<StageReport, PipelineError>, PipelineState) {
    if s.applied_preprocessing != Some(pre) {
        match preprocess_spec(pre, image) {
            Err(e) => (Err(e), s),
            Ok(inter) => match sample_spec(samp, coords_of(inter)) {
                Err(e) => (
                    Err(e),
                    PipelineState {
                        applied_preprocessing: Some(pre),
                        intermediate: inter,
                        applied_sampling: None,
                        final_coords: s.final_coords,
                    },
                ),
                Ok(f) => (
                    Ok(StageReport { preprocessed: true, sampled: true }),
                    PipelineState {
                        applied_preprocessing: Some(pre),
                        intermediate: inter,
                        applied_sampling: Some(samp),
                        final_coords: f,
                    },
                ),
            },
        }
    } else if s.applied_sampling != Some(samp) {
        match sample_spec(samp, coords_of(s.intermediate)) {
            Err(e) => (Err(e), s),
            Ok(f) => (
                Ok(StageReport { preprocessed: false, sampled: true }),
                PipelineState {
                    applied_preprocessing: s.applied_preprocessing,
                    intermediate: s.intermediate,
                    applied_sampling: Some(samp),
                    final_coords: f,
                },
            ),
        }
    } else {
        (Ok(StageReport { preprocessed: false, sampled: false }), s)
    }
}

impl Pipeline {
    /// A pipeline that has run no stage yet.
    pub fn new() -> (r: Self)
        ensures
            r@ == (PipelineState {
                applied_preprocessing: None,
                intermediate: None,
                applied_sampling: None,
                final_coords: seq![],
            }),
    {
        Pipeline { preprocessing: StageCache::new(None), sampling: StageCache::new(Vec::new()) }
    }

    /// A copy of the cached intermediate output.
    pub fn intermediate(&self) -> (r: Option<CoordinateOutput>)
        ensures
            output_view(r) == self@.intermediate,
    {
        match &self.preprocessing.output {
            Some(o) => Some(o.duplicate()),
            None => None,
        }
    }

    /// A copy of the cached final coordinates.
    pub fn final_coords(&self) -> (r: Vec<Coordinate>)
        ensures
            r@ == self@.final_coords,
    {
        crate::coordinate::copy_coords(&self.sampling.output)
    }

    /// Brings the cached stages up to date with the given parameters and image (see
    /// `evaluate_spec`), re-running each stage at most once.
    pub fn evaluate(
        &mut self,
        pre: &PreprocessingParams,
        samp: &SamplingParams,
        image: &Option<RgbaRaster>,
    ) -> (r: Result<StageReport, PipelineError>)
        requires
            image is Some ==> image->Some_0.wf(),
        ensures
            (r, final(self)@) == evaluate_spec(old(self)@, *pre, *samp, image_view(*image)),
    {
        if self.preprocessing.is_stale(pre) {
            let inter = run_preprocessing_stage(pre, image)?;
            let for_sampling = match &inter {
                Some(o) => Some(o.duplicate()),
                None => None,
            };
            self.preprocessing.store(*pre, inter);
            match run_sampling_stage(samp, for_sampling) {
                Ok(f) => {
                    self.sampling.store(*samp, f);
                    Ok(StageReport { preprocessed: true, sampled: true })
                },
                Err(e) => {
                    self.sampling.invalidate();
                    Err(e)
                },
            }
        } else if self.sampling.is_stale(samp) {
            let f = run_sampling_stage(samp, self.intermediate())?;
            self.sampling.store(*samp, f);
            Ok(StageReport { preprocessed: false, sampled: true })
        } else {
            Ok(StageReport { preprocessed: false, sampled: false })
        }
    }
}

/// Extraction followed by sampling on one image: the sampled coordinates with the size
/// of the image they were extracted from.
pub open spec fn process_spec(pre: PreprocessingParams, samp: SamplingParams, img: RgbaView) -> Result<
    CoordinateView,
    PipelineError,
> {
    match preprocess_spec(pre, Some(img)) {
        Err(e) => Err(e),
        Ok(inter) => match sample_spec(samp, coords_of(inter)) {
            Err(e) => Err(e),
            Ok(f) => {
                let (w, h) = match inter {
                    Some(o) => (o.width, o.height),
                    None => (0u32, 0u32),
                };
                Ok(CoordinateView { coords: f, width: w, height: h })
            },
        },
    }
}

/// Thresholds (if `bradley`), resizes (if `resize` is given), extracts and samples one
/// image in a single call.
pub fn process_image_to_coordinates(
    image: &RgbaRaster,
    n: u32,
    sample: SamplingType,
    img_type: ImgType,
    resize: Option<ResizeBound>,
    percentile_ppm: u32,
    bradley: bool,
    bradley_threshold: u8,
    bradley_size: u32,
) -> (r: Result<CoordinateOutput, PipelineError>)
    requires
        image.wf(),
    ensures
        ({
            let pre = PreprocessingParams {
                img_type,
                resize,
                percentile_ppm,
                use_bradley: bradley,
                bradley_size,
                bradley_threshold,
                image_generation: 0,
            };
            let samp = SamplingParams { sample_count: n, sampling_type: sample };
            match r {
                Ok(o) => process_spec(pre, samp, image@) == Ok::<CoordinateView, PipelineError>(o@),
                Err(e) => process_spec(pre, samp, image@) == Err::<CoordinateView, PipelineError>(e),
            }
        }),
{
    let pre = PreprocessingParams {
        img_type,
        resize,
        percentile_ppm,
        use_bradley: bradley,
        bradley_size,
        bradley_threshold,
        image_generation: 0,
    };
    let samp = SamplingParams { sample_count: n, sampling_type: sample };
    let inter = prepare_and_extract(&pre, image)?;
    let (w, h) = (inter.width(), inter.height());
    let sampled = run_sampling_stage(&samp, Some(inter))?;
    Ok(CoordinateOutput::new(sampled, w, h))
}

} // verus!
