//! Turns a raster image into a small, evenly spread set of pixel coordinates: adaptive
//! (Bradley) thresholding, brightness-percentile extraction, farthest-point and grid
//! sampling, and a two-stage cache that re-runs only the stages whose inputs changed.
pub mod cache;
pub mod coordinate;
pub mod export;
pub mod imaging;
pub mod pipeline;
pub mod ranking;
pub mod raster;
pub mod sampling;
pub mod thresholding;
pub mod transformation;

pub use cache::StageCache;
pub use coordinate::{Coordinate, CoordinateOutput};
pub use export::{normalize_to_unit_square, ExportError, ExportUnit, UnitPosition, UnitSquare};
pub use pipeline::{
    prepare_and_extract, process_image_to_coordinates, run_preprocessing_stage, run_sampling_stage,
    Pipeline, PipelineError, PreprocessingParams, ResizeBound, SamplingParams, SamplingType,
    StageReport,
};
pub use raster::{coordinates_to_image, gray_to_rgba, GrayRaster, RgbaRaster};
pub use sampling::{farthest_point_indices, farthest_point_sampling, grid_sampling, SamplingError};
pub use thresholding::{bradley_adaptive_threshold, integral_image, ThresholdError};
pub use transformation::{image_to_coordinates, ImgType};
