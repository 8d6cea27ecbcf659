use raster_drone::{
    normalize_to_unit_square, prepare_and_extract, process_image_to_coordinates, run_preprocessing_stage,
    run_sampling_stage, Coordinate, CoordinateOutput, ExportError, ExportUnit, ImgType, Pipeline, PipelineError,
    PreprocessingParams, ResizeBound, RgbaRaster, SamplingParams, SamplingType, StageReport, UnitPosition,
};

fn rgba(width: u32, height: u32, px: &[[u8; 4]]) -> RgbaRaster {
    RgbaRaster { width, height, data: px.iter().flat_map(|p| p.iter().copied()).collect() }
}

fn plain_params() -> PreprocessingParams {
    PreprocessingParams {
        img_type: ImgType::WhiteOnBlack,
        resize: None,
        percentile_ppm: 1_000_000,
        use_bradley: false,
        bradley_size: 16,
        bradley_threshold: 15,
        image_generation: 1,
    }
}

fn three_lights() -> RgbaRaster {
    let mut px = vec![[0u8, 0, 0, 255]; 16];
    px[0] = [255, 255, 255, 255];
    px[5] = [200, 200, 200, 255];
    px[15] = [100, 100, 100, 255];
    rgba(4, 4, &px)
}

#[test]
fn default_parameters() {
    let p = PreprocessingParams::default();
    assert_eq!(p.img_type, ImgType::BlackOnWhite);
    assert_eq!(p.resize, Some(ResizeBound { max_width: 256, max_height: 256 }));
    assert_eq!(p.percentile_ppm, 10_000);
    assert!(!p.use_bradley);
    assert_eq!((p.bradley_size, p.bradley_threshold), (50, 15));
    let s = SamplingParams::default();
    assert_eq!(s, SamplingParams::new(30, SamplingType::Farthest));
}

#[test]
fn preprocessing_without_image_yields_nothing() {
    let out = run_preprocessing_stage(&plain_params(), &None).unwrap();
    assert!(out.is_none());
    let sampled = run_sampling_stage(&SamplingParams::new(3, SamplingType::Farthest), None).unwrap();
    assert!(sampled.is_empty());
}

#[test]
fn preprocessing_extracts_bright_pixels() {
    let out = run_preprocessing_stage(&plain_params(), &Some(three_lights())).unwrap().unwrap();
    assert_eq!((out.width(), out.height()), (4, 4));
    assert_eq!(out.coords(), vec![Coordinate::new(0, 0), Coordinate::new(1, 1), Coordinate::new(3, 3)]);
}

#[test]
fn preprocessing_resizes_through_thumbnail() {
    let mut p = plain_params();
    p.resize = Some(ResizeBound { max_width: 2, max_height: 2 });
    let out = prepare_and_extract(&p, &three_lights()).unwrap();
    assert_eq!((out.width(), out.height()), (2, 2));
}

#[test]
fn preprocessing_thresholds_luma() {
    let img = rgba(2, 1, &[[255, 0, 0, 255], [60, 60, 60, 255]]);
    let mut p = plain_params();
    p.use_bradley = true;
    p.bradley_size = 2;
    p.bradley_threshold = 0;
    let out = prepare_and_extract(&p, &img).unwrap();
    assert_eq!(out.coords(), vec![Coordinate::new(1, 0)]);
}

#[test]
fn preprocessing_parameter_errors() {
    let img = three_lights();
    let mut p = plain_params();
    p.use_bradley = true;
    p.bradley_size = 0;
    assert_eq!(prepare_and_extract(&p, &img).unwrap_err(), PipelineError::WindowSizeZero);
    p.bradley_size = 4;
    p.bradley_threshold = 101;
    assert_eq!(prepare_and_extract(&p, &img).unwrap_err(), PipelineError::ThresholdPercentOutOfRange);
    let mut q = plain_params();
    q.resize = Some(ResizeBound { max_width: u32::MAX, max_height: u32::MAX });
    assert_eq!(prepare_and_extract(&q, &img).unwrap_err(), PipelineError::ResizeBoundTooLarge);
}

#[test]
fn sampling_stage_refuses_zero_cells() {
    let inter = CoordinateOutput::new(vec![Coordinate::new(0, 0)], 1, 1);
    let r = run_sampling_stage(&SamplingParams::new(0, SamplingType::Grid), Some(inter));
    assert_eq!(r, Err(PipelineError::CellSizeZero));
}

#[test]
fn sampling_stage_returns_small_sets_unchanged() {
    let coords: Vec<Coordinate> = vec![(4, 4), (0, 1), (2, 2), (1, 3), (3, 0)]
        .into_iter()
        .map(|(x, y)| Coordinate::new(x, y))
        .collect();
    for kind in [SamplingType::Farthest, SamplingType::Grid] {
        let inter = CoordinateOutput::new(coords.clone(), 5, 5);
        assert_eq!(run_sampling_stage(&SamplingParams::new(10, kind), Some(inter)).unwrap(), coords);
    }
}

#[test]
fn cache_reruns_only_stale_stages() {
    let image = Some(three_lights());
    let pre = plain_params();
    let samp = SamplingParams::new(2, SamplingType::Farthest);
    let mut pipeline = Pipeline::new();
    let both = StageReport { preprocessed: true, sampled: true };
    assert_eq!(pipeline.evaluate(&pre, &samp, &image), Ok(both));
    assert_eq!(pipeline.final_coords(), vec![Coordinate::new(3, 3), Coordinate::new(0, 0)]);
    let none = StageReport { preprocessed: false, sampled: false };
    assert_eq!(pipeline.evaluate(&pre, &samp, &image), Ok(none));
    let fewer = SamplingParams::new(1, SamplingType::Farthest);
    let only_sampling = StageReport { preprocessed: false, sampled: true };
    assert_eq!(pipeline.evaluate(&pre, &fewer, &image), Ok(only_sampling));
    assert_eq!(pipeline.final_coords(), vec![Coordinate::new(3, 3)]);
    let mut brighter = pre;
    brighter.percentile_ppm = 500_000;
    assert_eq!(pipeline.evaluate(&brighter, &fewer, &image), Ok(both));
    assert_eq!(pipeline.intermediate().unwrap().coords(), vec![Coordinate::new(0, 0), Coordinate::new(1, 1)]);
    assert_eq!(pipeline.final_coords(), vec![Coordinate::new(1, 1)]);
    let mut reloaded = brighter;
    reloaded.image_generation += 1;
    assert_eq!(pipeline.evaluate(&reloaded, &fewer, &image), Ok(both));
}

#[test]
fn cache_keeps_state_when_a_stage_fails() {
    let image = Some(three_lights());
    let pre = plain_params();
    let samp = SamplingParams::new(2, SamplingType::Farthest);
    let mut pipeline = Pipeline::new();
    pipeline.evaluate(&pre, &samp, &image).unwrap();
    let before = pipeline.final_coords();
    let mut bad = pre;
    bad.use_bradley = true;
    bad.bradley_size = 0;
    assert_eq!(pipeline.evaluate(&bad, &samp, &image), Err(PipelineError::WindowSizeZero));
    assert_eq!(pipeline.final_coords(), before);
    let zero_cells = SamplingParams::new(0, SamplingType::Grid);
    assert_eq!(pipeline.evaluate(&pre, &zero_cells, &image), Err(PipelineError::CellSizeZero));
    assert_eq!(pipeline.final_coords(), before);
}

#[test]
fn pipeline_without_image_is_empty() {
    let mut pipeline = Pipeline::new();
    let r = pipeline.evaluate(&plain_params(), &SamplingParams::default(), &None);
    assert_eq!(r, Ok(StageReport { preprocessed: true, sampled: true }));
    assert!(pipeline.intermediate().is_none());
    assert!(pipeline.final_coords().is_empty());
}

#[test]
fn process_image_in_one_call() {
    let out = process_image_to_coordinates(
        &three_lights(), 2, SamplingType::Farthest, ImgType::WhiteOnBlack, None, 1_000_000, false, 15, 16,
    )
    .unwrap();
    assert_eq!((out.width(), out.height()), (4, 4));
    assert_eq!(out.borrow_coords(), vec![Coordinate::new(3, 3), Coordinate::new(0, 0)]);
}

#[test]
fn unit_square_normalization() {
    let coords = vec![Coordinate::new(0, 0), Coordinate::new(4, 2)];
    let u = normalize_to_unit_square(&coords).unwrap();
    assert_eq!(u.denominator, 8);
    assert_eq!(u.positions, vec![UnitPosition { x_num: 0, y_num: 6 }, UnitPosition { x_num: 8, y_num: 2 }]);
}

#[test]
fn unit_square_degenerate_inputs() {
    assert_eq!(normalize_to_unit_square(&vec![]).unwrap_err(), ExportError::NoCoordinates);
    let same = vec![Coordinate::new(3, 3), Coordinate::new(3, 3)];
    assert_eq!(normalize_to_unit_square(&same).unwrap_err(), ExportError::AllIdentical);
}

#[test]
fn export_unit_labels() {
    assert_eq!(ExportUnit::Meters.label(), "Meters");
    assert_eq!(ExportUnit::Feet.label(), "Feet");
}

#[test]
fn stage_cache_tracks_applied_parameters() {
    let mut cache: raster_drone::StageCache<SamplingParams, Vec<u32>> = raster_drone::StageCache::new(vec![]);
    let a = SamplingParams::new(3, SamplingType::Grid);
    let b = SamplingParams::new(4, SamplingType::Grid);
    assert!(cache.is_stale(&a));
    cache.store(a, vec![1, 2]);
    assert!(!cache.is_stale(&a));
    assert!(cache.is_stale(&b));
    cache.invalidate();
    assert!(cache.is_stale(&a));
    assert_eq!(cache.output, vec![1, 2]);
}
