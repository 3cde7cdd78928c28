use imagineer::config::validate_jpeg_quality;
use imagineer::config::ConfigBuilder;
use imagineer::config::PathVariant;
use imagineer::engine::plan;
use imagineer::engine::EnvItem;
use imagineer::engine::Environment;
use imagineer::engine::FilterTypeWrap;
use imagineer::engine::ImageEngine;
use imagineer::engine::ImageOperation;
use imagineer::engine::ImgOp;
use imagineer::engine::Instr;
use imagineer::engine::PlannedOp;
use imagineer::engine::SicImage;
use imagineer::errors::SicImageEngineError;
use imagineer::numeral::FpLit;
use std::str::FromStr;

#[test]
fn jpeg_in_quality_range_lower_bound_inside() {
    let value: &str = "1";
    assert!(validate_jpeg_quality(u8::from_str(value).unwrap()).is_ok())
}

#[test]
fn jpeg_in_quality_range_lower_bound_outside() {
    let value: &str = "0";
    assert!(validate_jpeg_quality(u8::from_str(value).unwrap()).is_err())
}

#[test]
fn jpeg_in_quality_range_upper_bound_inside() {
    let value: &str = "100";
    assert!(validate_jpeg_quality(u8::from_str(value).unwrap()).is_ok())
}

#[test]
fn jpeg_in_quality_range_upper_bound_outside() {
    let value: &str = "101";
    assert!(validate_jpeg_quality(u8::from_str(value).unwrap()).is_err())
}

#[test]
fn config_builder_override_defaults() {
    let mut builder = ConfigBuilder::new();
    builder = builder
        .image_operations_program(vec![Instr::Operation(ImgOp::Blur(FpLit::whole(1)))]);
    let config = builder.build();
    assert!(!config.image_operations_program.is_empty());
}

#[test]
fn skip_unsupported_paths() {
    fn to_paths(paths: &[&str]) -> Vec<String> {
        paths.iter().map(|s| s.to_string()).collect()
    }

    let paths = &["/scope/0.png", "/scope/1.jpg", "/scope/2.jpeg", "/scope/2.unsupported", "/scope/2"];

    let path_bufs = to_paths(paths);
    let expected_path_bufs = to_paths(&[paths[0], paths[1], paths[2]]);
    let filtered = imagineer::config::filter_unsupported_paths(path_bufs);

    assert_eq!(filtered, expected_path_bufs);
}

#[test]
fn path_variant_std_stream() {
    assert!(PathVariant::StdStream.is_std_stream());
    assert!(!PathVariant::Path("a.png".to_string()).is_std_stream());
    assert_eq!(PathVariant::StdStream.describe_input(), "<stdin>");
    assert_eq!(PathVariant::Path("a.png".to_string()).describe_input(), "a.png");
}

#[test]
fn sampling_filter_names() {
    assert_eq!(FilterTypeWrap::try_from_str("catmullrom"), Ok(FilterTypeWrap::CatmullRom));
    assert_eq!(FilterTypeWrap::try_from_str("gaussian"), Ok(FilterTypeWrap::Gaussian));
    assert_eq!(FilterTypeWrap::try_from_str("lanczos3"), Ok(FilterTypeWrap::Lanczos3));
    assert_eq!(FilterTypeWrap::try_from_str("nearest"), Ok(FilterTypeWrap::Nearest));
    assert_eq!(FilterTypeWrap::try_from_str("triangle"), Ok(FilterTypeWrap::Triangle));
    assert!(FilterTypeWrap::try_from_str("smooth").is_err());
    assert_eq!(FilterTypeWrap::default(), FilterTypeWrap::Lanczos3);
}

#[test]
fn plan_threads_environment_updates_in_order() {
    let program = vec![
        Instr::EnvAdd(EnvItem::PreserveAspectRatio(true)),
        Instr::Operation(ImgOp::Resize(10, 20)),
        Instr::EnvAdd(EnvItem::CustomSamplingFilter(FilterTypeWrap::Nearest)),
        Instr::Operation(ImgOp::Resize(30, 40)),
    ];
    let planned = plan(program);
    assert_eq!(
        planned,
        vec![
            PlannedOp {
                op: ImgOp::Resize(10, 20),
                env: Environment {
                    preserve_aspect_ratio: true,
                    sampling_filter: FilterTypeWrap::Lanczos3,
                },
            },
            PlannedOp {
                op: ImgOp::Resize(30, 40),
                env: Environment {
                    preserve_aspect_ratio: true,
                    sampling_filter: FilterTypeWrap::Nearest,
                },
            },
        ]
    );
}

#[test]
fn plan_of_later_update_does_not_reach_earlier_operation() {
    let program = vec![
        Instr::Operation(ImgOp::Resize(10, 20)),
        Instr::EnvAdd(EnvItem::PreserveAspectRatio(true)),
    ];
    let planned = plan(program);
    assert_eq!(planned.len(), 1);
    assert!(!planned[0].env.preserve_aspect_ratio);
}

struct RecordingProvider {
    fail: bool,
    seen: std::cell::RefCell<Vec<(ImgOp, Environment)>>,
}

impl ImageOperation for RecordingProvider {
    fn apply_operation(
        &self,
        op: &ImgOp,
        env: &Environment,
        _image: &mut SicImage,
    ) -> Result<(), SicImageEngineError> {
        self.seen.borrow_mut().push((op.clone(), *env));
        if self.fail {
            Err(SicImageEngineError::LoadImageFromPath)
        } else {
            Ok(())
        }
    }
}

fn tiny_image() -> SicImage {
    SicImage::Static(image::DynamicImage::new_rgb8(2, 2))
}

fn image_bytes(image: &SicImage) -> Vec<u8> {
    match image {
        SicImage::Static(img) => img.as_bytes().to_vec(),
        SicImage::Animated(_) => panic!("expected a static image"),
    }
}

#[test]
fn empty_program_returns_input_image_unchanged() {
    let provider = RecordingProvider { fail: false, seen: std::cell::RefCell::new(Vec::new()) };
    let source = tiny_image();
    let before = image_bytes(&source);
    let mut engine = ImageEngine::new(source);
    let result = engine.ignite(&provider, &Vec::new());
    assert!(result.is_ok());
    assert_eq!(before, image_bytes(&engine.image));
    assert!(provider.seen.borrow().is_empty());
}

#[test]
fn update_only_program_returns_input_image_unchanged() {
    let provider = RecordingProvider { fail: true, seen: std::cell::RefCell::new(Vec::new()) };
    let program = vec![
        Instr::EnvAdd(EnvItem::PreserveAspectRatio(true)),
        Instr::EnvAdd(EnvItem::CustomSamplingFilter(FilterTypeWrap::Nearest)),
    ];
    let source = tiny_image();
    let before = image_bytes(&source);
    let mut engine = ImageEngine::new(source);
    assert!(engine.ignite(&provider, &program).is_ok());
    assert_eq!(before, image_bytes(&engine.image));
    assert!(provider.seen.borrow().is_empty());
    assert!(engine.environment.preserve_aspect_ratio);
    assert_eq!(engine.environment.sampling_filter, FilterTypeWrap::Nearest);
}

#[test]
fn engine_dispatches_operations_with_visible_environment() {
    let provider = RecordingProvider { fail: false, seen: std::cell::RefCell::new(Vec::new()) };
    let program = vec![
        Instr::EnvAdd(EnvItem::CustomSamplingFilter(FilterTypeWrap::Triangle)),
        Instr::Operation(ImgOp::Resize(8, 8)),
        Instr::EnvAdd(EnvItem::PreserveAspectRatio(true)),
        Instr::Operation(ImgOp::Invert),
    ];
    let mut engine = ImageEngine::new(tiny_image());
    assert!(engine.ignite(&provider, &program).is_ok());
    let seen = provider.seen.borrow();
    assert_eq!(seen.len(), 2);
    assert_eq!(seen[0].0, ImgOp::Resize(8, 8));
    assert_eq!(seen[0].1.sampling_filter, FilterTypeWrap::Triangle);
    assert!(!seen[0].1.preserve_aspect_ratio);
    assert_eq!(seen[1].0, ImgOp::Invert);
    assert!(seen[1].1.preserve_aspect_ratio);
    assert_eq!(engine.environment.sampling_filter, FilterTypeWrap::Triangle);
    assert!(engine.environment.preserve_aspect_ratio);
}

#[test]
fn engine_aborts_on_first_failing_operation() {
    let provider = RecordingProvider { fail: true, seen: std::cell::RefCell::new(Vec::new()) };
    let program = vec![
        Instr::Operation(ImgOp::Invert),
        Instr::Operation(ImgOp::FlipHorizontal),
    ];
    let mut engine = ImageEngine::new(tiny_image());
    let result = engine.ignite(&provider, &program);
    assert_eq!(result, Err(SicImageEngineError::LoadImageFromPath));
    assert_eq!(provider.seen.borrow().len(), 1);
}

#[test]
fn tool_name_is_stable() {
    assert_eq!(imagineer::get_tool_name(), "imagineer");
}
