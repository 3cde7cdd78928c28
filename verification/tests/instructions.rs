use imagineer::engine::DrawTextInner;
use imagineer::errors::InternalErrorSource;
use imagineer::errors::SicCliOpsError;
use imagineer::errors::SicImageEngineError;
use imagineer::errors::SicParserError;
use imagineer::engine::EnvItem;
use imagineer::engine::FilterTypeWrap;
use imagineer::engine::GradientInput;
use imagineer::engine::ImageFromPath;
use imagineer::engine::ImgOp;
use imagineer::engine::Instr;
use imagineer::engine::OverlayInputs;
use imagineer::engine::RgbaColor;
use imagineer::numeral::FpLit;
use imagineer::operations::OperationId;

fn toks(words: &[&str]) -> Vec<String> {
    words.iter().map(|w| w.to_string()).collect()
}

#[test]
fn operation_names_round_trip() {
    let names = OperationId::variants();
    assert_eq!(names.len(), 23);
    for name in names {
        let op = OperationId::try_from_name(name).expect("every listed name resolves");
        assert_eq!(op.as_str(), name);
    }
}

#[test]
fn unknown_operation_name_is_rejected() {
    assert_eq!(
        OperationId::try_from_name("sharpen"),
        Err(SicCliOpsError::InternalError(InternalErrorSource::NoMatchingOperator))
    );
    assert_eq!(
        OperationId::try_from_name("fliph"),
        Err(SicCliOpsError::InternalError(InternalErrorSource::NoMatchingOperator))
    );
}

#[test]
fn variant_listing_is_complete_and_in_order() {
    assert_eq!(
        OperationId::variants(),
        vec![
            "blur",
            "brighten",
            "contrast",
            "crop",
            "diff",
            "draw-text",
            "filter3x3",
            "flip-horizontal",
            "flip-vertical",
            "grayscale",
            "hue-rotate",
            "horizontal-gradient",
            "invert",
            "overlay",
            "resize",
            "rotate90",
            "rotate180",
            "rotate270",
            "threshold",
            "unsharpen",
            "vertical-gradient",
            "preserve-aspect-ratio",
            "sampling-filter",
        ]
    );
}

#[test]
fn coercion_error_names_target_type_and_offending_token() {
    let err = OperationId::Crop
        .create_instruction(&toks(&["0", "0", "x", "0"]))
        .unwrap_err();
    assert_eq!(
        err,
        SicCliOpsError::UnableToParseValueOfType {
            err: SicParserError::ValueParsingError("x".to_string()),
            typ: "(u32, u32, u32, u32)".to_string(),
        }
    );
}

#[test]
fn sampling_filter_error_wraps_filter_type_error() {
    let err = OperationId::SamplingFilter
        .create_instruction(&toks(&["smooth"]))
        .unwrap_err();
    assert_eq!(
        err,
        SicCliOpsError::UnableToParseValueOfType {
            err: SicParserError::FilterTypeError(SicImageEngineError::UnknownFilterType(
                "smooth".to_string()
            )),
            typ: "String".to_string(),
        }
    );
}

#[test]
fn arity_table_values() {
    assert_eq!(OperationId::Blur.takes_number_of_arguments(), 1);
    assert_eq!(OperationId::Crop.takes_number_of_arguments(), 4);
    assert_eq!(OperationId::DrawText.takes_number_of_arguments(), 5);
    assert_eq!(OperationId::Filter3x3.takes_number_of_arguments(), 9);
    assert_eq!(OperationId::FlipHorizontal.takes_number_of_arguments(), 0);
    assert_eq!(OperationId::Resize.takes_number_of_arguments(), 2);
    assert_eq!(OperationId::Threshold.takes_number_of_arguments(), 0);
    assert_eq!(OperationId::PreserveAspectRatio.takes_number_of_arguments(), 1);
    assert_eq!(OperationId::SamplingFilter.takes_number_of_arguments(), 1);
}

#[test]
fn create_blur_instruction() {
    let instr = OperationId::Blur.create_instruction(&toks(&["1.5"])).unwrap();
    assert_eq!(instr, Instr::Operation(ImgOp::Blur(FpLit::from_parts(false, 15, 1))));
}

#[test]
fn create_crop_instruction_rejects_out_of_range() {
    assert!(OperationId::Crop
        .create_instruction(&toks(&["0", "0", "0", "4294967296"]))
        .is_err());
    let instr = OperationId::Crop
        .create_instruction(&toks(&["0", "0", "0", "4294967295"]))
        .unwrap();
    assert_eq!(instr, Instr::Operation(ImgOp::Crop(0, 0, 0, u32::MAX)));
}

#[test]
fn create_instruction_rejects_wrong_token_count() {
    assert!(OperationId::Blur.create_instruction(&toks(&[])).is_err());
    assert!(OperationId::Blur.create_instruction(&toks(&["1", "2"])).is_err());
    assert!(OperationId::FlipHorizontal.create_instruction(&toks(&["1"])).is_err());
}

#[test]
fn create_diff_instruction_keeps_path() {
    let instr = OperationId::Diff.create_instruction(&toks(&["images/other.png"])).unwrap();
    assert_eq!(
        instr,
        Instr::Operation(ImgOp::Diff(ImageFromPath::new("images/other.png".to_string())))
    );
}

#[test]
fn create_draw_text_instruction() {
    let instr = OperationId::DrawText
        .create_instruction(&toks(&["hello", "10", "20", "255,0,0,255", "fonts/a.ttf"]))
        .unwrap();
    assert_eq!(
        instr,
        Instr::Operation(ImgOp::DrawText(DrawTextInner {
            text: "hello".to_string(),
            coord_x: 10,
            coord_y: 20,
            color: RgbaColor { r: 255, g: 0, b: 0, a: 255 },
            font_path: "fonts/a.ttf".to_string(),
        }))
    );
}

#[test]
fn create_draw_text_rejects_bad_color() {
    assert!(OperationId::DrawText
        .create_instruction(&toks(&["hello", "10", "20", "255,0,0", "fonts/a.ttf"]))
        .is_err());
    assert!(OperationId::DrawText
        .create_instruction(&toks(&["hello", "10", "20", "256,0,0,0", "fonts/a.ttf"]))
        .is_err());
}

#[test]
fn create_gradient_instructions() {
    let instr = OperationId::HorizontalGradient
        .create_instruction(&toks(&["0,0,0,255", "255,255,255,255"]))
        .unwrap();
    let start = RgbaColor { r: 0, g: 0, b: 0, a: 255 };
    let stop = RgbaColor { r: 255, g: 255, b: 255, a: 255 };
    assert_eq!(
        instr,
        Instr::Operation(ImgOp::HorizontalGradient(GradientInput { start, stop }))
    );
    let instr = OperationId::VerticalGradient
        .create_instruction(&toks(&["0,0,0,255", "255,255,255,255"]))
        .unwrap();
    assert_eq!(instr, Instr::Operation(ImgOp::VerticalGradient(GradientInput { start, stop })));
}

#[test]
fn create_overlay_instruction() {
    let instr = OperationId::Overlay
        .create_instruction(&toks(&["over.png", "4", "9"]))
        .unwrap();
    assert_eq!(
        instr,
        Instr::Operation(ImgOp::Overlay(OverlayInputs {
            image_path: ImageFromPath::new("over.png".to_string()),
            position_x: 4,
            position_y: 9,
        }))
    );
}

#[test]
fn create_modifier_instructions() {
    let instr = OperationId::PreserveAspectRatio.create_instruction(&toks(&["true"])).unwrap();
    assert_eq!(instr, Instr::EnvAdd(EnvItem::PreserveAspectRatio(true)));
    let instr = OperationId::PreserveAspectRatio.create_instruction(&toks(&["false"])).unwrap();
    assert_eq!(instr, Instr::EnvAdd(EnvItem::PreserveAspectRatio(false)));
    assert!(OperationId::PreserveAspectRatio.create_instruction(&toks(&["yes"])).is_err());
    let instr = OperationId::SamplingFilter.create_instruction(&toks(&["gaussian"])).unwrap();
    assert_eq!(instr, Instr::EnvAdd(EnvItem::CustomSamplingFilter(FilterTypeWrap::Gaussian)));
    assert!(OperationId::SamplingFilter.create_instruction(&toks(&["smooth"])).is_err());
}

#[test]
fn create_unsharpen_instruction() {
    let instr = OperationId::Unsharpen.create_instruction(&toks(&["-1.5", "20"])).unwrap();
    assert_eq!(
        instr,
        Instr::Operation(ImgOp::Unsharpen(FpLit::from_parts(true, 15, 1), 20))
    );
}

#[test]
fn grouped_tokens_split_into_two_resize_invocations() {
    let instrs = OperationId::Resize
        .create_instructions(&toks(&["10", "20", "100", "100"]))
        .unwrap();
    assert_eq!(
        instrs,
        vec![
            Instr::Operation(ImgOp::Resize(10, 20)),
            Instr::Operation(ImgOp::Resize(100, 100)),
        ]
    );
}

#[test]
fn grouped_tokens_split_into_three_blur_invocations() {
    let instrs = OperationId::Blur.create_instructions(&toks(&["1", "2", "3"])).unwrap();
    assert_eq!(
        instrs,
        vec![
            Instr::Operation(ImgOp::Blur(FpLit::whole(1))),
            Instr::Operation(ImgOp::Blur(FpLit::whole(2))),
            Instr::Operation(ImgOp::Blur(FpLit::whole(3))),
        ]
    );
}

#[test]
fn grouped_tokens_with_remainder_fail() {
    assert!(OperationId::Resize.create_instructions(&toks(&["10", "20", "100"])).is_err());
}

#[test]
fn grouped_tokens_first_bad_group_fails_all() {
    assert!(OperationId::Resize
        .create_instructions(&toks(&["10", "20", "x", "100"]))
        .is_err());
}

#[test]
fn nullary_operation_groups_into_one_invocation() {
    let instrs = OperationId::FlipVertical.create_instructions(&toks(&[])).unwrap();
    assert_eq!(instrs, vec![Instr::Operation(ImgOp::FlipVertical)]);
    assert!(OperationId::FlipVertical.create_instructions(&toks(&["1"])).is_err());
}
