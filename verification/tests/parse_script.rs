use imagineer::numeral::FpLit;
use imagineer::parser::parse_image_operations;
use imagineer::parser::FilterKernel;
use imagineer::parser::Operation;
use imagineer::parser::SICParser;

fn fp(neg: bool, mantissa: u128, scale: usize) -> FpLit {
    FpLit::from_parts(neg, mantissa, scale)
}

fn whole(n: u128) -> FpLit {
    FpLit::whole(n)
}

#[test]
fn test_parse_next_line_versions_fin_with_eoi() {
    let pairs =
        SICParser::parse("blur 1;\nbrighten 2").unwrap_or_else(|e| panic!("error: {:?}", e));
    assert_eq!(
        Ok(vec![Operation::Blur(whole(1)), Operation::Brighten(2)]),
        parse_image_operations(pairs)
    );
}

#[test]
fn test_parse_next_line_versions_fin_with_sep_eoi() {
    let pairs =
        SICParser::parse("blur 1;\nbrighten 2;").unwrap_or_else(|e| panic!("error: {:?}", e));
    assert_eq!(
        Ok(vec![Operation::Blur(whole(1)), Operation::Brighten(2)]),
        parse_image_operations(pairs)
    );
}

#[test]
fn test_parse_next_line_versions_fin_with_sep_with_trailing_spaces_eoi() {
    let pairs =
        SICParser::parse("blur 1;\nbrighten 2;    ").unwrap_or_else(|e| panic!("error: {:?}", e));
    assert_eq!(
        Ok(vec![Operation::Blur(whole(1)), Operation::Brighten(2)]),
        parse_image_operations(pairs)
    );
}

#[test]
fn test_parse_single_line_versions_fin_with_eoi() {
    let pairs =
        SICParser::parse("blur 1; brighten 2").unwrap_or_else(|e| panic!("error: {:?}", e));
    assert_eq!(
        Ok(vec![Operation::Blur(whole(1)), Operation::Brighten(2)]),
        parse_image_operations(pairs)
    );
}

#[test]
fn test_parse_single_line_versions_fin_with_eoi_2() {
    let pairs = SICParser::parse("blur 1;brighten 2").unwrap_or_else(|e| panic!("error: {:?}", e));
    assert_eq!(
        Ok(vec![Operation::Blur(whole(1)), Operation::Brighten(2)]),
        parse_image_operations(pairs)
    );
}

#[test]
fn test_parse_single_line_versions_fin_with_sep_with_trailing_spaces_eoi() {
    let pairs =
        SICParser::parse("blur 1; brighten 2;   ").unwrap_or_else(|e| panic!("error: {:?}", e));
    assert_eq!(
        Ok(vec![Operation::Blur(whole(1)), Operation::Brighten(2)]),
        parse_image_operations(pairs)
    );
}

#[test]
#[should_panic]
fn test_parse_single_line_versions_require_sep() {
    SICParser::parse("blur 4 blur 3").unwrap_or_else(|e| panic!("error: {:?}", e));
}

#[test]
#[should_panic]
fn test_parse_single_line_versions_require_sep_2() {
    SICParser::parse("blur 4\nblur 3").unwrap_or_else(|e| panic!("error: {:?}", e));
}

#[test]
#[should_panic]
fn test_parse_single_line_versions_require_sep_3() {
    SICParser::parse("blur 4 blur 3;").unwrap_or_else(|e| panic!("error: {:?}", e));
}

#[test]
fn test_parse_single_line_versions_fin_with_sep_eoi() {
    let pairs = SICParser::parse("blur 1;brighten 2;").unwrap_or_else(|e| panic!("error: {:?}", e));
    assert_eq!(
        Ok(vec![Operation::Blur(whole(1)), Operation::Brighten(2)]),
        parse_image_operations(pairs)
    );
}

#[test]
#[should_panic]
fn test_parse_require_space_between_operation_id_and_value() {
    SICParser::parse("blur1; brighten 2").unwrap_or_else(|e| panic!("error: {:?}", e));
}

#[test]
fn test_blur_single_stmt_parse_correct() {
    let pairs = SICParser::parse("blur 15;")
        .unwrap_or_else(|e| panic!("Unable to parse sic image operations script: {:?}", e));
    assert_eq!(Ok(vec![Operation::Blur(whole(15))]), parse_image_operations(pairs));
}

#[test]
fn test_crop_in_order_parse_correct() {
    let pairs = SICParser::parse("crop 1 2 3 4;")
        .unwrap_or_else(|e| panic!("Unable to parse sic image operations script: {:?}", e));
    assert_eq!(Ok(vec![Operation::Crop(1, 2, 3, 4)]), parse_image_operations(pairs));
}

#[test]
fn test_crop_ones_parse_correct() {
    let pairs = SICParser::parse("crop 1 1 1 1;")
        .unwrap_or_else(|e| panic!("Unable to parse sic image operations script: {:?}", e));
    assert_eq!(Ok(vec![Operation::Crop(1, 1, 1, 1)]), parse_image_operations(pairs));
}

#[test]
fn test_crop_zeros_parse_correct() {
    let pairs = SICParser::parse("crop 0 0 0 0;")
        .unwrap_or_else(|e| panic!("Unable to parse sic image operations script: {:?}", e));
    assert_eq!(Ok(vec![Operation::Crop(0, 0, 0, 0)]), parse_image_operations(pairs));
}

#[test]
#[should_panic]
fn test_crop_args_negative_parse_err() {
    SICParser::parse("crop -1 -1 -1 -1;")
        .unwrap_or_else(|e| panic!("Unable to parse sic image operations script: {:?}", e));
}

#[test]
#[should_panic]
fn test_crop_arg_negative_p1_parse_err() {
    SICParser::parse("crop -1 0 0 0;")
        .unwrap_or_else(|e| panic!("Unable to parse sic image operations script: {:?}", e));
}

#[test]
#[should_panic]
fn test_crop_arg_negative_p2_parse_err() {
    SICParser::parse("crop 0 -1 0 0;")
        .unwrap_or_else(|e| panic!("Unable to parse sic image operations script: {:?}", e));
}

#[test]
#[should_panic]
fn test_crop_arg_negative_p3_parse_err() {
    SICParser::parse("crop 0 0 -1 0;")
        .unwrap_or_else(|e| panic!("Unable to parse sic image operations script: {:?}", e));
}

#[test]
#[should_panic]
fn test_crop_arg_negative_p4_parse_err() {
    SICParser::parse("crop 0 0 0 -1;")
        .unwrap_or_else(|e| panic!("Unable to parse sic image operations script: {:?}", e));
}

#[test]
fn test_crop_arg_to_big_p4_parse_err() {
    let pairs = SICParser::parse("crop 0 0 0 4294967296")
        .unwrap_or_else(|_| panic!("Unable to parse sic image operations script."));
    assert!(parse_image_operations(pairs).is_err())
}

#[test]
fn test_crop_arg_just_in_range_p4_parse_ok() {
    let pairs = SICParser::parse("crop 0 0 0 4294967295")
        .unwrap_or_else(|_| panic!("Unable to parse sic image operations script."));
    assert_eq!(Ok(vec![Operation::Crop(0, 0, 0, u32::MAX)]), parse_image_operations(pairs));
}

#[test]
fn test_contrast_single_stmt_int_parse_correct() {
    let pairs = SICParser::parse("contrast 15;")
        .unwrap_or_else(|e| panic!("Unable to parse sic image operations script: {:?}", e));
    assert_eq!(Ok(vec![Operation::Contrast(whole(15))]), parse_image_operations(pairs));
}

#[test]
fn test_contrast_single_stmt_f32_parse_correct() {
    let pairs = SICParser::parse("contrast 15.8;")
        .unwrap_or_else(|e| panic!("Unable to parse sic image operations script: {:?}", e));
    assert_eq!(Ok(vec![Operation::Contrast(fp(false, 158, 1))]), parse_image_operations(pairs));
}

#[test]
fn test_contrast_single_stmt_parse_fail_end_in_dot() {
    let pairs = SICParser::parse("contrast 15.;");
    assert!(pairs.is_err());
}

#[test]
fn test_contrast_single_stmt_parse_fail_max_f32_1() {
    let pairs = SICParser::parse("340282200000000000000000000000000000000.0;");
    assert!(pairs.is_err());
}

#[test]
fn test_brighten_pos_single_stmt_parse_correct() {
    let pairs = SICParser::parse("brighten 3579;")
        .unwrap_or_else(|e| panic!("Unable to parse sic image operations script: {:?}", e));
    assert_eq!(Ok(vec![Operation::Brighten(3579)]), parse_image_operations(pairs));
}

#[test]
fn test_brighten_neg_single_stmt_parse_correct() {
    let pairs = SICParser::parse("brighten -3579;")
        .unwrap_or_else(|e| panic!("Unable to parse sic image operations script: {:?}", e));
    assert_eq!(Ok(vec![Operation::Brighten(-3579)]), parse_image_operations(pairs));
}

#[test]
#[should_panic]
fn test_filter3x3_triplets_f3_with_end_triplet_sep_fail() {
    SICParser::parse("filter3x3 0 0 0 | 1 1 1 | 2 2 2 |")
        .unwrap_or_else(|e| panic!("Unable to parse sic image operations script: {:?}", e));
}

#[test]
fn test_filter3x3_triplets_f3_no_end_triplet_sep() {
    let pairs = SICParser::parse("filter3x3 0 0.1 0.2 | 1.3 1.4 1.5 | 2.6 2.7 2.8")
        .unwrap_or_else(|e| panic!("Unable to parse sic image operations script: {:?}", e));
    assert_eq!(
        Ok(vec![Operation::Filter3x3(FilterKernel::new(
            whole(0),
            fp(false, 1, 1),
            fp(false, 2, 1),
            fp(false, 13, 1),
            fp(false, 14, 1),
            fp(false, 15, 1),
            fp(false, 26, 1),
            fp(false, 27, 1),
            fp(false, 28, 1),
        ))]),
        parse_image_operations(pairs)
    );
}

#[test]
fn test_filter3x3_triplets_f3_ensure_f32() {
    let pairs = SICParser::parse("filter3x3 0 0 0 | 1 1 1 | 2 2 2")
        .unwrap_or_else(|e| panic!("Unable to parse sic image operations script: {:?}", e));
    assert_eq!(
        Ok(vec![Operation::Filter3x3(FilterKernel::new(
            whole(0),
            whole(0),
            whole(0),
            whole(1),
            whole(1),
            whole(1),
            whole(2),
            whole(2),
            whole(2),
        ))]),
        parse_image_operations(pairs)
    );
}

#[test]
fn test_filter3x3_triplets_f3_no_sep() {
    let pairs = SICParser::parse("filter3x3 0 0 0 1 1 1 2 2 3.0")
        .unwrap_or_else(|e| panic!("Unable to parse sic image operations script: {:?}", e));
    assert_eq!(
        Ok(vec![Operation::Filter3x3(FilterKernel::new(
            whole(0),
            whole(0),
            whole(0),
            whole(1),
            whole(1),
            whole(1),
            whole(2),
            whole(2),
            whole(3),
        ))]),
        parse_image_operations(pairs)
    );
}

#[test]
fn test_filter3x3_triplets_f3_end_op_sep() {
    let pairs = SICParser::parse("filter3x3 0 0 0 1 1 1 2 2 3.0;")
        .unwrap_or_else(|e| panic!("Unable to parse sic image operations script: {:?}", e));
    assert_eq!(
        Ok(vec![Operation::Filter3x3(FilterKernel::new(
            whole(0),
            whole(0),
            whole(0),
            whole(1),
            whole(1),
            whole(1),
            whole(2),
            whole(2),
            whole(3),
        ))]),
        parse_image_operations(pairs)
    );
}

#[test]
fn test_filter3x3_triplets_f3_sep_newline() {
    let pairs = SICParser::parse("filter3x3\n0 0 0\n1 1 1\n2 2 3.0;");
    assert!(pairs.is_err())
}

#[test]
fn test_filter3x3_triplets_f3_tabbed_spacing() {
    let pairs = SICParser::parse("filter3x3 0 0 0\t1 1 1\t2 2 3;");
    assert!(pairs.is_err())
}

#[test]
fn test_filter3x3_triplets_f3_indented_newlines() {
    let pairs = SICParser::parse("filter3x3\n\t0 0 0\n\t1 1 1\n\t2 2 3");
    assert!(pairs.is_err())
}

#[test]
fn test_filter3x3_duo_filter3x3() {
    let pairs =
        SICParser::parse("filter3x3 1.9 2 3 | 4 5.9 6 | 7 8 9.9;\nfilter3x3 10.9 2 3 4 11.9 6 7 8 12.9")
            .unwrap_or_else(|e| panic!("Unable to parse sic image operations script: {:?}", e));
    assert_eq!(
        Ok(vec![
            Operation::Filter3x3(FilterKernel::new(
                fp(false, 19, 1),
                whole(2),
                whole(3),
                whole(4),
                fp(false, 59, 1),
                whole(6),
                whole(7),
                whole(8),
                fp(false, 99, 1),
            )),
            Operation::Filter3x3(FilterKernel::new(
                fp(false, 109, 1),
                whole(2),
                whole(3),
                whole(4),
                fp(false, 119, 1),
                whole(6),
                whole(7),
                whole(8),
                fp(false, 129, 1),
            )),
        ]),
        parse_image_operations(pairs)
    );
}

#[test]
#[should_panic]
fn test_filter3x3_triplets_f3_require_spacing_on_triplet_sep_1() {
    SICParser::parse("filter3x3 0 0.9 0 | 1 1.1 1|2.0 2 2")
        .unwrap_or_else(|e| panic!("Unable to parse sic image operations script: {:?}", e));
}

#[test]
#[should_panic]
fn test_filter3x3_triplets_f3_require_spacing_on_triplet_sep_2() {
    SICParser::parse("filter3x3 0 0.9 0 | 1 1.1 1 |2.0 2 2")
        .unwrap_or_else(|e| panic!("Unable to parse sic image operations script: {:?}", e));
}

#[test]
#[should_panic]
fn test_filter3x3_triplets_f3_require_spacing_on_triplet_sep_3() {
    SICParser::parse("filter3x3 0 0.9 0 | 1 1.1 1| 2.0 2 2")
        .unwrap_or_else(|e| panic!("Unable to parse sic image operations script: {:?}", e));
}

#[test]
#[should_panic]
fn test_filter3x3_triplets_f3_require_spacing_on_triplet_sep_end_fail_1() {
    SICParser::parse("filter3x3 0 0.9 0 | 1 1.1 1 | 2.0 2 2|")
        .unwrap_or_else(|e| panic!("Unable to parse sic image operations script: {:?}", e));
}

#[test]
#[should_panic]
fn test_filter3x3_triplets_f3_require_spacing_on_triplet_sep_end_fail_2() {
    SICParser::parse("filter3x3 0 0.9 0 | 1 1.1 1 | 2.0 2 2 | ")
        .unwrap_or_else(|e| panic!("Unable to parse sic image operations script: {:?}", e));
}

#[test]
#[should_panic]
fn test_filter3x3_triplets_f3_require_all_triplet_sep_1() {
    SICParser::parse("filter3x3 0 0.9 0 1 1.1 1 | 2.0 2 2 | ")
        .unwrap_or_else(|e| panic!("Unable to parse sic image operations script: {:?}", e));
}

#[test]
#[should_panic]
fn test_filter3x3_triplets_f3_require_all_triplet_sep_2() {
    SICParser::parse("filter3x3 0 0.9 0 | 1 1.1 1 2.0 2 2 | ")
        .unwrap_or_else(|e| panic!("Unable to parse sic image operations script: {:?}", e));
}

#[test]
#[should_panic]
fn test_filter3x3_insufficient_args() {
    SICParser::parse("filter3x3 0 0.9 0 | 1 1.1 1 999 | 2.0 2 2 | ")
        .unwrap_or_else(|e| panic!("Unable to parse sic image operations script: {:?}", e));
}

#[test]
#[should_panic]
fn test_filter3x3_insufficient_triplet_count_4() {
    SICParser::parse("filter3x3 0 0.9 0 | 1 2.2 3 | 2.0 2 2 | 0 1 2")
        .unwrap_or_else(|e| panic!("Unable to parse sic image operations script: {:?}", e));
}

#[test]
#[should_panic]
fn test_filter3x3_insufficient_triplet_count_2() {
    SICParser::parse("filter3x3 0 0.9 0 | 1 2.2 3")
        .unwrap_or_else(|e| panic!("Unable to parse sic image operations script: {:?}", e));
}

#[test]
fn test_flip_horizontal_single_stmt_parse_correct() {
    let pairs = SICParser::parse("fliph;")
        .unwrap_or_else(|e| panic!("Unable to parse sic image operations script: {:?}", e));
    assert_eq!(Ok(vec![Operation::FlipHorizontal]), parse_image_operations(pairs));
}

#[test]
fn test_flip_horizontal_removed() {
    let pairs = SICParser::parse("flip_horizontal;");
    assert!(pairs.is_err());
}

#[test]
fn test_flip_vertical_single_stmt_parse_correct() {
    let pairs = SICParser::parse("flipv;")
        .unwrap_or_else(|e| panic!("Unable to parse sic image operations script: {:?}", e));
    assert_eq!(Ok(vec![Operation::FlipVertical]), parse_image_operations(pairs));
}

#[test]
fn test_flip_vertical_removed() {
    let pairs = SICParser::parse("flip_vertical;");
    assert!(pairs.is_err());
}

#[test]
fn test_hue_rotate_pos_single_stmt_parse_correct() {
    let pairs = SICParser::parse("huerotate 3579;")
        .unwrap_or_else(|e| panic!("Unable to parse sic image operations script: {:?}", e));
    assert_eq!(Ok(vec![Operation::HueRotate(3579)]), parse_image_operations(pairs));
}

#[test]
fn test_hue_rotate_neg_single_stmt_parse_correct() {
    let pairs = SICParser::parse("huerotate -3579;")
        .unwrap_or_else(|e| panic!("Unable to parse sic image operations script: {:?}", e));
    assert_eq!(Ok(vec![Operation::HueRotate(-3579)]), parse_image_operations(pairs));
}

#[test]
fn test_invert_single_stmt_parse_correct() {
    let pairs = SICParser::parse("invert;")
        .unwrap_or_else(|e| panic!("Unable to parse sic image operations script: {:?}", e));
    assert_eq!(Ok(vec![Operation::Invert]), parse_image_operations(pairs));
}

#[test]
fn test_resize_single_stmt_parse_correct() {
    let pairs = SICParser::parse("resize 99 88;")
        .unwrap_or_else(|e| panic!("Unable to parse sic image operations script: {:?}", e));
    assert_eq!(Ok(vec![Operation::Resize(99, 88)]), parse_image_operations(pairs));
}

#[test]
fn test_rotate90_single_stmt_parse_correct() {
    let pairs = SICParser::parse("rotate90;")
        .unwrap_or_else(|e| panic!("Unable to parse sic image operations script: {:?}", e));
    assert_eq!(Ok(vec![Operation::Rotate90]), parse_image_operations(pairs));
}

#[test]
fn test_rotate180_single_stmt_parse_correct() {
    let pairs = SICParser::parse("rotate180;")
        .unwrap_or_else(|e| panic!("Unable to parse sic image operations script: {:?}", e));
    assert_eq!(Ok(vec![Operation::Rotate180]), parse_image_operations(pairs));
}

#[test]
fn test_rotate270_single_stmt_parse_correct() {
    let pairs = SICParser::parse("rotate270;")
        .unwrap_or_else(|e| panic!("Unable to parse sic image operations script: {:?}", e));
    assert_eq!(Ok(vec![Operation::Rotate270]), parse_image_operations(pairs));
}

#[test]
fn test_unsharpen_single_stmt_parse_correct_ints() {
    let pairs = SICParser::parse("unsharpen 99 88;")
        .unwrap_or_else(|e| panic!("Unable to parse sic image operations script: {:?}", e));
    assert_eq!(Ok(vec![Operation::Unsharpen(whole(99), 88)]), parse_image_operations(pairs));
}

#[test]
fn test_unsharpen_single_stmt_parse_correct_fp_int() {
    let pairs = SICParser::parse("unsharpen 99.0 88;")
        .unwrap_or_else(|e| panic!("Unable to parse sic image operations script: {:?}", e));
    assert_eq!(Ok(vec![Operation::Unsharpen(whole(99), 88)]), parse_image_operations(pairs));
}

#[test]
fn test_unsharpen_single_stmt_parse_correct_fp_int_neg() {
    let pairs = SICParser::parse("unsharpen -99.0 -88;")
        .unwrap_or_else(|e| panic!("Unable to parse sic image operations script: {:?}", e));
    assert_eq!(
        Ok(vec![Operation::Unsharpen(fp(true, 99, 0), -88)]),
        parse_image_operations(pairs)
    );
}

#[test]
fn test_unsharpen_single_stmt_parse_correct_fp_fp_fail() {
    let pairs = SICParser::parse("unsharpen -99.0 -88.0;");
    assert!(pairs.is_err());
}

#[test]
fn test_multi_stmt_parse_correct() {
    let pairs = SICParser::parse("blur 10;fliph;flipv;resize 100 200;")
        .unwrap_or_else(|e| panic!("Unable to parse sic image operations script: {:?}", e));
    assert_eq!(
        Ok(vec![
            Operation::Blur(whole(10)),
            Operation::FlipHorizontal,
            Operation::FlipVertical,
            Operation::Resize(100, 200)
        ]),
        parse_image_operations(pairs)
    );
}

#[test]
fn test_multi_stmt_parse_diff_order_correct() {
    let pairs = SICParser::parse("fliph;flipv;resize 100 200;blur 10;")
        .unwrap_or_else(|e| panic!("Unable to parse sic image operations script: {:?}", e));
    assert_eq!(
        Ok(vec![
            Operation::FlipHorizontal,
            Operation::FlipVertical,
            Operation::Resize(100, 200),
            Operation::Blur(whole(10))
        ]),
        parse_image_operations(pairs)
    );
}

#[test]
fn test_multi_whitespace() {
    let pairs = SICParser::parse("fliph; flipv; resize 100 200; blur 10;")
        .unwrap_or_else(|e| panic!("Unable to parse sic image operations script: {:?}", e));
    assert_eq!(
        Ok(vec![
            Operation::FlipHorizontal,
            Operation::FlipVertical,
            Operation::Resize(100, 200),
            Operation::Blur(whole(10))
        ]),
        parse_image_operations(pairs)
    );
}

#[test]
fn test_multi_whitespace_2() {
    let pairs = SICParser::parse("fliph    ; flipv   ;      resize 100 200; blur 10;")
        .unwrap_or_else(|e| panic!("Unable to parse sic image operations script: {:?}", e));
    assert_eq!(
        Ok(vec![
            Operation::FlipHorizontal,
            Operation::FlipVertical,
            Operation::Resize(100, 200),
            Operation::Blur(whole(10))
        ]),
        parse_image_operations(pairs)
    );
}

#[test]
fn test_multi_whitespace_3() {
    let pairs = SICParser::parse("fliph;\nflipv;\nresize 100 200;\nblur 10;")
        .unwrap_or_else(|e| panic!("Unable to parse sic image operations script: {:?}", e));
    assert_eq!(
        Ok(vec![
            Operation::FlipHorizontal,
            Operation::FlipVertical,
            Operation::Resize(100, 200),
            Operation::Blur(whole(10))
        ]),
        parse_image_operations(pairs)
    );
}

#[test]
fn test_multi_should_no_longer_end_with_sep() {
    let pairs = SICParser::parse("fliph; flipv; resize 100 200; blur 10")
        .unwrap_or_else(|e| panic!("Unable to parse sic image operations script: {:?}", e));
    assert_eq!(
        Ok(vec![
            Operation::FlipHorizontal,
            Operation::FlipVertical,
            Operation::Resize(100, 200),
            Operation::Blur(whole(10))
        ]),
        parse_image_operations(pairs)
    );
}

#[test]
fn test_multi_sep() {
    let pairs = SICParser::parse("fliph; flipv;  resize 100 200;\nblur 10")
        .unwrap_or_else(|e| panic!("Unable to parse sic image operations script: {:?}", e));
    assert_eq!(
        Ok(vec![
            Operation::FlipHorizontal,
            Operation::FlipVertical,
            Operation::Resize(100, 200),
            Operation::Blur(whole(10))
        ]),
        parse_image_operations(pairs)
    );
}

#[test]
fn empty_script_compiles_to_no_operations() {
    let pairs = SICParser::parse("").unwrap_or_else(|e| panic!("error: {:?}", e));
    assert_eq!(Ok(vec![]), parse_image_operations(pairs));
}

#[test]
fn grayscale_single_stmt_parse_correct() {
    let pairs = SICParser::parse("grayscale;").unwrap_or_else(|e| panic!("error: {:?}", e));
    assert_eq!(Ok(vec![Operation::GrayScale]), parse_image_operations(pairs));
}

#[test]
fn fractional_values_normalize_to_equal_literals() {
    let a = SICParser::parse("blur 2.50").unwrap_or_else(|e| panic!("error: {:?}", e));
    let b = SICParser::parse("blur 2.5").unwrap_or_else(|e| panic!("error: {:?}", e));
    assert_eq!(parse_image_operations(a), parse_image_operations(b));
    assert_eq!(fp(false, 250, 2), fp(false, 25, 1));
}

#[test]
fn coercion_failure_reports_the_value_message() {
    let pairs = SICParser::parse("crop 0 0 0 4294967296")
        .unwrap_or_else(|e| panic!("error: {:?}", e));
    assert_eq!(parse_image_operations(pairs), Err("Unable to parse value".to_string()));
}

#[test]
fn statement_outside_the_script_language_reports_unknown_operation() {
    // A raw statement can carry any operation identifier, but only the
    // script-spellable ones coerce; the rest report the fixed message.
    let stmt = imagineer::parser::RawStmt {
        op: imagineer::operations::OperationId::Diff,
        tokens: vec![b"a.png".to_vec()],
    };
    assert_eq!(
        parse_image_operations(vec![stmt]),
        Err("Parse failed: Operation doesn't exist".to_string())
    );
}

#[test]
fn mantissa_overflow_fails_coercion() {
    // 39 nines exceed the 128-bit mantissa; the syntax accepts the token but
    // coercion rejects it.
    let script = "blur 999999999999999999999999999999999999999";
    let pairs = SICParser::parse(script).unwrap_or_else(|e| panic!("error: {:?}", e));
    assert!(parse_image_operations(pairs).is_err());
}

#[test]
fn serialize_then_recompile_yields_same_operations() {
    let script = "blur 1.5;fliph;crop 0 0 10 10;resize 100 200;unsharpen -2.25 3;brighten -4;\
                  filter3x3 0 0.1 0.2 | 1.3 1.4 1.5 | 2.6 2.7 2.8;rotate180;invert";
    let pairs = SICParser::parse(script).unwrap_or_else(|e| panic!("error: {:?}", e));
    let ops = parse_image_operations(pairs).unwrap_or_else(|e| panic!("error: {:?}", e));
    let text = imagineer::parser::serialize_operations(&ops);
    let pairs2 =
        SICParser::parse_bytes(text.as_slice()).unwrap_or_else(|e| panic!("error: {:?}", e));
    let ops2 = parse_image_operations(pairs2).unwrap_or_else(|e| panic!("error: {:?}", e));
    assert_eq!(ops, ops2);
}

#[test]
fn serialize_produces_canonical_text() {
    assert!(SICParser::parse("blur   1;").is_err(), "double spaces are not part of the grammar");
    let parsed = SICParser::parse("blur 2.50; fliph").unwrap_or_else(|e| panic!("error: {:?}", e));
    let ops = parse_image_operations(parsed).unwrap();
    let text = imagineer::parser::serialize_operations(&ops);
    assert_eq!(String::from_utf8(text).unwrap(), "blur 2.5;fliph;");
}
