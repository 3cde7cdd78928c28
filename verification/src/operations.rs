//! The operation identifiers: a closed set of image transforms and
//! environment modifiers, each with a name and a fixed argument count.

use vstd::prelude::*;

verus! {

/// The enumeration of all supported operations.
#[derive(Debug, Clone, Copy, PartialEq, Eq, Structural, Hash)]
pub enum OperationId {
    // image operations
    Blur,
    Brighten,
    Contrast,
    Crop,
    Diff,
    DrawText,
    Filter3x3,
    FlipHorizontal,
    FlipVertical,
    Grayscale,
    HueRotate,
    HorizontalGradient,
    Invert,
    Overlay,
    Resize,
    Rotate90,
    Rotate180,
    Rotate270,
    Threshold,
    Unsharpen,
    VerticalGradient,
    // modifiers
    PreserveAspectRatio,
    SamplingFilter,
}

/// The outward name of each operation, as used on a command line.
pub open spec fn spec_op_name(op: OperationId) -> Seq<char> {
    match op {
        OperationId::Blur => "blur"@,
        OperationId::Brighten => "brighten"@,
        OperationId::Contrast => "contrast"@,
        OperationId::Crop => "crop"@,
        OperationId::Diff => "diff"@,
        OperationId::DrawText => "draw-text"@,
        OperationId::Filter3x3 => "filter3x3"@,
        OperationId::FlipHorizontal => "flip-horizontal"@,
        OperationId::FlipVertical => "flip-vertical"@,
        OperationId::Grayscale => "grayscale"@,
        OperationId::HueRotate => "hue-rotate"@,
        OperationId::HorizontalGradient => "horizontal-gradient"@,
        OperationId::Invert => "invert"@,
        OperationId::Overlay => "overlay"@,
        OperationId::Resize => "resize"@,
        OperationId::Rotate90 => "rotate90"@,
        OperationId::Rotate180 => "rotate180"@,
        OperationId::Rotate270 => "rotate270"@,
        OperationId::Threshold => "threshold"@,
        OperationId::Unsharpen => "unsharpen"@,
        OperationId::VerticalGradient => "vertical-gradient"@,
        OperationId::PreserveAspectRatio => "preserve-aspect-ratio"@,
        OperationId::SamplingFilter => "sampling-filter"@,
    }
}

/// The identifier whose outward name is `s`, if any.
pub open spec fn spec_op_from_name(s: Seq<char>) -> Option<OperationId> {
    if s == spec_op_name(OperationId::Blur) {
        Some(OperationId::Blur)
    } else if s == spec_op_name(OperationId::Brighten) {
        Some(OperationId::Brighten)
    } else if s == spec_op_name(OperationId::Contrast) {
        Some(OperationId::Contrast)
    } else if s == spec_op_name(OperationId::Crop) {
        Some(OperationId::Crop)
    } else if s == spec_op_name(OperationId::Diff) {
        Some(OperationId::Diff)
    } else if s == spec_op_name(OperationId::DrawText) {
        Some(OperationId::DrawText)
    } else if s == spec_op_name(OperationId::Filter3x3) {
        Some(OperationId::Filter3x3)
    } else if s == spec_op_name(OperationId::FlipHorizontal) {
        Some(OperationId::FlipHorizontal)
    } else if s == spec_op_name(OperationId::FlipVertical) {
        Some(OperationId::FlipVertical)
    } else if s == spec_op_name(OperationId::Grayscale) {
        Some(OperationId::Grayscale)
    } else if s == spec_op_name(OperationId::HueRotate) {
        Some(OperationId::HueRotate)
    } else if s == spec_op_name(OperationId::HorizontalGradient) {
        Some(OperationId::HorizontalGradient)
    } else if s == spec_op_name(OperationId::Invert) {
        Some(OperationId::Invert)
    } else if s == spec_op_name(OperationId::Overlay) {
        Some(OperationId::Overlay)
    } else if s == spec_op_name(OperationId::Resize) {
        Some(OperationId::Resize)
    } else if s == spec_op_name(OperationId::Rotate90) {
        Some(OperationId::Rotate90)
    } else if s == spec_op_name(OperationId::Rotate180) {
        Some(OperationId::Rotate180)
    } else if s == spec_op_name(OperationId::Rotate270) {
        Some(OperationId::Rotate270)
    } else if s == spec_op_name(OperationId::Threshold) {
        Some(OperationId::Threshold)
    } else if s == spec_op_name(OperationId::Unsharpen) {
        Some(OperationId::Unsharpen)
    } else if s == spec_op_name(OperationId::VerticalGradient) {
        Some(OperationId::VerticalGradient)
    } else if s == spec_op_name(OperationId::PreserveAspectRatio) {
        Some(OperationId::PreserveAspectRatio)
    } else if s == spec_op_name(OperationId::SamplingFilter) {
        Some(OperationId::SamplingFilter)
    } else {
        None
    }
}

/// The number of argument tokens each operation consumes.
pub open spec fn spec_arity(op: OperationId) -> nat {
    match op {
        OperationId::Blur => 1,
        OperationId::Brighten => 1,
        OperationId::Contrast => 1,
        OperationId::Crop => 4,
        OperationId::Diff => 1,
        OperationId::DrawText => 5,
        OperationId::Filter3x3 => 9,
        OperationId::FlipHorizontal => 0,
        OperationId::FlipVertical => 0,
        OperationId::Grayscale => 0,
        OperationId::HueRotate => 1,
        OperationId::HorizontalGradient => 2,
        OperationId::Invert => 0,
        OperationId::Overlay => 3,
        OperationId::Resize => 2,
        OperationId::Rotate90 => 0,
        OperationId::Rotate180 => 0,
        OperationId::Rotate270 => 0,
        OperationId::Threshold => 0,
        OperationId::Unsharpen => 2,
        OperationId::VerticalGradient => 2,
        OperationId::PreserveAspectRatio => 1,
        OperationId::SamplingFilter => 1,
    }
}

/// Relies on str's `PartialEq`: two string slices are equal exactly when
/// their character sequences are.
#[verifier::external_body]
pub(crate) fn str_eq(a: &str, b: &str) -> (r: bool)
    ensures
        r == (a@ == b@),
{
    a == b
}

impl OperationId {
    /// The outward names of all operations, in declaration order: the listing
    /// is complete and each entry is the operation's own name, so every entry
    /// resolves back through `try_from_name`.
    pub fn variants() -> (r: Vec<&'static str>)
        ensures
            r@.len() == 23,
            r@[0]@ == spec_op_name(OperationId::Blur),
            r@[1]@ == spec_op_name(OperationId::Brighten),
            r@[2]@ == spec_op_name(OperationId::Contrast),
            r@[3]@ == spec_op_name(OperationId::Crop),
            r@[4]@ == spec_op_name(OperationId::Diff),
            r@[5]@ == spec_op_name(OperationId::DrawText),
            r@[6]@ == spec_op_name(OperationId::Filter3x3),
            r@[7]@ == spec_op_name(OperationId::FlipHorizontal),
            r@[8]@ == spec_op_name(OperationId::FlipVertical),
            r@[9]@ == spec_op_name(OperationId::Grayscale),
            r@[10]@ == spec_op_name(OperationId::HueRotate),
            r@[11]@ == spec_op_name(OperationId::HorizontalGradient),
            r@[12]@ == spec_op_name(OperationId::Invert),
            r@[13]@ == spec_op_name(OperationId::Overlay),
            r@[14]@ == spec_op_name(OperationId::Resize),
            r@[15]@ == spec_op_name(OperationId::Rotate90),
            r@[16]@ == spec_op_name(OperationId::Rotate180),
            r@[17]@ == spec_op_name(OperationId::Rotate270),
            r@[18]@ == spec_op_name(OperationId::Threshold),
            r@[19]@ == spec_op_name(OperationId::Unsharpen),
            r@[20]@ == spec_op_name(OperationId::VerticalGradient),
            r@[21]@ == spec_op_name(OperationId::PreserveAspectRatio),
            r@[22]@ == spec_op_name(OperationId::SamplingFilter),
    {
        let mut v: Vec<&'static str> = Vec::new();
        v.push("blur");
        v.push("brighten");
        v.push("contrast");
        v.push("crop");
        v.push("diff");
        v.push("draw-text");
        v.push("filter3x3");
        v.push("flip-horizontal");
        v.push("flip-vertical");
        v.push("grayscale");
        v.push("hue-rotate");
        v.push("horizontal-gradient");
        v.push("invert");
        v.push("overlay");
        v.push("resize");
        v.push("rotate90");
        v.push("rotate180");
        v.push("rotate270");
        v.push("threshold");
        v.push("unsharpen");
        v.push("vertical-gradient");
        v.push("preserve-aspect-ratio");
        v.push("sampling-filter");
        v
    }

    /// A string representation for each operation.
    pub fn as_str(self) -> (r: &'static str)
        ensures
            r@ == spec_op_name(self),
    {
        match self {
            OperationId::Blur => "blur",
            OperationId::Brighten => "brighten",
            OperationId::Contrast => "contrast",
            OperationId::Crop => "crop",
            OperationId::Diff => "diff",
            OperationId::DrawText => "draw-text",
            OperationId::Filter3x3 => "filter3x3",
            OperationId::FlipHorizontal => "flip-horizontal",
            OperationId::FlipVertical => "flip-vertical",
            OperationId::Grayscale => "grayscale",
            OperationId::HueRotate => "hue-rotate",
            OperationId::HorizontalGradient => "horizontal-gradient",
            OperationId::Invert => "invert",
            OperationId::Overlay => "overlay",
            OperationId::Resize => "resize",
            OperationId::Rotate90 => "rotate90",
            OperationId::Rotate180 => "rotate180",
            OperationId::Rotate270 => "rotate270",
            OperationId::Threshold => "threshold",
            OperationId::Unsharpen => "unsharpen",
            OperationId::VerticalGradient => "vertical-gradient",
            OperationId::PreserveAspectRatio => "preserve-aspect-ratio",
            OperationId::SamplingFilter => "sampling-filter",
        }
    }

    /// Looks an operation up by its outward name; exactly the names of
    /// `spec_op_name` are accepted, and an unknown name reports that no
    /// operator matched.
    pub fn try_from_name(input: &str) -> (r: Result<Self, crate::errors::SicCliOpsError>)
        ensures
            match r {
                Ok(op) => spec_op_from_name(input@) == Some(op),
                Err(e) => spec_op_from_name(input@) is None && e
                    == crate::errors::SicCliOpsError::InternalError(
                    crate::errors::InternalErrorSource::NoMatchingOperator,
                ),
            },
    {
        if str_eq(input, "blur") {
            Ok(OperationId::Blur)
        } else if str_eq(input, "brighten") {
            Ok(OperationId::Brighten)
        } else if str_eq(input, "contrast") {
            Ok(OperationId::Contrast)
        } else if str_eq(input, "crop") {
            Ok(OperationId::Crop)
        } else if str_eq(input, "diff") {
            Ok(OperationId::Diff)
        } else if str_eq(input, "draw-text") {
            Ok(OperationId::DrawText)
        } else if str_eq(input, "filter3x3") {
            Ok(OperationId::Filter3x3)
        } else if str_eq(input, "flip-horizontal") {
            Ok(OperationId::FlipHorizontal)
        } else if str_eq(input, "flip-vertical") {
            Ok(OperationId::FlipVertical)
        } else if str_eq(input, "grayscale") {
            Ok(OperationId::Grayscale)
        } else if str_eq(input, "hue-rotate") {
            Ok(OperationId::HueRotate)
        } else if str_eq(input, "horizontal-gradient") {
            Ok(OperationId::HorizontalGradient)
        } else if str_eq(input, "invert") {
            Ok(OperationId::Invert)
        } else if str_eq(input, "overlay") {
            Ok(OperationId::Overlay)
        } else if str_eq(input, "resize") {
            Ok(OperationId::Resize)
        } else if str_eq(input, "rotate90") {
            Ok(OperationId::Rotate90)
        } else if str_eq(input, "rotate180") {
            Ok(OperationId::Rotate180)
        } else if str_eq(input, "rotate270") {
            Ok(OperationId::Rotate270)
        } else if str_eq(input, "threshold") {
            Ok(OperationId::Threshold)
        } else if str_eq(input, "unsharpen") {
            Ok(OperationId::Unsharpen)
        } else if str_eq(input, "vertical-gradient") {
            Ok(OperationId::VerticalGradient)
        } else if str_eq(input, "preserve-aspect-ratio") {
            Ok(OperationId::PreserveAspectRatio)
        } else if str_eq(input, "sampling-filter") {
            Ok(OperationId::SamplingFilter)
        } else {
            Err(
                crate::errors::SicCliOpsError::InternalError(
                    crate::errors::InternalErrorSource::NoMatchingOperator,
                ),
            )
        }
    }

    /// Provides the number of arguments an operation takes. Used to unify a
    /// flat run of argument tokens into separate invocations of the same
    /// operation.
    pub fn takes_number_of_arguments(self) -> (r: usize)
        ensures
            r == spec_arity(self),
    {
        match self {
            OperationId::Blur => 1,
            OperationId::Brighten => 1,
            OperationId::Contrast => 1,
            OperationId::Crop => 4,
            OperationId::Diff => 1,
            OperationId::DrawText => 5,
            OperationId::Filter3x3 => 9,
            OperationId::FlipHorizontal => 0,
            OperationId::FlipVertical => 0,
            OperationId::Grayscale => 0,
            OperationId::HueRotate => 1,
            OperationId::HorizontalGradient => 2,
            OperationId::Invert => 0,
            OperationId::Overlay => 3,
            OperationId::Resize => 2,
            OperationId::Rotate90 => 0,
            OperationId::Rotate180 => 0,
            OperationId::Rotate270 => 0,
            OperationId::Threshold => 0,
            OperationId::Unsharpen => 2,
            OperationId::VerticalGradient => 2,
            OperationId::PreserveAspectRatio => 1,
            OperationId::SamplingFilter => 1,
        }
    }
}

/// The character sequences of a token list, elementwise.
pub open spec fn views_of(ss: Seq<String>) -> Seq<Seq<char>>
    decreases ss.len(),
{
    if ss.len() == 0 {
        Seq::empty()
    } else {
        seq![ss[0]@] + views_of(ss.skip(1))
    }
}

pub proof fn lemma_views_of(ss: Seq<String>)
    ensures
        views_of(ss).len() == ss.len(),
        forall|i: int| 0 <= i < ss.len() ==> views_of(ss)[i] == ss[i]@,
    decreases ss.len(),
{
    if ss.len() > 0 {
        lemma_views_of(ss.skip(1));
        assert(forall|i: int| 1 <= i < ss.len() ==> ss.skip(1)[i - 1] == s_at(ss, i));
    }
}

/// Helper naming for indexing under the views lemma's trigger.
pub open spec fn s_at(ss: Seq<String>, i: int) -> String {
    ss[i]
}

/// The UTF-8 bytes of a token, the form its numerals are read in.
pub open spec fn tok_bytes(v: Seq<char>) -> Seq<u8> {
    vstd::utf8::encode_utf8(v)
}

/// Whether the given tokens coerce to the typed argument of the operation:
/// the token count must match the declared arity and each token must parse as
/// its declared kind — a mismatch is a coercion failure, never a silent
/// default.
pub open spec fn create_ok(op: OperationId, vs: Seq<Seq<char>>) -> bool {
    match op {
        OperationId::Blur => vs.len() == 1 && crate::numeral::spec_parse_fp(tok_bytes(vs[0]))
            is Some,
        OperationId::Brighten => vs.len() == 1 && crate::numeral::spec_parse_i32(tok_bytes(vs[0]))
            is Some,
        OperationId::Contrast => vs.len() == 1 && crate::numeral::spec_parse_fp(tok_bytes(vs[0]))
            is Some,
        OperationId::Crop => vs.len() == 4 && crate::numeral::spec_parse_u32(tok_bytes(vs[0]))
            is Some && crate::numeral::spec_parse_u32(tok_bytes(vs[1])) is Some
            && crate::numeral::spec_parse_u32(tok_bytes(vs[2])) is Some
            && crate::numeral::spec_parse_u32(tok_bytes(vs[3])) is Some,
        OperationId::Diff => vs.len() == 1,
        OperationId::DrawText => vs.len() == 5 && crate::numeral::spec_parse_u32(tok_bytes(vs[1]))
            is Some && crate::numeral::spec_parse_u32(tok_bytes(vs[2])) is Some
            && crate::engine::sp_parse_color(tok_bytes(vs[3])) is Some,
        OperationId::Filter3x3 => vs.len() == 9 && crate::numeral::spec_parse_fp(tok_bytes(vs[0]))
            is Some && crate::numeral::spec_parse_fp(tok_bytes(vs[1])) is Some
            && crate::numeral::spec_parse_fp(tok_bytes(vs[2])) is Some
            && crate::numeral::spec_parse_fp(tok_bytes(vs[3])) is Some
            && crate::numeral::spec_parse_fp(tok_bytes(vs[4])) is Some
            && crate::numeral::spec_parse_fp(tok_bytes(vs[5])) is Some
            && crate::numeral::spec_parse_fp(tok_bytes(vs[6])) is Some
            && crate::numeral::spec_parse_fp(tok_bytes(vs[7])) is Some
            && crate::numeral::spec_parse_fp(tok_bytes(vs[8])) is Some,
        OperationId::FlipHorizontal => vs.len() == 0,
        OperationId::FlipVertical => vs.len() == 0,
        OperationId::Grayscale => vs.len() == 0,
        OperationId::HueRotate => vs.len() == 1 && crate::numeral::spec_parse_i32(tok_bytes(vs[0]))
            is Some,
        OperationId::HorizontalGradient => vs.len() == 2 && crate::engine::sp_parse_color(
            tok_bytes(vs[0]),
        ) is Some && crate::engine::sp_parse_color(tok_bytes(vs[1])) is Some,
        OperationId::Invert => vs.len() == 0,
        OperationId::Overlay => vs.len() == 3 && crate::numeral::spec_parse_u32(tok_bytes(vs[1]))
            is Some && crate::numeral::spec_parse_u32(tok_bytes(vs[2])) is Some,
        OperationId::Resize => vs.len() == 2 && crate::numeral::spec_parse_u32(tok_bytes(vs[0]))
            is Some && crate::numeral::spec_parse_u32(tok_bytes(vs[1])) is Some,
        OperationId::Rotate90 => vs.len() == 0,
        OperationId::Rotate180 => vs.len() == 0,
        OperationId::Rotate270 => vs.len() == 0,
        OperationId::Threshold => vs.len() == 0,
        OperationId::Unsharpen => vs.len() == 2 && crate::numeral::spec_parse_fp(tok_bytes(vs[0]))
            is Some && crate::numeral::spec_parse_i32(tok_bytes(vs[1])) is Some,
        OperationId::VerticalGradient => vs.len() == 2 && crate::engine::sp_parse_color(
            tok_bytes(vs[0]),
        ) is Some && crate::engine::sp_parse_color(tok_bytes(vs[1])) is Some,
        OperationId::PreserveAspectRatio => vs.len() == 1 && crate::numeral::spec_parse_bool(
            tok_bytes(vs[0]),
        ) is Some,
        OperationId::SamplingFilter => vs.len() == 1 && crate::engine::spec_filter_from_name(vs[0])
            is Some,
    }
}

/// Whether `instr` is the instruction the operation and tokens denote. Text
/// and path tokens are carried over by their character sequences; numeric
/// tokens by their parsed values.
pub open spec fn instr_matches(op: OperationId, vs: Seq<Seq<char>>, instr: crate::engine::Instr)
    -> bool {
    match op {
        OperationId::Blur => instr == crate::engine::Instr::Operation(
            crate::engine::ImgOp::Blur(crate::numeral::spec_parse_fp(tok_bytes(vs[0])).unwrap()),
        ),
        OperationId::Brighten => instr == crate::engine::Instr::Operation(
            crate::engine::ImgOp::Brighten(
                crate::numeral::spec_parse_i32(tok_bytes(vs[0])).unwrap(),
            ),
        ),
        OperationId::Contrast => instr == crate::engine::Instr::Operation(
            crate::engine::ImgOp::Contrast(
                crate::numeral::spec_parse_fp(tok_bytes(vs[0])).unwrap(),
            ),
        ),
        OperationId::Crop => instr == crate::engine::Instr::Operation(
            crate::engine::ImgOp::Crop(
                crate::numeral::spec_parse_u32(tok_bytes(vs[0])).unwrap(),
                crate::numeral::spec_parse_u32(tok_bytes(vs[1])).unwrap(),
                crate::numeral::spec_parse_u32(tok_bytes(vs[2])).unwrap(),
                crate::numeral::spec_parse_u32(tok_bytes(vs[3])).unwrap(),
            ),
        ),
        OperationId::Diff => match instr {
            crate::engine::Instr::Operation(crate::engine::ImgOp::Diff(p)) => p.path@ == vs[0],
            _ => false,
        },
        OperationId::DrawText => match instr {
            crate::engine::Instr::Operation(crate::engine::ImgOp::DrawText(d)) => d.text@ == vs[0]
                && d.coord_x == crate::numeral::spec_parse_u32(tok_bytes(vs[1])).unwrap()
                && d.coord_y == crate::numeral::spec_parse_u32(tok_bytes(vs[2])).unwrap()
                && d.color == crate::engine::sp_parse_color(tok_bytes(vs[3])).unwrap()
                && d.font_path@ == vs[4],
            _ => false,
        },
        OperationId::Filter3x3 => instr == crate::engine::Instr::Operation(
            crate::engine::ImgOp::Filter3x3(
                crate::parser::FilterKernel {
                    e0: crate::numeral::spec_parse_fp(tok_bytes(vs[0])).unwrap(),
                    e1: crate::numeral::spec_parse_fp(tok_bytes(vs[1])).unwrap(),
                    e2: crate::numeral::spec_parse_fp(tok_bytes(vs[2])).unwrap(),
                    e3: crate::numeral::spec_parse_fp(tok_bytes(vs[3])).unwrap(),
                    e4: crate::numeral::spec_parse_fp(tok_bytes(vs[4])).unwrap(),
                    e5: crate::numeral::spec_parse_fp(tok_bytes(vs[5])).unwrap(),
                    e6: crate::numeral::spec_parse_fp(tok_bytes(vs[6])).unwrap(),
                    e7: crate::numeral::spec_parse_fp(tok_bytes(vs[7])).unwrap(),
                    e8: crate::numeral::spec_parse_fp(tok_bytes(vs[8])).unwrap(),
                },
            ),
        ),
        OperationId::FlipHorizontal => instr == crate::engine::Instr::Operation(
            crate::engine::ImgOp::FlipHorizontal,
        ),
        OperationId::FlipVertical => instr == crate::engine::Instr::Operation(
            crate::engine::ImgOp::FlipVertical,
        ),
        OperationId::Grayscale => instr == crate::engine::Instr::Operation(
            crate::engine::ImgOp::Grayscale,
        ),
        OperationId::HueRotate => instr == crate::engine::Instr::Operation(
            crate::engine::ImgOp::HueRotate(
                crate::numeral::spec_parse_i32(tok_bytes(vs[0])).unwrap(),
            ),
        ),
        OperationId::HorizontalGradient => instr == crate::engine::Instr::Operation(
            crate::engine::ImgOp::HorizontalGradient(
                crate::engine::GradientInput {
                    start: crate::engine::sp_parse_color(tok_bytes(vs[0])).unwrap(),
                    stop: crate::engine::sp_parse_color(tok_bytes(vs[1])).unwrap(),
                },
            ),
        ),
        OperationId::Invert => instr == crate::engine::Instr::Operation(
            crate::engine::ImgOp::Invert,
        ),
        OperationId::Overlay => match instr {
            crate::engine::Instr::Operation(crate::engine::ImgOp::Overlay(o)) => {
                &&& o.image_path.path@ == vs[0]
                &&& o.position_x == crate::numeral::spec_parse_u32(tok_bytes(vs[1])).unwrap()
                &&& o.position_y == crate::numeral::spec_parse_u32(tok_bytes(vs[2])).unwrap()
            },
            _ => false,
        },
        OperationId::Resize => instr == crate::engine::Instr::Operation(
            crate::engine::ImgOp::Resize(
                crate::numeral::spec_parse_u32(tok_bytes(vs[0])).unwrap(),
                crate::numeral::spec_parse_u32(tok_bytes(vs[1])).unwrap(),
            ),
        ),
        OperationId::Rotate90 => instr == crate::engine::Instr::Operation(
            crate::engine::ImgOp::Rotate90,
        ),
        OperationId::Rotate180 => instr == crate::engine::Instr::Operation(
            crate::engine::ImgOp::Rotate180,
        ),
        OperationId::Rotate270 => instr == crate::engine::Instr::Operation(
            crate::engine::ImgOp::Rotate270,
        ),
        OperationId::Threshold => instr == crate::engine::Instr::Operation(
            crate::engine::ImgOp::Threshold,
        ),
        OperationId::Unsharpen => instr == crate::engine::Instr::Operation(
            crate::engine::ImgOp::Unsharpen(
                crate::numeral::spec_parse_fp(tok_bytes(vs[0])).unwrap(),
                crate::numeral::spec_parse_i32(tok_bytes(vs[1])).unwrap(),
            ),
        ),
        OperationId::VerticalGradient => instr == crate::engine::Instr::Operation(
            crate::engine::ImgOp::VerticalGradient(
                crate::engine::GradientInput {
                    start: crate::engine::sp_parse_color(tok_bytes(vs[0])).unwrap(),
                    stop: crate::engine::sp_parse_color(tok_bytes(vs[1])).unwrap(),
                },
            ),
        ),
        OperationId::PreserveAspectRatio => instr == crate::engine::Instr::EnvAdd(
            crate::engine::EnvItem::PreserveAspectRatio(
                crate::numeral::spec_parse_bool(tok_bytes(vs[0])).unwrap(),
            ),
        ),
        OperationId::SamplingFilter => instr == crate::engine::Instr::EnvAdd(
            crate::engine::EnvItem::CustomSamplingFilter(
                crate::engine::spec_filter_from_name(vs[0]).unwrap(),
            ),
        ),
    }
}

/// The declared target type each operation's arguments coerce to, named in
/// its coercion errors.
pub open spec fn spec_type_name(op: OperationId) -> Seq<char> {
    match op {
        OperationId::Blur => "FpLit"@,
        OperationId::Brighten => "i32"@,
        OperationId::Contrast => "FpLit"@,
        OperationId::Crop => "(u32, u32, u32, u32)"@,
        OperationId::Diff => "ImageFromPath"@,
        OperationId::DrawText => "DrawTextInner"@,
        OperationId::Filter3x3 => "[FpLit; 9]"@,
        OperationId::FlipHorizontal => "()"@,
        OperationId::FlipVertical => "()"@,
        OperationId::Grayscale => "()"@,
        OperationId::HueRotate => "i32"@,
        OperationId::HorizontalGradient => "GradientInput"@,
        OperationId::Invert => "()"@,
        OperationId::Overlay => "OverlayInputs"@,
        OperationId::Resize => "(u32, u32)"@,
        OperationId::Rotate90 => "()"@,
        OperationId::Rotate180 => "()"@,
        OperationId::Rotate270 => "()"@,
        OperationId::Threshold => "()"@,
        OperationId::Unsharpen => "(FpLit, i32)"@,
        OperationId::VerticalGradient => "GradientInput"@,
        OperationId::PreserveAspectRatio => "bool"@,
        OperationId::SamplingFilter => "String"@,
    }
}

/// A coercion error naming the target type and carrying the offending token.
fn type_error(typ: &str, token: String) -> (r: crate::errors::SicCliOpsError)
    ensures
        r matches crate::errors::SicCliOpsError::UnableToParseValueOfType { err, typ: t }
            && err is ValueParsingError && t@ == typ@,
{
    crate::errors::SicCliOpsError::UnableToParseValueOfType {
        err: crate::errors::SicParserError::ValueParsingError(token),
        typ: <String as vstd::string::StringExecFns>::from_str(typ),
    }
}

/// A coercion error for a token run whose length does not match the arity.
fn count_error(typ: &str) -> (r: crate::errors::SicCliOpsError)
    ensures
        r matches crate::errors::SicCliOpsError::UnableToParseValueOfType { err, typ: t }
            && err is ValueParsingError && t@ == typ@,
{
    type_error(typ, <String as vstd::string::StringExecFns>::from_str("wrong number of argument tokens"))
}

/// The UTF-8 bytes of one argument token.
fn token_slice<'a>(inputs: &'a Vec<String>, k: usize) -> (r: &'a [u8])
    requires
        k < inputs@.len(),
    ensures
        r@ == tok_bytes(inputs@[k as int]@),
{
    inputs[k].as_str().as_bytes()
}

impl OperationId {
    /// Constructs the instruction this operation and its argument tokens
    /// denote: the token count must match the operation's arity and each
    /// token must coerce to its declared argument type. A failure reports the
    /// declared target type and carries the offending token; an unknown
    /// sampling-filter name is reported as a filter-type error.
    pub fn create_instruction(self, inputs: &Vec<String>) -> (r: Result<
        crate::engine::Instr,
        crate::errors::SicCliOpsError,
    >)
        ensures
            match r {
                Ok(instr) => create_ok(self, views_of(inputs@)) && instr_matches(
                    self,
                    views_of(inputs@),
                    instr,
                ),
                Err(e) => {
                    &&& !create_ok(self, views_of(inputs@))
                    &&& (e matches crate::errors::SicCliOpsError::UnableToParseValueOfType {
                        err,
                        typ,
                    } && typ@ == spec_type_name(self) && (err is ValueParsingError
                        || err is FilterTypeError))
                    &&& (self == OperationId::SamplingFilter && views_of(inputs@).len() == 1
                        ==> e matches crate::errors::SicCliOpsError::UnableToParseValueOfType {
                        err: crate::errors::SicParserError::FilterTypeError(
                            crate::errors::SicImageEngineError::UnknownFilterType(_),
                        ),
                        typ: _,
                    })
                },
            },
    {
        proof {
            lemma_views_of(inputs@);
        }
        match self {
            OperationId::Blur => {
                if inputs.len() != 1 {
                    return Err(count_error("FpLit"));
                }
                match crate::numeral::parse_fp_token(token_slice(inputs, 0)) {
                    Some(v) => Ok(
                        crate::engine::Instr::Operation(crate::engine::ImgOp::Blur(v)),
                    ),
                    None => Err(type_error("FpLit", inputs[0].clone())),
                }
            },
            OperationId::Brighten => {
                if inputs.len() != 1 {
                    return Err(count_error("i32"));
                }
                match crate::numeral::parse_i32_token(token_slice(inputs, 0)) {
                    Some(v) => Ok(
                        crate::engine::Instr::Operation(crate::engine::ImgOp::Brighten(v)),
                    ),
                    None => Err(type_error("i32", inputs[0].clone())),
                }
            },
            OperationId::Contrast => {
                if inputs.len() != 1 {
                    return Err(count_error("FpLit"));
                }
                match crate::numeral::parse_fp_token(token_slice(inputs, 0)) {
                    Some(v) => Ok(
                        crate::engine::Instr::Operation(crate::engine::ImgOp::Contrast(v)),
                    ),
                    None => Err(type_error("FpLit", inputs[0].clone())),
                }
            },
            OperationId::Crop => {
                if inputs.len() != 4 {
                    return Err(count_error("(u32, u32, u32, u32)"));
                }
                let a = crate::numeral::parse_u32_token(token_slice(inputs, 0));
                let b = crate::numeral::parse_u32_token(token_slice(inputs, 1));
                let c = crate::numeral::parse_u32_token(token_slice(inputs, 2));
                let d = crate::numeral::parse_u32_token(token_slice(inputs, 3));
                match (a, b, c, d) {
                    (Some(a), Some(b), Some(c), Some(d)) => Ok(
                        crate::engine::Instr::Operation(crate::engine::ImgOp::Crop(a, b, c, d)),
                    ),
                    _ => {
                        let bad: usize = if a.is_none() {
                            0
                        } else if b.is_none() {
                            1
                        } else if c.is_none() {
                            2
                        } else {
                            3
                        };
                        Err(type_error("(u32, u32, u32, u32)", inputs[bad].clone()))
                    },
                }
            },
            OperationId::Diff => {
                if inputs.len() != 1 {
                    return Err(count_error("ImageFromPath"));
                }
                Ok(
                    crate::engine::Instr::Operation(
                        crate::engine::ImgOp::Diff(
                            crate::engine::ImageFromPath::new(inputs[0].clone()),
                        ),
                    ),
                )
            },
            OperationId::DrawText => {
                if inputs.len() != 5 {
                    return Err(count_error("DrawTextInner"));
                }
                let x = crate::numeral::parse_u32_token(token_slice(inputs, 1));
                let y = crate::numeral::parse_u32_token(token_slice(inputs, 2));
                let color = crate::engine::parse_color_token(token_slice(inputs, 3));
                match (x, y, color) {
                    (Some(x), Some(y), Some(color)) => Ok(
                        crate::engine::Instr::Operation(
                            crate::engine::ImgOp::DrawText(
                                crate::engine::DrawTextInner {
                                    text: inputs[0].clone(),
                                    coord_x: x,
                                    coord_y: y,
                                    color,
                                    font_path: inputs[4].clone(),
                                },
                            ),
                        ),
                    ),
                    _ => {
                        let bad: usize = if x.is_none() {
                            1
                        } else if y.is_none() {
                            2
                        } else {
                            3
                        };
                        Err(type_error("DrawTextInner", inputs[bad].clone()))
                    },
                }
            },
            OperationId::Filter3x3 => {
                if inputs.len() != 9 {
                    return Err(count_error("[FpLit; 9]"));
                }
                let e0 = crate::numeral::parse_fp_token(token_slice(inputs, 0));
                let e1 = crate::numeral::parse_fp_token(token_slice(inputs, 1));
                let e2 = crate::numeral::parse_fp_token(token_slice(inputs, 2));
                let e3 = crate::numeral::parse_fp_token(token_slice(inputs, 3));
                let e4 = crate::numeral::parse_fp_token(token_slice(inputs, 4));
                let e5 = crate::numeral::parse_fp_token(token_slice(inputs, 5));
                let e6 = crate::numeral::parse_fp_token(token_slice(inputs, 6));
                let e7 = crate::numeral::parse_fp_token(token_slice(inputs, 7));
                let e8 = crate::numeral::parse_fp_token(token_slice(inputs, 8));
                match (e0, e1, e2, e3, e4, e5, e6, e7, e8) {
                    (
                        Some(e0),
                        Some(e1),
                        Some(e2),
                        Some(e3),
                        Some(e4),
                        Some(e5),
                        Some(e6),
                        Some(e7),
                        Some(e8),
                    ) => Ok(
                        crate::engine::Instr::Operation(
                            crate::engine::ImgOp::Filter3x3(
                                crate::parser::FilterKernel {
                                    e0,
                                    e1,
                                    e2,
                                    e3,
                                    e4,
                                    e5,
                                    e6,
                                    e7,
                                    e8,
                                },
                            ),
                        ),
                    ),
                    _ => {
                        let bad: usize = if e0.is_none() {
                            0
                        } else if e1.is_none() {
                            1
                        } else if e2.is_none() {
                            2
                        } else if e3.is_none() {
                            3
                        } else if e4.is_none() {
                            4
                        } else if e5.is_none() {
                            5
                        } else if e6.is_none() {
                            6
                        } else if e7.is_none() {
                            7
                        } else {
                            8
                        };
                        Err(type_error("[FpLit; 9]", inputs[bad].clone()))
                    },
                }
            },
            OperationId::FlipHorizontal => {
                if inputs.len() != 0 {
                    return Err(count_error("()"));
                }
                Ok(crate::engine::Instr::Operation(crate::engine::ImgOp::FlipHorizontal))
            },
            OperationId::FlipVertical => {
                if inputs.len() != 0 {
                    return Err(count_error("()"));
                }
                Ok(crate::engine::Instr::Operation(crate::engine::ImgOp::FlipVertical))
            },
            OperationId::Grayscale => {
                if inputs.len() != 0 {
                    return Err(count_error("()"));
                }
                Ok(crate::engine::Instr::Operation(crate::engine::ImgOp::Grayscale))
            },
            OperationId::HueRotate => {
                if inputs.len() != 1 {
                    return Err(count_error("i32"));
                }
                match crate::numeral::parse_i32_token(token_slice(inputs, 0)) {
                    Some(v) => Ok(
                        crate::engine::Instr::Operation(crate::engine::ImgOp::HueRotate(v)),
                    ),
                    None => Err(type_error("i32", inputs[0].clone())),
                }
            },
            OperationId::HorizontalGradient => {
                if inputs.len() != 2 {
                    return Err(count_error("GradientInput"));
                }
                let s = crate::engine::parse_color_token(token_slice(inputs, 0));
                let e = crate::engine::parse_color_token(token_slice(inputs, 1));
                match (s, e) {
                    (Some(start), Some(stop)) => Ok(
                        crate::engine::Instr::Operation(
                            crate::engine::ImgOp::HorizontalGradient(
                                crate::engine::GradientInput { start, stop },
                            ),
                        ),
                    ),
                    _ => {
                        let bad: usize = if s.is_none() {
                            0
                        } else {
                            1
                        };
                        Err(type_error("GradientInput", inputs[bad].clone()))
                    },
                }
            },
            OperationId::Invert => {
                if inputs.len() != 0 {
                    return Err(count_error("()"));
                }
                Ok(crate::engine::Instr::Operation(crate::engine::ImgOp::Invert))
            },
            OperationId::Overlay => {
                if inputs.len() != 3 {
                    return Err(count_error("OverlayInputs"));
                }
                let x = crate::numeral::parse_u32_token(token_slice(inputs, 1));
                let y = crate::numeral::parse_u32_token(token_slice(inputs, 2));
                match (x, y) {
                    (Some(x), Some(y)) => Ok(
                        crate::engine::Instr::Operation(
                            crate::engine::ImgOp::Overlay(
                                crate::engine::OverlayInputs {
                                    image_path: crate::engine::ImageFromPath::new(
                                        inputs[0].clone(),
                                    ),
                                    position_x: x,
                                    position_y: y,
                                },
                            ),
                        ),
                    ),
                    _ => {
                        let bad: usize = if x.is_none() {
                            1
                        } else {
                            2
                        };
                        Err(type_error("OverlayInputs", inputs[bad].clone()))
                    },
                }
            },
            OperationId::Resize => {
                if inputs.len() != 2 {
                    return Err(count_error("(u32, u32)"));
                }
                let a = crate::numeral::parse_u32_token(token_slice(inputs, 0));
                let b = crate::numeral::parse_u32_token(token_slice(inputs, 1));
                match (a, b) {
                    (Some(a), Some(b)) => Ok(
                        crate::engine::Instr::Operation(crate::engine::ImgOp::Resize(a, b)),
                    ),
                    _ => {
                        let bad: usize = if a.is_none() {
                            0
                        } else {
                            1
                        };
                        Err(type_error("(u32, u32)", inputs[bad].clone()))
                    },
                }
            },
            OperationId::Rotate90 => {
                if inputs.len() != 0 {
                    return Err(count_error("()"));
                }
                Ok(crate::engine::Instr::Operation(crate::engine::ImgOp::Rotate90))
            },
            OperationId::Rotate180 => {
                if inputs.len() != 0 {
                    return Err(count_error("()"));
                }
                Ok(crate::engine::Instr::Operation(crate::engine::ImgOp::Rotate180))
            },
            OperationId::Rotate270 => {
                if inputs.len() != 0 {
                    return Err(count_error("()"));
                }
                Ok(crate::engine::Instr::Operation(crate::engine::ImgOp::Rotate270))
            },
            OperationId::Threshold => {
                if inputs.len() != 0 {
                    return Err(count_error("()"));
                }
                Ok(crate::engine::Instr::Operation(crate::engine::ImgOp::Threshold))
            },
            OperationId::Unsharpen => {
                if inputs.len() != 2 {
                    return Err(count_error("(FpLit, i32)"));
                }
                let x = crate::numeral::parse_fp_token(token_slice(inputs, 0));
                let y = crate::numeral::parse_i32_token(token_slice(inputs, 1));
                match (x, y) {
                    (Some(x), Some(y)) => Ok(
                        crate::engine::Instr::Operation(crate::engine::ImgOp::Unsharpen(x, y)),
                    ),
                    _ => {
                        let bad: usize = if x.is_none() {
                            0
                        } else {
                            1
                        };
                        Err(type_error("(FpLit, i32)", inputs[bad].clone()))
                    },
                }
            },
            OperationId::VerticalGradient => {
                if inputs.len() != 2 {
                    return Err(count_error("GradientInput"));
                }
                let s = crate::engine::parse_color_token(token_slice(inputs, 0));
                let e = crate::engine::parse_color_token(token_slice(inputs, 1));
                match (s, e) {
                    (Some(start), Some(stop)) => Ok(
                        crate::engine::Instr::Operation(
                            crate::engine::ImgOp::VerticalGradient(
                                crate::engine::GradientInput { start, stop },
                            ),
                        ),
                    ),
                    _ => {
                        let bad: usize = if s.is_none() {
                            0
                        } else {
                            1
                        };
                        Err(type_error("GradientInput", inputs[bad].clone()))
                    },
                }
            },
            OperationId::PreserveAspectRatio => {
                if inputs.len() != 1 {
                    return Err(count_error("bool"));
                }
                match crate::numeral::parse_bool_token(token_slice(inputs, 0)) {
                    Some(v) => Ok(
                        crate::engine::Instr::EnvAdd(
                            crate::engine::EnvItem::PreserveAspectRatio(v),
                        ),
                    ),
                    None => Err(type_error("bool", inputs[0].clone())),
                }
            },
            OperationId::SamplingFilter => {
                if inputs.len() != 1 {
                    return Err(count_error("String"));
                }
                match crate::engine::FilterTypeWrap::try_from_str(inputs[0].as_str()) {
                    Ok(f) => Ok(
                        crate::engine::Instr::EnvAdd(
                            crate::engine::EnvItem::CustomSamplingFilter(f),
                        ),
                    ),
                    Err(filter_err) => Err(
                        crate::errors::SicCliOpsError::UnableToParseValueOfType {
                            err: crate::errors::SicParserError::FilterTypeError(filter_err),
                            typ: <String as vstd::string::StringExecFns>::from_str("String"),
                        },
                    ),
                }
            },
        }
    }
}

/// Whether a flat run of argument tokens splits evenly into invocations of
/// one operation: the count must be a multiple of the arity, and every
/// arity-sized group, taken greedily left to right, must coerce.
pub open spec fn grouping_ok(op: OperationId, vs: Seq<Seq<char>>) -> bool {
    let k = spec_arity(op) as int;
    if k == 0 {
        vs.len() == 0
    } else {
        (vs.len() as int) % k == 0 && forall|i: int|
            0 <= i < (vs.len() as int) / k ==> create_ok(
                op,
                #[trigger] vs.subrange(i * k, (i + 1) * k),
            )
    }
}

/// How many invocations a flat token run denotes.
pub open spec fn group_count(op: OperationId, vs: Seq<Seq<char>>) -> int {
    let k = spec_arity(op) as int;
    if k == 0 {
        1
    } else {
        (vs.len() as int) / k
    }
}

impl OperationId {
    /// Splits a flat run of `n * arity` argument tokens greedily left to
    /// right into `n` invocations of this operation and constructs their
    /// instructions, in original order. A remainder that does not divide
    /// evenly, or any group that fails coercion, fails the whole run.
    pub fn create_instructions(self, inputs: &Vec<String>) -> (r: Result<
        Vec<crate::engine::Instr>,
        crate::errors::SicCliOpsError,
    >)
        ensures
            match r {
                Ok(v) => {
                    let vs = views_of(inputs@);
                    let k = spec_arity(self) as int;
                    &&& grouping_ok(self, vs)
                    &&& v@.len() == group_count(self, vs)
                    &&& forall|i: int|
                        0 <= i < v@.len() ==> instr_matches(
                            self,
                            vs.subrange(i * k, (i + 1) * k),
                            #[trigger] v@[i],
                        )
                },
                Err(_) => !grouping_ok(self, views_of(inputs@)),
            },
    {
        proof {
            lemma_views_of(inputs@);
        }
        let ghost vs = views_of(inputs@);
        let k = self.takes_number_of_arguments();
        if k == 0 {
            if inputs.len() != 0 {
                return Err(count_error("()"));
            }
            assert(vs.subrange(0, 0) =~= vs);
            match self.create_instruction(inputs) {
                Ok(instr) => {
                    let mut v: Vec<crate::engine::Instr> = Vec::new();
                    v.push(instr);
                    Ok(v)
                },
                Err(e) => Err(e),
            }
        } else {
            if inputs.len() % k != 0 {
                return Err(count_error("argument group"));
            }
            let mut out: Vec<crate::engine::Instr> = Vec::new();
            let mut off: usize = 0;
            let ghost gi: int = 0;
            while off < inputs.len()
                invariant
                    vs == views_of(inputs@),
                    vs.len() == inputs@.len(),
                    forall|q: int| 0 <= q < vs.len() ==> vs[q] == inputs@[q]@,
                    k == spec_arity(self),
                    k > 0,
                    (inputs@.len() as int) % (k as int) == 0,
                    off == gi * k,
                    0 <= off <= inputs@.len(),
                    out@.len() == gi,
                    forall|i: int|
                        0 <= i < out@.len() ==> create_ok(
                            self,
                            #[trigger] vs.subrange(i * (k as int), (i + 1) * (k as int)),
                        ),
                    forall|i: int|
                        0 <= i < out@.len() ==> instr_matches(
                            self,
                            vs.subrange(i * (k as int), (i + 1) * (k as int)),
                            #[trigger] out@[i],
                        ),
                decreases inputs@.len() - off,
            {
                proof {
                    let n = inputs@.len() as int;
                    let ki = k as int;
                    vstd::arithmetic::div_mod::lemma_fundamental_div_mod(n, ki);
                    let m = n / ki;
                    assert(n == ki * m);
                    assert(off + ki <= n) by (nonlinear_arith)
                        requires
                            off == gi * ki,
                            off < n,
                            n == ki * m,
                            ki > 0,
                            gi >= 0,
                    ;
                }
                let mut chunk: Vec<String> = Vec::new();
                let mut j: usize = 0;
                while j < k
                    invariant
                        0 <= j <= k,
                        off + k <= inputs@.len(),
                        inputs@.len() <= usize::MAX,
                        chunk@.len() == j,
                        forall|q: int| 0 <= q < j ==> (#[trigger] chunk@[q])@ == inputs@[off + q]@,
                    decreases k - j,
                {
                    chunk.push(inputs[off + j].clone());
                    j = j + 1;
                }
                proof {
                    lemma_views_of(chunk@);
                    assert(views_of(chunk@) =~= vs.subrange(
                        gi * (k as int),
                        (gi + 1) * (k as int),
                    )) by {
                        assert((gi + 1) * (k as int) == gi * (k as int) + k);
                        assert(forall|q: int|
                            0 <= q < k ==> views_of(chunk@)[q] == #[trigger] chunk@[q]@);
                    }
                }
                match self.create_instruction(&chunk) {
                    Ok(instr) => {
                        out.push(instr);
                    },
                    Err(e) => {
                        proof {
                            let ki = k as int;
                            let n = vs.len() as int;
                            assert(0 <= gi < n / ki) by (nonlinear_arith)
                                requires
                                    off == gi * ki,
                                    off < n,
                                    n % ki == 0,
                                    ki > 0,
                                    gi >= 0,
                            ;
                            assert(!create_ok(
                                self,
                                vs.subrange(gi * ki, (gi + 1) * ki),
                            ));
                        }
                        return Err(e);
                    },
                }
                off = off + k;
                proof {
                    gi = gi + 1;
                    assert(off == gi * (k as int)) by (nonlinear_arith)
                        requires
                            off == (gi - 1) * (k as int) + k,
                    ;
                }
            }
            proof {
                let ki = k as int;
                let n = vs.len() as int;
                assert(off == n);
                assert(gi == n / ki) by (nonlinear_arith)
                    requires
                        n == gi * ki,
                        ki > 0,
                        gi >= 0,
                ;
            }
            Ok(out)
        }
    }
}

} // verus!
