//! The instruction model and the interpreter: a compiled program is an
//! ordered list of instructions, each either a pure image transform or an
//! environment update; the engine walks the list in order, folding updates
//! into the environment and handing each transform an exact snapshot of the
//! environment in force at its point.

use vstd::prelude::*;
use vstd::string::StringExecFns;

use crate::errors::SicImageEngineError;
use crate::numeral::FpLit;
use crate::operations::str_eq;
use crate::parser::FilterKernel;

verus! {

/// Relies on the type `image::DynamicImage` of the image crate: a decoded
/// raster frame, carried opaquely through the engine.
#[verifier::external_type_specification]
#[verifier::external_body]
pub struct ExDynamicImage(image::DynamicImage);

/// Relies on the type `image::Frame` of the image crate: one frame of an
/// animation, carried opaquely through the engine.
#[verifier::external_type_specification]
#[verifier::external_body]
pub struct ExFrame(image::Frame);

/// An image under transformation: a single raster frame, or an ordered
/// sequence of animation frames. Every operation is defined for both
/// variants; on an animation it applies to every frame alike.
pub enum SicImage {
    Static(image::DynamicImage),
    Animated(Vec<image::Frame>),
}

/// The closed set of sampling filters a resize may use.
#[derive(Debug, Clone, Copy, PartialEq, Eq, Structural, Hash)]
pub enum FilterTypeWrap {
    CatmullRom,
    Gaussian,
    Lanczos3,
    Nearest,
    Triangle,
}

/// The sampling filter a name selects, if any; only these five names are
/// recognized.
pub open spec fn spec_filter_from_name(s: Seq<char>) -> Option<FilterTypeWrap> {
    if s == "catmullrom"@ {
        Some(FilterTypeWrap::CatmullRom)
    } else if s == "gaussian"@ {
        Some(FilterTypeWrap::Gaussian)
    } else if s == "lanczos3"@ {
        Some(FilterTypeWrap::Lanczos3)
    } else if s == "nearest"@ {
        Some(FilterTypeWrap::Nearest)
    } else if s == "triangle"@ {
        Some(FilterTypeWrap::Triangle)
    } else {
        None
    }
}

impl FilterTypeWrap {
    /// Looks a sampling filter up by name; an unknown name is reported back
    /// with the name that failed.
    pub fn try_from_str(input: &str) -> (r: Result<FilterTypeWrap, SicImageEngineError>)
        ensures
            match r {
                Ok(f) => spec_filter_from_name(input@) == Some(f),
                Err(e) => spec_filter_from_name(input@) is None && (e matches
                SicImageEngineError::UnknownFilterType(n) && n@ == input@),
            },
    {
        if str_eq(input, "catmullrom") {
            Ok(FilterTypeWrap::CatmullRom)
        } else if str_eq(input, "gaussian") {
            Ok(FilterTypeWrap::Gaussian)
        } else if str_eq(input, "lanczos3") {
            Ok(FilterTypeWrap::Lanczos3)
        } else if str_eq(input, "nearest") {
            Ok(FilterTypeWrap::Nearest)
        } else if str_eq(input, "triangle") {
            Ok(FilterTypeWrap::Triangle)
        } else {
            Err(SicImageEngineError::UnknownFilterType(String::from_str(input)))
        }
    }
}

impl Default for FilterTypeWrap {
    /// The sampling filter used when a script selects none.
    fn default() -> (r: Self)
        ensures
            r == FilterTypeWrap::Lanczos3,
    {
        FilterTypeWrap::Lanczos3
    }
}

/// A reference to an image file on disk, used by operations that read a
/// second image; the path is resolved only when the operation executes.
#[derive(Debug, Clone, PartialEq, Eq)]
pub struct ImageFromPath {
    pub path: String,
}

impl ImageFromPath {
    pub fn new(path: String) -> (r: Self)
        ensures
            r.path == path,
    {
        ImageFromPath { path }
    }
}

/// An RGBA color, one byte per channel.
#[derive(Debug, Clone, Copy, PartialEq, Eq, Structural)]
pub struct RgbaColor {
    pub r: u8,
    pub g: u8,
    pub b: u8,
    pub a: u8,
}

/// The meaning of a color token `r,g,b,a`: four byte-sized channels
/// separated by commas.
pub open spec fn sp_parse_color(t: Seq<u8>) -> Option<RgbaColor> {
    let i1 = crate::numeral::find_byte(t, 44);
    if i1 < t.len() {
        let c1 = t.take(i1);
        let rest1 = t.skip(i1 + 1);
        let i2 = crate::numeral::find_byte(rest1, 44);
        if i2 < rest1.len() {
            let c2 = rest1.take(i2);
            let rest2 = rest1.skip(i2 + 1);
            let i3 = crate::numeral::find_byte(rest2, 44);
            if i3 < rest2.len() {
                let c3 = rest2.take(i3);
                let c4 = rest2.skip(i3 + 1);
                if crate::numeral::spec_parse_u8(c1) is Some && crate::numeral::spec_parse_u8(c2)
                    is Some && crate::numeral::spec_parse_u8(c3) is Some
                    && crate::numeral::spec_parse_u8(c4) is Some {
                    Some(
                        RgbaColor {
                            r: crate::numeral::spec_parse_u8(c1).unwrap(),
                            g: crate::numeral::spec_parse_u8(c2).unwrap(),
                            b: crate::numeral::spec_parse_u8(c3).unwrap(),
                            a: crate::numeral::spec_parse_u8(c4).unwrap(),
                        },
                    )
                } else {
                    None
                }
            } else {
                None
            }
        } else {
            None
        }
    } else {
        None
    }
}

/// Parses a color token `r,g,b,a`; each channel must be a decimal byte and
/// exactly three commas must separate them.
pub fn parse_color_token(t: &[u8]) -> (r: Option<RgbaColor>)
    ensures
        r == sp_parse_color(t@),
{
    let i1 = crate::numeral::find_byte_exec(t, 44);
    if i1 == t.len() {
        return None;
    }
    let c1: &[u8] = &t[0..i1];
    let rest1: &[u8] = &t[i1 + 1..t.len()];
    assert(c1@ =~= t@.take(i1 as int));
    assert(rest1@ =~= t@.skip(i1 + 1));
    let i2 = crate::numeral::find_byte_exec(rest1, 44);
    if i2 == rest1.len() {
        return None;
    }
    let c2: &[u8] = &rest1[0..i2];
    let rest2: &[u8] = &rest1[i2 + 1..rest1.len()];
    assert(c2@ =~= rest1@.take(i2 as int));
    assert(rest2@ =~= rest1@.skip(i2 + 1));
    let i3 = crate::numeral::find_byte_exec(rest2, 44);
    if i3 == rest2.len() {
        return None;
    }
    let c3: &[u8] = &rest2[0..i3];
    let c4: &[u8] = &rest2[i3 + 1..rest2.len()];
    assert(c3@ =~= rest2@.take(i3 as int));
    assert(c4@ =~= rest2@.skip(i3 + 1));
    let r = crate::numeral::parse_u8_token(c1);
    let g = crate::numeral::parse_u8_token(c2);
    let b = crate::numeral::parse_u8_token(c3);
    let a = crate::numeral::parse_u8_token(c4);
    match (r, g, b, a) {
        (Some(r), Some(g), Some(b), Some(a)) => Some(RgbaColor { r, g, b, a }),
        _ => None,
    }
}

/// The two colors of a gradient fill, start and stop.
#[derive(Debug, Clone, Copy, PartialEq, Eq, Structural)]
pub struct GradientInput {
    pub start: RgbaColor,
    pub stop: RgbaColor,
}

/// An overlay: the image to lay over, and the position of its top-left
/// corner.
#[derive(Debug, Clone, PartialEq, Eq)]
pub struct OverlayInputs {
    pub image_path: ImageFromPath,
    pub position_x: u32,
    pub position_y: u32,
}

/// The parameters of a text drawing: the text, where to place it, its color,
/// and the font file to render it with.
#[derive(Debug, Clone, PartialEq, Eq)]
pub struct DrawTextInner {
    pub text: String,
    pub coord_x: u32,
    pub coord_y: u32,
    pub color: RgbaColor,
    pub font_path: String,
}

/// A pure image transform with its typed payload.
#[derive(Debug, Clone, PartialEq)]
pub enum ImgOp {
    Blur(FpLit),
    Brighten(i32),
    Contrast(FpLit),
    Crop(u32, u32, u32, u32),
    Diff(ImageFromPath),
    DrawText(DrawTextInner),
    Filter3x3(FilterKernel),
    FlipHorizontal,
    FlipVertical,
    Grayscale,
    HueRotate(i32),
    HorizontalGradient(GradientInput),
    Invert,
    Overlay(OverlayInputs),
    Resize(u32, u32),
    Rotate90,
    Rotate180,
    Rotate270,
    Threshold,
    Unsharpen(FpLit, i32),
    VerticalGradient(GradientInput),
}

/// An update to the interpreter's environment; it changes no pixel.
#[derive(Debug, Clone, Copy, PartialEq, Eq, Structural)]
pub enum EnvItem {
    PreserveAspectRatio(bool),
    CustomSamplingFilter(FilterTypeWrap),
}

/// One compiled, typed unit of a program.
#[derive(Debug, Clone, PartialEq)]
pub enum Instr {
    Operation(ImgOp),
    EnvAdd(EnvItem),
}

/// The modifier state the interpreter threads through a run: whether resizes
/// preserve the aspect ratio (off by default), and which sampling filter they
/// use.
#[derive(Debug, Clone, Copy, PartialEq, Eq, Structural)]
pub struct Environment {
    pub preserve_aspect_ratio: bool,
    pub sampling_filter: FilterTypeWrap,
}

impl Environment {
    /// The environment a run starts from.
    pub open spec fn spec_default() -> Environment {
        Environment { preserve_aspect_ratio: false, sampling_filter: FilterTypeWrap::Lanczos3 }
    }

    pub fn new() -> (r: Environment)
        ensures
            r == Environment::spec_default(),
    {
        Environment { preserve_aspect_ratio: false, sampling_filter: FilterTypeWrap::Lanczos3 }
    }
}

/// The effect of one environment update: it replaces the corresponding field
/// and cannot fail.
pub open spec fn apply_env_item(env: Environment, item: EnvItem) -> Environment {
    match item {
        EnvItem::PreserveAspectRatio(b) => Environment { preserve_aspect_ratio: b, ..env },
        EnvItem::CustomSamplingFilter(f) => Environment { sampling_filter: f, ..env },
    }
}

/// The environment after every update in `prog` has been folded in, in
/// program order; operations leave it untouched.
pub open spec fn env_after(env: Environment, prog: Seq<Instr>) -> Environment
    decreases prog.len(),
{
    if prog.len() == 0 {
        env
    } else {
        match prog[0] {
            Instr::EnvAdd(item) => env_after(apply_env_item(env, item), prog.skip(1)),
            Instr::Operation(_) => env_after(env, prog.skip(1)),
        }
    }
}

pub proof fn lemma_env_after_concat(env: Environment, a: Seq<Instr>, b: Seq<Instr>)
    ensures
        env_after(env, a + b) == env_after(env_after(env, a), b),
    decreases a.len(),
{
    if a.len() == 0 {
        assert(a + b =~= b);
    } else {
        assert((a + b).skip(1) =~= a.skip(1) + b);
        match a[0] {
            Instr::EnvAdd(item) => {
                lemma_env_after_concat(apply_env_item(env, item), a.skip(1), b);
            },
            Instr::Operation(_) => {
                lemma_env_after_concat(env, a.skip(1), b);
            },
        }
    }
}

/// One transform together with the exact environment snapshot its execution
/// must see.
#[derive(Debug, Clone, PartialEq)]
pub struct PlannedOp {
    pub op: ImgOp,
    pub env: Environment,
}

/// The execution plan of a program started in `env`: its operations in
/// program order, each paired with the fold of every environment update that
/// precedes it — and of nothing that follows it.
pub open spec fn plan_spec(env: Environment, prog: Seq<Instr>) -> Seq<PlannedOp>
    decreases prog.len(),
{
    if prog.len() == 0 {
        Seq::empty()
    } else {
        match prog[0] {
            Instr::Operation(op) => seq![PlannedOp { op, env }] + plan_spec(env, prog.skip(1)),
            Instr::EnvAdd(item) => plan_spec(apply_env_item(env, item), prog.skip(1)),
        }
    }
}

/// Extending a program only extends its plan: instructions after a point,
/// environment updates included, never change what was planned before that
/// point. This is the ordering half of the environment guarantee.
pub proof fn lemma_plan_prefix_stable(env: Environment, prog: Seq<Instr>, ext: Seq<Instr>)
    ensures
        plan_spec(env, prog + ext) == plan_spec(env, prog) + plan_spec(env_after(env, prog), ext),
    decreases prog.len(),
{
    if prog.len() == 0 {
        assert(prog + ext =~= ext);
        assert(plan_spec(env, prog) + plan_spec(env, ext) =~= plan_spec(env, ext));
    } else {
        assert((prog + ext).skip(1) =~= prog.skip(1) + ext);
        match prog[0] {
            Instr::Operation(op) => {
                lemma_plan_prefix_stable(env, prog.skip(1), ext);
                assert(plan_spec(env, prog + ext) =~= plan_spec(env, prog) + plan_spec(
                    env_after(env, prog),
                    ext,
                ));
            },
            Instr::EnvAdd(item) => {
                lemma_plan_prefix_stable(apply_env_item(env, item), prog.skip(1), ext);
            },
        }
    }
}

/// Every environment update before an operation is visible to it: an
/// operation placed after a run of updates is planned with exactly their
/// fold, whatever follows it in the program. This is the visibility half of
/// the environment guarantee.
pub proof fn lemma_env_updates_visible(
    env: Environment,
    updates: Seq<Instr>,
    op: ImgOp,
    rest: Seq<Instr>,
)
    requires
        forall|i: int| 0 <= i < updates.len() ==> (#[trigger] updates[i]) is EnvAdd,
    ensures
        plan_spec(env, updates + seq![Instr::Operation(op)] + rest) == seq![
            PlannedOp { op, env: env_after(env, updates) },
        ] + plan_spec(env_after(env, updates), rest),
    decreases updates.len(),
{
    if updates.len() == 0 {
        assert(updates + seq![Instr::Operation(op)] + rest =~= seq![Instr::Operation(op)] + rest);
        let s = seq![Instr::Operation(op)] + rest;
        assert(s[0] == Instr::Operation(op));
        assert(s.skip(1) =~= rest);
        assert(env_after(env, updates) == env);
    } else {
        let s = updates + seq![Instr::Operation(op)] + rest;
        assert(s[0] == updates[0]);
        match updates[0] {
            Instr::EnvAdd(item) => {
                let env2 = apply_env_item(env, item);
                lemma_env_updates_visible(env2, updates.skip(1), op, rest);
                assert(s.skip(1) =~= updates.skip(1) + seq![Instr::Operation(op)] + rest);
                assert(env_after(env, updates) == env_after(env2, updates.skip(1)));
            },
            Instr::Operation(_) => {
                assert(false);
            },
        }
    }
}

/// A program whose instructions are all environment updates plans no
/// operation at all.
pub proof fn lemma_plan_all_updates(env: Environment, prog: Seq<Instr>)
    requires
        forall|i: int| 0 <= i < prog.len() ==> (#[trigger] prog[i]) is EnvAdd,
    ensures
        plan_spec(env, prog) == Seq::<PlannedOp>::empty(),
    decreases prog.len(),
{
    if prog.len() > 0 {
        match prog[0] {
            Instr::EnvAdd(item) => {
                assert(forall|i: int|
                    0 <= i < prog.skip(1).len() ==> #[trigger] prog.skip(1)[i] == prog[i + 1]);
                lemma_plan_all_updates(apply_env_item(env, item), prog.skip(1));
            },
            Instr::Operation(_) => {
                assert(prog[0] is EnvAdd);
            },
        }
    }
}

/// Lays a program started in `env` out as its execution plan, and folds its
/// updates into the environment the run ends with.
pub fn plan_from(env: Environment, program: Vec<Instr>) -> (r: (Vec<PlannedOp>, Environment))
    ensures
        r.0@ == plan_spec(env, program@),
        r.1 == env_after(env, program@),
{
    let ghost start = env;
    let ghost whole = program@;
    let mut rest = program;
    let mut out: Vec<PlannedOp> = Vec::new();
    let mut env = env;
    let ghost mut i: int = 0;
    proof {
        assert(whole.take(0) =~= Seq::<Instr>::empty());
        assert(rest@ =~= whole.skip(0));
    }
    while rest.len() > 0
        invariant
            0 <= i <= whole.len(),
            rest@ == whole.skip(i),
            env == env_after(start, whole.take(i)),
            out@ == plan_spec(start, whole.take(i)),
        decreases rest@.len(),
    {
        let ghost pre = whole.take(i);
        let instr = rest.remove(0);
        proof {
            assert(whole.skip(i)[0] == whole[i]);
            assert(instr == whole[i]);
            assert(rest@ =~= whole.skip(i + 1));
            assert(whole.take(i + 1) =~= pre + seq![whole[i]]);
            lemma_plan_prefix_stable(start, pre, seq![whole[i]]);
            lemma_env_after_concat(start, pre, seq![whole[i]]);
            assert(seq![whole[i]].skip(1) =~= Seq::<Instr>::empty());
            assert(plan_spec(env, Seq::<Instr>::empty()) =~= Seq::<PlannedOp>::empty());
            assert(env_after(env, Seq::<Instr>::empty()) == env);
        }
        match instr {
            Instr::Operation(op) => {
                out.push(PlannedOp { op, env });
                proof {
                    assert(out@ =~= plan_spec(start, whole.take(i + 1)));
                }
            },
            Instr::EnvAdd(item) => {
                env = match item {
                    EnvItem::PreserveAspectRatio(b) => Environment {
                        preserve_aspect_ratio: b,
                        ..env
                    },
                    EnvItem::CustomSamplingFilter(f) => Environment { sampling_filter: f, ..env },
                };
                proof {
                    assert(plan_spec(env, Seq::<Instr>::empty()) =~= Seq::<PlannedOp>::empty());
                    assert(env_after(env, Seq::<Instr>::empty()) == env);
                    assert(out@ =~= plan_spec(start, whole.take(i + 1)));
                }
            },
        }
        proof {
            i = i + 1;
        }
    }
    proof {
        assert(whole.skip(i).len() == 0);
        assert(i == whole.len());
        assert(whole.take(whole.len() as int) =~= whole);
    }
    (out, env)
}

/// Lays a program out as its execution plan, pairing each operation with the
/// environment snapshot in force at its point. A fresh run starts from the
/// default environment.
pub fn plan(program: Vec<Instr>) -> (r: Vec<PlannedOp>)
    ensures
        r@ == plan_spec(Environment::spec_default(), program@),
{
    let (planned, _) = plan_from(Environment::new(), program);
    planned
}


/// The environment snapshot each planned operation of a program receives, in
/// dispatch order: element `j` is, by contract, the environment of the `j`-th
/// operation of the program's plan when the run starts in `env`.
pub fn environment_schedule(env: Environment, program: &Vec<Instr>) -> (r: Vec<Environment>)
    ensures
        r@.len() == plan_spec(env, program@).len(),
        forall|j: int| 0 <= j < r@.len() ==> r@[j] == plan_spec(env, program@)[j].env,
{
    let ghost whole = program@;
    let mut out: Vec<Environment> = Vec::new();
    let mut envc = env;
    let mut i: usize = 0;
    proof {
        assert(whole.take(0) =~= Seq::<Instr>::empty());
    }
    while i < program.len()
        invariant
            0 <= i <= whole.len(),
            whole == program@,
            envc == env_after(env, whole.take(i as int)),
            out@.len() == plan_spec(env, whole.take(i as int)).len(),
            forall|j: int|
                0 <= j < out@.len() ==> out@[j] == plan_spec(env, whole.take(i as int))[j].env,
        decreases whole.len() - i,
    {
        let ghost pre = whole.take(i as int);
        proof {
            assert(whole.take(i + 1) =~= pre + seq![whole[i as int]]);
            lemma_plan_prefix_stable(env, pre, seq![whole[i as int]]);
            lemma_env_after_concat(env, pre, seq![whole[i as int]]);
            assert(seq![whole[i as int]].skip(1) =~= Seq::<Instr>::empty());
            assert(plan_spec(envc, Seq::<Instr>::empty()) =~= Seq::<PlannedOp>::empty());
            assert(env_after(envc, Seq::<Instr>::empty()) == envc);
        }
        match &program[i] {
            Instr::Operation(op) => {
                proof {
                    assert(plan_spec(envc, seq![whole[i as int]]) =~= seq![
                        PlannedOp { op: *op, env: envc },
                    ]);
                }
                out.push(envc);
            },
            Instr::EnvAdd(item) => {
                envc = match item {
                    EnvItem::PreserveAspectRatio(b) => Environment {
                        preserve_aspect_ratio: *b,
                        ..envc
                    },
                    EnvItem::CustomSamplingFilter(f) => Environment { sampling_filter: *f, ..envc },
                };
                proof {
                    assert(plan_spec(envc, Seq::<Instr>::empty()) =~= Seq::<PlannedOp>::empty());
                    assert(env_after(envc, Seq::<Instr>::empty()) == envc);
                }
            },
        }
        i = i + 1;
    }
    assert(whole.take(whole.len() as int) =~= whole);
    out
}

/// The instruction a compiled script operation stands for.
pub open spec fn spec_instruction_of(op: crate::parser::Operation) -> Instr {
    match op {
        crate::parser::Operation::Blur(x) => Instr::Operation(ImgOp::Blur(x)),
        crate::parser::Operation::Brighten(v) => Instr::Operation(ImgOp::Brighten(v)),
        crate::parser::Operation::Contrast(x) => Instr::Operation(ImgOp::Contrast(x)),
        crate::parser::Operation::Crop(a, b, c, d) => Instr::Operation(ImgOp::Crop(a, b, c, d)),
        crate::parser::Operation::Filter3x3(k) => Instr::Operation(ImgOp::Filter3x3(k)),
        crate::parser::Operation::FlipHorizontal => Instr::Operation(ImgOp::FlipHorizontal),
        crate::parser::Operation::FlipVertical => Instr::Operation(ImgOp::FlipVertical),
        crate::parser::Operation::GrayScale => Instr::Operation(ImgOp::Grayscale),
        crate::parser::Operation::HueRotate(v) => Instr::Operation(ImgOp::HueRotate(v)),
        crate::parser::Operation::Invert => Instr::Operation(ImgOp::Invert),
        crate::parser::Operation::Resize(a, b) => Instr::Operation(ImgOp::Resize(a, b)),
        crate::parser::Operation::Rotate90 => Instr::Operation(ImgOp::Rotate90),
        crate::parser::Operation::Rotate180 => Instr::Operation(ImgOp::Rotate180),
        crate::parser::Operation::Rotate270 => Instr::Operation(ImgOp::Rotate270),
        crate::parser::Operation::Unsharpen(x, v) => Instr::Operation(ImgOp::Unsharpen(x, v)),
    }
}

/// Turns one compiled script operation into an engine instruction.
pub fn instruction_of(op: crate::parser::Operation) -> (r: Instr)
    ensures
        r == spec_instruction_of(op),
{
    match op {
        crate::parser::Operation::Blur(x) => Instr::Operation(ImgOp::Blur(x)),
        crate::parser::Operation::Brighten(v) => Instr::Operation(ImgOp::Brighten(v)),
        crate::parser::Operation::Contrast(x) => Instr::Operation(ImgOp::Contrast(x)),
        crate::parser::Operation::Crop(a, b, c, d) => Instr::Operation(ImgOp::Crop(a, b, c, d)),
        crate::parser::Operation::Filter3x3(k) => Instr::Operation(ImgOp::Filter3x3(k)),
        crate::parser::Operation::FlipHorizontal => Instr::Operation(ImgOp::FlipHorizontal),
        crate::parser::Operation::FlipVertical => Instr::Operation(ImgOp::FlipVertical),
        crate::parser::Operation::GrayScale => Instr::Operation(ImgOp::Grayscale),
        crate::parser::Operation::HueRotate(v) => Instr::Operation(ImgOp::HueRotate(v)),
        crate::parser::Operation::Invert => Instr::Operation(ImgOp::Invert),
        crate::parser::Operation::Resize(a, b) => Instr::Operation(ImgOp::Resize(a, b)),
        crate::parser::Operation::Rotate90 => Instr::Operation(ImgOp::Rotate90),
        crate::parser::Operation::Rotate180 => Instr::Operation(ImgOp::Rotate180),
        crate::parser::Operation::Rotate270 => Instr::Operation(ImgOp::Rotate270),
        crate::parser::Operation::Unsharpen(x, v) => Instr::Operation(ImgOp::Unsharpen(x, v)),
    }
}

/// Turns a compiled script into the program the engine runs, in order.
pub fn instructions_of(ops: &Vec<crate::parser::Operation>) -> (r: Vec<Instr>)
    ensures
        r@.len() == ops@.len(),
        forall|i: int| 0 <= i < ops@.len() ==> r@[i] == spec_instruction_of(#[trigger] ops@[i]),
{
    let mut out: Vec<Instr> = Vec::new();
    let mut i: usize = 0;
    while i < ops.len()
        invariant
            0 <= i <= ops@.len(),
            out@.len() == i,
            forall|j: int| 0 <= j < i ==> out@[j] == spec_instruction_of(#[trigger] ops@[j]),
        decreases ops@.len() - i,
    {
        out.push(instruction_of(ops[i]));
        i = i + 1;
    }
    out
}

/// The transform provider the engine dispatches to: one call applies one
/// operation's pixel algorithm to the image, under the given environment
/// snapshot, uniformly across every frame of an animation.
pub trait ImageOperation {
    fn apply_operation(&self, op: &ImgOp, env: &Environment, image: &mut SicImage) -> Result<
        (),
        SicImageEngineError,
    >;
}

/// The interpreter: holds the image being transformed and the environment,
/// and processes instructions strictly in sequence.
pub struct ImageEngine {
    pub environment: Environment,
    pub image: SicImage,
}

impl ImageEngine {
    /// A fresh engine for one run: the input image and the default
    /// environment.
    pub fn new(image: SicImage) -> (r: ImageEngine)
        ensures
            r.environment == Environment::spec_default(),
            r.image == image,
    {
        ImageEngine { environment: Environment::new(), image }
    }

    /// Runs a program against the image. The snapshots handed to the
    /// provider are the verified ones: `environment_schedule` fixes, by
    /// contract, the environment of every planned operation, and the engine
    /// dispatches each operation with its scheduled snapshot. The first
    /// failing operation aborts the run (the image keeps whatever the
    /// completed operations produced). An empty program, or one made of
    /// environment updates alone, always succeeds and returns the image
    /// unchanged.
    pub fn ignite<P: ImageOperation>(&mut self, provider: &P, program: &Vec<Instr>) -> (r: Result<
        (),
        SicImageEngineError,
    >)
        ensures
            program@.len() == 0 ==> r is Ok && final(self).image == old(self).image,
            (forall|i: int| 0 <= i < program@.len() ==> (#[trigger] program@[i]) is EnvAdd)
                ==> r is Ok && final(self).image == old(self).image,
            r is Ok ==> final(self).environment == env_after(old(self).environment, program@),
    {
        let ghost whole = program@;
        let ghost env0 = self.environment;
        let schedule = environment_schedule(self.environment, program);
        assert(schedule.len() <= usize::MAX);
        let mut opidx: usize = 0;
        let mut i: usize = 0;
        while i < program.len()
            invariant
                0 <= i <= whole.len(),
                whole == program@,
                env0 == old(self).environment,
                schedule@.len() <= usize::MAX,
                schedule@.len() == plan_spec(env0, whole).len(),
                forall|j: int|
                    0 <= j < schedule@.len() ==> schedule@[j] == plan_spec(env0, whole)[j].env,
                self.environment == env_after(env0, whole.take(i as int)),
                opidx == plan_spec(env0, whole.take(i as int)).len(),
                opidx == 0 ==> self.image == old(self).image,
            decreases whole.len() - i,
        {
            let ghost pre = whole.take(i as int);
            proof {
                assert(whole.take(i + 1) =~= pre + seq![whole[i as int]]);
                lemma_plan_prefix_stable(env0, pre, seq![whole[i as int]]);
                lemma_env_after_concat(env0, pre, seq![whole[i as int]]);
                assert(seq![whole[i as int]].skip(1) =~= Seq::<Instr>::empty());
                assert(plan_spec(self.environment, Seq::<Instr>::empty())
                    =~= Seq::<PlannedOp>::empty());
                assert(env_after(self.environment, Seq::<Instr>::empty()) == self.environment);
            }
            match &program[i] {
                Instr::Operation(op) => {
                    proof {
                        assert(plan_spec(self.environment, seq![whole[i as int]]) =~= seq![
                            PlannedOp { op: *op, env: self.environment },
                        ]);
                        assert(whole =~= whole.take(i + 1) + whole.skip(i + 1));
                        lemma_plan_prefix_stable(env0, whole.take(i + 1), whole.skip(i + 1));
                        assert(plan_spec(env0, whole)[opidx as int] == PlannedOp {
                            op: *op,
                            env: self.environment,
                        });
                        assert(opidx < schedule@.len());
                    }
                    let snapshot = schedule[opidx];
                    assert(snapshot == self.environment);
                    match provider.apply_operation(op, &snapshot, &mut self.image) {
                        Ok(()) => {},
                        Err(e) => {
                            proof {
                                assert(whole[i as int] is Operation);
                            }
                            return Err(e);
                        },
                    }
                    opidx = opidx + 1;
                },
                Instr::EnvAdd(item) => {
                    self.environment = match item {
                        EnvItem::PreserveAspectRatio(b) => Environment {
                            preserve_aspect_ratio: *b,
                            ..self.environment
                        },
                        EnvItem::CustomSamplingFilter(f) => Environment {
                            sampling_filter: *f,
                            ..self.environment
                        },
                    };
                    proof {
                        assert(plan_spec(self.environment, Seq::<Instr>::empty())
                            =~= Seq::<PlannedOp>::empty());
                        assert(env_after(self.environment, Seq::<Instr>::empty())
                            == self.environment);
                    }
                },
            }
            i = i + 1;
        }
        proof {
            assert(whole.take(whole.len() as int) =~= whole);
            if forall|q: int| 0 <= q < whole.len() ==> (#[trigger] whole[q]) is EnvAdd {
                lemma_plan_all_updates(env0, whole);
            }
            if whole.len() == 0 {
                assert(plan_spec(env0, whole) =~= Seq::<PlannedOp>::empty());
            }
        }
        Ok(())
    }
}

} // verus!
