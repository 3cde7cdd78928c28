//! Tool configuration: input/output selection, encoding settings, and the
//! compiled operation program a run will execute.

use vstd::prelude::*;
use vstd::string::StringExecFns;

use crate::engine::Instr;

verus! {

/// An input or output location: a real path, or the standard stream.
#[derive(Debug, Clone, PartialEq, Eq)]
pub enum PathVariant {
    StdStream,
    Path(String),
}

impl PathVariant {
    pub fn is_std_stream(&self) -> (r: bool)
        ensures
            r == (self is StdStream),
    {
        match self {
            PathVariant::StdStream => true,
            PathVariant::Path(_) => false,
        }
    }

    /// How this location is named in messages.
    pub fn describe_input(&self) -> (r: String)
        ensures
            match self {
                PathVariant::StdStream => r@ == "<stdin>"@,
                PathVariant::Path(p) => r@ == p@,
            },
    {
        match self {
            PathVariant::StdStream => String::from_str("<stdin>"),
            PathVariant::Path(p) => p.clone(),
        }
    }
}

/// Where a run reads from and writes to: one input and one output, or a batch
/// of inputs under a common output folder.
#[derive(Debug, Clone, PartialEq, Eq)]
pub enum InputOutputMode {
    Single { input: PathVariant, output: PathVariant },
    Batch { inputs: Vec<String>, output_root_folder: String },
}

/// Which of the two input/output shapes a run uses.
#[derive(Debug, Clone, Copy, PartialEq, Eq, Structural)]
pub enum InputOutputModeType {
    Simple,
    Batch,
}

/// Which license texts to print instead of running.
#[derive(Debug, Clone, Copy, PartialEq, Eq, Structural)]
pub enum SelectedLicenses {
    ThisSoftware,
    Dependencies,
}

/// Which frame of an animated input a run works on.
#[derive(Debug, Clone, Copy, PartialEq, Eq, Structural)]
pub enum FrameIndex {
    First,
    Last,
    Nth(usize),
}

/// How often an animated output repeats.
#[derive(Debug, Clone, Copy, PartialEq, Eq, Structural)]
pub enum RepeatAnimation {
    Finite(u16),
    Infinite,
    Never,
}

impl Default for RepeatAnimation {
    /// By default an animation repeats without end.
    fn default() -> (r: Self)
        ensures
            r == RepeatAnimation::Infinite,
    {
        RepeatAnimation::Infinite
    }
}

/// Encoding settings for specific output formats.
#[derive(Debug, Clone, Copy, PartialEq, Eq, Structural)]
pub struct FormatEncodingSettings {
    pub jpeg_quality: u8,
    pub pnm_use_ascii_format: bool,
    pub gif_repeat: RepeatAnimation,
}

/// Everything one run needs to know.
#[derive(Debug, Clone)]
pub struct Config<'a> {
    pub tool_name: &'static str,
    pub mode: InputOutputModeType,
    /// Display license of this software or its dependencies.
    pub show_license_text_of: Option<SelectedLicenses>,
    pub selected_frame: Option<FrameIndex>,
    /// Disable color type adjustments on save.
    pub disable_automatic_color_type_adjustment: bool,
    /// Format to which an image will be converted (enforced).
    pub forced_output_format: Option<&'a str>,
    /// Encoding settings for specific output formats.
    pub encoding_settings: FormatEncodingSettings,
    /// The compiled operation program to run against each input; empty when
    /// no script was given.
    pub image_operations_program: Vec<Instr>,
}

impl Default for Config<'_> {
    /// Defaults: simple mode, no license display, no frame selection,
    /// automatic color type adjustment on, no forced format, JPEG quality 80,
    /// binary PNM, infinite GIF repeat, and an empty program.
    fn default() -> (r: Self)
        ensures
            r.tool_name@ == "imagineer"@,
            r.mode == InputOutputModeType::Simple,
            r.show_license_text_of is None,
            r.selected_frame is None,
            !r.disable_automatic_color_type_adjustment,
            r.forced_output_format is None,
            r.encoding_settings == (FormatEncodingSettings {
                jpeg_quality: 80u8,
                pnm_use_ascii_format: false,
                gif_repeat: RepeatAnimation::Infinite,
            }),
            r.image_operations_program@ == Seq::<Instr>::empty(),
    {
        let program: Vec<Instr> = Vec::new();
        assert(program@ =~= Seq::<Instr>::empty());
        Config {
            tool_name: crate::get_tool_name(),
            mode: InputOutputModeType::Simple,
            show_license_text_of: None,
            selected_frame: None,
            disable_automatic_color_type_adjustment: false,
            forced_output_format: None,
            encoding_settings: FormatEncodingSettings {
                jpeg_quality: 80,
                pnm_use_ascii_format: false,
                gif_repeat: RepeatAnimation::Infinite,
            },
            image_operations_program: program,
        }
    }
}

/// Builder for [`Config`], starting from the defaults. The builder is
/// consuming: every setter takes it and hands it back with one field
/// replaced.
#[derive(Debug)]
pub struct ConfigBuilder<'a> {
    pub settings: Config<'a>,
}

impl<'a> ConfigBuilder<'a> {
    pub fn new() -> (r: Self)
        ensures
            r.settings.tool_name@ == "imagineer"@,
            r.settings.mode == InputOutputModeType::Simple,
            r.settings.show_license_text_of is None,
            r.settings.selected_frame is None,
            !r.settings.disable_automatic_color_type_adjustment,
            r.settings.forced_output_format is None,
            r.settings.encoding_settings.jpeg_quality == 80,
            !r.settings.encoding_settings.pnm_use_ascii_format,
            r.settings.encoding_settings.gif_repeat == RepeatAnimation::Infinite,
            r.settings.image_operations_program@ == Seq::<Instr>::empty(),
    {
        ConfigBuilder { settings: Config::default() }
    }

    pub fn mode(self, mode: InputOutputModeType) -> (r: ConfigBuilder<'a>)
        ensures
            r.settings == (Config { mode, ..self.settings }),
    {
        let mut s = self;
        s.settings.mode = mode;
        s
    }

    pub fn show_license_text_of(self, selection: SelectedLicenses) -> (r: ConfigBuilder<'a>)
        ensures
            r.settings == (Config { show_license_text_of: Some(selection), ..self.settings }),
    {
        let mut s = self;
        s.settings.show_license_text_of = Some(selection);
        s
    }

    pub fn select_frame(self, frame: Option<FrameIndex>) -> (r: ConfigBuilder<'a>)
        ensures
            r.settings == (Config { selected_frame: frame, ..self.settings }),
    {
        let mut s = self;
        s.settings.selected_frame = frame;
        s
    }

    pub fn forced_output_format(self, format: &'a str) -> (r: ConfigBuilder<'a>)
        ensures
            r.settings == (Config { forced_output_format: Some(format), ..self.settings }),
    {
        let mut s = self;
        s.settings.forced_output_format = Some(format);
        s
    }

    pub fn disable_automatic_color_type_adjustment(self, toggle: bool) -> (r: ConfigBuilder<'a>)
        ensures
            r.settings == (Config {
                disable_automatic_color_type_adjustment: toggle,
                ..self.settings
            }),
    {
        let mut s = self;
        s.settings.disable_automatic_color_type_adjustment = toggle;
        s
    }

    pub fn jpeg_quality(self, quality: u8) -> (r: ConfigBuilder<'a>)
        ensures
            r.settings == (Config {
                encoding_settings: FormatEncodingSettings {
                    jpeg_quality: quality,
                    ..self.settings.encoding_settings
                },
                ..self.settings
            }),
    {
        let mut s = self;
        s.settings.encoding_settings.jpeg_quality = quality;
        s
    }

    pub fn pnm_format_type(self, use_ascii: bool) -> (r: ConfigBuilder<'a>)
        ensures
            r.settings == (Config {
                encoding_settings: FormatEncodingSettings {
                    pnm_use_ascii_format: use_ascii,
                    ..self.settings.encoding_settings
                },
                ..self.settings
            }),
    {
        let mut s = self;
        s.settings.encoding_settings.pnm_use_ascii_format = use_ascii;
        s
    }

    pub fn gif_repeat(self, repeat: RepeatAnimation) -> (r: ConfigBuilder<'a>)
        ensures
            r.settings == (Config {
                encoding_settings: FormatEncodingSettings {
                    gif_repeat: repeat,
                    ..self.settings.encoding_settings
                },
                ..self.settings
            }),
    {
        let mut s = self;
        s.settings.encoding_settings.gif_repeat = repeat;
        s
    }

    pub fn image_operations_program(self, program: Vec<Instr>) -> (r: ConfigBuilder<'a>)
        ensures
            r.settings == (Config { image_operations_program: program, ..self.settings }),
    {
        let mut s = self;
        s.settings.image_operations_program = program;
        s
    }

    pub fn build(self) -> (r: Config<'a>)
        ensures
            r == self.settings,
    {
        self.settings
    }
}

/// Checks a JPEG quality setting: exactly the values 1 through 100 are
/// accepted, and an accepted value is returned unchanged.
pub fn validate_jpeg_quality(quality: u8) -> (r: Result<u8, String>)
    ensures
        1 <= quality <= 100 ==> r == Ok::<u8, String>(quality),
        !(1 <= quality <= 100) ==> r is Err,
{
    if 1 <= quality && quality <= 100 {
        Ok(quality)
    } else {
        Err(
            String::from_str(
                "JPEG Encoding Settings error: JPEG quality requires a number between 1 and 100 (inclusive).",
            ),
        )
    }
}

/// Whether the image library can encode the format a path's extension
/// implies.
pub uninterp spec fn encodable_path(s: Seq<char>) -> bool;

/// Relies on `image::ImageFormat::from_path` (the format implied by a path's
/// extension, case-insensitively) and `image::ImageFormat::writing_enabled`
/// (whether an encoder for that format is compiled in): both are functions of
/// the path's characters and the library build alone.
#[verifier::external_body]
fn is_encodable_path(path: &String) -> (r: bool)
    ensures
        r == encodable_path(path@),
{
    match image::ImageFormat::from_path(path.as_str()) {
        Ok(format) => format.writing_enabled(),
        Err(_) => false,
    }
}

/// The paths whose extension names an encodable image format, in order.
pub open spec fn spec_filter_encodable(ps: Seq<String>) -> Seq<String>
    decreases ps.len(),
{
    if ps.len() == 0 {
        Seq::empty()
    } else if encodable_path(ps[0]@) {
        seq![ps[0]] + spec_filter_encodable(ps.skip(1))
    } else {
        spec_filter_encodable(ps.skip(1))
    }
}

pub proof fn lemma_filter_encodable_concat(a: Seq<String>, b: Seq<String>)
    ensures
        spec_filter_encodable(a + b) == spec_filter_encodable(a) + spec_filter_encodable(b),
    decreases a.len(),
{
    if a.len() == 0 {
        assert(a + b =~= b);
        assert(spec_filter_encodable(a) + spec_filter_encodable(b) =~= spec_filter_encodable(b));
    } else {
        lemma_filter_encodable_concat(a.skip(1), b);
        assert((a + b).skip(1) =~= a.skip(1) + b);
        assert(spec_filter_encodable(a + b) =~= spec_filter_encodable(a) + spec_filter_encodable(
            b,
        ));
    }
}

/// Drops the paths whose extension does not name a format the image library
/// can encode, keeping the rest in their original order.
pub fn filter_unsupported_paths(paths: Vec<String>) -> (r: Vec<String>)
    ensures
        r@ == spec_filter_encodable(paths@),
{
    let ghost whole = paths@;
    let mut rest = paths;
    let mut out: Vec<String> = Vec::new();
    let ghost i: int = 0;
    proof {
        assert(whole.take(0) =~= Seq::<String>::empty());
        assert(rest@ =~= whole.skip(0));
        assert(out@ =~= spec_filter_encodable(whole.take(0)));
    }
    let ghost gi: int = 0;
    while rest.len() > 0
        invariant
            0 <= gi <= whole.len(),
            rest@ == whole.skip(gi),
            out@ == spec_filter_encodable(whole.take(gi)),
        decreases rest@.len(),
    {
        let ghost pre = whole.take(gi);
        let p = rest.remove(0);
        proof {
            assert(whole.skip(gi)[0] == whole[gi]);
            assert(p == whole[gi]);
            assert(rest@ =~= whole.skip(gi + 1));
            assert(whole.take(gi + 1) =~= pre + seq![whole[gi]]);
            lemma_filter_encodable_concat(pre, seq![whole[gi]]);
            assert(seq![whole[gi]].skip(1) =~= Seq::<String>::empty());
            assert(spec_filter_encodable(Seq::<String>::empty()) =~= Seq::<String>::empty());
        }
        if is_encodable_path(&p) {
            out.push(p);
            proof {
                assert(spec_filter_encodable(seq![whole[gi]]) =~= seq![whole[gi]]);
                assert(out@ =~= spec_filter_encodable(whole.take(gi + 1)));
            }
        } else {
            proof {
                assert(spec_filter_encodable(seq![whole[gi]]) =~= Seq::<String>::empty());
                assert(out@ =~= spec_filter_encodable(whole.take(gi + 1)));
            }
        }
        proof {
            gi = gi + 1;
        }
    }
    proof {
        assert(whole.skip(gi).len() == 0);
        assert(gi == whole.len());
        assert(whole.take(whole.len() as int) =~= whole);
    }
    out
}

} // verus!
