//! The immutable configuration a run works under: where the external
//! compiler lives, where rendered images go, and how they are produced.

use vstd::prelude::*;
use vstd::string::StringExecFns;

verus! {

/// The mathematical value of a [`Fonts`] triple.
pub ghost struct FontsView {
    /// Path of the regular font file.
    pub regular: Seq<char>,
    /// Path of the italic font file.
    pub italic: Seq<char>,
    /// Path of the bold font file.
    pub bold: Seq<char>,
}

/// A custom font triple handed to the compiler: regular, italic and bold
/// font file paths, all three given together.
#[derive(Debug, Clone, PartialEq, Eq)]
pub struct Fonts {
    /// Path of the regular font file.
    pub regular: String,
    /// Path of the italic font file.
    pub italic: String,
    /// Path of the bold font file.
    pub bold: String,
}

impl View for Fonts {
    type V = FontsView;

    open spec fn view(&self) -> FontsView {
        FontsView { regular: self.regular@, italic: self.italic@, bold: self.bold@ }
    }
}

/// The mathematical value of a [`Config`].
pub ghost struct ConfigView {
    /// Path of the compiler executable.
    pub path: Seq<char>,
    /// Output directory for rendered images, relative to the source root.
    pub output_dir: Seq<char>,
    /// Layout engine name, when one is chosen.
    pub layout: Option<Seq<char>>,
    /// Whether images are inlined as data URIs instead of written to files.
    pub inline: bool,
    /// Custom fonts, when chosen.
    pub fonts: Option<FontsView>,
    /// Theme identifier, when chosen.
    pub theme_id: Option<Seq<char>>,
    /// Dark-theme identifier, when chosen.
    pub dark_theme_id: Option<Seq<char>>,
}

/// Process-wide configuration, immutable for the lifetime of a run.
#[derive(Debug, PartialEq, Eq)]
pub struct Config {
    /// Path of the compiler executable.
    pub path: String,
    /// Output directory for rendered images, relative to the source root.
    pub output_dir: String,
    /// Layout engine name, when one is chosen.
    pub layout: Option<String>,
    /// Whether images are inlined as data URIs instead of written to files.
    pub inline: bool,
    /// Custom fonts, when chosen.
    pub fonts: Option<Fonts>,
    /// Theme identifier, when chosen.
    pub theme_id: Option<String>,
    /// Dark-theme identifier, when chosen.
    pub dark_theme_id: Option<String>,
}

/// The value of an optional string field.
pub open spec fn spec_opt_string(s: Option<String>) -> Option<Seq<char>> {
    match s {
        Some(v) => Some(v@),
        None => None,
    }
}

impl View for Config {
    type V = ConfigView;

    open spec fn view(&self) -> ConfigView {
        ConfigView {
            path: self.path@,
            output_dir: self.output_dir@,
            layout: spec_opt_string(self.layout),
            inline: self.inline,
            fonts: match self.fonts {
                Some(f) => Some(f@),
                None => None,
            },
            theme_id: spec_opt_string(self.theme_id),
            dark_theme_id: spec_opt_string(self.dark_theme_id),
        }
    }
}

/// Default path of the compiler executable: the bare name, resolved
/// through the host's search path.
pub fn default_bin_path() -> (r: String)
    ensures
        r@ == "d2"@,
{
    String::from_str("d2")
}

/// Default output directory for rendered images.
pub fn default_output_dir() -> (r: String)
    ensures
        r@ == "d2"@,
{
    String::from_str("d2")
}

/// By default images are written to files, not inlined.
pub fn default_inline() -> (r: bool)
    ensures
        r == false,
{
    false
}

impl Default for Config {
    /// The configuration used when a field is absent: the default binary
    /// path and output directory, file output, and no layout, fonts or
    /// themes.
    fn default() -> (r: Config)
        ensures
            r@.path == "d2"@,
            r@.output_dir == "d2"@,
            r@.layout is None,
            r@.inline == false,
            r@.fonts is None,
            r@.theme_id is None,
            r@.dark_theme_id is None,
    {
        Config {
            path: default_bin_path(),
            layout: None,
            output_dir: default_output_dir(),
            inline: default_inline(),
            fonts: None,
            theme_id: None,
            dark_theme_id: None,
        }
    }
}

} // verus!
