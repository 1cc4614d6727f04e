//! The render engine's verified core: the backend configuration, the
//! argument list handed to the external compiler, the filenames and link
//! paths of the output artifacts, and the interpretation of a compiler
//! run's outcome as image events or a diagnostic.
//!
//! Spawning the compiler, feeding its input and waiting on it is plain
//! process work that the surrounding program does; it reports what
//! happened as a [`ProcessOutcome`] and this module decides everything
//! else.

use crate::config::Config;
use crate::config::ConfigView;
use crate::config::Fonts;
use crate::config::FontsView;
use crate::extract::TokView;
use crate::extract::Token;
use crate::naming::CtxView;
use crate::naming::RenderContext;
use crate::naming::filename;
use crate::naming::spec_filename;
use crate::path::BookPath;
use crate::path::PathView;
use crate::path::spec_ascend;
use crate::path::spec_curdir;
use crate::path::spec_diff;
use crate::path::spec_dotdot;
use crate::path::spec_join;
use crate::path::spec_parent_parts;
use crate::path::spec_render;
use crate::path::spec_split;
use crate::path::lemma_diff_ascends;
use crate::text::dec_u64;
use crate::text::spec_dec;
use vstd::prelude::*;
use vstd::string::StrSliceExecFns;
use vstd::string::StringExecFns;

verus! {

/// Wall-clock budget, in seconds, for one run of the external compiler.
/// Generous for ordinary diagrams; it exists so that a hanging compiler
/// does not hang the whole run.
pub const D2_PROCESS_TIMEOUT_SECS: u64 = 30;

/// What the surrounding program observed while running the external
/// compiler for one job. Everything the verified interpretation needs is
/// carried here as plain values.
pub enum ProcessOutcome {
    /// The compiler process could not be spawned.
    SpawnFailed,
    /// The spawned process exposed no input pipe.
    StdinUnavailable,
    /// Writing the diagram text to the input pipe failed.
    StdinWriteFailed,
    /// Waiting on the process failed, with the reported reason.
    WaitFailed(String),
    /// The process outlived its wall-clock budget and was terminated and
    /// reaped; `kill_failed` records whether the termination itself
    /// failed.
    TimedOut {
        /// Whether terminating the overdue process failed.
        kill_failed: bool,
    },
    /// Collecting the finished process's output failed.
    CollectFailed,
    /// The process exited on its own.
    Exited {
        /// Whether the exit status reports success.
        success: bool,
        /// The exit status, rendered for messages.
        status: String,
        /// The bytes the process wrote to its output pipe.
        stdout: Vec<u8>,
        /// The text the process wrote to its error pipe.
        stderr: String,
    },
}

/// A recovered per-job failure: a message naming the owning chapter and
/// job where the failure concerns the diagram itself.
#[derive(Debug)]
pub struct Diagnostic {
    /// The human-readable description of the failure.
    pub message: String,
}

/// The indentation applied to captured compiler diagnostics: every line
/// break gains two spaces of indentation.
pub open spec fn spec_indent(s: Seq<char>) -> Seq<char>
    decreases s.len(),
{
    if s.len() == 0 {
        Seq::empty()
    } else if s[0] == '\n' {
        seq!['\n', ' ', ' '] + spec_indent(s.skip(1))
    } else {
        seq![s[0]] + spec_indent(s.skip(1))
    }
}

/// Indents every line break of `s` by two spaces.
pub fn indent_newlines(s: &str) -> (r: String)
    ensures
        r@ == spec_indent(s@),
{
    let n = s.unicode_len();
    let mut r = String::new();
    let mut start: usize = 0;
    let mut i: usize = 0;
    proof {
        assert(s@.skip(0) =~= s@);
        assert(s@.subrange(0, 0) =~= Seq::<char>::empty());
        assert(r@ + s@.subrange(0, 0) + spec_indent(s@) =~= spec_indent(s@));
    }
    while i < n
        invariant
            start <= i <= n,
            n == s@.len(),
            forall|k: int| start <= k < i ==> s@[k] != '\n',
            spec_indent(s@) == r@ + s@.subrange(start as int, i as int) + spec_indent(
                s@.skip(i as int),
            ),
        decreases n - i,
    {
        let c = s.get_char(i);
        proof {
            assert(s@.skip(i as int)[0] == s@[i as int]);
            assert(s@.skip(i as int).skip(1) =~= s@.skip(i + 1 as int));
        }
        if c == '\n' {
            r.append(s.substring_char(start, i));
            r.append("\n  ");
            proof {
                reveal_strlit("\n  ");
                assert("\n  "@ =~= seq!['\n', ' ', ' ']);
                assert(spec_indent(s@.skip(i as int)) == seq!['\n', ' ', ' '] + spec_indent(
                    s@.skip(i + 1 as int),
                ));
                assert(s@.subrange(i + 1 as int, i + 1 as int) =~= Seq::<char>::empty());
                assert(spec_indent(s@) =~= r@ + s@.subrange(i + 1 as int, i + 1 as int)
                    + spec_indent(s@.skip(i + 1 as int)));
            }
            start = i + 1;
        } else {
            proof {
                assert(spec_indent(s@.skip(i as int)) == seq![s@[i as int]] + spec_indent(
                    s@.skip(i + 1 as int),
                ));
                assert(s@.subrange(start as int, i + 1 as int) =~= s@.subrange(
                    start as int,
                    i as int,
                ).push(s@[i as int]));
                assert(r@ + s@.subrange(start as int, i + 1 as int) + spec_indent(
                    s@.skip(i + 1 as int),
                ) =~= r@ + s@.subrange(start as int, i as int) + spec_indent(s@.skip(i as int)));
            }
        }
        i = i + 1;
    }
    r.append(s.substring_char(start, n));
    proof {
        assert(s@.skip(n as int) =~= Seq::<char>::empty());
        assert(spec_indent(Seq::<char>::empty()) == Seq::<char>::empty());
        assert(r@ =~= spec_indent(s@));
    }
    r
}

/// The message reported when the compiler cannot be spawned.
pub open spec fn spec_spawn_message(bin: Seq<char>) -> Seq<char> {
    "Failed to spawn D2 process. Is D2 installed and available at "@ + bin + "?"@
}

/// The message reported when a job outlives its wall-clock budget.
pub open spec fn spec_timeout_message(chapter: Seq<char>, index: nat) -> Seq<char> {
    "D2 process timed out after "@ + spec_dec(D2_PROCESS_TIMEOUT_SECS as nat)
        + " seconds while processing diagram ("@ + chapter + ", #"@ + spec_dec(index)
        + "). The diagram may be too complex or D2 may be hanging. Consider simplifying the diagram."@
}

/// The message reported when the compiler exits with a failure status:
/// it names the chapter and job and carries the compiler's own
/// diagnostics, indented.
pub open spec fn spec_compile_fail_message(
    chapter: Seq<char>,
    index: nat,
    status: Seq<char>,
    stderr: Seq<char>,
) -> Seq<char> {
    "Failed to compile D2 diagram ("@ + chapter + ", #"@ + spec_dec(index)
        + ") - D2 exited with status "@ + status + ":"@ + spec_indent(seq!['\n'] + stderr)
}

/// The prefix of an inline image's data URI.
pub open spec fn spec_data_uri(png: Seq<char>) -> Seq<char> {
    "data:image/png;base64,"@ + png
}

/// What the standard base64 encoding of a byte sequence is. A pure
/// function of the bytes alone; the facts stated of it are the trusted
/// wrapper's.
pub uninterp spec fn base64_of(bytes: Seq<u8>) -> Seq<char>;

/// Relies on base64's `Engine::encode` with the standard alphabet and
/// padding: the encoding is a function of the bytes alone, four output
/// characters for every started group of three input bytes.
#[verifier::external_body]
fn base64_standard(bytes: &Vec<u8>) -> (r: String)
    requires
        bytes@.len() <= usize::MAX / 4,
    ensures
        r@ == base64_of(bytes@),
        r@.len() == 4 * ((bytes@.len() + 2) / 3),
{
    base64::Engine::encode(&base64::engine::general_purpose::STANDARD, bytes)
}

/// The four events that embed one rendered image: a paragraph holding a
/// single inline image reference with empty title and id.
pub open spec fn spec_image_events(url: Seq<char>) -> Seq<TokView> {
    seq![TokView::ParaStart, TokView::Image(url), TokView::ImageEnd, TokView::ParaEnd]
}

/// Builds the four events that embed one rendered image. Callers may
/// rely on the fixed four-event shape.
pub fn create_image_events(url: String) -> (r: Vec<Token>)
    ensures
        r.deep_view() == spec_image_events(url@),
{
    let mut r: Vec<Token> = Vec::new();
    r.push(Token::ParaStart);
    r.push(Token::Image(url));
    r.push(Token::ImageEnd);
    r.push(Token::ParaEnd);
    proof {
        assert(r.deep_view() =~= spec_image_events(url@));
    }
    r
}

/// The mathematical value of a [`Backend`].
pub ghost struct BackendView {
    /// Path of the compiler executable.
    pub d2_binary: Seq<char>,
    /// Output directory, relative to the source root.
    pub output_dir: PathView,
    /// The book's source root.
    pub source_dir: PathView,
    /// Layout engine name, when one is chosen.
    pub layout: Option<Seq<char>>,
    /// Whether images are inlined as data URIs instead of written to files.
    pub inline: bool,
    /// Custom fonts, when chosen.
    pub fonts: Option<FontsView>,
    /// Theme identifier, when chosen.
    pub theme_id: Option<Seq<char>>,
    /// Dark-theme identifier, when chosen.
    pub dark_theme_id: Option<Seq<char>>,
}

/// The backend for rendering diagrams: the run's configuration together
/// with the book's source root.
pub struct Backend {
    d2_binary: String,
    output_dir: BookPath,
    source_dir: BookPath,
    layout: Option<String>,
    inline: bool,
    fonts: Option<Fonts>,
    theme_id: Option<String>,
    dark_theme_id: Option<String>,
}

impl View for Backend {
    type V = BackendView;

    closed spec fn view(&self) -> BackendView {
        BackendView {
            d2_binary: self.d2_binary@,
            output_dir: self.output_dir@,
            source_dir: self.source_dir@,
            layout: match self.layout {
                Some(l) => Some(l@),
                None => None,
            },
            inline: self.inline,
            fonts: match self.fonts {
                Some(f) => Some(f@),
                None => None,
            },
            theme_id: match self.theme_id {
                Some(t) => Some(t@),
                None => None,
            },
            dark_theme_id: match self.dark_theme_id {
                Some(t) => Some(t@),
                None => None,
            },
        }
    }
}

/// The relative path of a diagram's output file: the output directory
/// with the diagram's filename appended.
pub open spec fn spec_relative_file_path(b: BackendView, c: CtxView) -> PathView {
    PathView {
        absolute: b.output_dir.absolute,
        parts: b.output_dir.parts.push(spec_filename(c)),
    }
}

/// The absolute path of a diagram's output file: the source root joined
/// with the relative output path.
pub open spec fn spec_filepath(b: BackendView, c: CtxView) -> PathView {
    spec_join(b.source_dir, spec_relative_file_path(b, c))
}

/// The path a chapter links its diagram image by: the relative path from
/// the chapter's directory to the output file, or the relative output
/// path itself where no relative path exists.
pub open spec fn spec_link_path(b: BackendView, c: CtxView) -> PathView {
    let diagram = spec_relative_file_path(b, c);
    let dir = PathView { absolute: c.path.absolute, parts: spec_parent_parts(c.path.parts) };
    match spec_diff(diagram, dir) {
        Some(p) => p,
        None => diagram,
    }
}

/// The flags handed to the external compiler: the font trio, the layout
/// engine, the two theme identifiers — each only when configured — and
/// the final read-from-stdin marker.
pub open spec fn spec_basic_args(b: BackendView) -> Seq<Seq<char>> {
    (match b.fonts {
        Some(f) => seq![
            "--font-regular"@,
            f.regular,
            "--font-italic"@,
            f.italic,
            "--font-bold"@,
            f.bold,
        ],
        None => Seq::<Seq<char>>::empty(),
    }) + (match b.layout {
        Some(l) => seq!["--layout"@, l],
        None => Seq::<Seq<char>>::empty(),
    }) + (match b.theme_id {
        Some(t) => seq!["--theme"@, t],
        None => Seq::<Seq<char>>::empty(),
    }) + (match b.dark_theme_id {
        Some(t) => seq!["--dark-theme"@, t],
        None => Seq::<Seq<char>>::empty(),
    }) + seq!["-"@]
}

/// The full argument list for one job: the flags, and in file mode the
/// destination path as the final argument.
pub open spec fn spec_process_args(b: BackendView, c: CtxView) -> Seq<Seq<char>> {
    if b.inline {
        spec_basic_args(b)
    } else {
        spec_basic_args(b).push(spec_render(spec_filepath(b, c)))
    }
}

impl Backend {
    /// Creates a backend from the run's configuration and the book's
    /// source root. The configured output directory is read as a path.
    pub fn new(config: Config, source_dir: BookPath) -> (r: Backend)
        ensures
            r@.d2_binary == config@.path,
            r@.output_dir.parts == spec_split(config@.output_dir),
            r@.output_dir.absolute == (config@.output_dir.len() > 0 && config@.output_dir[0]
                == '/'),
            r@.source_dir == source_dir@,
            r@.layout == config@.layout,
            r@.inline == config@.inline,
            r@.fonts == config@.fonts,
            r@.theme_id == config@.theme_id,
            r@.dark_theme_id == config@.dark_theme_id,
    {
        let output_dir = BookPath::parse(config.output_dir.as_str());
        Backend {
            d2_binary: config.path,
            output_dir,
            source_dir,
            layout: config.layout,
            inline: config.inline,
            fonts: config.fonts,
            theme_id: config.theme_id,
            dark_theme_id: config.dark_theme_id,
        }
    }

    /// The output directory, relative to the source root.
    pub fn output_dir(&self) -> (r: &BookPath)
        ensures
            r@ == self@.output_dir,
    {
        &self.output_dir
    }

    /// Whether images are inlined as data URIs instead of written to
    /// files.
    pub fn inline(&self) -> (r: bool)
        ensures
            r == self@.inline,
    {
        self.inline
    }

    /// The compiler executable's path, for spawning the process.
    pub fn d2_binary(&self) -> (r: &String)
        ensures
            r@ == self@.d2_binary,
    {
        &self.d2_binary
    }

    /// The relative path of a diagram's output file.
    pub fn relative_file_path(&self, ctx: &RenderContext) -> (r: BookPath)
        ensures
            r@ == spec_relative_file_path(self@, ctx@),
    {
        let name = filename(ctx);
        self.output_dir.push_part(name)
    }

    /// The absolute path of a diagram's output file.
    pub fn filepath(&self, ctx: &RenderContext) -> (r: BookPath)
        ensures
            r@ == spec_filepath(self@, ctx@),
    {
        let rel = self.relative_file_path(ctx);
        self.source_dir.join(&rel)
    }

    /// The absolute path of the output directory, which file-mode
    /// rendering creates (idempotently) before running the compiler.
    pub fn output_dir_abs(&self) -> (r: BookPath)
        ensures
            r@ == spec_join(self@.source_dir, self@.output_dir),
    {
        self.source_dir.join(&self.output_dir)
    }

    /// The relative path from the chapter's directory to the diagram's
    /// output file, falling back to the relative output path where no
    /// relative path exists.
    pub fn calculate_relative_path_for_chapter(&self, ctx: &RenderContext) -> (r: BookPath)
        ensures
            r@ == spec_link_path(self@, ctx@),
    {
        let diagram = self.relative_file_path(ctx);
        let dir = ctx.path.parent();
        match BookPath::diff_paths(&diagram, &dir) {
            Some(p) => p,
            None => diagram,
        }
    }

    /// The flags handed to the compiler, ending with the read-from-stdin
    /// marker.
    pub fn basic_args(&self) -> (r: Vec<String>)
        ensures
            r.deep_view() == spec_basic_args(self@),
    {
        let mut args: Vec<String> = Vec::new();
        if let Some(fonts) = &self.fonts {
            args.push(String::from_str("--font-regular"));
            args.push(fonts.regular.clone());
            args.push(String::from_str("--font-italic"));
            args.push(fonts.italic.clone());
            args.push(String::from_str("--font-bold"));
            args.push(fonts.bold.clone());
        }
        if let Some(layout) = &self.layout {
            args.push(String::from_str("--layout"));
            args.push(layout.clone());
        }
        if let Some(theme_id) = &self.theme_id {
            args.push(String::from_str("--theme"));
            args.push(theme_id.clone());
        }
        if let Some(dark_theme_id) = &self.dark_theme_id {
            args.push(String::from_str("--dark-theme"));
            args.push(dark_theme_id.clone());
        }
        args.push(String::from_str("-"));
        proof {
            assert(args.deep_view() =~= spec_basic_args(self@));
        }
        args
    }

    /// The full argument list for one job: the flags, and in file mode
    /// the destination path as the final argument.
    pub fn process_args(&self, ctx: &RenderContext) -> (r: Vec<String>)
        ensures
            r.deep_view() == spec_process_args(self@, ctx@),
    {
        let mut args = self.basic_args();
        if !self.inline {
            let dest = self.filepath(ctx);
            args.push(dest.to_string());
            proof {
                assert(args.deep_view() =~= spec_basic_args(self@).push(
                    spec_render(spec_filepath(self@, ctx@)),
                ));
            }
        }
        args
    }

    /// Interprets what happened to the compiler process for one job: a
    /// successful exit yields the output bytes; every failure yields its
    /// own diagnostic, naming the chapter and job where the failure
    /// concerns the diagram itself.
    pub fn interpret_outcome(&self, ctx: &RenderContext, outcome: ProcessOutcome) -> (r: Result<
        Vec<u8>,
        Diagnostic,
    >)
        ensures
            match outcome {
                ProcessOutcome::SpawnFailed => r matches Err(d) && d.message@
                    == spec_spawn_message(self@.d2_binary),
                ProcessOutcome::StdinUnavailable => r matches Err(d) && d.message@
                    == "Failed to open stdin for D2 process"@,
                ProcessOutcome::StdinWriteFailed => r matches Err(d) && d.message@
                    == "Failed to write D2 diagram content to stdin"@,
                ProcessOutcome::WaitFailed(msg) => r matches Err(d) && d.message@ == msg@,
                ProcessOutcome::TimedOut { kill_failed } => r matches Err(d) && d.message@ == (
                if kill_failed {
                    "Failed to kill D2 process after timeout"@
                } else {
                    spec_timeout_message(ctx@.chapter, ctx@.diagram_index)
                }),
                ProcessOutcome::CollectFailed => r matches Err(d) && d.message@
                    == "Failed to collect D2 process output"@,
                ProcessOutcome::Exited { success, status, stdout, stderr } => {
                    if success {
                        r matches Ok(bytes) && bytes@ == stdout@
                    } else {
                        r matches Err(d) && d.message@ == spec_compile_fail_message(
                            ctx@.chapter,
                            ctx@.diagram_index,
                            status@,
                            stderr@,
                        )
                    }
                },
            },
    {
        match outcome {
            ProcessOutcome::SpawnFailed => {
                let message = String::from_str(
                    "Failed to spawn D2 process. Is D2 installed and available at ",
                ).concat(self.d2_binary.as_str()).concat("?");
                proof {
                    assert(message@ =~= spec_spawn_message(self@.d2_binary));
                }
                Err(Diagnostic { message })
            },
            ProcessOutcome::StdinUnavailable => Err(
                Diagnostic { message: String::from_str("Failed to open stdin for D2 process") },
            ),
            ProcessOutcome::StdinWriteFailed => Err(
                Diagnostic {
                    message: String::from_str("Failed to write D2 diagram content to stdin"),
                },
            ),
            ProcessOutcome::WaitFailed(msg) => Err(Diagnostic { message: msg }),
            ProcessOutcome::TimedOut { kill_failed } => {
                if kill_failed {
                    Err(
                        Diagnostic {
                            message: String::from_str("Failed to kill D2 process after timeout"),
                        },
                    )
                } else {
                    let message = String::from_str("D2 process timed out after ").concat(
                        dec_u64(D2_PROCESS_TIMEOUT_SECS).as_str(),
                    ).concat(" seconds while processing diagram (").concat(
                        self_chapter(ctx).as_str(),
                    ).concat(", #").concat(dec_u64(ctx.diagram_index as u64).as_str()).concat(
                        "). The diagram may be too complex or D2 may be hanging. Consider simplifying the diagram.",
                    );
                    proof {
                        assert(message@ =~= spec_timeout_message(ctx@.chapter, ctx@.diagram_index));
                    }
                    Err(Diagnostic { message })
                }
            },
            ProcessOutcome::CollectFailed => Err(
                Diagnostic { message: String::from_str("Failed to collect D2 process output") },
            ),
            ProcessOutcome::Exited { success, status, stdout, stderr } => {
                if success {
                    Ok(stdout)
                } else {
                    proof {
                        reveal_strlit("\n");
                    }
                    let newline_stderr = String::from_str("\n").concat(stderr.as_str());
                    proof {
                        assert("\n"@ =~= seq!['\n']);
                    }
                    let indented = indent_newlines(newline_stderr.as_str());
                    let message = String::from_str("Failed to compile D2 diagram (").concat(
                        self_chapter(ctx).as_str(),
                    ).concat(", #").concat(dec_u64(ctx.diagram_index as u64).as_str()).concat(
                        ") - D2 exited with status ",
                    ).concat(status.as_str()).concat(":").concat(indented.as_str());
                    proof {
                        assert(message@ =~= spec_compile_fail_message(
                            ctx@.chapter,
                            ctx@.diagram_index,
                            status@,
                            stderr@,
                        ));
                    }
                    Err(Diagnostic { message })
                }
            },
        }
    }

    /// Turns one job's process outcome into the events that replace the
    /// diagram region: in inline mode the output bytes become a data URI,
    /// in file mode the artifact is linked by its relative path. Either
    /// way a success is exactly the four image events; every failure is
    /// the diagnostic of [`Backend::interpret_outcome`].
    pub fn render_outcome(&self, ctx: &RenderContext, outcome: ProcessOutcome) -> (r: Result<
        Vec<Token>,
        Diagnostic,
    >)
        requires
            match outcome {
                ProcessOutcome::Exited { success, stdout, .. } => (success && self@.inline)
                    ==> stdout@.len() <= usize::MAX / 4,
                _ => true,
            },
        ensures
            match self.interpret_spec(ctx@, outcome) {
                Ok(bytes) => {
                    if self@.inline {
                        r matches Ok(events) && events.deep_view() == spec_image_events(
                            spec_data_uri(base64_of(bytes)),
                        )
                    } else {
                        r matches Ok(events) && events.deep_view() == spec_image_events(
                            spec_render(spec_link_path(self@, ctx@)),
                        )
                    }
                },
                Err(message) => r matches Err(d) && d.message@ == message,
            },
    {
        let bytes = match self.interpret_outcome(ctx, outcome) {
            Ok(bytes) => bytes,
            Err(d) => {
                return Err(d);
            },
        };
        if self.inline {
            let encoded = base64_standard(&bytes);
            let data_uri = String::from_str("data:image/png;base64,").concat(encoded.as_str());
            proof {
                assert(data_uri@ =~= spec_data_uri(base64_of(bytes@)));
            }
            Ok(create_image_events(data_uri))
        } else {
            let link = self.calculate_relative_path_for_chapter(ctx);
            let url = link.to_string();
            Ok(create_image_events(url))
        }
    }

    /// What [`Backend::interpret_outcome`] returns, as a value: the
    /// output bytes on a successful exit, the diagnostic message
    /// otherwise.
    pub open spec fn interpret_spec(&self, c: CtxView, outcome: ProcessOutcome) -> Result<
        Seq<u8>,
        Seq<char>,
    > {
        match outcome {
            ProcessOutcome::SpawnFailed => Err(spec_spawn_message(self@.d2_binary)),
            ProcessOutcome::StdinUnavailable => Err("Failed to open stdin for D2 process"@),
            ProcessOutcome::StdinWriteFailed => Err("Failed to write D2 diagram content to stdin"@),
            ProcessOutcome::WaitFailed(msg) => Err(msg@),
            ProcessOutcome::TimedOut { kill_failed } => Err(
                if kill_failed {
                    "Failed to kill D2 process after timeout"@
                } else {
                    spec_timeout_message(c.chapter, c.diagram_index)
                },
            ),
            ProcessOutcome::CollectFailed => Err("Failed to collect D2 process output"@),
            ProcessOutcome::Exited { success, status, stdout, stderr } => {
                if success {
                    Ok(stdout@)
                } else {
                    Err(spec_compile_fail_message(c.chapter, c.diagram_index, status@, stderr@))
                }
            },
        }
    }
}

/// Copies the chapter name out of a context, for message building.
fn self_chapter(ctx: &RenderContext) -> (r: String)
    ensures
        r@ == ctx@.chapter,
{
    ctx.chapter.clone()
}

/// From a chapter at depth `d` below the source root — its directory
/// components being ordinary names that do not collide with the start of
/// the relative output path — the link path is exactly `d`
/// parent-directory steps followed by the relative output path.
pub proof fn lemma_link_path_depth(b: BackendView, c: CtxView)
    requires
        !c.path.absolute,
        !b.output_dir.absolute,
        c.path.parts.len() >= 1,
        forall|i: int|
            0 <= i < c.path.parts.len() - 1 ==> #[trigger] c.path.parts[i] != spec_curdir()
                && c.path.parts[i] != spec_dotdot(),
        c.path.parts.len() > 1 ==> spec_relative_file_path(b, c).parts[0] != c.path.parts[0],
    ensures
        spec_link_path(b, c) == (PathView {
            absolute: false,
            parts: spec_ascend((c.path.parts.len() - 1) as nat) + spec_relative_file_path(
                b,
                c,
            ).parts,
        }),
{
    let diagram = spec_relative_file_path(b, c);
    let dir_parts = spec_parent_parts(c.path.parts);
    assert(dir_parts == c.path.parts.drop_last());
    assert(diagram.parts.len() > 0);
    assert forall|i: int| 0 <= i < dir_parts.len() implies #[trigger] dir_parts[i]
        != spec_curdir() && dir_parts[i] != spec_dotdot() by {
        assert(dir_parts[i] == c.path.parts[i]);
    }
    if dir_parts.len() > 0 {
        assert(dir_parts[0] == c.path.parts[0]);
    }
    lemma_diff_ascends(diagram.parts, dir_parts);
}

} // verus!
