use mdbook_d2_png::backend::Backend;
use mdbook_d2_png::backend::ProcessOutcome;
use mdbook_d2_png::config::Config;
use mdbook_d2_png::config::Fonts;
use mdbook_d2_png::naming::RenderContext;
use mdbook_d2_png::path::BookPath;

fn backend(config: Config) -> Backend {
    Backend::new(config, BookPath::parse("/book/src"))
}

fn plain_config() -> Config {
    Config {
        path: String::from("d2"),
        output_dir: String::from("d2"),
        layout: None,
        inline: false,
        fonts: None,
        theme_id: None,
        dark_theme_id: None,
    }
}

fn ctx(chapter: &str, index: usize) -> RenderContext {
    RenderContext::new(BookPath::parse("chapter.md"), String::from(chapter), Some(vec![1]), index)
}

#[test]
fn timeout_diagnostic_names_chapter_and_index() {
    let b = backend(plain_config());
    let d = b
        .interpret_outcome(&ctx("Test Chapter", 2), ProcessOutcome::TimedOut { kill_failed: false })
        .expect_err("timeout is a failure");
    assert_eq!(
        d.message,
        String::from(
            "D2 process timed out after 30 seconds while processing diagram (Test Chapter, #2). \
             The diagram may be too complex or D2 may be hanging. \
             Consider simplifying the diagram."
        )
    );
}

#[test]
fn compiler_failure_diagnostic_embeds_indented_stderr() {
    let b = backend(plain_config());
    let outcome = ProcessOutcome::Exited {
        success: false,
        status: String::from("exit status: 1"),
        stdout: Vec::new(),
        stderr: String::from("error: bad shape\nnear line 3\n"),
    };
    let d = b.interpret_outcome(&ctx("Test", 1), outcome).expect_err("failure status");
    assert_eq!(
        d.message,
        String::from(
            "Failed to compile D2 diagram (Test, #1) - D2 exited with status exit status: 1:\n  error: bad shape\n  near line 3\n  "
        )
    );
}

#[test]
fn spawn_failure_diagnostic_names_binary() {
    let mut config = plain_config();
    config.path = String::from("/opt/tools/d2");
    let b = backend(config);
    let d = b.interpret_outcome(&ctx("Test", 1), ProcessOutcome::SpawnFailed).expect_err("spawn");
    assert_eq!(
        d.message,
        String::from("Failed to spawn D2 process. Is D2 installed and available at /opt/tools/d2?")
    );
}

#[test]
fn pipe_failure_diagnostics() {
    let b = backend(plain_config());
    let c = ctx("Test", 1);
    assert_eq!(
        b.interpret_outcome(&c, ProcessOutcome::StdinUnavailable).expect_err("pipe").message,
        String::from("Failed to open stdin for D2 process")
    );
    assert_eq!(
        b.interpret_outcome(&c, ProcessOutcome::StdinWriteFailed).expect_err("pipe").message,
        String::from("Failed to write D2 diagram content to stdin")
    );
    assert_eq!(
        b.interpret_outcome(&c, ProcessOutcome::CollectFailed).expect_err("collect").message,
        String::from("Failed to collect D2 process output")
    );
    assert_eq!(
        b.interpret_outcome(&c, ProcessOutcome::WaitFailed(String::from("interrupted")))
            .expect_err("wait")
            .message,
        String::from("interrupted")
    );
    assert_eq!(
        b.interpret_outcome(&c, ProcessOutcome::TimedOut { kill_failed: true })
            .expect_err("kill")
            .message,
        String::from("Failed to kill D2 process after timeout")
    );
}

#[test]
fn successful_exit_yields_stdout_bytes() {
    let b = backend(plain_config());
    let outcome = ProcessOutcome::Exited {
        success: true,
        status: String::from("exit status: 0"),
        stdout: vec![1, 2, 3],
        stderr: String::new(),
    };
    let bytes = b.interpret_outcome(&ctx("Test", 1), outcome).expect("success");
    assert_eq!(bytes, vec![1, 2, 3]);
}

#[test]
fn args_carry_all_configured_flags_before_stdin_marker() {
    let config = Config {
        path: String::from("d2"),
        output_dir: String::from("d2"),
        layout: Some(String::from("elk")),
        inline: false,
        fonts: Some(Fonts {
            regular: String::from("/fonts/r.ttf"),
            italic: String::from("/fonts/i.ttf"),
            bold: String::from("/fonts/b.ttf"),
        }),
        theme_id: Some(String::from("4")),
        dark_theme_id: Some(String::from("200")),
    };
    let b = backend(config);
    let args = b.basic_args();
    assert_eq!(
        args,
        vec![
            String::from("--font-regular"),
            String::from("/fonts/r.ttf"),
            String::from("--font-italic"),
            String::from("/fonts/i.ttf"),
            String::from("--font-bold"),
            String::from("/fonts/b.ttf"),
            String::from("--layout"),
            String::from("elk"),
            String::from("--theme"),
            String::from("4"),
            String::from("--dark-theme"),
            String::from("200"),
            String::from("-"),
        ]
    );
}

#[test]
fn args_without_options_are_just_the_stdin_marker() {
    let b = backend(plain_config());
    assert_eq!(b.basic_args(), vec![String::from("-")]);
}
