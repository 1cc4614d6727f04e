use mdbook_d2_png::backend::Backend;
use mdbook_d2_png::backend::ProcessOutcome;
use mdbook_d2_png::config::Config;
use mdbook_d2_png::extract::collect_render_jobs;
use mdbook_d2_png::extract::Token;
use mdbook_d2_png::naming::filename;
use mdbook_d2_png::naming::RenderContext;
use mdbook_d2_png::path::BookPath;
use mdbook_d2_png::stitch::arrange_results;
use mdbook_d2_png::stitch::stitch_events;
use mdbook_d2_png::stitch::TaggedResult;
use mdbook_d2_png::D2;

fn backend_with(inline: bool) -> Backend {
    let config = Config {
        path: String::from("d2"),
        output_dir: String::from("d2"),
        layout: None,
        inline,
        fonts: None,
        theme_id: None,
        dark_theme_id: None,
    };
    Backend::new(config, BookPath::parse("/test/src"))
}

fn ctx(path: &str, chapter: &str, section: Option<Vec<u32>>, index: usize) -> RenderContext {
    RenderContext::new(BookPath::parse(path), String::from(chapter), section, index)
}

fn d2_fence(content: &str) -> Vec<Token> {
    vec![
        Token::FenceStart(String::from("d2")),
        Token::Text(String::from(content)),
        Token::FenceEnd,
    ]
}

#[test]
fn extractor_counts_indices_and_concatenates_fragments() {
    // Two diagram regions; the first is delivered as three text fragments,
    // the second whole. A non-diagram fence in between is ignored.
    let tokens = vec![
        Token::Other(0),
        Token::FenceStart(String::from("d2")),
        Token::Text(String::from("a: A\n")),
        Token::Text(String::from("b: B\n")),
        Token::Text(String::from("a -> b")),
        Token::FenceEnd,
        Token::Other(1),
        Token::FenceStart(String::from("rust")),
        Token::Text(String::from("fn main() {}")),
        Token::FenceEnd,
        Token::FenceStart(String::from("d2")),
        Token::Text(String::from("a: A\nb: B\na -> b")),
        Token::FenceEnd,
    ];
    let path = BookPath::parse("chapter.md");
    let name = String::from("Test");
    let jobs = collect_render_jobs(&tokens, &path, &name, &Some(vec![1]));

    assert_eq!(jobs.len(), 2);
    assert_eq!(jobs[0].diagram_index, 1);
    assert_eq!(jobs[1].diagram_index, 2);
    // A region split across 3 text events concatenates to the same content
    // as one delivered whole.
    assert_eq!(jobs[0].content, jobs[1].content);
    assert_eq!(jobs[0].content, String::from("a: A\nb: B\na -> b"));
    assert_eq!(jobs[0].chapter_name, String::from("Test"));
    assert_eq!(jobs[0].section, Some(vec![1]));
    assert_eq!(jobs[0].chapter_path.to_string(), String::from("chapter.md"));
}

#[test]
fn extractor_ignores_streams_without_diagrams() {
    let tokens = vec![
        Token::Other(0),
        Token::Text(String::from("hello")),
        Token::FenceStart(String::from("rust")),
        Token::Text(String::from("let x = 1;")),
        Token::FenceEnd,
    ];
    let path = BookPath::parse("chapter.md");
    let name = String::from("Test");
    let jobs = collect_render_jobs(&tokens, &path, &name, &None);
    assert_eq!(jobs.len(), 0);
}

#[test]
fn stitch_places_each_fragment_at_its_region() {
    // Two regions; each replaced by its own substitution, other tokens
    // carried through unchanged in order.
    let mut tokens = vec![Token::Other(0)];
    tokens.extend(d2_fence("first"));
    tokens.push(Token::Other(1));
    tokens.extend(d2_fence("second"));
    tokens.push(Token::Other(2));

    let sub_a = vec![Token::ParaStart, Token::Image(String::from("a.png")), Token::ImageEnd, Token::ParaEnd];
    let sub_b = vec![Token::ParaStart, Token::Image(String::from("b.png")), Token::ImageEnd, Token::ParaEnd];
    let out = stitch_events(&tokens, vec![sub_a.clone(), sub_b.clone()]);

    let mut expected = vec![Token::Other(0)];
    expected.extend(sub_a);
    expected.push(Token::Other(1));
    expected.extend(sub_b);
    expected.push(Token::Other(2));
    assert_eq!(out, expected);
}

#[test]
fn stitch_keeps_non_diagram_fences() {
    let tokens = vec![
        Token::FenceStart(String::from("rust")),
        Token::Text(String::from("let x = 1;")),
        Token::FenceEnd,
    ];
    let out = stitch_events(&tokens, vec![]);
    assert_eq!(out, tokens);
}

#[test]
fn arrange_restores_job_order() {
    // Results complete out of order; the fan-in puts them back by
    // (chapter, job) position.
    let a = vec![Token::Image(String::from("a"))];
    let b = vec![Token::Image(String::from("b"))];
    let c = vec![Token::Image(String::from("c"))];
    let results = vec![
        TaggedResult { chapter_idx: 1, job_idx: 0, events: c.clone() },
        TaggedResult { chapter_idx: 0, job_idx: 1, events: b.clone() },
        TaggedResult { chapter_idx: 0, job_idx: 0, events: a.clone() },
    ];
    let out = arrange_results(&vec![2, 1], results);
    assert_eq!(out, vec![vec![a, b], vec![c]]);
}

#[test]
fn arrange_is_insensitive_to_completion_order() {
    let a = vec![Token::Image(String::from("a"))];
    let b = vec![Token::Image(String::from("b"))];
    let c = vec![Token::Image(String::from("c"))];
    let order1 = vec![
        TaggedResult { chapter_idx: 0, job_idx: 0, events: a.clone() },
        TaggedResult { chapter_idx: 0, job_idx: 1, events: b.clone() },
        TaggedResult { chapter_idx: 1, job_idx: 0, events: c.clone() },
    ];
    let order2 = vec![
        TaggedResult { chapter_idx: 1, job_idx: 0, events: c.clone() },
        TaggedResult { chapter_idx: 0, job_idx: 1, events: b.clone() },
        TaggedResult { chapter_idx: 0, job_idx: 0, events: a.clone() },
    ];
    let counts = vec![2, 1];
    assert_eq!(arrange_results(&counts, order1), arrange_results(&counts, order2));
}

#[test]
fn stitch_with_fewer_substitutions_drops_extra_regions() {
    let mut tokens = vec![Token::Other(0)];
    tokens.extend(d2_fence("one"));
    tokens.extend(d2_fence("two"));
    let a = vec![Token::Image(String::from("a"))];
    let out = stitch_events(&tokens, vec![a.clone()]);
    let mut expected = vec![Token::Other(0)];
    expected.extend(a);
    assert_eq!(out, expected);
}

#[test]
fn failed_job_leaves_siblings_untouched() {
    // The middle job failed and substitutes nothing; its region vanishes
    // and the neighbouring regions still get their own fragments.
    let mut tokens = vec![Token::Other(0)];
    tokens.extend(d2_fence("one"));
    tokens.extend(d2_fence("two"));
    tokens.extend(d2_fence("three"));

    let a = vec![Token::Image(String::from("a"))];
    let c = vec![Token::Image(String::from("c"))];
    let out = stitch_events(&tokens, vec![a.clone(), vec![], c.clone()]);

    let mut expected = vec![Token::Other(0)];
    expected.extend(a);
    expected.extend(c);
    assert_eq!(out, expected);
}

#[test]
fn scenario_file_mode_links_numbered_artifact() {
    // A root-level numbered chapter with one diagram block, file mode:
    // the document gains an image reference to d2/1.1.png.
    let tokens = d2_fence("a: A\nb: B\na -> b: hello");
    let path = BookPath::parse("chapter.md");
    let name = String::from("Chapter 1");
    let jobs = collect_render_jobs(&tokens, &path, &name, &Some(vec![1]));
    assert_eq!(jobs.len(), 1);
    assert_eq!(jobs[0].content, String::from("a: A\nb: B\na -> b: hello"));

    let backend = backend_with(false);
    let rctx = ctx("chapter.md", "Chapter 1", Some(vec![1]), jobs[0].diagram_index);

    // In file mode the compiler writes the artifact itself and prints
    // nothing; the argument list ends with the destination path.
    let args = backend.process_args(&rctx);
    assert_eq!(args.last(), Some(&String::from("/test/src/d2/1.1.png")));
    assert_eq!(args[args.len() - 2], String::from("-"));

    let outcome = ProcessOutcome::Exited {
        success: true,
        status: String::from("exit status: 0"),
        stdout: Vec::new(),
        stderr: String::new(),
    };
    let events = backend.render_outcome(&rctx, outcome).expect("render should succeed");
    let expected = vec![
        Token::ParaStart,
        Token::Image(String::from("d2/1.1.png")),
        Token::ImageEnd,
        Token::ParaEnd,
    ];
    assert_eq!(events, expected);

    let doc = stitch_events(&tokens, vec![events]);
    assert!(doc.contains(&Token::Image(String::from("d2/1.1.png"))));
}

#[test]
fn scenario_inline_mode_embeds_data_uri() {
    // Same input, inline mode: the document gains a data:image/png URI
    // holding the base64 of the compiler's output bytes, and the
    // destination argument is omitted.
    let backend = backend_with(true);
    let rctx = ctx("chapter.md", "Chapter 1", Some(vec![1]), 1);

    let args = backend.process_args(&rctx);
    assert_eq!(args.last(), Some(&String::from("-")));

    let png_bytes: Vec<u8> = vec![0x89, 0x50, 0x4e, 0x47, 0x0d, 0x0a, 0x1a, 0x0a, 0x00, 0x01];
    let outcome = ProcessOutcome::Exited {
        success: true,
        status: String::from("exit status: 0"),
        stdout: png_bytes.clone(),
        stderr: String::new(),
    };
    let events = backend.render_outcome(&rctx, outcome).expect("render should succeed");

    let encoded = base64::Engine::encode(&base64::engine::general_purpose::STANDARD, &png_bytes);
    let expected_uri = format!("data:image/png;base64,{encoded}");
    assert_eq!(events[1], Token::Image(expected_uri.clone()));
    assert!(expected_uri.starts_with("data:image/png;base64,"));
    assert_ne!(encoded.len(), 0);
}

#[test]
fn scenario_unnumbered_chapter_gets_hash_filename() {
    // A chapter with no section number: the filename is a hexadecimal
    // hash of the path, an underscore, the index and the extension; two
    // different paths hash differently.
    let name1 = filename(&ctx("notes/about.md", "About", None, 1));
    assert!(name1.ends_with("_1.png"), "got: {name1}");
    let prefix = &name1[..name1.len() - "_1.png".len()];
    assert!(!prefix.is_empty() && prefix.len() <= 8, "hash prefix: {prefix}");
    assert!(prefix.chars().all(|c| c.is_ascii_hexdigit() && !c.is_ascii_uppercase()));

    let name2 = filename(&ctx("notes/other.md", "Other", None, 1));
    assert_ne!(name1, name2);
}

#[test]
fn numbered_and_hashed_filenames_never_collide() {
    // A numbered filename is digits, dots and the extension; a hash-based
    // one always holds an underscore.
    let numbered = filename(&ctx("a.md", "A", Some(vec![1]), 1));
    let hashed = filename(&ctx("a.md", "A", None, 1));
    assert!(!numbered.contains('_'));
    assert!(hashed.contains('_'));
    assert_ne!(numbered, hashed);
}

#[test]
fn preprocessor_name_and_marker() {
    assert_eq!(D2.name(), "d2-png");
    assert_eq!(mdbook_d2_png::diagram_lang(), "d2");
    assert_eq!(mdbook_d2_png::MAX_CONCURRENT_D2_PROCESSES, 8);
}

#[test]
fn path_parse_and_render() {
    assert_eq!(BookPath::parse("/a/b").to_string(), String::from("/a/b"));
    assert_eq!(BookPath::parse("a//b/").to_string(), String::from("a/b"));
    assert_eq!(BookPath::parse("").to_string(), String::from(""));
    assert_eq!(BookPath::parse("/test/src").to_string(), String::from("/test/src"));
}

#[test]
fn output_directory_paths() {
    let backend = backend_with(false);
    assert_eq!(backend.output_dir().to_string(), String::from("d2"));
    assert_eq!(backend.output_dir_abs().to_string(), String::from("/test/src/d2"));
    assert!(!backend.inline());
    assert_eq!(backend.d2_binary(), &String::from("d2"));
}

#[test]
fn text_rendering_exact_values() {
    assert_eq!(mdbook_d2_png::text::dec_u64(0), String::from("0"));
    assert_eq!(mdbook_d2_png::text::dec_u64(30), String::from("30"));
    assert_eq!(mdbook_d2_png::text::dec_u64(12034), String::from("12034"));
    assert_eq!(mdbook_d2_png::text::hex_u64(255), String::from("ff"));
    assert_eq!(mdbook_d2_png::text::hex8_u64(0xff), String::from("ff"));
    assert_eq!(mdbook_d2_png::text::hex8_u64(0xdead_beef_1234_5678), String::from("deadbeef"));
    assert_eq!(
        mdbook_d2_png::backend::indent_newlines("a\nb\n"),
        String::from("a\n  b\n  ")
    );
    // The hash is a pure function of its input and differs between inputs.
    assert_eq!(
        mdbook_d2_png::text::fnv_hash_str("chapter.md"),
        mdbook_d2_png::text::fnv_hash_str("chapter.md")
    );
    assert_ne!(
        mdbook_d2_png::text::fnv_hash_str("chapter.md"),
        mdbook_d2_png::text::fnv_hash_str("chapter2.md")
    );
}

#[test]
fn config_defaults() {
    let config = Config::default();
    assert_eq!(config.path, String::from("d2"));
    assert_eq!(config.output_dir, String::from("d2"));
    assert!(!config.inline);
    assert!(config.layout.is_none());
    assert!(config.fonts.is_none());
    assert!(config.theme_id.is_none());
    assert!(config.dark_theme_id.is_none());
    assert_eq!(mdbook_d2_png::config::default_bin_path(), String::from("d2"));
    assert_eq!(mdbook_d2_png::config::default_output_dir(), String::from("d2"));
    assert!(!mdbook_d2_png::config::default_inline());
}
