use mdbook_d2_png::backend::Backend;
use mdbook_d2_png::config::Config;
use mdbook_d2_png::naming::filename;
use mdbook_d2_png::naming::RenderContext;
use mdbook_d2_png::path::BookPath;

/// Creates a minimal test Backend instance
fn create_test_backend() -> Backend {
    create_test_backend_with_output_dir("d2")
}

/// Creates a minimal test Backend with the given output directory
fn create_test_backend_with_output_dir(output_dir: &str) -> Backend {
    let config = Config {
        path: String::from("d2"),
        output_dir: String::from(output_dir),
        layout: None,
        inline: false,
        fonts: None,
        theme_id: None,
        dark_theme_id: None,
    };
    Backend::new(config, BookPath::parse("/test/src"))
}

/// Creates a test `RenderContext` with given chapter path
fn create_test_context(
    path: &str,
    chapter: &str,
    section: Option<Vec<u32>>,
    index: usize,
) -> RenderContext {
    RenderContext::new(BookPath::parse(path), String::from(chapter), section, index)
}

#[test]
fn test_calculate_relative_path_root_level_chapter() {
    // Root-level chapter: chapter.md in src/
    let backend = create_test_backend();
    let ctx = create_test_context("chapter.md", "Test Chapter", Some(vec![1]), 1);

    let rel_path = backend.calculate_relative_path_for_chapter(&ctx);

    // Root-level: no "../" needed, just "d2/1.1.png"
    assert_eq!(rel_path.to_string(), String::from("d2/1.1.png"));
}

#[test]
fn test_calculate_relative_path_one_level_deep() {
    // One level deep: intro/chapter.md
    let backend = create_test_backend();
    let ctx = create_test_context("intro/chapter.md", "Test Chapter", Some(vec![1]), 1);

    let rel_path = backend.calculate_relative_path_for_chapter(&ctx);

    // One level: "../d2/1.1.png"
    assert_eq!(rel_path.to_string(), String::from("../d2/1.1.png"));
}

#[test]
fn test_calculate_relative_path_two_levels_deep() {
    // Two levels deep: part1/chapter1/file.md
    let backend = create_test_backend();
    let ctx = create_test_context("part1/chapter1/file.md", "Test Chapter", Some(vec![1, 1]), 1);

    let rel_path = backend.calculate_relative_path_for_chapter(&ctx);

    // Two levels: "../../d2/1.1.1.png"
    assert_eq!(rel_path.to_string(), String::from("../../d2/1.1.1.png"));
}

#[test]
fn test_calculate_relative_path_three_levels_deep() {
    // Three levels deep: a/b/c/chapter.md
    let backend = create_test_backend();
    let ctx = create_test_context("a/b/c/chapter.md", "Deep Chapter", Some(vec![2, 3, 4]), 2);

    let rel_path = backend.calculate_relative_path_for_chapter(&ctx);

    // Three levels: "../../../d2/2.3.4.2.png"
    assert_eq!(rel_path.to_string(), String::from("../../../d2/2.3.4.2.png"));
}

#[test]
fn test_calculate_relative_path_no_section_number() {
    // Chapter without section number (unnumbered chapter)
    // Uses a path hash for uniqueness instead of a section prefix
    let backend = create_test_backend();
    let ctx = create_test_context("appendix/info.md", "Appendix", None, 1);

    let rel_path = backend.calculate_relative_path_for_chapter(&ctx);
    let rel_str = rel_path.to_string();

    // One level deep, no section: "../d2/<hash>_1.png"
    assert!(rel_str.starts_with("../d2/"), "Should start with ../d2/, got: {rel_str}");
    assert!(rel_str.ends_with("_1.png"), "Should end with _1.png, got: {rel_str}");
}

#[test]
fn test_calculate_relative_path_custom_output_dir() {
    // Custom output directory
    let backend = create_test_backend_with_output_dir("diagrams");
    let ctx = create_test_context("intro/chapter.md", "Test", Some(vec![1]), 1);

    let rel_path = backend.calculate_relative_path_for_chapter(&ctx);

    // Should use custom output dir: "../diagrams/1.1.png"
    assert_eq!(rel_path.to_string(), String::from("../diagrams/1.1.png"));
}

#[test]
fn test_filename_generation() {
    // Test filename generation for various section numbers
    let ctx1 = create_test_context("test.md", "Test", Some(vec![1]), 2);
    assert_eq!(filename(&ctx1), String::from("1.2.png"));

    let ctx2 = create_test_context("test.md", "Test", Some(vec![1, 2, 3]), 1);
    assert_eq!(filename(&ctx2), String::from("1.2.3.1.png"));

    // No section number - uses path hash for uniqueness
    let ctx3 = create_test_context("test.md", "Test", None, 5);
    let filename3 = filename(&ctx3);
    // Filename should be hash_index.png format (e.g., "a1b2c3d4_5.png")
    assert!(filename3.ends_with("_5.png"), "Expected hash_5.png format, got: {filename3}");
    assert!(filename3.len() > 6, "Filename should have hash prefix: {filename3}");
}

#[test]
fn test_filename_uniqueness_for_unnumbered_chapters() {
    // Two different paths should produce different filenames
    let ctx1 = create_test_context("chapter1.md", "Chapter 1", None, 1);
    let ctx2 = create_test_context("chapter2.md", "Chapter 2", None, 1);

    let filename1 = filename(&ctx1);
    let filename2 = filename(&ctx2);

    assert_ne!(filename1, filename2, "Different paths should produce different filenames");
}

#[test]
fn test_filename_stability_for_same_path() {
    // Same path should always produce the same filename
    let ctx1 = create_test_context("test.md", "Test", None, 1);
    let ctx2 = create_test_context("test.md", "Test", None, 1);

    assert_eq!(filename(&ctx1), filename(&ctx2), "Same path should produce same filename");
}

#[test]
fn test_relative_file_path() {
    let backend = create_test_backend();
    let ctx = create_test_context("test.md", "Test", Some(vec![1, 2]), 3);

    let rel_path = backend.relative_file_path(&ctx);

    // Should be output_dir + filename
    assert_eq!(rel_path.to_string(), String::from("d2/1.2.3.png"));
}

#[test]
fn test_filepath_construction() {
    let backend = create_test_backend();
    let ctx = create_test_context("test.md", "Test", Some(vec![2]), 1);

    let filepath = backend.filepath(&ctx);

    // Should be source_dir + output_dir + filename
    assert_eq!(filepath.to_string(), String::from("/test/src/d2/2.1.png"));
}
