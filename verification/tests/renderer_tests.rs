use thoth_cli::ColorKind;
use thoth_cli::DisplayLine;
use thoth_cli::MarkdownRenderer;

fn line_string(dl: &DisplayLine) -> String {
    let mut s = String::new();
    for run in &dl.runs {
        s.push_str(&run.text);
    }
    s
}

fn line_width(dl: &DisplayLine) -> usize {
    dl.runs.iter().map(|r| r.text.chars().count()).sum()
}

#[test]
fn test_render_markdown() {
    let mut renderer = MarkdownRenderer::new();
    let markdown = "# Header\n\nThis is **bold** and *italic* text.";
    let rendered = renderer
        .render_markdown(markdown.to_string(), "".to_string(), 40)
        .unwrap();

    assert!(rendered.lines.len() >= 3);
    assert!(rendered.lines[0]
        .runs
        .iter()
        .any(|run| run.text.contains("Header")));
    assert!(rendered.lines[2]
        .runs
        .iter()
        .any(|run| run.text.contains("This is")));
    assert!(rendered.lines[2]
        .runs
        .iter()
        .any(|run| run.text.contains("bold")));
    assert!(rendered.lines[2]
        .runs
        .iter()
        .any(|run| run.text.contains("italic")));
}

#[test]
fn test_render_markdown_with_code_block() {
    let mut renderer = MarkdownRenderer::new();
    let markdown = "# Header\n\n```rust\nfn main() {\n    println!(\"Hello, world!\");\n}\n```";

    let rendered = renderer
        .render_markdown(markdown.to_string(), "".to_string(), 40)
        .unwrap();
    assert!(rendered.lines.len() > 5);
    assert!(rendered.lines[0]
        .runs
        .iter()
        .any(|run| run.text.contains("Header")));
    assert!(rendered
        .lines
        .iter()
        .any(|line| line.runs.iter().any(|run| run.text.contains("main"))));
}

#[test]
fn test_render_json() {
    let mut renderer = MarkdownRenderer::new();
    let json = r#"{
  "name": "John Doe",
  "age": 30,
  "city": "New York"
}"#;

    let rendered = renderer
        .render_markdown(json.to_string(), "".to_string(), 40)
        .unwrap();

    assert!(rendered.lines.len() == 5);
    assert!(rendered.lines[0]
        .runs
        .iter()
        .any(|run| run.text.contains("{")));
    assert!(rendered.lines[4]
        .runs
        .iter()
        .any(|run| run.text.contains("}")));
}

#[test]
fn test_render_markdown_with_one_line_code_block() {
    let mut renderer = MarkdownRenderer::new();
    let markdown = "# Header\n\n```rust\n```\n\nText after.".to_string();
    let rendered = renderer
        .render_markdown(markdown, "".to_string(), 40)
        .unwrap();

    assert!(rendered.lines.len() > 3);
    assert!(rendered.lines[0]
        .runs
        .iter()
        .any(|run| run.text.contains("Header")));
    assert!(rendered
        .lines
        .iter()
        .any(|line| line.runs.iter().any(|run| run.text.contains("1 │"))));
    assert!(rendered
        .lines
        .last()
        .unwrap()
        .runs
        .iter()
        .any(|run| run.text.contains("Text after.")));
}

#[test]
fn test_markdown_renderer_with_code_blocks() {
    let mut renderer = MarkdownRenderer::new();
    let markdown =
        "# Header\n\n```rust\nfn main() {\n    println!(\"Hello, world!\");\n}\n```".to_string();
    let rendered = renderer.render_markdown(markdown, "".to_string(), 40).unwrap();

    assert!(rendered.lines.len() > 5);
    assert!(rendered.lines[0]
        .runs
        .iter()
        .any(|run| run.text.contains("Header")));
}

#[test]
fn test_heading_is_bold_and_colored() {
    let mut renderer = MarkdownRenderer::new();
    let rendered = renderer
        .render_markdown("# Header\n\nplain".to_string(), "h".to_string(), 40)
        .unwrap();
    let first = &rendered.lines[0].runs[0];
    assert_eq!(first.text, "# Header");
    assert!(first.style.bold);
    assert_eq!(first.style.fg, ColorKind::Red);

    let mut renderer = MarkdownRenderer::new();
    let rendered = renderer
        .render_markdown("## Second".to_string(), "h2".to_string(), 20)
        .unwrap();
    let first = &rendered.lines[0].runs[0];
    assert_eq!(first.text, "## Second");
    assert!(first.style.bold);
    assert_eq!(first.style.fg, ColorKind::Green);
}

#[test]
fn test_plain_lines_padded_to_width() {
    let mut renderer = MarkdownRenderer::new();
    let markdown = "# Header\n\nThis is **bold** and *italic* text.";
    let rendered = renderer
        .render_markdown(markdown.to_string(), "".to_string(), 40)
        .unwrap();
    for line in &rendered.lines {
        assert_eq!(line_width(line), 40);
    }
}

#[test]
fn test_padding_run_is_plain_spaces() {
    // a padded line ends with one default-styled run of exactly the
    // missing spaces; an unpadded line gets no such run
    let mut renderer = MarkdownRenderer::new();
    let rendered = renderer
        .render_markdown("# Hi\n\nshort".to_string(), "".to_string(), 12)
        .unwrap();
    for line in &rendered.lines {
        let total: usize = line.runs.iter().map(|r| r.text.chars().count()).sum();
        assert_eq!(total, 12);
        let last = line.runs.last().unwrap();
        assert!(last.text.chars().all(|c| c == ' '));
        assert_eq!(last.style.fg, ColorKind::Unset);
        assert!(!last.style.bold && !last.style.italic && !last.style.underline);
    }
}

#[test]
fn test_fence_region_bounded_by_rules() {
    let mut renderer = MarkdownRenderer::new();
    let markdown = "before\n```rust\nlet x = 1;\n```\nafter";
    let rendered = renderer
        .render_markdown(markdown.to_string(), "".to_string(), 30)
        .unwrap();
    let rule: String = "─".repeat(30);
    // before, top rule, one numbered line, bottom rule, after
    assert_eq!(rendered.lines.len(), 5);
    assert_eq!(line_string(&rendered.lines[1]), rule);
    assert_eq!(line_string(&rendered.lines[3]), rule);
    assert!(line_string(&rendered.lines[2]).starts_with("1 │ let x = 1;"));
}

#[test]
fn test_first_element_fence_has_no_top_rule() {
    let mut renderer = MarkdownRenderer::new();
    let markdown = "```rust\nlet x = 1;\n```";
    let rendered = renderer
        .render_markdown(markdown.to_string(), "".to_string(), 30)
        .unwrap();
    let rule: String = "─".repeat(30);
    // numbered line, bottom rule only
    assert_eq!(rendered.lines.len(), 2);
    assert!(line_string(&rendered.lines[0]).starts_with("1 │ let x = 1;"));
    assert_eq!(line_string(&rendered.lines[1]), rule);
}

#[test]
fn test_unterminated_fence_keeps_content() {
    let mut renderer = MarkdownRenderer::new();
    let markdown = "text\n```rust\nlet kept = true;";
    let rendered = renderer
        .render_markdown(markdown.to_string(), "".to_string(), 40)
        .unwrap();
    assert!(rendered
        .lines
        .iter()
        .any(|line| line.runs.iter().any(|run| run.text.contains("kept"))));
}

#[test]
fn test_json_fence_uses_space_separator() {
    let mut renderer = MarkdownRenderer::new();
    let markdown = "intro\n```json\n{\"a\": 1}\n```";
    let rendered = renderer
        .render_markdown(markdown.to_string(), "".to_string(), 30)
        .unwrap();
    // the fenced json region keeps its rules but drops the vertical bar
    let rule: String = "─".repeat(30);
    assert_eq!(line_string(&rendered.lines[1]), rule);
    let body = line_string(&rendered.lines[2]);
    assert!(body.starts_with("1 {"));
    assert!(!body.contains('│'));
}

#[test]
fn test_bare_json_close_synthesized() {
    let mut renderer = MarkdownRenderer::new();
    let markdown = "{\"a\":1";
    let rendered = renderer
        .render_markdown(markdown.to_string(), "".to_string(), 20)
        .unwrap();
    // one line of input plus the synthesized closing line
    assert_eq!(rendered.lines.len(), 2);
    assert!(line_string(&rendered.lines[0]).starts_with("1 {\"a\":1"));
    assert!(line_string(&rendered.lines[1]).starts_with("2 }"));
}

#[test]
fn test_bare_json_bracket_close_synthesized() {
    let mut renderer = MarkdownRenderer::new();
    let markdown = "[1, 2,\n 3";
    let rendered = renderer
        .render_markdown(markdown.to_string(), "".to_string(), 20)
        .unwrap();
    assert_eq!(rendered.lines.len(), 3);
    assert!(line_string(&rendered.lines[2]).starts_with("3 ]"));
}

#[test]
fn test_bare_json_complete_unchanged() {
    let mut renderer = MarkdownRenderer::new();
    let markdown = "{\"a\":1}";
    let rendered = renderer
        .render_markdown(markdown.to_string(), "".to_string(), 20)
        .unwrap();
    assert_eq!(rendered.lines.len(), 1);
    assert!(line_string(&rendered.lines[0]).starts_with("1 {\"a\":1}"));
}

#[test]
fn test_cache_hit_returns_identical_block() {
    let mut renderer = MarkdownRenderer::new();
    let markdown = "# Title\n\nbody".to_string();
    let first = renderer
        .render_markdown(markdown.clone(), "note".to_string(), 30)
        .unwrap();
    let second = renderer
        .render_markdown(markdown, "note".to_string(), 30)
        .unwrap();
    assert_eq!(first.lines.len(), second.lines.len());
    for (a, b) in first.lines.iter().zip(second.lines.iter()) {
        assert_eq!(a.runs.len(), b.runs.len());
        for (ra, rb) in a.runs.iter().zip(b.runs.iter()) {
            assert_eq!(ra.text, rb.text);
            assert_eq!(ra.style, rb.style);
        }
    }
}

#[test]
fn test_cache_keyed_by_title_not_content() {
    // without invalidation, a changed content under the same title still
    // returns the stored render: the invalidation duty is the caller's
    let mut renderer = MarkdownRenderer::new();
    let first = renderer
        .render_markdown("old text".to_string(), "note".to_string(), 20)
        .unwrap();
    let second = renderer
        .render_markdown("new text".to_string(), "note".to_string(), 20)
        .unwrap();
    assert_eq!(line_string(&first.lines[0]), line_string(&second.lines[0]));
}

#[test]
fn test_invalidation_recomputes() {
    let mut renderer = MarkdownRenderer::new();
    let first = renderer
        .render_markdown("old text".to_string(), "note".to_string(), 20)
        .unwrap();
    renderer.invalidate(&"note".to_string());
    let second = renderer
        .render_markdown("new text".to_string(), "note".to_string(), 20)
        .unwrap();
    assert_ne!(line_string(&first.lines[0]), line_string(&second.lines[0]));
    assert!(line_string(&second.lines[0]).starts_with("new text"));
}

#[test]
fn test_width_change_recomputes() {
    let mut renderer = MarkdownRenderer::new();
    let first = renderer
        .render_markdown("abc".to_string(), "note".to_string(), 10)
        .unwrap();
    let second = renderer
        .render_markdown("abc".to_string(), "note".to_string(), 20)
        .unwrap();
    assert_eq!(line_width(&first.lines[0]), 10);
    assert_eq!(line_width(&second.lines[0]), 20);
}

#[test]
fn test_empty_content_renders_no_lines() {
    let mut renderer = MarkdownRenderer::new();
    let rendered = renderer
        .render_markdown("".to_string(), "empty".to_string(), 10)
        .unwrap();
    assert_eq!(rendered.lines.len(), 0);
}

#[test]
fn test_long_line_never_truncated() {
    let mut renderer = MarkdownRenderer::new();
    let long = "a".repeat(50);
    let rendered = renderer
        .render_markdown(long.clone(), "long".to_string(), 10)
        .unwrap();
    assert_eq!(line_string(&rendered.lines[0]).chars().count(), 50);
}

#[test]
fn test_code_line_numbers_right_aligned() {
    let mut renderer = MarkdownRenderer::new();
    let mut body = String::new();
    for i in 0..12 {
        body.push_str(&format!("line {}\n", i));
    }
    let markdown = format!("intro\n```txt\n{}```", body);
    let rendered = renderer
        .render_markdown(markdown, "".to_string(), 30)
        .unwrap();
    // 12 content lines: labels are two columns wide
    assert!(line_string(&rendered.lines[2]).starts_with(" 1 │ line 0"));
    assert!(line_string(&rendered.lines[13]).starts_with("12 │ line 11"));
}
