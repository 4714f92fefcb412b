use thoth_cli::storage::decode_blocks;
use thoth_cli::storage::encode_blocks;

fn strings(xs: &[&str]) -> Vec<String> {
    xs.iter().map(|s| s.to_string()).collect()
}

#[test]
fn test_encode_escapes_leading_hash_outside_fence() {
    let titles = strings(&["Note"]);
    let bodies = vec![strings(&["#not a header", "plain"])];
    let lines = encode_blocks(&titles, &bodies);
    assert_eq!(lines, strings(&["# Note", "\\#not a header", "plain"]));
}

#[test]
fn test_encode_preserves_fenced_content() {
    let titles = strings(&["Code"]);
    let bodies = vec![strings(&["```sh", "# a comment", "```", "# outside"])];
    let lines = encode_blocks(&titles, &bodies);
    assert_eq!(
        lines,
        strings(&["# Code", "```sh", "# a comment", "```", "\\# outside"])
    );
}

#[test]
fn test_decode_splits_blocks_and_unescapes() {
    let lines = strings(&["# One", "body", "\\#escaped", "# Two", "x"]);
    let (titles, bodies) = decode_blocks(&lines);
    assert_eq!(titles, strings(&["One", "Two"]));
    assert_eq!(bodies.len(), 2);
    assert_eq!(bodies[0], strings(&["body", "#escaped"]));
    assert_eq!(bodies[1], strings(&["x"]));
}

#[test]
fn test_decode_keeps_header_lines_inside_fence() {
    let lines = strings(&["# Note", "```md", "# heading in code", "```"]);
    let (titles, bodies) = decode_blocks(&lines);
    assert_eq!(titles, strings(&["Note"]));
    assert_eq!(bodies[0], strings(&["```md", "# heading in code", "```"]));
}

#[test]
fn test_decode_drops_lines_before_first_header() {
    let lines = strings(&["stray", "# First", "kept"]);
    let (titles, bodies) = decode_blocks(&lines);
    assert_eq!(titles, strings(&["First"]));
    assert_eq!(bodies[0], strings(&["kept"]));
}

#[test]
fn test_decode_drops_empty_title_block() {
    let lines = strings(&["# ", "lost", "# Real", "kept"]);
    let (titles, bodies) = decode_blocks(&lines);
    assert_eq!(titles, strings(&["Real"]));
    assert_eq!(bodies.len(), 1);
    assert_eq!(bodies[0], strings(&["kept"]));
}

#[test]
fn test_save_load_round_trip() {
    let titles = strings(&["Notes", "Snippets"]);
    let bodies = vec![
        strings(&["#tag line", "text"]),
        strings(&["```py", "# comment", "```"]),
    ];
    let lines = encode_blocks(&titles, &bodies);
    let (titles2, bodies2) = decode_blocks(&lines);
    assert_eq!(titles, titles2);
    assert_eq!(bodies, bodies2);
}
