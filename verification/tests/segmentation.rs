use logblocks::classifier::Classifier;
use logblocks::classifier::default_pattern;
use logblocks::segmenter::Config;
use logblocks::segmenter::Segmenter;
use logblocks::segmenter::concat_blocks;
use logblocks::segmenter::render_output;
use logblocks::segmenter::segment_lines;

fn config(numbers: bool, filenames: bool, pattern: &str) -> Config {
    Config {
        print_line_numbers: numbers,
        print_filenames: filenames,
        line_regex: Classifier::new(pattern).expect("pattern must compile"),
    }
}

fn run(numbers: bool, filenames: bool, pattern: &str, fname: &str, lines: &[&[u8]]) -> Vec<u8> {
    let cfg = config(numbers, filenames, pattern);
    let owned: Vec<Vec<u8>> = lines.iter().map(|l| l.to_vec()).collect();
    render_output(&cfg, fname.as_bytes(), &owned)
}

fn run_default(lines: &[&[u8]]) -> Vec<u8> {
    run(false, false, default_pattern(), "log", lines)
}

#[test]
fn example_one_emits_first_block_and_drops_pending() {
    let out = run_default(&[b"2020-01-01 A", b"foo", b"2020-01-02 B"]);
    assert_eq!(out, b"2020-01-01 A\nfoo\n".to_vec());
}

#[test]
fn example_two_last_block_dropped_at_eof() {
    let out = run_default(&[b"2020-01-01 A", b"foo", b"2020-01-02 B", b"bar"]);
    assert_eq!(out, b"2020-01-01 A\nfoo\n".to_vec());
}

#[test]
fn adjacent_boundary_lines_never_appear() {
    let out = run_default(&[
        b"2020-01-01 first",
        b"2020-01-02 second",
        b"tail",
        b"2020-01-03 third",
    ]);
    // The single-line entry of line 1 is dropped; the entry of lines 2-3 is
    // flushed by the boundary on line 4.
    assert_eq!(out, b"2020-01-02 second\ntail\n".to_vec());
    assert!(!String::from_utf8_lossy(&out).contains("first"));
}

#[test]
fn lines_keep_input_order_within_and_across_blocks() {
    let out = run_default(&[
        b"2020-01-01 a",
        b"a1",
        b"a2",
        b"2020-01-02 b",
        b"b1",
        b"2020-01-03 c",
    ]);
    assert_eq!(
        out,
        b"2020-01-01 a\na1\na2\n\n2020-01-02 b\nb1\n".to_vec()
    );
}

#[test]
fn running_twice_is_byte_identical() {
    let lines: &[&[u8]] = &[b"2020-01-01 a", b"x", b"2020-01-02 b", b"y", b"2020-01-03 c"];
    let first = run(true, true, default_pattern(), "app.log", lines);
    let second = run(true, true, default_pattern(), "app.log", lines);
    assert_eq!(first, second);
}

#[test]
fn separator_only_between_blocks() {
    let out = run_default(&[
        b"2020-01-01 a",
        b"a1",
        b"2020-01-02 b",
        b"b1",
        b"2020-01-03 c",
        b"c1",
        b"2020-01-04 d",
    ]);
    let text = String::from_utf8(out).unwrap();
    // No leading blank line, one blank line between consecutive blocks.
    assert!(!text.starts_with('\n'));
    assert_eq!(
        text,
        "2020-01-01 a\na1\n\n2020-01-02 b\nb1\n\n2020-01-03 c\nc1\n"
    );
}

#[test]
fn line_numbers_are_right_justified_and_one_based() {
    let out = run(true, false, default_pattern(), "log", &[
        b"2020-01-01 a",
        b"a1",
        b"2020-01-02 b",
    ]);
    assert_eq!(out, b"      1 2020-01-01 a\n      2 a1\n".to_vec());
}

#[test]
fn line_numbers_count_all_physical_lines() {
    // Lines of dropped entries still advance the counter.
    let out = run(true, false, default_pattern(), "log", &[
        b"2020-01-01 dropped",
        b"2020-01-02 kept",
        b"tail",
        b"2020-01-03 flush",
    ]);
    assert_eq!(out, b"      2 2020-01-02 kept\n      3 tail\n".to_vec());
}

#[test]
fn filename_prefix() {
    let out = run(false, true, default_pattern(), "app.log", &[
        b"2020-01-01 a",
        b"a1",
        b"2020-01-02 b",
    ]);
    assert_eq!(out, b"app.log 2020-01-01 a\napp.log a1\n".to_vec());
}

#[test]
fn filename_and_number_prefix_order() {
    let out = run(true, true, default_pattern(), "z", &[
        b"2020-01-01 a",
        b"a1",
        b"2020-01-02 b",
    ]);
    assert_eq!(out, b"z       1 2020-01-01 a\nz       2 a1\n".to_vec());
}

#[test]
fn empty_input_gives_no_output() {
    let out = run_default(&[]);
    assert!(out.is_empty());
}

#[test]
fn only_continuations_give_no_output_without_boundary() {
    let out = run_default(&[b"foo", b"bar"]);
    assert!(out.is_empty());
}

#[test]
fn headless_leading_block_is_flushed_by_first_boundary() {
    // Continuation lines before any boundary form a block of their own.
    let out = run_default(&[b"foo", b"bar", b"2020-01-01 a"]);
    assert_eq!(out, b"foo\nbar\n".to_vec());
}

#[test]
fn custom_pattern() {
    let out = run(false, false, "^ENTRY", "log", &[
        b"ENTRY one",
        b"detail",
        b"ENTRY two",
    ]);
    assert_eq!(out, b"ENTRY one\ndetail\n".to_vec());
}

#[test]
fn bad_pattern_is_reported() {
    assert!(Classifier::new("(").is_err());
}

#[test]
fn classifier_matches_default_pattern() {
    let c = Classifier::new(default_pattern()).unwrap();
    assert!(c.is_boundary(b"2020-01-01 something"));
    assert!(!c.is_boundary(b"no date here"));
    assert!(!c.is_boundary(b"01-01-2020 wrong order"));
}

#[test]
fn matching_decodes_lossily_but_output_keeps_raw_bytes() {
    // An invalid UTF-8 byte is decoded as the replacement character for
    // matching only; the emitted bytes are the raw input bytes.
    let c = Classifier::new("^\u{FFFD}").unwrap();
    assert!(c.is_boundary(&[0xFF, b'a']));

    let raw: &[u8] = &[0xFE, 0xFF, b'!'];
    let out = run_default(&[b"2020-01-01 a", raw, b"2020-01-02 b"]);
    let mut expected: Vec<u8> = b"2020-01-01 a\n".to_vec();
    expected.extend_from_slice(raw);
    expected.push(b'\n');
    assert_eq!(out, expected);
}

#[test]
fn segment_lines_and_concat_match_render_output() {
    let lines: &[&[u8]] = &[b"2020-01-01 a", b"a1", b"2020-01-02 b", b"b1", b"2020-01-03 c"];
    let owned: Vec<Vec<u8>> = lines.iter().map(|l| l.to_vec()).collect();
    let cfg = config(false, false, default_pattern());
    let blocks = segment_lines(&cfg, b"log", &owned);
    assert_eq!(blocks.len(), 2);
    assert_eq!(blocks[0], b"2020-01-01 a\na1\n".to_vec());
    assert_eq!(blocks[1], b"\n2020-01-02 b\nb1\n".to_vec());
    let cfg2 = config(false, false, default_pattern());
    assert_eq!(concat_blocks(&blocks), render_output(&cfg2, b"log", &owned));
}

#[test]
fn step_emits_blocks_one_at_a_time() {
    // A caller that stops at the first failed write emits nothing of any
    // later block: each flushed block is handed out separately and only
    // when complete.
    let cfg = config(false, false, default_pattern());
    let mut seg = Segmenter::new(&cfg, b"log");
    let lines: &[&[u8]] = &[
        b"2020-01-01 a",
        b"a1",
        b"2020-01-02 b",
        b"b1",
        b"2020-01-03 c",
    ];
    let mut flushed: Vec<Vec<u8>> = Vec::new();
    for line in lines {
        if let Some(block) = seg.step(line) {
            flushed.push(block);
        }
    }
    assert_eq!(flushed.len(), 2);
    assert_eq!(flushed[0], b"2020-01-01 a\na1\n".to_vec());
    assert_eq!(flushed[1], b"\n2020-01-02 b\nb1\n".to_vec());
    // A sink failing on the second write would therefore have emitted the
    // first block's bytes and nothing else.
}
