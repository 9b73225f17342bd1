use json_parser::args::parse_args;
use json_parser::stats::{render_stats, scan_text, FileStats};

fn fresh() -> FileStats {
    FileStats {
        bytes: 0,
        lines: 0,
        words: 0,
        chars: 0,
    }
}

#[test]
fn test_scan_counts_words_lines_chars() {
    let mut stats = fresh();
    let in_word = scan_text(&mut stats, "one two\nthree\n", false);
    assert_eq!(stats.lines, 2);
    assert_eq!(stats.words, 3);
    assert_eq!(stats.chars, 14);
    assert_eq!(stats.bytes, 0); // bytes are the caller's affair
    assert!(!in_word);
}

#[test]
fn test_scan_word_split_across_chunks() {
    // a word broken over two chunks is counted once
    let mut stats = fresh();
    let in_word = scan_text(&mut stats, "hel", false);
    assert!(in_word);
    let in_word = scan_text(&mut stats, "lo world", in_word);
    assert!(in_word);
    assert_eq!(stats.words, 2);
    assert_eq!(stats.chars, 11);
}

#[test]
fn test_scan_unicode_whitespace_and_tabs() {
    let mut stats = fresh();
    // tab and carriage return separate words without ending lines
    let in_word = scan_text(&mut stats, "a\tb\rc d", false);
    assert!(in_word);
    assert_eq!(stats.words, 4);
    assert_eq!(stats.lines, 0);
    assert_eq!(stats.chars, 7);
}

#[test]
fn test_stats_add() {
    let mut a = FileStats {
        bytes: 10,
        lines: 1,
        words: 2,
        chars: 9,
    };
    let b = FileStats {
        bytes: 5,
        lines: 3,
        words: 4,
        chars: 5,
    };
    a.add(&b);
    assert_eq!(a.bytes, 15);
    assert_eq!(a.lines, 4);
    assert_eq!(a.words, 6);
    assert_eq!(a.chars, 14);
}

#[test]
fn test_parse_args_flags_and_files() {
    let args = vec![
        "-lw".to_string(),
        "a.txt".to_string(),
        "-c".to_string(),
        "b.txt".to_string(),
    ];
    let parsed = parse_args(args);
    assert_eq!(parsed.flags, vec!['l', 'w', 'c']);
    assert_eq!(parsed.files, vec!["a.txt".to_string(), "b.txt".to_string()]);
}

#[test]
fn test_parse_args_bare_dash_and_empty() {
    let parsed = parse_args(vec!["-".to_string(), "".to_string()]);
    assert_eq!(parsed.flags, Vec::<char>::new());
    assert_eq!(parsed.files, vec!["".to_string()]);
}

#[test]
fn test_render_default_line() {
    let stats = FileStats {
        bytes: 342190,
        lines: 7145,
        words: 58164,
        chars: 339292,
    };
    let line = render_stats(&stats, &Vec::new(), None);
    assert_eq!(line, format!("{:8} {:8} {:8}", 7145, 58164, 342190u64));
}

#[test]
fn test_render_flagged_line_with_filename() {
    let stats = FileStats {
        bytes: 42,
        lines: 3,
        words: 5,
        chars: 40,
    };
    let flags = vec!['l', 'c'];
    let line = render_stats(&stats, &flags, Some("test.txt"));
    assert_eq!(line, format!("{:8}{:8} test.txt", 3, 42u64));
}

#[test]
fn test_render_flag_order_is_fixed() {
    // flags given as c then m still render in the order m, c
    let stats = FileStats {
        bytes: 2,
        lines: 0,
        words: 1,
        chars: 1,
    };
    let flags = vec!['c', 'm'];
    let line = render_stats(&stats, &flags, None);
    assert_eq!(line, format!("{:8}{:8}", 1, 2u64));
}

#[test]
fn test_render_wide_count_keeps_digits() {
    let stats = FileStats {
        bytes: 123456789012,
        lines: 0,
        words: 0,
        chars: 0,
    };
    let flags = vec!['c'];
    let line = render_stats(&stats, &flags, None);
    assert_eq!(line, "123456789012");
}
