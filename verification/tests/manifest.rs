use std::io::BufRead;

use hashdeep_rs::decimal::{parse_u64, u64_text};
use hashdeep_rs::text::{
    char_is_whitespace, chars_of, find_whitespace, str_eq, str_le, trim_bounds,
};
use hashdeep_rs::{
    parse_line, read_manifest, read_manifest_text, split_lines, FileEntry, Notice, ParsedLine,
};

fn entry(hash: &str, path: &str, size: u64) -> ParsedLine {
    ParsedLine::Entry(FileEntry::new_s(hash.to_string(), path.to_string(), size))
}

#[test]
fn line_with_hash_and_path() {
    assert_eq!(parse_line("deadbeef  a.txt"), entry("deadbeef", "a.txt", 0));
    assert_eq!(parse_line("deadbeef a.txt"), entry("deadbeef", "a.txt", 0));
    assert_eq!(parse_line("deadbeef\ta.txt"), entry("deadbeef", "a.txt", 0));
}

#[test]
fn path_keeps_inner_white_space_and_loses_outer() {
    assert_eq!(parse_line("deadbeef   my file.txt  "), entry("deadbeef", "my file.txt", 0));
    assert_eq!(parse_line("deadbeef \t a b\tc \r"), entry("deadbeef", "a b\tc", 0));
}

#[test]
fn line_that_starts_with_white_space_has_an_empty_hash() {
    assert_eq!(parse_line(" deadbeef a.txt"), entry("", "deadbeef a.txt", 0));
}

#[test]
fn line_with_hash_and_only_white_space_has_an_empty_path() {
    assert_eq!(parse_line("deadbeef   "), entry("deadbeef", "", 0));
}

#[test]
fn white_space_beyond_ascii_separates_too() {
    assert_eq!(parse_line("deadbeef\u{a0}a.txt"), entry("deadbeef", "a.txt", 0));
    assert_eq!(parse_line("deadbeef\u{3000}\u{2003}a.txt\u{2028}"), entry("deadbeef", "a.txt", 0));
}

#[test]
fn zero_width_space_is_no_white_space() {
    assert_eq!(parse_line("dead\u{200b}beef"), ParsedLine::Unparsable);
}

#[test]
fn line_with_size_hash_and_path() {
    assert_eq!(parse_line("100,deadbeef,a.txt"), entry("deadbeef", "a.txt", 100));
    assert_eq!(parse_line("0,deadbeef,a.txt"), entry("deadbeef", "a.txt", 0));
    assert_eq!(parse_line("+7,deadbeef,a.txt"), entry("deadbeef", "a.txt", 7));
    assert_eq!(
        parse_line("18446744073709551615,deadbeef,a.txt"),
        entry("deadbeef", "a.txt", u64::MAX)
    );
}

#[test]
fn first_form_wins_when_there_is_white_space() {
    assert_eq!(parse_line("100,deadbeef,my file.txt"), entry("100,deadbeef,my", "file.txt", 0));
}

#[test]
fn size_that_is_no_number_gives_zero() {
    let bad = |text: &str| ParsedLine::EntryWithBadSize {
        entry: FileEntry::new_s("deadbeef".to_string(), "a.txt".to_string(), 0),
        size_text: text.to_string(),
    };
    assert_eq!(parse_line("abc,deadbeef,a.txt"), bad("abc"));
    assert_eq!(parse_line(",deadbeef,a.txt"), bad(""));
    assert_eq!(parse_line("-1,deadbeef,a.txt"), bad("-1"));
    assert_eq!(parse_line("+,deadbeef,a.txt"), bad("+"));
    assert_eq!(parse_line("1_0,deadbeef,a.txt"), bad("1_0"));
    assert_eq!(parse_line("18446744073709551616,deadbeef,a.txt"), bad("18446744073709551616"));
}

#[test]
fn lines_in_neither_form() {
    assert_eq!(parse_line(""), ParsedLine::Unparsable);
    assert_eq!(parse_line("deadbeef"), ParsedLine::Unparsable);
    assert_eq!(parse_line("deadbeef,a.txt"), ParsedLine::Unparsable);
    assert_eq!(parse_line("1,deadbeef,a,txt"), ParsedLine::Unparsable);
}

#[test]
fn empty_fields_are_accepted() {
    assert_eq!(parse_line("5,,"), entry("", "", 5));
}

#[test]
fn parsing_twice_gives_the_same() {
    for line in ["deadbeef  a.txt", "100,deadbeef,a.txt", "x,deadbeef,a.txt", "nothing"] {
        assert_eq!(parse_line(line), parse_line(line));
    }
    let lines = vec!["deadbeef  a.txt".to_string(), "12,cafebabe,b.txt".to_string()];
    let (first, _) = read_manifest(&lines);
    let (second, _) = read_manifest(&lines);
    assert_eq!(first.iter(), second.iter());
}

#[test]
fn manifest_is_read_in_order_with_notices() {
    let lines: Vec<String> = [
        "aaaa  a.txt",
        "garbage",
        "x1,bbbb,b.txt",
        "aaaa  other.txt",
        "",
        "30,cccc,c.txt",
        "zz,cccc,again.txt",
    ]
    .iter()
    .map(|l| l.to_string())
    .collect();
    let (map, notices) = read_manifest(&lines);
    assert_eq!(
        map.iter(),
        &vec![
            FileEntry::new_s("aaaa".to_string(), "a.txt".to_string(), 0),
            FileEntry::new_s("bbbb".to_string(), "b.txt".to_string(), 0),
            FileEntry::new_s("cccc".to_string(), "c.txt".to_string(), 30),
        ]
    );
    assert_eq!(
        notices,
        vec![
            Notice::Unparsable { line: 1, text: "garbage".to_string() },
            Notice::BadSize { line: 2, size_text: "x1".to_string() },
            Notice::Duplicate {
                line: 3,
                hash: "aaaa".to_string(),
                path: "other.txt".to_string(),
                prior_path: "a.txt".to_string(),
            },
            Notice::Unparsable { line: 4, text: "".to_string() },
            Notice::BadSize { line: 6, size_text: "zz".to_string() },
            Notice::Duplicate {
                line: 6,
                hash: "cccc".to_string(),
                path: "again.txt".to_string(),
                prior_path: "c.txt".to_string(),
            },
        ]
    );
    assert_eq!(map.find_by_path("other.txt"), None);
    assert_eq!(map.find_by_hash("aaaa"), Some(0));
}

#[test]
fn duplicate_hash_in_manifest_resolves_to_first_entry() {
    let lines = vec!["1,deadbeef,a.txt".to_string(), "1,deadbeef,b.txt".to_string()];
    let (map, notices) = read_manifest(&lines);
    assert_eq!(
        notices,
        vec![Notice::Duplicate {
            line: 1,
            hash: "deadbeef".to_string(),
            path: "b.txt".to_string(),
            prior_path: "a.txt".to_string(),
        }]
    );
    assert_eq!(map.len(), 1);
    assert_eq!(map.get_by_hash("deadbeef").map(|e| e.path.as_str()), Some("a.txt"));
}

#[test]
fn empty_manifest_gives_empty_map() {
    let (map, notices) = read_manifest(&Vec::new());
    assert_eq!(map.len(), 0);
    assert!(notices.is_empty());
}

#[test]
fn white_space_is_what_std_calls_white_space() {
    let mut code: u32 = 0;
    while code <= 0x10FFFF {
        if let Some(c) = char::from_u32(code) {
            assert_eq!(char_is_whitespace(c), c.is_whitespace(), "U+{:04X}", code);
        }
        code += 1;
    }
}

#[test]
fn chars_of_gives_every_character() {
    assert_eq!(chars_of("a\u{e9}\u{1F600}z"), vec!['a', '\u{e9}', '\u{1F600}', 'z']);
    assert_eq!(chars_of(""), Vec::<char>::new());
}

#[test]
fn find_whitespace_gives_the_first() {
    assert_eq!(find_whitespace(&chars_of("ab c d")), Some(2));
    assert_eq!(find_whitespace(&chars_of("\u{e9}\u{e9}\tx")), Some(2));
    assert_eq!(find_whitespace(&chars_of("abc")), None);
}

#[test]
fn trim_bounds_agree_with_trim() {
    for text in ["", "   ", "a", " a", "a ", "  a b  ", "\t\u{a0}x y\u{2003}\n"] {
        let chars = chars_of(text);
        let (a, b) = trim_bounds(&chars, 0, chars.len());
        let got: String = chars[a..b].iter().collect();
        assert_eq!(got, text.trim());
    }
    let chars = chars_of("xx  ab  yy");
    assert_eq!(trim_bounds(&chars, 2, 8), (4, 6));
}

#[test]
fn parse_u64_reads_what_std_reads() {
    assert_eq!(parse_u64("0"), Some(0));
    assert_eq!(parse_u64("007"), Some(7));
    assert_eq!(parse_u64("+12"), Some(12));
    assert_eq!(parse_u64("18446744073709551615"), Some(u64::MAX));
    assert_eq!(parse_u64("18446744073709551616"), None);
    assert_eq!(parse_u64("99999999999999999999999"), None);
    assert_eq!(parse_u64(""), None);
    assert_eq!(parse_u64("+"), None);
    assert_eq!(parse_u64("++1"), None);
    assert_eq!(parse_u64("-1"), None);
    assert_eq!(parse_u64("1 "), None);
    assert_eq!(parse_u64("12a"), None);
    assert_eq!(parse_u64("\u{661}"), None);
    for text in ["0", "+0", "42", "0042", "x", "", "+", "1e3", "18446744073709551615"] {
        assert_eq!(parse_u64(text), text.parse::<u64>().ok());
    }
}

#[test]
fn u64_text_writes_decimal() {
    assert_eq!(u64_text(0), "0");
    assert_eq!(u64_text(9), "9");
    assert_eq!(u64_text(10), "10");
    assert_eq!(u64_text(1234567890), "1234567890");
    assert_eq!(u64_text(u64::MAX), "18446744073709551615");
    for n in [0u64, 1, 99, 100, 65535, u64::MAX] {
        assert_eq!(parse_u64(&u64_text(n)), Some(n));
    }
}

#[test]
fn reading_the_lines_twice_over_adds_nothing() {
    let once: Vec<String> =
        ["aaaa  a.txt", "5,bbbb,b.txt", "junk", "aaaa  c.txt"].iter().map(|l| l.to_string()).collect();
    let mut twice = once.clone();
    twice.extend(once.clone());
    let (first, _) = read_manifest(&once);
    let (second, notices) = read_manifest(&twice);
    assert_eq!(first.iter(), second.iter());
    assert_eq!(second.len(), 2);
    assert_eq!(notices.len(), 6);
}

#[test]
fn lines_end_with_line_feed_or_text() {
    assert_eq!(split_lines(b""), Vec::<String>::new());
    assert_eq!(split_lines(b"a"), vec!["a"]);
    assert_eq!(split_lines(b"a\n"), vec!["a"]);
    assert_eq!(split_lines(b"a\nb"), vec!["a", "b"]);
    assert_eq!(split_lines(b"a\n\nb\n"), vec!["a", "", "b"]);
    assert_eq!(split_lines(b"\n"), vec![""]);
}

#[test]
fn carriage_return_goes_only_before_a_line_feed() {
    assert_eq!(split_lines(b"a\r\nb\r\n"), vec!["a", "b"]);
    assert_eq!(split_lines(b"a\r"), vec!["a\r"]);
    assert_eq!(split_lines(b"a\r\r\n"), vec!["a\r"]);
    assert_eq!(split_lines(b"\r\n"), vec![""]);
    assert_eq!(split_lines(b"a\rb\n"), vec!["a\rb"]);
}

#[test]
fn line_that_is_not_utf8_is_empty() {
    assert_eq!(split_lines(b"ok\n\xff\xfe\nfine\n"), vec!["ok", "", "fine"]);
    assert_eq!(split_lines(b"caf\xc3\xa9\n\xc3"), vec!["caf\u{e9}", ""]);
}

#[test]
fn lines_are_what_std_reads() {
    let inputs: Vec<&[u8]> = vec![
        b"",
        b"a",
        b"a\n",
        b"\n",
        b"\n\n",
        b"\r",
        b"\r\n",
        b"\n\r",
        b"a\r\nb",
        b"a\r\r\n\rb\r",
        b"dead  a.txt\n12,beef,b.txt\r\n",
        b"\xe2\x82\xac uro\n\xe2\x82\n\xac\n",
        b"\xf0\x9f\x98\x80\r\n\xed\xa0\x80\n",
    ];
    for input in inputs {
        let expected: Vec<String> = input.lines().map(|l| l.unwrap_or_default()).collect();
        assert_eq!(split_lines(input), expected);
    }
}

#[test]
fn manifest_text_is_read_line_by_line() {
    let (map, notices) = read_manifest_text(b"aaaa  a.txt\r\n7,bbbb,b.txt\n\nbbbb  c.txt");
    assert_eq!(
        map.iter(),
        &vec![
            FileEntry::new_s("aaaa".to_string(), "a.txt".to_string(), 0),
            FileEntry::new_s("bbbb".to_string(), "b.txt".to_string(), 7),
        ]
    );
    assert_eq!(
        notices,
        vec![
            Notice::Unparsable { line: 2, text: "".to_string() },
            Notice::Duplicate {
                line: 3,
                hash: "bbbb".to_string(),
                path: "c.txt".to_string(),
                prior_path: "b.txt".to_string(),
            },
        ]
    );
}

fn split_with_std(line: &str) -> ParsedLine {
    if let Some((hash, path)) = line.split_once(char::is_whitespace) {
        return ParsedLine::Entry(FileEntry::new(hash.trim().to_string(), path.trim().to_string()));
    }
    let fields: Vec<&str> = line.split(',').collect();
    if fields.len() != 3 {
        return ParsedLine::Unparsable;
    }
    let hash = fields[1].trim().to_string();
    let path = fields[2].trim().to_string();
    match fields[0].parse::<u64>() {
        Ok(size) => ParsedLine::Entry(FileEntry::new_s(hash, path, size)),
        Err(_) => ParsedLine::EntryWithBadSize {
            entry: FileEntry::new_s(hash, path, 0),
            size_text: fields[0].to_string(),
        },
    }
}

#[test]
fn parse_line_agrees_with_std_splitting() {
    let alphabet = ['a', ' ', ',', '1', '+', '\t', '\u{e9}', '\u{3000}', '-'];
    let mut lines: Vec<String> = vec![String::new()];
    let mut from: usize = 0;
    for _ in 0..5 {
        let to = lines.len();
        for i in from..to {
            for c in alphabet {
                let mut longer = lines[i].clone();
                longer.push(c);
                lines.push(longer);
            }
        }
        from = to;
    }
    assert_eq!(lines.len(), 1 + 9 + 81 + 729 + 6561 + 59049);
    for line in &lines {
        assert_eq!(parse_line(line), split_with_std(line), "line {:?}", line);
    }
}

#[test]
fn str_le_orders_as_std_orders_strings() {
    let texts = ["", "a", "ab", "b", "B", "\u{e9}", "\u{ffff}", "\u{10000}", "a\u{e9}", "az"];
    for a in texts {
        for b in texts {
            assert_eq!(str_le(a, b), a <= b, "{:?} and {:?}", a, b);
            assert_eq!(str_eq(a, b), a == b, "{:?} and {:?}", a, b);
        }
    }
}
