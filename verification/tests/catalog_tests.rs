use rust_svg::catalog::{is_whitespace_char, json_to_chunks, lsys_from_json_chunks};
use rust_svg::grammar::{LSys, Rules};

fn named(title: &str) -> LSys {
    LSys {
        title: String::from(title),
        refs: vec![String::from("somewhere")],
        start: String::from("F"),
        angle_bits: 60.0f64.to_bits(),
        order: vec![1],
        rules: Rules::new(),
        post_rules: Rules::new(),
    }
}

#[test]
fn empty_text_has_no_chunks() {
    assert_eq!(json_to_chunks(""), Vec::<String>::new());
    assert_eq!(json_to_chunks("\n\n\n"), Vec::<String>::new());
    assert_eq!(json_to_chunks("no braces here\n"), Vec::<String>::new());
}

#[test]
fn one_record_is_one_chunk() {
    let text = "{\n  \"title\": \"Koch\",\n  \"angle\": 60.0\n}\n";
    assert_eq!(json_to_chunks(text), vec![String::from(text)]);
}

#[test]
fn text_between_records_is_dropped() {
    let text = "// catalog\n\n{\n \"a\": 1\n}\n\nnoise\n{\n \"b\": 2\n}\n// end\n";
    assert_eq!(
        json_to_chunks(text),
        vec![String::from("{\n \"a\": 1\n}\n"), String::from("{\n \"b\": 2\n}\n")]
    );
}

#[test]
fn last_line_needs_no_line_feed() {
    assert_eq!(json_to_chunks("{\n\"a\": 1\n}"), vec![String::from("{\n\"a\": 1\n}\n")]);
    assert_eq!(json_to_chunks("{\n}"), vec![String::from("{\n}\n")]);
}

#[test]
fn carriage_returns_of_line_ends_are_dropped() {
    assert_eq!(
        json_to_chunks("{\r\n \"a\": 1\r\n}\r\n"),
        vec![String::from("{\n \"a\": 1\n}\n")]
    );
}

#[test]
fn carriage_return_elsewhere_is_kept() {
    assert_eq!(
        json_to_chunks("{\n \"a\":\r 1\n}\n"),
        vec![String::from("{\n \"a\":\r 1\n}\n")]
    );
    // at the very end, without a line feed, it belongs to the line
    assert_eq!(json_to_chunks("{\n}\r"), vec![String::from("{\n}\r\n")]);
}

#[test]
fn brace_lines_may_end_in_white_space() {
    assert_eq!(
        json_to_chunks("{  \n \"a\": 1\n}\t \n"),
        vec![String::from("{  \n \"a\": 1\n}\t \n")]
    );
    assert_eq!(json_to_chunks("{\u{a0}\n}\u{3000}\n"), vec![String::from("{\u{a0}\n}\u{3000}\n")]);
}

#[test]
fn brace_lines_may_not_begin_with_white_space() {
    assert_eq!(json_to_chunks(" {\n \"a\": 1\n}\n"), Vec::<String>::new());
    assert_eq!(
        json_to_chunks("{\n \"a\": {\n  \"b\": 1\n }\n}\n"),
        vec![String::from("{\n \"a\": {\n  \"b\": 1\n }\n}\n")]
    );
}

#[test]
fn opening_brace_inside_a_chunk_starts_anew() {
    assert_eq!(
        json_to_chunks("{\n \"lost\": 1\n{\n \"kept\": 2\n}\n"),
        vec![String::from("{\n \"kept\": 2\n}\n")]
    );
}

#[test]
fn closing_brace_outside_a_chunk_is_dropped() {
    assert_eq!(json_to_chunks("}\n{\n}\n}\n"), vec![String::from("{\n}\n")]);
}

#[test]
fn chunk_without_its_end_is_dropped() {
    assert_eq!(json_to_chunks("{\n \"a\": 1\n"), Vec::<String>::new());
    assert_eq!(json_to_chunks("{\n}\n{\n \"a\": 1\n"), vec![String::from("{\n}\n")]);
}

#[test]
fn empty_lines_inside_a_chunk_are_kept() {
    assert_eq!(json_to_chunks("{\n\n \"a\": 1\n\n}\n"), vec![String::from("{\n\n \"a\": 1\n\n}\n")]);
}

#[test]
fn text_beyond_ascii_is_kept() {
    assert_eq!(
        json_to_chunks("{\n \"title\": \"C\u{e9}saro \u{2192}\"\n}\n"),
        vec![String::from("{\n \"title\": \"C\u{e9}saro \u{2192}\"\n}\n")]
    );
}

#[test]
fn white_space_is_what_unicode_says() {
    for c in ['\t', '\n', '\u{b}', '\u{c}', '\r', ' ', '\u{85}', '\u{a0}', '\u{1680}', '\u{2000}',
        '\u{2005}', '\u{200a}', '\u{2028}', '\u{2029}', '\u{202f}', '\u{205f}', '\u{3000}']
    {
        assert!(is_whitespace_char(c));
    }
    for c in ['\u{8}', '\u{e}', '\u{1f}', '!', 'a', '{', '\u{84}', '\u{86}', '\u{9f}', '\u{a1}',
        '\u{180e}', '\u{1fff}', '\u{200b}', '\u{2027}', '\u{202a}', '\u{2060}', '\u{3001}',
        '\u{feff}']
    {
        assert!(!is_whitespace_char(c));
    }
}

#[test]
fn white_space_agrees_with_the_standard_library() {
    let mut code: u32 = 0;
    while code <= 0x10ffff {
        if let Some(c) = char::from_u32(code) {
            assert_eq!(is_whitespace_char(c), c.is_whitespace());
        }
        code += 1;
    }
}

#[test]
fn chunks_agree_with_lines_of_the_standard_library() {
    for text in ["{\n}\n", "{\r\n}\r\n", "{\n}\r", "a\n{ \nb\r\n} \n\n", "{\n{\n}\n}\n", "\r\n{\r\r\n}\n"] {
        let mut want: Vec<String> = Vec::new();
        let mut chunk = String::new();
        let mut inchunk = false;
        for line in text.lines() {
            let l = line.trim_end();
            if l == "{" {
                inchunk = true;
                chunk = String::new();
                chunk = chunk + line + "\n";
            } else if l == "}" && inchunk {
                inchunk = false;
                chunk = chunk + line + "\n";
                want.push(chunk.clone());
            } else if inchunk {
                chunk = chunk + line + "\n";
            }
        }
        assert_eq!(json_to_chunks(text), want);
    }
}

#[test]
fn gathering_keeps_what_was_read_in_order() {
    let out = lsys_from_json_chunks(vec![Some(named("a")), Some(named("b")), Some(named("c"))]);
    assert_eq!(out.systems, vec![named("a"), named("b"), named("c")]);
    assert_eq!(out.failed, Vec::<usize>::new());
}

#[test]
fn gathering_passes_over_what_could_not_be_read() {
    let out = lsys_from_json_chunks(vec![None, Some(named("a")), None, None, Some(named("b"))]);
    assert_eq!(out.systems, vec![named("a"), named("b")]);
    assert_eq!(out.failed, vec![1, 3, 4]);
    assert_eq!(out.systems.len() + out.failed.len(), 5);
}

#[test]
fn gathering_nothing_gives_nothing() {
    let out = lsys_from_json_chunks(Vec::new());
    assert!(out.systems.is_empty());
    assert!(out.failed.is_empty());
    let out = lsys_from_json_chunks(vec![None]);
    assert!(out.systems.is_empty());
    assert_eq!(out.failed, vec![1]);
}
