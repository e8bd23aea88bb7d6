use zyrkom::dsl::{
    chord_notes, is_space, kind_of, parse_line, parse_text, read_line, split, trim, LineKind,
};

fn chars(text: &str) -> Vec<char> {
    text.chars().collect()
}

fn text(chars: &[char]) -> String {
    chars.iter().collect()
}

#[test]
fn white_space_is_what_the_standard_library_takes_for_it() {
    for code in 0..0x11_0000u32 {
        if let Some(c) = char::from_u32(code) {
            assert_eq!(is_space(c), c.is_whitespace(), "{:x}", code);
        }
    }
}

#[test]
fn trimming_and_splitting_follow_the_standard_library() {
    for sample in ["", " ", "a", "  a b \t", "\u{a0}x\u{3000}", "a=b", "=", "a==b=", " = "] {
        assert_eq!(text(&trim(&chars(sample))), sample.trim());
        let pieces: Vec<String> = split(&chars(sample), '=').iter().map(|p| text(p)).collect();
        let expected: Vec<String> = sample.split('=').map(str::to_string).collect();
        assert_eq!(pieces, expected);
    }
}

#[test]
fn lines_are_told_by_their_first_word() {
    assert_eq!(kind_of(&chars("note C4 = 261.63")), Some(LineKind::Note));
    assert_eq!(kind_of(&chars("chord C_major = C + E + G")), Some(LineKind::Chord));
    assert_eq!(kind_of(&chars("interval fifth = 1.5")), Some(LineKind::Interval));
    assert_eq!(kind_of(&chars("constraint h = a / b == r")), Some(LineKind::Constraint));
    assert_eq!(kind_of(&chars("notes C4 = 261.63")), None);
    assert_eq!(kind_of(&chars("note")), None);
    assert_eq!(kind_of(&chars("")), None);
}

#[test]
fn a_line_gives_its_name_and_its_value() {
    let line = parse_line(&chars("note   C4  =  261.63")).unwrap().unwrap();
    assert_eq!(line.kind, LineKind::Note);
    assert_eq!(text(&line.name), "C4");
    assert_eq!(text(&line.value), "261.63");

    let nameless = parse_line(&chars("interval =1.5")).unwrap().unwrap();
    assert_eq!(text(&nameless.name), "");
    assert_eq!(text(&nameless.value), "1.5");

    assert!(parse_line(&chars("tempo = 120")).unwrap().is_none());
}

#[test]
fn a_line_needs_one_equals_sign() {
    let none = parse_line(&chars("note C4 261.63")).unwrap_err();
    assert_eq!(text(&none.0), "note C4 261.63");
    let two = parse_line(&chars("constraint h = a / b == r")).unwrap_err();
    assert_eq!(text(&two.0), "constraint h = a / b == r");
}

#[test]
fn empty_lines_and_comments_are_passed_over() {
    assert!(read_line(&chars("   ")).unwrap().is_none());
    assert!(read_line(&chars("  // note C4 = 1")).unwrap().is_none());
    assert!(read_line(&chars("\tchord c = a + b\r")).unwrap().is_some());
    assert_eq!(text(&read_line(&chars("  note x  ")).unwrap_err().0), "note x");
}

#[test]
fn a_text_gives_its_definitions_in_their_order() {
    let input = "// a scale\nnote C4 = 261.63\r\n\n  interval fifth = 1.5\nunknown line\nchord C = C4 + E4+G4 \n";

    let lines = parse_text(&chars(input)).unwrap();

    let found: Vec<(LineKind, String, String)> =
        lines.iter().map(|l| (l.kind, text(&l.name), text(&l.value))).collect();
    assert_eq!(
        found,
        vec![
            (LineKind::Note, "C4".to_string(), "261.63".to_string()),
            (LineKind::Interval, "fifth".to_string(), "1.5".to_string()),
            (LineKind::Chord, "C".to_string(), "C4 + E4+G4".to_string()),
        ]
    );
    let notes: Vec<String> = chord_notes(&lines[2].value).iter().map(|n| text(n)).collect();
    assert_eq!(notes, vec!["C4", "E4", "G4"]);
    assert!(parse_text(&chars("")).unwrap().is_empty());
}

#[test]
fn the_first_refused_line_ends_the_reading() {
    let input = "note a = 1\nnote b 2\nnote c == 3\n";

    let refused = parse_text(&chars(input)).unwrap_err();

    assert_eq!(text(&refused.0), "note b 2");
}
