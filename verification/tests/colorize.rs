use ecat::color::{Color, ColorSet};
use ecat::colorizer::{
    join_patterns, paint_spans, process_color_pattern_maps, ColorPatternMapTemplate, Colorizer,
};
use ecat::pattern::ColorPatternMap;

fn class(name: &str, pattern: &str, color: Color) -> ColorPatternMap {
    ColorPatternMap::new(name, pattern, color).unwrap()
}

fn fallback() -> ColorPatternMap {
    class("default", ".+", Color::Fixed(32))
}

/// Takes out every `ESC[ ... m` with digits and semicolons between.
fn without_escapes(text: &str) -> String {
    let bytes = text.as_bytes();
    let mut out: Vec<u8> = Vec::new();
    let mut i = 0;
    while i < bytes.len() {
        if bytes[i] == 0x1b && i + 1 < bytes.len() && bytes[i + 1] == b'[' {
            let mut j = i + 2;
            while j < bytes.len() && (bytes[j].is_ascii_digit() || bytes[j] == b';') {
                j += 1;
            }
            if j < bytes.len() && bytes[j] == b'm' {
                i = j + 1;
                continue;
            }
        }
        out.push(bytes[i]);
        i += 1;
    }
    String::from_utf8(out).unwrap()
}

/// The painting rule written out on the engine's own types.
fn painted_by_hand(s: &str, classes: &[(regex::Regex, ansi_term::Colour)]) -> String {
    if classes.is_empty() {
        return String::new();
    }
    let (re, colour) = &classes[0];
    let mut out = String::new();
    let mut offset = 0;
    for mat in re.find_iter(s) {
        let gap = &s[offset..mat.start()];
        offset = mat.end();
        if classes.len() > 1 {
            out.push_str(&painted_by_hand(gap, &classes[1..]));
        } else {
            out.push_str(gap);
        }
        if !mat.as_str().is_empty() {
            out.push_str(&colour.prefix().to_string());
            out.push_str(mat.as_str());
            out.push_str(&colour.suffix().to_string());
        }
    }
    out
}

#[test]
fn painting_agrees_with_the_rule_written_out() {
    let table: Vec<(&str, Color, ansi_term::Colour)> = vec![
        (r"\d{1,3}(\.\d{1,3}){3}", Color::Fixed(228), ansi_term::Colour::Fixed(228)),
        (r"(/[\w.-]+)+", Color::RGB(0, 200, 9), ansi_term::Colour::RGB(0, 200, 9)),
        (r"(?i)warn(ing)?|error", Color::Fixed(196), ansi_term::Colour::Fixed(196)),
        (r"0x[0-9a-fA-F]+", Color::Fixed(5), ansi_term::Colour::Fixed(5)),
        (r"\b[0-9]+\b", Color::RGB(255, 255, 0), ansi_term::Colour::RGB(255, 255, 0)),
        (r"x*", Color::Fixed(1), ansi_term::Colour::Fixed(1)),
        (r"^a|b$", Color::Fixed(2), ansi_term::Colour::Fixed(2)),
        (r".+", Color::Fixed(32), ansi_term::Colour::Fixed(32)),
    ];
    let lines = [
        "",
        "\n",
        "plain words only\n",
        "ping 10.0.0.1 from /usr/local/bin/tool: WARNING 0xdeadBEEF 42\n",
        "error: 1.2.3.4.5.6 ab xxaxxb 007\r\n",
        "no newline at the end 9",
        "größe ✓ /tmp/ä 12\n",
        "\t\t  \n",
        "a\nb\nab\n",
        "xxxx",
    ];
    for from in 0..table.len() {
        let ours: Vec<ColorPatternMap> =
            table[from..].iter().map(|(p, c, _)| class("c", p, *c)).collect();
        let theirs: Vec<(regex::Regex, ansi_term::Colour)> = table[from..]
            .iter()
            .map(|(p, _, c)| (regex::Regex::new(&format!("({})|$", p)).unwrap(), *c))
            .collect();
        for line in lines {
            assert_eq!(
                process_color_pattern_maps(line, &ours),
                painted_by_hand(line, &theirs),
                "classes from {} on, line {:?}",
                from,
                line
            );
        }
    }
}

#[test]
fn ip_address_is_claimed_before_the_fallback() {
    let classes = vec![class("ip", r"\d{1,3}(\.\d{1,3}){3}", Color::Fixed(228)), fallback()];
    let out = process_color_pattern_maps("ping 10.0.0.1 ok\n", &classes);
    assert_eq!(
        out,
        "\x1b[38;5;32mping \x1b[0m\x1b[38;5;228m10.0.0.1\x1b[0m\x1b[38;5;32m ok\x1b[0m\n"
    );
}

#[test]
fn fallback_alone_colours_the_line_but_not_its_newline() {
    let out = process_color_pattern_maps("hello\n", &[fallback()]);
    assert_eq!(out, "\x1b[38;5;32mhello\x1b[0m\n");
}

#[test]
fn class_that_never_matches_changes_nothing() {
    let with = vec![class("never", "zzz", Color::Fixed(200)), fallback()];
    let without = vec![fallback()];
    let a = process_color_pattern_maps("abc\n", &with);
    let b = process_color_pattern_maps("abc\n", &without);
    assert_eq!(a, b);
    assert_eq!(a, "\x1b[38;5;32mabc\x1b[0m\n");
}

#[test]
fn silent_class_in_the_middle_changes_nothing() {
    let with = vec![
        class("digits", "[0-9]+", Color::Fixed(1)),
        class("never", "zzz", Color::Fixed(200)),
        fallback(),
    ];
    let without = vec![class("digits", "[0-9]+", Color::Fixed(1)), fallback()];
    let line = "a1b22c\n";
    assert_eq!(
        process_color_pattern_maps(line, &with),
        process_color_pattern_maps(line, &without)
    );
}

#[test]
fn silent_class_behind_the_fallback_changes_nothing() {
    let with = vec![fallback(), class("never", "zzz", Color::Fixed(200))];
    let without = vec![fallback()];
    for line in ["abc\n", "", "\n\n", "a\nb"] {
        assert_eq!(
            process_color_pattern_maps(line, &with),
            process_color_pattern_maps(line, &without)
        );
    }
}

#[test]
fn silent_class_alone_leaves_the_line_as_it_is() {
    let alone = vec![class("never", "zzz", Color::Fixed(200))];
    assert_eq!(process_color_pattern_maps("abc\n", &alone), "abc\n");
    assert_eq!(process_color_pattern_maps("", &alone), "");
}

#[test]
fn what_follows_the_last_match_is_dropped_where_a_pattern_loses_its_sentinel() {
    // In verbose mode `#` begins a comment, which swallows the `)|$` behind it.
    let lost = class("lost", "x)(?x)#", Color::Fixed(3));
    assert_eq!(lost.pattern, "(x)(?x)#)|$");
    assert_eq!(lost.find("xa"), vec![(0, 1)]);
    assert_eq!(process_color_pattern_maps("xa", &[lost]), "\x1b[38;5;3mx\x1b[0m");
}

#[test]
fn empty_line_gets_no_escape() {
    let out = process_color_pattern_maps("\n", &[fallback()]);
    assert_eq!(out, "\n");
}

#[test]
fn empty_text_gives_empty_output() {
    let out = process_color_pattern_maps("", &[fallback()]);
    assert_eq!(out, "");
}

#[test]
fn no_class_paints_nothing_at_all() {
    let none: Vec<ColorPatternMap> = Vec::new();
    assert_eq!(process_color_pattern_maps("abc\n", &none), "");
    assert_eq!(process_color_pattern_maps("", &none), "");
}

#[test]
fn single_class_leaves_unmatched_text_as_it_is() {
    let classes = vec![class("digits", "[0-9]+", Color::Fixed(9))];
    let out = process_color_pattern_maps("ab12cd3\n", &classes);
    assert_eq!(out, "ab\x1b[38;5;9m12\x1b[0mcd\x1b[38;5;9m3\x1b[0m\n");
}

#[test]
fn rgb_class_writes_the_24_bit_sequence() {
    let classes = vec![class("word", "[a-z]+", Color::RGB(1, 20, 255))];
    let out = process_color_pattern_maps("ab 1", &classes);
    assert_eq!(out, "\x1b[38;2;1;20;255mab\x1b[0m 1");
}

#[test]
fn earlier_class_wins_an_overlap() {
    let classes = vec![
        class("a", "ab", Color::Fixed(1)),
        class("b", "abc|c", Color::Fixed(2)),
    ];
    let out = process_color_pattern_maps("abc", &classes);
    assert_eq!(out, "\x1b[38;5;1mab\x1b[0m\x1b[38;5;2mc\x1b[0m");
    let swapped = vec![
        class("b", "abc|c", Color::Fixed(2)),
        class("a", "ab", Color::Fixed(1)),
    ];
    let out = process_color_pattern_maps("abc", &swapped);
    assert_eq!(out, "\x1b[38;5;2mabc\x1b[0m");
}

#[test]
fn later_classes_see_each_gap_on_its_own() {
    // `^x` holds at the start of every gap, not only at the start of the line.
    let classes = vec![
        class("sep", ",", Color::Fixed(1)),
        class("head", "^x", Color::Fixed(2)),
    ];
    let out = process_color_pattern_maps("xa,xb", &classes);
    assert_eq!(
        out,
        "\x1b[38;5;2mx\x1b[0ma\x1b[38;5;1m,\x1b[0m\x1b[38;5;2mx\x1b[0mb"
    );
}

#[test]
fn adjacent_matches_are_painted_one_by_one() {
    let classes = vec![class("digit", "[0-9]", Color::Fixed(4)), fallback()];
    let out = process_color_pattern_maps("12", &classes);
    assert_eq!(out, "\x1b[38;5;4m1\x1b[0m\x1b[38;5;4m2\x1b[0m");
}

#[test]
fn empty_matches_leave_no_trace() {
    let classes = vec![class("xs", "x*", Color::Fixed(3)), fallback()];
    let out = process_color_pattern_maps("axb", &classes);
    assert_eq!(
        out,
        "\x1b[38;5;32ma\x1b[0m\x1b[38;5;3mx\x1b[0m\x1b[38;5;32mb\x1b[0m"
    );
}

#[test]
fn multibyte_text_is_cut_on_character_boundaries() {
    let classes = vec![class("umlaut", "ö+", Color::Fixed(5)), fallback()];
    let out = process_color_pattern_maps("wörld ✓\n", &classes);
    assert_eq!(
        out,
        "\x1b[38;5;32mw\x1b[0m\x1b[38;5;5mö\x1b[0m\x1b[38;5;32mrld ✓\x1b[0m\n"
    );
}

#[test]
fn stripping_the_escapes_gives_the_line_back() {
    let classes = vec![
        class("ip", r"\d{1,3}(\.\d{1,3}){3}", Color::Fixed(228)),
        class("word", "[a-z]+", Color::RGB(10, 20, 30)),
        fallback(),
    ];
    for line in ["ping 10.0.0.1 ok\n", "", "\n", "x", "  \t ", "größe 1.2.3.4\r\n", "a\nb\n"] {
        let out = process_color_pattern_maps(line, &classes);
        assert_eq!(without_escapes(&out), line);
    }
}

#[test]
fn every_byte_but_the_newline_is_in_one_coloured_run() {
    let classes = vec![class("digits", "[0-9]+", Color::Fixed(1)), fallback()];
    let out = process_color_pattern_maps("ab12cd", &classes);
    assert_eq!(
        out,
        "\x1b[38;5;32mab\x1b[0m\x1b[38;5;1m12\x1b[0m\x1b[38;5;32mcd\x1b[0m"
    );
    // between a reset and the next set sequence there is nothing
    assert!(!out.contains("\x1b[0m\x1b[0m"));
    assert_eq!(out.matches("\x1b[38;5;").count(), out.matches("\x1b[0m").count());
}

#[test]
fn painting_twice_gives_the_same() {
    let classes = vec![class("digits", "[0-9]+", Color::Fixed(1)), fallback()];
    let a = process_color_pattern_maps("ab12cd\n", &classes);
    let b = process_color_pattern_maps("ab12cd\n", &classes);
    assert_eq!(a, b);
}

#[test]
fn paint_spans_follows_the_spans_it_is_given() {
    let classes = vec![fallback()];
    let spans = vec![(0usize, 5usize), (6usize, 6usize)];
    assert_eq!(paint_spans("hello\n", &spans, &classes), "\x1b[38;5;32mhello\x1b[0m\n");
    // what follows the last span is dropped
    let short = vec![(0usize, 2usize)];
    assert_eq!(paint_spans("hello\n", &short, &classes), "\x1b[38;5;32mhe\x1b[0m");
    // no span, no output
    let none: Vec<(usize, usize)> = Vec::new();
    assert_eq!(paint_spans("hello\n", &none, &classes), "");
    // an empty span only flushes the stretch before it
    let empty = vec![(3usize, 3usize)];
    assert_eq!(paint_spans("hello\n", &empty, &classes), "hel");
}

#[test]
fn paint_spans_hands_the_gaps_to_the_next_class() {
    let classes = vec![class("x", "x", Color::Fixed(1)), fallback()];
    let spans = vec![(1usize, 2usize), (3usize, 3usize)];
    assert_eq!(
        paint_spans("abc", &spans, &classes),
        "\x1b[38;5;32ma\x1b[0m\x1b[38;5;1mb\x1b[0m\x1b[38;5;32mc\x1b[0m"
    );
}

#[test]
fn find_yields_the_matches_and_the_sentinel() {
    let digits = class("digits", "[0-9]+", Color::Fixed(1));
    assert_eq!(digits.find("ab12cd3\n"), vec![(2, 4), (6, 7), (8, 8)]);
    assert_eq!(digits.find("12"), vec![(0, 2)]);
    assert_eq!(digits.find(""), vec![(0, 0)]);
    assert_eq!(fallback().find("é\n"), vec![(0, 2), (3, 3)]);
}

#[test]
fn new_wraps_the_pattern_and_keeps_name_and_colour() {
    let made = class("ip", "a|b", Color::RGB(1, 2, 3));
    assert_eq!(made.name, "ip");
    assert_eq!(made.pattern, "(a|b)|$");
    assert_eq!(made.regex_pattern.as_str(), "(a|b)|$");
    assert_eq!(made.color, Color::RGB(1, 2, 3));
}

#[test]
fn new_hands_back_the_engine_s_refusal() {
    let error = ColorPatternMap::new("broken", "a(b", Color::Fixed(1)).unwrap_err();
    assert_eq!(error.name, "broken");
    assert_eq!(error.pattern, "(a(b)|$");
    assert!(matches!(error.cause, regex::Error::Syntax(_)));
}

#[test]
fn from_compiled_follows_the_engine_s_answer() {
    let ok = ColorPatternMap::from_compiled(
        "n",
        String::from("(x)|$"),
        regex::Regex::new("(x)|$"),
        Color::Fixed(4),
    )
    .unwrap();
    assert_eq!(ok.name, "n");
    assert_eq!(ok.pattern, "(x)|$");
    assert_eq!(ok.regex_pattern.as_str(), "(x)|$");
    assert_eq!(ok.color, Color::Fixed(4));
    let refused = ColorPatternMap::from_compiled(
        "n",
        String::from("(x"),
        regex::Regex::new("(x"),
        Color::Fixed(4),
    )
    .unwrap_err();
    assert_eq!(refused.name, "n");
    assert_eq!(refused.pattern, "(x");
    assert_eq!(refused.cause, regex::Regex::new("(x").unwrap_err());
}

#[test]
fn join_patterns_parts_with_bars() {
    let none: Vec<String> = Vec::new();
    assert_eq!(join_patterns(&none), "");
    assert_eq!(join_patterns(&vec![String::from("a")]), "a");
    assert_eq!(
        join_patterns(&vec![String::from("a"), String::from(""), String::from("b+")]),
        "a||b+"
    );
}

#[test]
fn fallback_definition_is_default_dot_plus_32() {
    let template = ColorPatternMapTemplate::fallback();
    assert_eq!(template.name, "default");
    assert_eq!(template.patterns, vec![String::from(".+")]);
    assert_eq!(template.color_set.color(), Color::Fixed(32));
    assert_eq!(template.color_set.name(), "32");
}

#[test]
fn build_compiles_the_joined_patterns() {
    let template = ColorPatternMapTemplate {
        name: String::from("level"),
        patterns: vec![String::from("WARN"), String::from("ERROR")],
        color_set: ColorSet::new("#ff0000"),
    };
    let made = template.build().unwrap();
    assert_eq!(made.name, "level");
    assert_eq!(made.pattern, "(WARN|ERROR)|$");
    assert_eq!(made.color, Color::RGB(255, 0, 0));
}

#[test]
fn colorizer_without_setup_paints_nothing() {
    let colorizer = Colorizer::new();
    assert!(colorizer.color_pattern_maps.is_empty());
    assert_eq!(colorizer.colorize("abc\n"), "");
}

#[test]
fn setup_ends_the_list_with_the_fallback() {
    let mut colorizer = Colorizer::new();
    assert!(colorizer.setup().is_ok());
    assert_eq!(colorizer.color_pattern_maps.len(), 1);
    let last = colorizer.color_pattern_maps.last().unwrap();
    assert_eq!(last.name, "default");
    assert_eq!(last.pattern, "(.+)|$");
    assert_eq!(last.color, Color::Fixed(32));
    assert_eq!(colorizer.colorize("hello\n"), "\x1b[38;5;32mhello\x1b[0m\n");
}

#[test]
fn loaded_definitions_come_before_the_fallback_in_their_order() {
    let mut colorizer = Colorizer::new();
    colorizer.load_config_file(vec![
        ColorPatternMapTemplate {
            name: String::from("ip"),
            patterns: vec![String::from(r"\d{1,3}(\.\d{1,3}){3}")],
            color_set: ColorSet::new("228"),
        },
        ColorPatternMapTemplate {
            name: String::from("number"),
            patterns: vec![String::from("[0-9]+"), String::from("0x[0-9a-f]+")],
            color_set: ColorSet::new("#0000ff"),
        },
    ]);
    assert!(colorizer.color_pattern_maps.is_empty());
    assert!(colorizer.setup().is_ok());
    let names: Vec<&str> = colorizer.color_pattern_maps.iter().map(|c| c.name.as_str()).collect();
    assert_eq!(names, vec!["ip", "number", "default"]);
    assert_eq!(colorizer.color_pattern_maps[1].pattern, "([0-9]+|0x[0-9a-f]+)|$");
    assert_eq!(
        colorizer.colorize("ping 10.0.0.1 7\n"),
        "\x1b[38;5;32mping \x1b[0m\x1b[38;5;228m10.0.0.1\x1b[0m\x1b[38;5;32m \x1b[0m\x1b[38;2;0;0;255m7\x1b[0m\n"
    );
}

#[test]
fn setup_stops_at_the_first_refused_pattern() {
    let mut colorizer = Colorizer::new();
    colorizer.load_config_file(vec![
        ColorPatternMapTemplate {
            name: String::from("fine"),
            patterns: vec![String::from("a")],
            color_set: ColorSet::new("1"),
        },
        ColorPatternMapTemplate {
            name: String::from("broken"),
            patterns: vec![String::from("["), String::from("b")],
            color_set: ColorSet::new("2"),
        },
        ColorPatternMapTemplate {
            name: String::from("later"),
            patterns: vec![String::from("c")],
            color_set: ColorSet::new("3"),
        },
    ]);
    let error = colorizer.setup().unwrap_err();
    assert_eq!(error.name, "broken");
    assert_eq!(error.pattern, "([|b)|$");
    assert_eq!(colorizer.color_pattern_maps.len(), 1);
    assert_eq!(colorizer.color_pattern_maps[0].name, "fine");
}

#[test]
fn load_config_file_appends_to_what_was_loaded() {
    let mut colorizer = Colorizer::new();
    colorizer.load_config_file(vec![ColorPatternMapTemplate {
        name: String::from("first"),
        patterns: vec![String::from("a")],
        color_set: ColorSet::new("1"),
    }]);
    colorizer.load_config_file(vec![ColorPatternMapTemplate {
        name: String::from("second"),
        patterns: vec![String::from("b")],
        color_set: ColorSet::new("2"),
    }]);
    colorizer.setup().unwrap();
    let names: Vec<&str> = colorizer.color_pattern_maps.iter().map(|c| c.name.as_str()).collect();
    assert_eq!(names, vec!["first", "second", "default"]);
}
