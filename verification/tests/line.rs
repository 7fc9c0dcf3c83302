use ecat::colorizer::Colorizer;
use ecat::config::{parse_arg, Config};
use ecat::file::{Action, LineDriver, LineEvent, ReadEvent};
use ecat::line::{push_number_field, render_line};

fn config_with(line: &str, context: &str, numbered: bool) -> Config {
    parse_arg(Some(line), Some(context), None, None, numbered, Vec::new()).unwrap()
}

fn ready_colorizer() -> Colorizer {
    let mut colorizer = Colorizer::new();
    colorizer.setup().unwrap();
    colorizer
}

fn field(nr: i32) -> String {
    let mut out = String::new();
    push_number_field(&mut out, nr);
    out
}

#[test]
fn number_field_is_six_wide_right_aligned_and_a_blank() {
    assert_eq!(field(1), "     1 ");
    assert_eq!(field(42), "    42 ");
    assert_eq!(field(99999), " 99999 ");
    assert_eq!(field(123456), "123456 ");
    assert_eq!(field(0), "     0 ");
}

#[test]
fn number_field_grows_with_long_numbers() {
    assert_eq!(field(1234567), "1234567 ");
    assert_eq!(field(i32::MAX), "2147483647 ");
}

#[test]
fn number_field_of_negative_numbers() {
    assert_eq!(field(-5), "    -5 ");
    assert_eq!(field(-12345), "-12345 ");
    assert_eq!(field(i32::MIN), "-2147483648 ");
}

#[test]
fn number_field_goes_behind_what_is_there() {
    let mut out = String::from("x");
    push_number_field(&mut out, 7);
    assert_eq!(out, "x     7 ");
}

#[test]
fn plain_line_is_written_as_it_is() {
    let config = config_with("0", "3", false);
    let colorizer = ready_colorizer();
    let rendered = render_line(&config, false, &colorizer, 1, "hello\n");
    assert_eq!(rendered.text, "hello\n");
    assert!(rendered.proceed);
}

#[test]
fn numbered_line_has_its_number_in_front() {
    let config = config_with("0", "3", true);
    let colorizer = ready_colorizer();
    for (nr, expected) in [(1, "     1 a\n"), (10, "    10 a\n"), (1000000, "1000000 a\n")] {
        let rendered = render_line(&config, false, &colorizer, nr, "a\n");
        assert_eq!(rendered.text, expected);
        assert!(rendered.proceed);
    }
}

#[test]
fn coloured_line_is_painted() {
    let config = config_with("0", "3", false);
    let colorizer = ready_colorizer();
    let rendered = render_line(&config, true, &colorizer, 3, "hello\n");
    assert_eq!(rendered.text, "\x1b[38;5;32mhello\x1b[0m\n");
}

#[test]
fn coloured_numbered_line_has_a_plain_number() {
    let config = config_with("0", "3", true);
    let colorizer = ready_colorizer();
    let rendered = render_line(&config, true, &colorizer, 3, "hello\n");
    assert_eq!(rendered.text, "     3 \x1b[38;5;32mhello\x1b[0m\n");
}

#[test]
fn base_line_is_highlighted_when_colour_is_on() {
    let config = config_with("5", "2", true);
    let colorizer = ready_colorizer();
    let rendered = render_line(&config, true, &colorizer, 5, "hello\n");
    assert_eq!(rendered.text, "\x1b[32m     5 \x1b[38;5;32mhello\x1b[0m\n\x1b[m");
    assert!(rendered.proceed);
    let unnumbered = config_with("5", "2", false);
    let rendered = render_line(&unnumbered, true, &colorizer, 5, "hello\n");
    assert_eq!(rendered.text, "\x1b[32m\x1b[38;5;32mhello\x1b[0m\n\x1b[m");
    let neighbour = render_line(&config, true, &colorizer, 4, "hello\n");
    assert_eq!(neighbour.text, "     4 \x1b[38;5;32mhello\x1b[0m\n");
}

#[test]
fn base_line_is_not_highlighted_without_colour() {
    let config = config_with("5", "2", true);
    let colorizer = ready_colorizer();
    let rendered = render_line(&config, false, &colorizer, 5, "hello\n");
    assert_eq!(rendered.text, "     5 hello\n");
}

#[test]
fn lines_outside_the_window_are_not_written() {
    let config = config_with("5", "2", true);
    let colorizer = ready_colorizer();
    for nr in [1, 2, 8, 9, 100] {
        let rendered = render_line(&config, true, &colorizer, nr, "x\n");
        assert_eq!(rendered.text, "", "line {}", nr);
        assert!(rendered.proceed, "line {}", nr);
    }
    for nr in [3, 4, 5, 6] {
        let rendered = render_line(&config, false, &colorizer, nr, "x\n");
        assert_eq!(rendered.text, format!("{:>6} x\n", nr));
        assert!(rendered.proceed);
    }
    let last = render_line(&config, false, &colorizer, 7, "x\n");
    assert_eq!(last.text, "     7 x\n");
    assert!(!last.proceed);
}

#[test]
fn no_window_without_a_positive_base_line() {
    let colorizer = ready_colorizer();
    for base in ["0", "-1", "-2147483648"] {
        let config = config_with(base, "0", false);
        for nr in [1, 2, 1000, i32::MAX] {
            let rendered = render_line(&config, false, &colorizer, nr, "x\n");
            assert_eq!(rendered.text, "x\n");
            assert!(rendered.proceed);
        }
    }
}

#[test]
fn window_at_the_limits_of_the_integers() {
    let colorizer = ready_colorizer();
    let config = config_with("2147483647", "2147483647", false);
    let first = render_line(&config, false, &colorizer, 1, "x\n");
    assert_eq!(first.text, "x\n");
    assert!(first.proceed);
    let far = render_line(&config, false, &colorizer, i32::MAX, "x\n");
    assert_eq!(far.text, "x\n");
    assert!(far.proceed);
    let negative_context = config_with("5", "-1", false);
    for nr in [3, 4, 5, 6, 7] {
        let rendered = render_line(&negative_context, false, &colorizer, nr, "x\n");
        assert_eq!(rendered.text, "");
        assert_eq!(rendered.proceed, nr != 4);
    }
}

#[test]
fn window_of_ten_lines_around_line_five() {
    let config = config_with("5", "2", true);
    let colorizer = ready_colorizer();
    let lines: Vec<String> = (1..=10).map(|n| format!("L{}\n", n)).collect();
    let mut driver = LineDriver::new();
    let mut written = String::new();
    let mut read = 0;
    let mut action = Action::Read;
    loop {
        match action {
            Action::Read => {
                let event = if read < lines.len() { ReadEvent::Record } else { ReadEvent::EndOfInput };
                action = driver.on_read(event);
            }
            Action::Emit(nr) => {
                read += 1;
                let rendered = render_line(&config, false, &colorizer, nr, &lines[(nr - 1) as usize]);
                written.push_str(&rendered.text);
                let event = if rendered.proceed { LineEvent::Continue } else { LineEvent::Stop };
                action = driver.on_line(event);
            }
            Action::Finish => break,
            Action::Fail => panic!("the run failed"),
        }
    }
    assert_eq!(written, "     3 L3\n     4 L4\n     5 L5\n     6 L6\n     7 L7\n");
    assert_eq!(read, 7);
}
