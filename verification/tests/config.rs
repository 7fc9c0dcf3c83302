use ecat::config::{
    config_places, first_existing, parse_arg, ArgError, ColorWhen, Config, ConfigPlace,
};

fn defaults() -> Config {
    parse_arg(None, None, None, None, false, Vec::new()).unwrap()
}

#[test]
fn parse_arg_defaults() {
    let config = defaults();
    assert_eq!(config.base_line, 0);
    assert_eq!(config.line_context, 3);
    assert_eq!(config.color_when, ColorWhen::Auto);
    assert_eq!(config.config_file, "");
    assert!(!config.line_number);
    assert_eq!(config.files, vec![String::from("-")]);
}

#[test]
fn parse_arg_reads_every_value() {
    let config = parse_arg(
        Some("5"),
        Some("2"),
        Some("always"),
        Some("/etc/ecat.yaml"),
        true,
        vec![String::from("a.txt"), String::from("-"), String::from("b.txt")],
    )
    .unwrap();
    assert_eq!(config.base_line, 5);
    assert_eq!(config.line_context, 2);
    assert_eq!(config.color_when, ColorWhen::Always);
    assert_eq!(config.config_file, "/etc/ecat.yaml");
    assert!(config.line_number);
    assert_eq!(
        config.files,
        vec![String::from("a.txt"), String::from("-"), String::from("b.txt")]
    );
}

#[test]
fn parse_arg_reads_integers_as_rust_does() {
    let line = |text: &str| parse_arg(Some(text), None, None, None, false, Vec::new());
    assert_eq!(line("2147483647").unwrap().base_line, i32::MAX);
    assert_eq!(line("-2147483648").unwrap().base_line, i32::MIN);
    assert_eq!(line("+7").unwrap().base_line, 7);
    assert_eq!(line("-0").unwrap().base_line, 0);
    assert_eq!(line("0012").unwrap().base_line, 12);
    assert_eq!(line("-5").unwrap().base_line, -5);
    for bad in ["", "-", "+", "2147483648", "-2147483649", " 1", "1 ", "1x", "x", "1.5", "--1", "+-1"] {
        assert_eq!(line(bad).unwrap_err(), ArgError::Line, "value {:?}", bad);
    }
}

#[test]
fn parse_arg_reports_the_first_bad_option() {
    let all_bad = parse_arg(Some("x"), Some("y"), Some("z"), None, false, Vec::new());
    assert_eq!(all_bad.unwrap_err(), ArgError::Line);
    let context_bad = parse_arg(Some("1"), Some("y"), Some("z"), None, false, Vec::new());
    assert_eq!(context_bad.unwrap_err(), ArgError::Context);
    let color_bad = parse_arg(Some("1"), Some("2"), Some("z"), None, false, Vec::new());
    assert_eq!(color_bad.unwrap_err(), ArgError::Color);
    let empty_context = parse_arg(None, Some(""), None, None, false, Vec::new());
    assert_eq!(empty_context.unwrap_err(), ArgError::Context);
}

#[test]
fn colour_words_are_lower_case_only() {
    assert_eq!(ColorWhen::from_str("always"), Some(ColorWhen::Always));
    assert_eq!(ColorWhen::from_str("never"), Some(ColorWhen::Never));
    assert_eq!(ColorWhen::from_str("auto"), Some(ColorWhen::Auto));
    for bad in ["", "Always", "AUTO", "auto ", "yes", "alway", "nevers"] {
        assert_eq!(ColorWhen::from_str(bad), None, "word {:?}", bad);
    }
    let bad = parse_arg(None, None, Some("Auto"), None, false, Vec::new());
    assert_eq!(bad.unwrap_err(), ArgError::Color);
}

#[test]
fn mix_isatty_to_color_flag_follows_the_setting() {
    assert!(ColorWhen::Always.mix_isatty_to_color_flag(true));
    assert!(ColorWhen::Always.mix_isatty_to_color_flag(false));
    assert!(!ColorWhen::Never.mix_isatty_to_color_flag(true));
    assert!(!ColorWhen::Never.mix_isatty_to_color_flag(false));
    assert!(ColorWhen::Auto.mix_isatty_to_color_flag(true));
    assert!(!ColorWhen::Auto.mix_isatty_to_color_flag(false));
}

#[test]
fn arg_error_messages() {
    assert_eq!(ArgError::Line.message(), "failed parse --line option");
    assert_eq!(ArgError::Context.message(), "failed parse -C, --context option");
    assert_eq!(ArgError::Color.message(), "failed parse --color option");
}

#[test]
fn config_places_without_a_path_asked_for() {
    let places = config_places("");
    assert_eq!(places.len(), 2);
    assert!(matches!(&places[0], ConfigPlace::At(path) if path == "./config.yaml"));
    assert!(matches!(&places[1], ConfigPlace::UnderHome(path) if path == ".config/ecat/config.yaml"));
}

#[test]
fn config_places_put_the_path_asked_for_first() {
    let places = config_places("/tmp/my.yaml");
    assert_eq!(places.len(), 3);
    assert!(matches!(&places[0], ConfigPlace::At(path) if path == "/tmp/my.yaml"));
    assert!(matches!(&places[1], ConfigPlace::At(path) if path == "./config.yaml"));
    assert!(matches!(&places[2], ConfigPlace::UnderHome(path) if path == ".config/ecat/config.yaml"));
}

#[test]
fn first_existing_picks_the_earliest() {
    assert_eq!(first_existing(&vec![]), None);
    assert_eq!(first_existing(&vec![false, false]), None);
    assert_eq!(first_existing(&vec![true, true, true]), Some(0));
    assert_eq!(first_existing(&vec![false, true, true]), Some(1));
    assert_eq!(first_existing(&vec![false, false, true]), Some(2));
}
