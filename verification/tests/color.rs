use ecat::color::{Color, ColorSet};

fn named(token: &str) -> Color {
    ColorSet::new(token).color()
}

#[test]
fn palette_index_token() {
    assert_eq!(named("228"), Color::Fixed(228));
    assert_eq!(named("0"), Color::Fixed(0));
    assert_eq!(named("255"), Color::Fixed(255));
    assert_eq!(named("32"), Color::Fixed(32));
}

#[test]
fn palette_index_with_plus_sign_and_leading_zeros() {
    assert_eq!(named("+5"), Color::Fixed(5));
    assert_eq!(named("0042"), Color::Fixed(42));
    assert_eq!(named("00000000000000000000000000255"), Color::Fixed(255));
}

#[test]
fn rgb_token() {
    assert_eq!(named("#ff0000"), Color::RGB(255, 0, 0));
    assert_eq!(named("#0a1B2c"), Color::RGB(10, 27, 44));
    assert_eq!(named("#ABCDEF"), Color::RGB(0xab, 0xcd, 0xef));
    assert_eq!(named("#000000"), Color::RGB(0, 0, 0));
}

#[test]
fn rgb_pair_with_plus_sign_reads_as_one_digit() {
    assert_eq!(named("#+f+0+a"), Color::RGB(15, 0, 10));
}

#[test]
fn malformed_tokens_fall_back_to_palette_7() {
    for token in [
        "", "abc", "256", "300", "-1", "-0", "+", "1 ", " 1", "1.0", "0x10", "99999999999",
        "#", "#12", "#12345", "#gggggg", "#12345g", "#1234567", "#aabbccdd", "#-1-1-1", "#é1234",
        "#1é234", "ff0000", "#ff 000", "++1", "#++++++", "#f+f+f+",
    ] {
        assert_eq!(named(token), Color::Fixed(7), "token {:?}", token);
    }
}

#[test]
fn parse_reads_what_color_set_reads() {
    assert_eq!(Color::parse("#102030"), Color::RGB(16, 32, 48));
    assert_eq!(Color::parse("12"), Color::Fixed(12));
    assert_eq!(Color::parse("twelve"), Color::Fixed(7));
    assert_eq!(Color::parse("#10203"), Color::Fixed(7));
}

#[test]
fn color_set_keeps_the_token() {
    let set = ColorSet::new("#ff0000");
    assert_eq!(set.name(), "#ff0000");
    let set = ColorSet::new("no colour");
    assert_eq!(set.name(), "no colour");
    assert_eq!(set.color(), Color::Fixed(7));
}

#[test]
fn prefix_of_a_palette_index() {
    assert_eq!(Color::Fixed(0).prefix(), "\x1b[38;5;0m");
    assert_eq!(Color::Fixed(7).prefix(), "\x1b[38;5;7m");
    assert_eq!(Color::Fixed(32).prefix(), "\x1b[38;5;32m");
    assert_eq!(Color::Fixed(255).prefix(), "\x1b[38;5;255m");
}

#[test]
fn prefix_of_an_rgb_triple() {
    assert_eq!(Color::RGB(0, 0, 0).prefix(), "\x1b[38;2;0;0;0m");
    assert_eq!(Color::RGB(255, 128, 9).prefix(), "\x1b[38;2;255;128;9m");
}

#[test]
fn suffix_is_the_reset_sequence() {
    assert_eq!(Color::Fixed(5).suffix(), "\x1b[0m");
    assert_eq!(Color::RGB(1, 2, 3).suffix(), "\x1b[0m");
}
