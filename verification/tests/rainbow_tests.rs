use kra_stat::rainbow::{Color, Colorful};
use kra_stat::text::{parse_u32, split_str, trim, u32_to_string};

#[test]
fn rainbow_test() {
    println!("{}", "hello".bold().italic().underline());
}

#[test]
fn escape_sequences_exact() {
    assert_eq!("hi".bold(), "\u{1b}[1mhi\u{1b}[0m".to_owned());
    assert_eq!("hi".italic(), "\u{1b}[3mhi\u{1b}[0m".to_owned());
    assert_eq!("hi".underline(), "\u{1b}[4mhi\u{1b}[0m".to_owned());
    assert_eq!(
        "hi".fg(Color::RGB(255, 0, 7)),
        "\u{1b}[38;2;255;0;7mhi\u{1b}[0m".to_owned()
    );
    assert_eq!(
        "hi".bg(Color::Orange),
        "\u{1b}[48;2;255;165;0mhi\u{1b}[0m".to_owned()
    );
    let owned: String = "hi".to_owned();
    assert_eq!(owned.fg(Color::Green), "\u{1b}[38;2;0;128;0mhi\u{1b}[0m".to_owned());
    assert_eq!(Color::Purple.rgb(), (128, 0, 128));
    assert_eq!(Color::RGB(1, 2, 3).rgb(), (1, 2, 3));
}

#[test]
fn text_primitives() {
    assert_eq!(trim("  x y\t\r\n"), "x y");
    assert_eq!(trim(""), "");
    assert_eq!(trim(" \u{3000} "), "");

    let fields = split_str("a##b####c", "##");
    assert_eq!(
        fields,
        vec!["a".to_owned(), "b".to_owned(), "".to_owned(), "c".to_owned()]
    );
    assert_eq!(split_str("abc", "##"), vec!["abc".to_owned()]);
    assert_eq!(split_str("", "##"), vec!["".to_owned()]);
    assert_eq!(
        split_str("a###b", "##"),
        vec!["a".to_owned(), "#b".to_owned()]
    );

    assert_eq!(parse_u32("0"), Some(0));
    assert_eq!(parse_u32("4294967295"), Some(u32::MAX));
    assert_eq!(parse_u32("4294967296"), None);
    assert_eq!(parse_u32(""), None);
    assert_eq!(parse_u32("+5"), None);
    assert_eq!(parse_u32("1 2"), None);

    assert_eq!(u32_to_string(0), "0".to_owned());
    assert_eq!(u32_to_string(4294967295), "4294967295".to_owned());
}
