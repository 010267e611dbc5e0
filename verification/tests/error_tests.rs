use o_::error::{shorten, use_color, JSError, JSErrorKind};

#[test]
fn constructors_set_kind_and_message() {
    assert_eq!(JSError::new("boom").kind(), JSErrorKind::Execution);
    assert_eq!(JSError::compile("c").kind(), JSErrorKind::Compile);
    assert_eq!(JSError::runtime("r").kind(), JSErrorKind::Runtime);
    let e = JSError::internal("i");
    assert_eq!(e.kind(), JSErrorKind::Internal);
    assert_eq!(e.message(), "i");
    assert_eq!(e.filename(), None);
    assert_eq!(e.source_snippet(), None);
}

#[test]
fn builders_keep_the_rest() {
    let e = JSError::new("m").with_filename("a.js").with_source("1+").with_kind(JSErrorKind::Compile);
    assert_eq!(e.kind(), JSErrorKind::Compile);
    assert_eq!(e.message(), "m");
    assert_eq!(e.filename(), Some("a.js"));
    assert_eq!(e.source_snippet(), Some("1+"));
}

#[test]
fn render_without_color() {
    let e = JSError::runtime("x is not defined").with_filename("main.js").with_source("  x + 1\n");
    assert_eq!(e.render(false), "Runtime Error: x is not defined\n--> main.js\n | x + 1");
    let bare = JSError::compile("bad");
    assert_eq!(bare.render(false), "Compile Error: bad");
    let blank = JSError::new("m").with_source("   ");
    assert_eq!(blank.render(false), "Execution Error: m");
}

#[test]
fn render_with_color() {
    let e = JSError::internal("oops").with_filename("f.js").with_source("a\nb");
    assert_eq!(
        e.render(true),
        "\x1b[1;31mInternal Error\x1b[0m: oops\n\x1b[1;36m--> \x1b[0mf.js\n\x1b[2m |\x1b[0m \x1b[1;33ma b\x1b[0m"
    );
}

#[test]
fn shorten_cuts_and_flattens() {
    assert_eq!(shorten("a\r\nb", 10), "a  b");
    assert_eq!(shorten("abcdef", 3), "abc...");
    assert_eq!(shorten("abc", 3), "abc");
    let long: String = std::iter::repeat('x').take(150).collect();
    let short = shorten(&long, 140);
    assert_eq!(short.chars().count(), 143);
    assert!(short.ends_with("..."));
}

#[test]
fn color_choice() {
    assert!(use_color(false, None));
    assert!(use_color(false, Some("xterm")));
    assert!(!use_color(false, Some("dumb")));
    assert!(!use_color(true, Some("xterm")));
}
