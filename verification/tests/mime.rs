use pincers::mime::MimeType;
use pincers::text::trim_end;

fn mime(text: &str) -> MimeType {
    MimeType::parse(text).unwrap()
}

#[test]
fn mime_display() {
    for text in [
        "text/plain",
        "text/plain; charset=utf-8",
        "image/svg+xml",
        "*/*",
        "text/*",
        "a/b; x=; y=1; x=\"q \\\" r\"",
    ] {
        assert_eq!(mime(text).display(), text);
    }
    let spaced = mime("Text/PLAIN ;  charset=UTF-8 ");
    assert_eq!(spaced.display(), "Text/PLAIN; charset=UTF-8");
    assert_eq!(spaced.as_str(), "Text/PLAIN ;  charset=UTF-8");
    assert_eq!(mime(spaced.as_str()).display(), "Text/PLAIN; charset=UTF-8");
}

#[test]
fn mime_text_ends_with_the_last_parameter() {
    for (text, kept) in [
        ("text/plain", "text/plain"),
        ("text/plain; ", "text/plain"),
        ("text/plain \t;\t ", "text/plain"),
        ("text/plain;charset=utf-8 ;", "text/plain;charset=utf-8"),
        ("a/b; c= ; ", "a/b; c="),
        ("a/b; c=\"d;\"", "a/b; c=\"d;\""),
    ] {
        assert_eq!(mime(text).as_str(), kept);
        assert_eq!(mime(text).clone().as_str(), kept);
        assert_eq!(mime(kept).display(), mime(text).display());
    }
}

#[test]
fn mime_errors() {
    assert_eq!(MimeType::parse("textplain").unwrap_err(), "Invalid type name");
    assert_eq!(MimeType::parse("text//plain").unwrap_err(), "Invalid subtype name");
    assert_eq!(MimeType::parse("text/plain+#").unwrap_err(), "Invalid suffix");
    assert_eq!(MimeType::parse("text/plain;;").unwrap_err(), "Invalid params");
    assert_eq!(MimeType::parse("text/plain; é=1").unwrap_err(), "Invalid param name");
    assert_eq!(MimeType::parse("text/plain; x=\"1").unwrap_err(), "Invalid param value");
}

#[test]
fn same_types() {
    assert!(mime("text/plain") == mime("TEXT/Plain"));
    assert!(mime("image/svg+xml; a=1; B=x") == mime("IMAGE/svg+XML; b=\"x\"; A=1"));
    assert!(mime("a/b; x=1; x=2") == mime("a/b; X=2"));
    assert!(mime("a/b; x=\"\"") == mime("a/b; x="));
    assert!(mime("a/b; x=\"a\\b\"") == mime("a/b; x=ab"));
    assert!(mime("a/b; x=1; x=2") != mime("a/b; x=1"));
    assert!(mime("a/b; x=a") != mime("a/b; x=A"));
    assert!(mime("text/plain") != mime("text/plain; charset=utf-8"));
    assert!(mime("image/svg+xml") != mime("image/svg"));
    assert!(mime("text/plain") != mime("text/html"));
    assert!(mime("text/plain").clone().same_type(&mime("text/plain")));
}

#[test]
fn same_type_is_an_equivalence_here() {
    let all = [
        mime("text/plain; charset=utf-8"),
        mime("TEXT/plain; CHARSET=utf-8"),
        mime("text/plain; charset=\"utf-8\""),
        mime("text/html"),
    ];
    for a in &all {
        assert!(a.same_type(a));
        for b in &all {
            assert_eq!(a.same_type(b), b.same_type(a));
            for c in &all {
                assert!(!(a.same_type(b) && b.same_type(c)) || a.same_type(c));
            }
        }
    }
}

#[test]
fn types_that_answer() {
    let kept = mime("text/plain; charset=utf-8");
    assert!(kept.answers(&mime("TEXT/PLAIN; Charset=utf-8")));
    assert!(kept.answers(&mime("text/plain")));
    assert!(kept.answers(&mime("Text/*")));
    assert!(kept.answers(&mime("*/*")));
    assert!(kept.answers(&kept));
    assert!(!kept.answers(&mime("text/plain; charset=ascii")));
    assert!(!kept.answers(&mime("text/html")));
    assert!(!kept.answers(&mime("text/plain+x")));
    assert!(!kept.answers(&mime("image/*")));
    // parameters do not count next to a wildcard
    assert!(kept.answers(&mime("text/*; charset=ascii")));
}

#[test]
fn top_level_type() {
    assert!(mime("Text/plain").has_type("text"));
    assert!(!mime("texts/plain").has_type("text"));
}

#[test]
fn trailing_white_space_is_trimmed() {
    assert_eq!(trim_end("a b \t\n\u{a0}\u{3000}"), "a b");
    assert_eq!(trim_end(" a"), " a");
    assert_eq!(trim_end(" \n"), "");
    assert_eq!(trim_end(""), "");
    assert_eq!(trim_end("é "), "é");
}

#[test]
fn white_space_characters() {
    let mut spaces: Vec<u32> = Vec::new();
    for u in 0..=0x10FFFFu32 {
        if let Some(c) = char::from_u32(u) {
            let text = c.to_string();
            if trim_end(&text).is_empty() {
                spaces.push(u);
            }
        }
    }
    let mut expected: Vec<u32> = (0x9..=0xD).collect();
    expected.extend([0x20, 0x85, 0xA0, 0x1680]);
    expected.extend(0x2000..=0x200A);
    expected.extend([0x2028, 0x2029, 0x202F, 0x205F, 0x3000]);
    assert_eq!(spaces, expected);
}

#[test]
fn same_types_answer_the_same_requests() {
    let a = mime("text/plain; charset=utf-8");
    let b = mime("Text/Plain; CHARSET=\"utf-8\"");
    assert!(a.same_type(&b));
    for want in ["text/plain", "text/html", "text/*", "*/*", "text/plain; charset=utf-8", "a/b; c=d"] {
        assert_eq!(a.answers(&mime(want)), b.answers(&mime(want)));
    }
}
