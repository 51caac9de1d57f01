use pincers::mime::MimeType;
use pincers::register::{Register, RegisterSummary};

fn mime(text: &str) -> MimeType {
    MimeType::parse(text).unwrap()
}

fn register(entries: &[(&str, &[u8])]) -> Register {
    let mut register = Register::new();
    for (m, d) in entries {
        register.insert(mime(m), d.to_vec());
    }
    register
}

fn got(register: &Register, want: &str) -> Option<(String, Vec<u8>)> {
    register.get(&mime(want)).map(|(m, d)| (m.display(), d.clone()))
}

#[test]
fn insert_and_clear() {
    let mut r = Register::default();
    assert!(r.is_empty());
    assert_eq!(r.insert(mime("text/plain"), vec![1]), None);
    assert!(!r.is_empty());
    assert_eq!(r.insert(mime("TEXT/plain"), vec![2]), Some(vec![1]));
    assert_eq!(r.keys().len(), 1);
    // the type is kept as it first came
    assert_eq!(got(&r, "text/plain"), Some(("text/plain".to_owned(), vec![2])));
    assert_eq!(r.insert(mime("text/html"), vec![3]), None);
    assert_eq!(got(&r, "text/plain"), Some(("text/plain".to_owned(), vec![2])));
    let keys: Vec<String> = r.keys().iter().map(|m| m.display()).collect();
    assert_eq!(keys, ["text/plain", "text/html"]);
    r.clear();
    assert!(r.is_empty());
    assert_eq!(got(&r, "*/*"), None);
}

#[test]
fn requests_by_type() {
    let r = register(&[
        ("image/png", b"p"),
        ("text/html; charset=utf-8", b"h"),
        ("text/plain", b"t"),
        ("image/svg+xml; q=1", b"s"),
        ("image/svg+xml; q=2", b"s2"),
    ]);
    assert_eq!(got(&r, "*/*").unwrap().1, b"p");
    assert_eq!(got(&r, "text/*").unwrap().1, b"h");
    assert_eq!(got(&r, "text/html").unwrap().1, b"h");
    assert_eq!(got(&r, "text/html; charset=utf-8").unwrap().1, b"h");
    assert_eq!(got(&r, "text/html; charset=ascii"), None);
    assert_eq!(got(&r, "image/svg+xml").unwrap().1, b"s");
    assert_eq!(got(&r, "image/svg+xml; q=2").unwrap().1, b"s2");
    assert_eq!(got(&r, "image/svg"), None);
    assert_eq!(got(&r, "audio/*"), None);
}

#[test]
fn has_just_this_type() {
    let r = register(&[("text/plain; charset=utf-8", b"x")]);
    assert!(r.has_mime(&mime("text/plain; CHARSET=utf-8")));
    assert!(!r.has_mime(&mime("text/plain")));
    assert!(!r.has_mime(&mime("*/*")));
}

#[test]
fn copies_and_parts() {
    let r = register(&[("a/b", b"1"), ("a/c", b"22")]);
    assert_eq!(r.total_len(), Some(3));
    let copy = r.clone();
    assert_eq!(copy.entries().len(), 2);
    let parts: Vec<(String, Vec<u8>)> =
        copy.into_entries().into_iter().map(|(m, d)| (m.display(), d)).collect();
    assert_eq!(
        parts,
        [("a/b".to_owned(), b"1".to_vec()), ("a/c".to_owned(), b"22".to_vec())]
    );
    assert_eq!(r.entries().len(), 2);
}

fn text_summary(entries: &[(&str, &[u8])]) -> (String, usize) {
    match register(entries).summarize() {
        RegisterSummary::Text(text, n) => (text, n),
        other => panic!("{:?}", other),
    }
}

#[test]
fn text_is_preferred_in_summaries() {
    assert_eq!(
        text_summary(&[
            ("image/png", b"p"),
            ("text/html", b"html"),
            ("text/plain", b"plain"),
            ("text/plain; charset=utf-8", "caf\u{e9}\n".as_bytes()),
        ]),
        ("caf\u{e9}\n".to_owned(), 6)
    );
    assert_eq!(
        text_summary(&[("text/html", b"html"), ("text/plain; charset=ascii", b"plain")]),
        ("plain".to_owned(), 5)
    );
}

fn blob_summary(entries: &[(&str, &[u8])]) -> (String, usize) {
    match register(entries).summarize() {
        RegisterSummary::Blob(m, n) => (m.display(), n),
        other => panic!("{:?}", other),
    }
}

#[test]
fn only_plain_text_is_summarized_as_text() {
    assert_eq!(blob_summary(&[("text/html", b"<b>")]), ("text/html".to_owned(), 3));
    assert_eq!(
        blob_summary(&[("image/png", b"p"), ("text/html", b"html")]),
        ("image/png".to_owned(), 1)
    );
    assert!(register(&[("text/html", &[0xff])]).is_summarizable());
}

#[test]
fn other_summaries() {
    assert_eq!(
        blob_summary(&[("image/png", b"1234"), ("image/gif", b"1")]),
        ("image/png".to_owned(), 4)
    );
    assert!(matches!(Register::new().summarize(), RegisterSummary::Empty));
}

#[test]
fn text_that_is_no_utf8() {
    assert!(!register(&[("text/plain", &[0xff])]).is_summarizable());
    assert!(register(&[("text/plain", &[0xc3, 0xa9])]).is_summarizable());
    assert!(register(&[("image/png", &[0xff])]).is_summarizable());
    assert!(register(&[("text/html", &[0xff]), ("text/plain", b"ok")]).is_summarizable());
    assert!(Register::new().is_summarizable());
}

#[test]
fn summary_display() {
    let text = RegisterSummary::Text("hello \n".to_owned(), 7);
    assert_eq!(text.display("unused"), "hello");
    let blob = RegisterSummary::Blob(mime("image/png"), 2048);
    assert_eq!(blob.display("2 KiB"), "blob (image/png, 2 KiB)");
    assert_eq!(RegisterSummary::Empty.display(""), "<EMPTY>");
}
