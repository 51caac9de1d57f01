use pincers::client::{
    can_show, handle_list, handle_paste, handle_response, handle_show, handle_yank,
    make_yank_request, Output, OutputFormat,
};
use pincers::daemon::{RequestType, ResponseType};
use pincers::listing::Listing;
use pincers::mime::MimeType;
use pincers::register::{NamedT, NumericT, Register, RegisterAddress, RegisterSummary};

fn mime(text: &str) -> MimeType {
    MimeType::parse(text).unwrap()
}

fn numeric(n: i8) -> RegisterAddress {
    RegisterAddress::Numeric(NumericT::new(n).unwrap())
}

fn named(n: u8) -> RegisterAddress {
    RegisterAddress::Named(NamedT::new(n).unwrap())
}

fn sizes(texts: &[&str]) -> Vec<String> {
    texts.iter().map(|t| t.to_string()).collect()
}

#[test]
fn yank_is_reported() {
    let yank = |n: usize| handle_yank(&ResponseType::Yank(named(3), n), "").unwrap();
    assert_eq!(yank(0), "Yanked 0 bytes into \"d");
    assert_eq!(yank(12), "Yanked 12 bytes into \"d");
    assert_eq!(yank(usize::MAX), format!("Yanked {} bytes into \"d", usize::MAX));
    assert_eq!(
        handle_yank(&ResponseType::Register(named(3)), "Register(x)").unwrap_err(),
        "Expected Yank response, got Register(x)"
    );
}

#[test]
fn paste_output() {
    let rsp = ResponseType::Paste(named(0), mime("a/b"), b"data".to_vec());
    assert_eq!(handle_paste(&rsp, false, "").unwrap(), b"data");
    assert_eq!(handle_paste(&rsp, true, "").unwrap(), b"data\n");
    assert_eq!(
        handle_paste(&ResponseType::Yank(named(0), 1), true, "Yank(..)").unwrap_err(),
        "Expected Paste response, got Yank(..)"
    );
}

fn listing() -> ResponseType {
    let mut listing = Listing::new();
    listing.insert(named(25), RegisterSummary::Empty);
    listing.insert(RegisterAddress::Unnamed, RegisterSummary::Text("hi \n".to_owned(), 4));
    listing.insert(numeric(0), RegisterSummary::Blob(mime("image/png"), 1536));
    ResponseType::List(listing)
}

#[test]
fn listings() {
    let humanized = sizes(&["4 B", "1.5 KiB", "0 B"]);
    assert_eq!(
        handle_list(&listing(), OutputFormat::Plain, &humanized, "").unwrap(),
        "\"\": hi\n\"0: blob (image/png, 1.5 KiB)\n\"z: <EMPTY>"
    );
    assert_eq!(
        handle_list(&listing(), OutputFormat::Rofi, &humanized, "").unwrap(),
        "\"\0display\x1f\"\": hi\n0\0display\x1f\"0: blob (image/png, 1.5 KiB)\nz\0display\x1f\"z: <EMPTY>"
    );
    let empty = ResponseType::List(Listing::new());
    assert_eq!(handle_list(&empty, OutputFormat::default(), &Vec::new(), "").unwrap(), "");
    assert_eq!(
        handle_list(&ResponseType::Yank(named(0), 1), OutputFormat::JSON, &Vec::new(), "?")
            .unwrap_err(),
        "Expected List response, got ?"
    );
}

#[test]
fn shown_register() {
    let mut register = Register::new();
    register.insert(mime("TEXT/html"), "<p>\u{e9} \n".as_bytes().to_vec());
    register.insert(mime("image/png; q=1"), vec![0xff; 3]);
    assert!(can_show(&register));
    let rsp = ResponseType::Show(named(0), register);
    assert_eq!(
        handle_show(&rsp, &sizes(&["7 B", "3 B"]), "").unwrap(),
        "TEXT/html: <p>\u{e9}\nimage/png; q=1: 3 B"
    );
    assert_eq!(
        handle_show(&ResponseType::Yank(named(0), 1), &Vec::new(), "?").unwrap_err(),
        "Expected Show response, got ?"
    );
    let mut bad = Register::new();
    bad.insert(mime("text/plain"), vec![0xff]);
    assert!(!can_show(&bad));
}

#[test]
fn responses() {
    let log = handle_response(Ok(ResponseType::Yank(named(0), 5)), false);
    assert!(matches!(log, Ok(Output::Log(t)) if t == "Yanked 5 bytes into \"a"));
    let data = handle_response(Ok(ResponseType::Paste(named(0), mime("a/b"), vec![1])), true);
    assert!(matches!(data, Ok(Output::Data(d)) if d == [1, 10]));
    assert!(matches!(handle_response(Ok(listing()), true), Ok(Output::Nothing)));
    let error = handle_response(Err("no".to_owned()), true);
    assert!(matches!(error, Err(e) if e == "no"));
}

#[test]
fn yank_requests() {
    match make_yank_request(None, mime("text/plain"), vec![1, 2]) {
        RequestType::Yank(addr, register) => {
            assert_eq!(addr, RegisterAddress::Unnamed);
            assert_eq!(register.entries().len(), 1);
            assert_eq!(register.get(&mime("text/plain")).unwrap().1, &vec![1, 2]);
        }
        other => panic!("{:?}", other),
    }
    match make_yank_request(Some(numeric(4)), mime("text/plain"), vec![]) {
        RequestType::Yank(addr, _) => assert_eq!(addr, numeric(4)),
        other => panic!("{:?}", other),
    }
}
