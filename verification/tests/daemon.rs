use pincers::daemon::{
    can_handle, conclude, execute_request, get_paste, handle_request, judge_receive_error,
    ClipboardMessage, Received, ReceiveError, RegisterCommand, Request, RequestType, Response,
    ResponseType, YankMime, NO_SUCH_TYPE,
};
use pincers::mime::MimeType;
use pincers::pincer::Pincer;
use pincers::register::{NamedT, NumericT, Register, RegisterAddress};
use pincers::seat::{SeatPincerMap, SeatSpecification};

const UNNAMED: RegisterAddress = RegisterAddress::Unnamed;

fn mime(text: &str) -> MimeType {
    MimeType::parse(text).unwrap()
}

fn zero() -> RegisterAddress {
    RegisterAddress::Numeric(NumericT::new(0).unwrap())
}

fn named(n: u8) -> RegisterAddress {
    RegisterAddress::Named(NamedT::new(n).unwrap())
}

fn register(entries: &[(&str, &[u8])]) -> Register {
    let mut register = Register::new();
    for (m, d) in entries {
        register.insert(mime(m), d.to_vec());
    }
    register
}

fn run(pincer: &mut Pincer, request: RequestType) -> Response {
    execute_request(request, "seat0", pincer).response
}

#[test]
fn yank_request() {
    let mut p = Pincer::new();
    let contents = register(&[("text/plain", b"ab"), ("text/html", b"c")]);
    let outcome = execute_request(RequestType::Yank(UNNAMED, contents), "seat7", &mut p);
    assert!(matches!(outcome.response, Ok(ResponseType::Yank(a, 3)) if a == zero()));
    assert!(matches!(outcome.message, Some(ClipboardMessage::OfferOnSeat(s)) if s == "seat7"));
    match run(&mut p, RequestType::Show(UNNAMED)) {
        Ok(ResponseType::Show(addr, shown)) => {
            assert_eq!(addr, UNNAMED);
            let entries: Vec<(String, Vec<u8>)> =
                shown.into_entries().into_iter().map(|(m, d)| (m.display(), d)).collect();
            assert_eq!(
                entries,
                [
                    ("text/plain".to_owned(), b"ab".to_vec()),
                    ("text/html".to_owned(), b"c".to_vec())
                ]
            );
        }
        other => panic!("{:?}", other),
    }
}

#[test]
fn paste_request_prefers_the_first_type() {
    let mut p = Pincer::new();
    run(
        &mut p,
        RequestType::Yank(named(4), register(&[("image/png", b"p"), ("text/html", b"h")])),
    )
    .unwrap();
    let wanted = vec![mime("audio/*"), mime("text/*"), mime("*/*")];
    let outcome = execute_request(RequestType::Paste(UNNAMED, wanted), "seat0", &mut p);
    assert!(outcome.message.is_none());
    match outcome.response {
        Ok(ResponseType::Paste(addr, m, d)) => {
            assert_eq!(addr, named(4));
            assert_eq!(m.display(), "text/html");
            assert_eq!(d, b"h");
        }
        other => panic!("{:?}", other),
    }
    let nothing = run(&mut p, RequestType::Paste(named(4), vec![mime("audio/*")]));
    assert_eq!(
        nothing.unwrap_err(),
        "Register does not contain any of the requested MIME types"
    );
    assert_eq!(get_paste(&p, named(4), &Vec::new()).unwrap_err(), NO_SUCH_TYPE);
    assert_eq!(get_paste(&p, zero(), &vec![mime("*/*")]).unwrap_err(), NO_SUCH_TYPE);
}

#[test]
fn list_request() {
    let mut p = Pincer::new();
    run(&mut p, RequestType::Yank(named(0), register(&[("text/plain", b"x")]))).unwrap();
    match run(&mut p, RequestType::List()) {
        Ok(ResponseType::List(listing)) => {
            let addresses: Vec<RegisterAddress> =
                listing.entries().iter().map(|l| l.0).collect();
            assert_eq!(addresses, [UNNAMED, named(0)]);
        }
        other => panic!("{:?}", other),
    }
}

fn active(response: Response) -> RegisterAddress {
    match response {
        Ok(ResponseType::Register(addr)) => addr,
        other => panic!("{:?}", other),
    }
}

#[test]
fn register_requests() {
    let mut p = Pincer::new();
    let select = RegisterCommand::Select { address: named(9) };
    assert_eq!(active(run(&mut p, RequestType::Register(RegisterCommand::Active {}))), UNNAMED);
    assert_eq!(active(run(&mut p, RequestType::Register(select))), named(9));
    assert_eq!(active(run(&mut p, RequestType::Register(RegisterCommand::Active {}))), named(9));
    assert_eq!(active(run(&mut p, RequestType::Register(RegisterCommand::Clear {}))), UNNAMED);
    assert_eq!(p.get_active(), UNNAMED);
}

fn request(seat: Option<&str>, request: RequestType) -> Request {
    let seat = match seat {
        Some(name) => SeatSpecification::Specified(name.to_owned()),
        None => SeatSpecification::Unspecified,
    };
    Request { seat, request }
}

fn shown_on(pincers: &mut SeatPincerMap, seat: Option<&str>) -> usize {
    match handle_request(request(seat, RequestType::Show(UNNAMED)), pincers).response {
        Ok(ResponseType::Show(_, register)) => register.entries().len(),
        other => panic!("{:?}", other),
    }
}

#[test]
fn requests_go_to_their_seat() {
    let mut pincers = SeatPincerMap::new();
    assert!(pincers.insert("one".to_owned(), Pincer::new()).is_none());
    assert!(pincers.insert("two".to_owned(), Pincer::new()).is_none());
    let yank = RequestType::Yank(UNNAMED, register(&[("text/plain", b"x")]));
    let req = request(Some("two"), yank);
    assert!(can_handle(&req, &pincers));
    let outcome = handle_request(req, &mut pincers);
    assert!(outcome.response.is_ok());
    assert!(matches!(outcome.message, Some(ClipboardMessage::OfferOnSeat(s)) if s == "two"));
    assert_eq!(shown_on(&mut pincers, Some("one")), 0);
    assert_eq!(shown_on(&mut pincers, Some("two")), 1);
    assert_eq!(shown_on(&mut pincers, None), 0);
    let replaced = pincers.insert("two".to_owned(), Pincer::new()).unwrap();
    assert_eq!(replaced.register(UNNAMED).entries().len(), 1);
    assert_eq!(shown_on(&mut pincers, Some("two")), 0);
}

#[test]
fn pincers_are_looked_up_by_name() {
    let (one, two) = ("one".to_owned(), "two".to_owned());
    let mut pincers = SeatPincerMap::new();
    assert!(pincers.get(&one).is_none());
    assert!(pincers.get_mut(&one).is_none());
    pincers.insert("one".to_owned(), Pincer::new());
    pincers.insert("two".to_owned(), Pincer::new());
    pincers.get_mut(&two).unwrap().set_active(named(3));
    assert_eq!(pincers.get(&one).unwrap().get_active(), UNNAMED);
    assert_eq!(pincers.get(&two).unwrap().get_active(), named(3));
    assert!(pincers.get(&"three".to_owned()).is_none());
}

#[test]
fn unmanaged_seats_are_refused() {
    let mut pincers = SeatPincerMap::new();
    let outcome = handle_request(request(None, RequestType::List()), &mut pincers);
    assert_eq!(
        outcome.response.unwrap_err(),
        "Received request for seat Unspecified, but its clipboard is not managed by this daemon"
    );
    pincers.insert("one".to_owned(), Pincer::new());
    let yank = RequestType::Yank(UNNAMED, register(&[("text/plain", b"x")]));
    let outcome = handle_request(request(Some("a \"b\""), yank), &mut pincers);
    assert!(outcome.message.is_none());
    assert_eq!(
        outcome.response.unwrap_err(),
        "Received request for seat Specified(\"a \\\"b\\\"\"), but its clipboard is not managed by this daemon"
    );
    assert_eq!(shown_on(&mut pincers, Some("one")), 0);
}

#[test]
fn requests_that_cannot_be_carried_out() {
    let mut pincers = SeatPincerMap::new();
    pincers.insert("one".to_owned(), Pincer::new());
    let bad = RequestType::Yank(named(0), register(&[("text/plain", &[0xff])]));
    assert!(handle_request(request(None, bad), &mut pincers).response.is_ok());
    assert!(!can_handle(&request(None, RequestType::List()), &pincers));
    assert!(can_handle(&request(Some("two"), RequestType::List()), &pincers));
    assert!(can_handle(&request(None, RequestType::Show(named(0))), &pincers));
}

#[test]
fn clipboard_failure_is_the_response() {
    let done = conclude(Ok(ResponseType::Yank(zero(), 1)), Ok(()));
    assert!(matches!(done, Ok(ResponseType::Yank(_, 1))));
    let failed = conclude(Ok(ResponseType::Yank(zero(), 1)), Err("channel closed".to_owned()));
    assert_eq!(failed.unwrap_err(), "Could not pass message to Clipboard: channel closed");
}

#[test]
fn receive_errors() {
    assert_eq!(judge_receive_error(ReceiveError::TimedOut), Received::Disconnected);
    assert_eq!(judge_receive_error(ReceiveError::ConnectionReset), Received::Disconnected);
    assert_eq!(judge_receive_error(ReceiveError::ConnectionAborted), Received::Disconnected);
    assert_eq!(judge_receive_error(ReceiveError::InvalidData), Received::Malformed);
    assert_eq!(judge_receive_error(ReceiveError::Other), Received::Failed);
}

#[test]
fn yank_mime() {
    let specific = YankMime::Specific(mime("text/plain"));
    assert!(specific == specific.clone());
    assert!(specific != YankMime::Autodetect.clone());
}

#[test]
fn other_requests_change_nothing() {
    let mut p = Pincer::new();
    run(&mut p, RequestType::Yank(named(0), register(&[("text/plain", b"x")]))).unwrap();
    let before = format!("{:?}", p);
    run(&mut p, RequestType::Paste(named(0), vec![mime("*/*")])).unwrap();
    run(&mut p, RequestType::Paste(named(1), vec![mime("*/*")])).unwrap_err();
    run(&mut p, RequestType::Show(named(0))).unwrap();
    run(&mut p, RequestType::List()).unwrap();
    run(&mut p, RequestType::Register(RegisterCommand::Active {})).unwrap();
    assert_eq!(format!("{:?}", p), before);
    let select = RegisterCommand::Select { address: named(5) };
    run(&mut p, RequestType::Register(select)).unwrap();
    assert_eq!(p.register(UNNAMED).entries().len(), 1);
    run(&mut p, RequestType::Yank(UNNAMED, Register::new())).unwrap();
    assert_eq!(p.get_active(), named(5));
    assert!(p.register(UNNAMED).is_empty());
    assert!(!p.register(named(0)).is_empty());
}
