use pincers::mime::MimeType;
use pincers::pincer::Pincer;
use pincers::register::{NamedT, NumericT, RegisterAddress, RegisterSummary};

const UNNAMED: RegisterAddress = RegisterAddress::Unnamed;

fn mime(text: &str) -> MimeType {
    MimeType::parse(text).unwrap()
}

fn numeric(n: i8) -> RegisterAddress {
    RegisterAddress::Numeric(NumericT::new(n).unwrap())
}

fn named(n: u8) -> RegisterAddress {
    RegisterAddress::Named(NamedT::new(n).unwrap())
}

fn yank(p: &mut Pincer, addr: RegisterAddress, text: &str) -> RegisterAddress {
    let (used, n) =
        p.yank_one_into(addr, (mime("text/plain"), text.as_bytes().to_vec())).unwrap();
    assert_eq!(n, text.len());
    used
}

fn paste(p: &Pincer, addr: RegisterAddress) -> Option<(RegisterAddress, String)> {
    p.paste_from(addr, &mime("text/plain"))
        .map(|(a, _, d)| (a, String::from_utf8(d.clone()).unwrap()))
}

#[test]
fn new_pincer_is_empty() {
    let p = Pincer::default();
    assert_eq!(p.get_active(), UNNAMED);
    assert!(p.get_active_register().is_empty());
    for addr in RegisterAddress::iter() {
        assert!(p.register(addr).is_empty());
        assert_eq!(paste(&p, addr), None);
    }
    assert!(p.list().unwrap().entries().is_empty());
}

#[test]
fn unnamed_yanks_shift() {
    let mut p = Pincer::new();
    yank(&mut p, named(3), "kept");
    for i in 0..13 {
        assert_eq!(yank(&mut p, UNNAMED, &i.to_string()), numeric(0));
    }
    for n in 0..10 {
        assert_eq!(paste(&p, numeric(n)), Some((numeric(n), (12 - n).to_string())));
    }
    assert_eq!(paste(&p, UNNAMED), Some((numeric(0), "12".to_owned())));
    assert_eq!(paste(&p, named(3)), Some((named(3), "kept".to_owned())));
}

#[test]
fn numbered_yank_replaces() {
    let mut p = Pincer::new();
    for i in 0..4 {
        yank(&mut p, UNNAMED, &i.to_string());
    }
    assert_eq!(yank(&mut p, numeric(2), "two"), numeric(2));
    let contents: Vec<Option<String>> =
        (0..5).map(|n| paste(&p, numeric(n)).map(|x| x.1)).collect();
    assert_eq!(
        contents,
        [
            Some("3".to_owned()),
            Some("2".to_owned()),
            Some("two".to_owned()),
            Some("0".to_owned()),
            None
        ]
    );
    assert_eq!(paste(&p, UNNAMED), Some((numeric(2), "two".to_owned())));
    yank(&mut p, numeric(0), "zero");
    assert_eq!(paste(&p, numeric(0)), Some((numeric(0), "zero".to_owned())));
    assert_eq!(paste(&p, numeric(1)), Some((numeric(1), "2".to_owned())));
}

#[test]
fn yank_then_paste() {
    for addr in RegisterAddress::iter() {
        for kind in ["text/plain", "text/plain; charset=utf-8", "image/*", "*/*", "a/b+c"] {
            let mut p = Pincer::new();
            let (used, n) = p.yank_one_into(addr, (mime(kind), vec![1, 2, 3])).unwrap();
            assert_eq!(n, 3);
            assert_eq!(used, if addr == UNNAMED { numeric(0) } else { addr });
            for from in [addr, used, UNNAMED] {
                let (a, m, d) = p.paste_from(from, &mime(kind)).map(|(a, m, d)| (a, m.display(), d.clone())).unwrap();
                assert_eq!((a, m.as_str(), d), (used, kind, vec![1, 2, 3]));
            }
        }
    }
}

#[test]
fn yank_several_types() {
    let mut p = Pincer::new();
    yank(&mut p, named(0), "old");
    let pastes = vec![
        (mime("text/plain"), b"one".to_vec()),
        (mime("text/html"), b"two".to_vec()),
        (mime("TEXT/plain"), b"three".to_vec()),
    ];
    assert_eq!(p.yank_into(named(0), pastes.into_iter()), Ok((named(0), 11)));
    let kept: Vec<(String, Vec<u8>)> =
        p.register(named(0)).entries().iter().map(|(m, d)| (m.display(), d.clone())).collect();
    assert_eq!(
        kept,
        [
            ("text/plain".to_owned(), b"three".to_vec()),
            ("text/html".to_owned(), b"two".to_vec())
        ]
    );
    assert_eq!(p.yank_into(named(0), Vec::new().into_iter()), Ok((named(0), 0)));
    assert!(p.register(named(0)).is_empty());
}

#[test]
fn active_register() {
    let mut p = Pincer::new();
    p.set_active(named(7));
    assert_eq!(p.get_active(), named(7));
    assert_eq!(p.yank_one((mime("text/plain"), b"h".to_vec())), Ok((named(7), 1)));
    assert_eq!(p.yank(vec![(mime("text/plain"), b"hh".to_vec())].into_iter()), Ok((named(7), 2)));
    assert_eq!(p.get_active(), named(7));
    assert_eq!(p.paste(&mime("text/*")).unwrap().2, b"hh");
    assert_eq!(p.get_active_register().entries().len(), 1);
    p.reset_active();
    assert_eq!(p.get_active(), UNNAMED);
    assert_eq!(p.paste(&mime("*/*")).unwrap().0, named(7));
    yank(&mut p, named(8), "i");
    assert_eq!(p.paste(&mime("*/*")).unwrap().0, named(8));
    p.set_active(named(9));
    assert!(p.paste(&mime("*/*")).is_none());
}

#[test]
fn unnamed_stands_for_a_register() {
    let mut p = Pincer::new();
    assert_eq!(yank(&mut p, UNNAMED, "zero"), numeric(0));
    assert_eq!(paste(&p, UNNAMED), paste(&p, numeric(0)));
    assert_eq!(yank(&mut p, named(5), "f"), named(5));
    assert_eq!(paste(&p, UNNAMED), Some((named(5), "f".to_owned())));
    assert_eq!(paste(&p, named(5)), paste(&p, UNNAMED));
    assert_eq!(yank(&mut p, numeric(4), "four"), numeric(4));
    assert_eq!(paste(&p, UNNAMED), Some((numeric(4), "four".to_owned())));
}

#[test]
fn listing() {
    let mut p = Pincer::new();
    yank(&mut p, named(25), "z");
    yank(&mut p, UNNAMED, "zero");
    p.yank_one_into(named(1), (mime("image/png"), vec![0; 5])).unwrap();
    assert!(p.is_listable());
    let listing = p.list().unwrap().into_entries();
    let addresses: Vec<RegisterAddress> = listing.iter().map(|l| l.0).collect();
    assert_eq!(addresses, [UNNAMED, numeric(0), named(1), named(25)]);
    assert!(matches!(&listing[0].1, RegisterSummary::Blob(_, 5)));
    assert!(matches!(&listing[1].1, RegisterSummary::Text(t, 4) if t == "zero"));
    assert!(matches!(&listing[2].1, RegisterSummary::Blob(m, 5) if m.display() == "image/png"));
    assert!(matches!(&listing[3].1, RegisterSummary::Text(t, 1) if t == "z"));
    p.yank_one_into(named(2), (mime("text/plain"), vec![0xff])).unwrap();
    assert!(!p.is_listable());
}
