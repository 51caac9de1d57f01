use pincers::listing::Listing;
use pincers::register::{NamedT, NumericT, RegisterAddress, RegisterSummary};

fn numeric(n: i8) -> RegisterAddress {
    RegisterAddress::Numeric(NumericT::new(n).unwrap())
}

fn named(n: u8) -> RegisterAddress {
    RegisterAddress::Named(NamedT::new(n).unwrap())
}

fn text(text: &str) -> RegisterSummary {
    RegisterSummary::Text(text.to_owned(), text.len())
}

fn shown(listing: &Listing) -> Vec<String> {
    listing.entries().iter().map(|(a, s)| a.display(true) + "=" + &s.display("")).collect()
}

#[test]
fn listing_is_in_order() {
    let mut listing = Listing::new();
    assert!(listing.entries().is_empty());
    for (addr, summary) in [
        (named(1), "b"),
        (numeric(9), "nine"),
        (named(0), "a"),
        (RegisterAddress::Unnamed, "unnamed"),
        (named(25), "z"),
        (numeric(0), "zero"),
    ] {
        assert!(listing.insert(addr, text(summary)).is_none());
    }
    let wanted = ["\"=unnamed", "0=zero", "9=nine", "a=a", "b=b", "z=z"];
    assert_eq!(shown(&listing), wanted);
    assert_eq!(listing.into_entries().len(), 6);
}

#[test]
fn listing_holds_each_address_once() {
    let mut listing = Listing::new();
    listing.insert(named(2), text("c"));
    listing.insert(numeric(3), text("three"));
    listing.insert(named(4), text("e"));
    let before = listing.insert(named(2), text("new")).unwrap();
    assert_eq!(before.display(""), "c");
    assert_eq!(shown(&listing), ["3=three", "c=new", "e=e"]);
}
