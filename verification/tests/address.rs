use std::str::FromStr;

use pincers::address::{do_parse_address, ADDRESS_ERROR};
use pincers::register::{NamedT, NumericT, RegisterAddress};

fn numeric(n: i8) -> RegisterAddress {
    RegisterAddress::Numeric(NumericT::new(n).unwrap())
}

fn named(n: u8) -> RegisterAddress {
    RegisterAddress::Named(NamedT::new(n).unwrap())
}

#[test]
fn unnamed_comes_last_of_all_addresses() {
    let all = RegisterAddress::iter();
    assert_eq!(all.len(), 37);
    let shown: String = all.iter().map(|a| a.display(true)).collect();
    assert_eq!(shown, "0123456789abcdefghijklmnopqrstuvwxyz\"");
}

#[test]
fn addresses_are_ordered() {
    let mut all = RegisterAddress::iter();
    all.sort();
    let shown: String = all.iter().map(|a| a.display(true)).collect();
    assert_eq!(shown, "\"0123456789abcdefghijklmnopqrstuvwxyz");
    for i in 1..all.len() {
        assert!(all[i - 1] < all[i]);
        assert_eq!(all[i - 1].cmp(&all[i]), std::cmp::Ordering::Less);
    }
}

#[test]
fn numbered_and_named_addresses() {
    let numbered = RegisterAddress::iter_numeric();
    assert_eq!(numbered.len(), 10);
    assert_eq!(numbered[0], numeric(0));
    assert_eq!(numbered[9], numeric(9));
    let letters = RegisterAddress::iter_named();
    assert_eq!(letters.len(), 26);
    assert_eq!(letters[0], named(0));
    assert_eq!(letters[25], named(25));
}

#[test]
fn numbers_are_bounded() {
    assert!(NumericT::new(-1).is_none());
    assert!(NumericT::new(10).is_none());
    assert_eq!(NumericT::new(9).unwrap().get(), 9);
    assert!(NamedT::new(26).is_none());
    assert!(NamedT::new(255).is_none());
    assert_eq!(NamedT::new(25).unwrap().get(), 25);
}

#[test]
fn address_display() {
    assert_eq!(numeric(7).display(false), "\"7");
    assert_eq!(numeric(7).display(true), "7");
    assert_eq!(named(2).display(false), "\"c");
    assert_eq!(named(2).display(true), "c");
    assert_eq!(RegisterAddress::Unnamed.display(false), "\"\"");
    assert_eq!(RegisterAddress::Unnamed.display(true), "\"");
}

#[test]
fn shown_addresses_are_read_back() {
    for address in RegisterAddress::iter() {
        assert_eq!(RegisterAddress::from_str(&address.display(true)), Ok(address));
    }
}

#[test]
fn other_texts_are_no_address() {
    for text in ["", "A", "ab", "10", "\"a", " ", "é", "{", "/", ":", "`"] {
        let read = RegisterAddress::parse(text);
        assert_eq!(read, Err(ADDRESS_ERROR.to_owned()));
    }
    assert_eq!(
        ADDRESS_ERROR,
        "Register address must be a single character from [\"0-9a-z]."
    );
}

#[test]
fn address_prefix_leaves_the_rest() {
    assert_eq!(do_parse_address("3é!"), Some(("é!", numeric(3))));
    assert_eq!(do_parse_address("z"), Some(("", named(25))));
    assert_eq!(do_parse_address("\"a"), Some(("a", RegisterAddress::Unnamed)));
    assert_eq!(do_parse_address("Z"), None);
    assert_eq!(do_parse_address(""), None);
}

#[test]
fn default_address_is_unnamed() {
    assert_eq!(RegisterAddress::default(), RegisterAddress::Unnamed);
}

#[test]
fn read_addresses_are_shown_back() {
    let mut count = 0;
    for u in 0..0x3000u32 {
        if let Some(c) = char::from_u32(u) {
            let text = c.to_string();
            if let Ok(address) = RegisterAddress::parse(&text) {
                assert_eq!(address.display(true), text);
                count += 1;
            }
        }
    }
    assert_eq!(count, 37);
}
