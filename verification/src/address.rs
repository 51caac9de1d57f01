//! Register addresses: the names by which a user refers to registers.

use std::cmp::Ordering;
use std::str::FromStr;

use bounded_integer::{BoundedI8, BoundedU8};
use vstd::prelude::*;
use vstd::std_specs::cmp::{PartialOrdSpec, PartialOrdSpecImpl};
use vstd::string::StrSliceExecFns;

use crate::error::Error;

verus! {

/// How many numbered registers there are.
pub const N_NUMERIC: i8 = 10;

/// How many named registers there are.
pub const N_NAMED: u8 = 26;

/// What an address argument may be, for the help texts of a command line.
pub const ADDRESS_HELP: &'static str = "A character from [\"0-9a-z]";

/// Calls `BoundedI8::<0, 9>::new` and `get`: a number from 0 to 9 is accepted and given back, any
/// other is refused.
#[verifier::external_body]
fn bounded_numeric(n: i8) -> (r: Option<i8>)
    ensures
        r == (if 0 <= n <= 9 {
            Some(n)
        } else {
            None
        }),
{
    BoundedI8::<0, 9>::new(n).map(|b| b.get())
}

/// Calls `BoundedU8::<0, 25>::new` and `get`: a number from 0 to 25 is accepted and given back,
/// any other is refused.
#[verifier::external_body]
fn bounded_named(n: u8) -> (r: Option<u8>)
    ensures
        r == (if n <= 25 {
            Some(n)
        } else {
            None
        }),
{
    BoundedU8::<0, 25>::new(n).map(|b| b.get())
}

/// The number of a numbered register, from 0 to 9. It is signed because pointer arithmetic on it
/// needs subtractions.
#[derive(Clone, Copy, Debug, PartialEq, Eq, PartialOrd, Ord, Structural)]
pub struct NumericT {
    value: i8,
}

impl View for NumericT {
    type V = int;

    closed spec fn view(&self) -> int {
        self.value as int
    }
}

impl NumericT {
    /// A numbered register exists for the number.
    #[verifier::type_invariant]
    pub open spec fn in_range(self) -> bool {
        0 <= self@ < N_NUMERIC
    }

    /// The register number `n`.
    pub closed spec fn of(n: int) -> NumericT {
        NumericT { value: n as i8 }
    }

    /// The register number `n`, if there is a register of that number.
    pub fn new(n: i8) -> (r: Option<NumericT>)
        ensures
            r is Some <==> 0 <= n < N_NUMERIC,
            r matches Some(number) ==> number@ == n,
    {
        match bounded_numeric(n) {
            Some(value) => Some(NumericT { value }),
            None => None,
        }
    }

    /// The number as an integer.
    pub fn get(self) -> (r: i8)
        ensures
            r == self@,
            0 <= r < N_NUMERIC,
    {
        proof {
            use_type_invariant(&self);
        }
        self.value
    }
}

/// The number of a named register, from 0 for `a` to 25 for `z`.
#[derive(Clone, Copy, Debug, PartialEq, Eq, PartialOrd, Ord, Structural)]
pub struct NamedT {
    value: u8,
}

impl View for NamedT {
    type V = int;

    closed spec fn view(&self) -> int {
        self.value as int
    }
}

impl NamedT {
    /// A named register exists for the number.
    #[verifier::type_invariant]
    pub open spec fn in_range(self) -> bool {
        0 <= self@ < N_NAMED
    }

    /// The letter number `n`.
    pub closed spec fn of(n: int) -> NamedT {
        NamedT { value: n as u8 }
    }

    /// The letter number `n`, if there is a letter of that number.
    pub fn new(n: u8) -> (r: Option<NamedT>)
        ensures
            r is Some <==> n < N_NAMED,
            r matches Some(number) ==> number@ == n,
    {
        match bounded_named(n) {
            Some(value) => Some(NamedT { value }),
            None => None,
        }
    }

    /// The number as an integer.
    pub fn get(self) -> (r: u8)
        ensures
            r == self@,
            r < N_NAMED,
    {
        proof {
            use_type_invariant(&self);
        }
        self.value
    }
}

/// `NumericT::of` is the number of a register.
pub broadcast proof fn numeric_of_view(n: int)
    requires
        0 <= n < N_NUMERIC,
    ensures
        (#[trigger] NumericT::of(n))@ == n,
{
}

/// A number is determined by the integer that it stands for.
pub broadcast proof fn numeric_by_view(a: NumericT, b: NumericT)
    ensures
        #![trigger a@, b@]
        a@ == b@ ==> a == b,
{
}

/// `NamedT::of` is the number of a letter.
pub broadcast proof fn named_of_view(n: int)
    requires
        0 <= n < N_NAMED,
    ensures
        (#[trigger] NamedT::of(n))@ == n,
{
}

/// A letter is determined by the integer that it stands for.
pub broadcast proof fn named_by_view(a: NamedT, b: NamedT)
    ensures
        #![trigger a@, b@]
        a@ == b@ ==> a == b,
{
}

/// The name of a register, either numbered or named.
#[derive(Clone, Copy, Debug, PartialEq, Eq, Ord, Structural)]
pub enum RegisterAddress {
    /// The unnamed register, meaning the last used register
    Unnamed,
    /// A numbered register (`"0, "1, ...`)
    Numeric(NumericT),
    /// A named register (`"a, "b, ...`)
    Named(NamedT),
}

fn ascii_distance(a: char, b: char) -> (r: Option<u8>)
    requires
        b as u32 <= a as u32,
    ensures
        r == (if a as u32 - b as u32 <= 255 {
            Some((a as u32 - b as u32) as u8)
        } else {
            None
        }),
{
    let d: u32 = (a as u32) - (b as u32);
    if d <= 255 {
        Some(d as u8)
    } else {
        None
    }
}

fn ascii_shift(a: char, b: u8) -> (r: Option<char>)
    ensures
        r == (if a as u32 + b as u32 <= 255 {
            Some((a as u32 + b as u32) as char)
        } else {
            None
        }),
{
    let n: u32 = (a as u32) + (b as u32);
    if n <= 255 {
        Some((n as u8) as char)
    } else {
        None
    }
}

/// The character that names a register.
pub open spec fn is_address_char(c: char) -> bool {
    ||| '0' <= c && c <= '9'
    ||| 'a' <= c && c <= 'z'
    ||| c == '"'
}

impl RegisterAddress {
    /// The address names a register that exists.
    pub open spec fn in_range(self) -> bool {
        match self {
            RegisterAddress::Unnamed => true,
            RegisterAddress::Numeric(n) => n.in_range(),
            RegisterAddress::Named(n) => n.in_range(),
        }
    }

    /// The place of the address in the order of all addresses: first the unnamed register, then
    /// the numbered, then the named.
    pub open spec fn rank(self) -> int {
        match self {
            RegisterAddress::Unnamed => 0,
            RegisterAddress::Numeric(n) => 1 + n@,
            RegisterAddress::Named(n) => 1 + N_NUMERIC + n@,
        }
    }

    /// The address at a place in the order of all addresses.
    pub open spec fn at(rank: int) -> RegisterAddress {
        if rank == 0 {
            RegisterAddress::Unnamed
        } else if rank <= N_NUMERIC {
            RegisterAddress::Numeric(NumericT::of(rank - 1))
        } else {
            RegisterAddress::Named(NamedT::of(rank - 1 - N_NUMERIC))
        }
    }

    /// The character that names the register.
    pub open spec fn letter(self) -> char {
        match self {
            RegisterAddress::Unnamed => '"',
            RegisterAddress::Numeric(n) => ('0' as u32 + n@) as char,
            RegisterAddress::Named(n) => ('a' as u32 + n@) as char,
        }
    }

    /// The text that the address is shown as: its character, behind a `"` unless `alternate`.
    pub open spec fn shown(self, alternate: bool) -> Seq<char> {
        if alternate {
            seq![self.letter()]
        } else {
            seq!['"', self.letter()]
        }
    }

    /// Every address names a register that exists.
    pub(crate) fn check_range(self)
        ensures
            self.in_range(),
    {
        match self {
            RegisterAddress::Unnamed => {},
            RegisterAddress::Numeric(n) => {
                proof {
                    use_type_invariant(&n);
                }
            },
            RegisterAddress::Named(n) => {
                proof {
                    use_type_invariant(&n);
                }
            },
        }
    }

    /// All register addresses, first the numbered, then the named. The unnamed comes last.
    pub fn iter() -> (r: Vec<RegisterAddress>)
        ensures
            r@ == Seq::new(36, |i: int| RegisterAddress::at(1 + i)).push(RegisterAddress::Unnamed),
    {
        let mut all = Self::iter_numeric();
        let mut named = Self::iter_named();
        all.append(&mut named);
        assert(all@ =~= Seq::new(36, |i: int| RegisterAddress::at(1 + i)));
        all.push(RegisterAddress::Unnamed);
        all
    }

    /// All register addresses in their order.
    pub(crate) fn in_order() -> (r: Vec<RegisterAddress>)
        ensures
            r@ == Seq::new(37, |i: int| RegisterAddress::at(i)),
    {
        let mut all: Vec<RegisterAddress> = Vec::new();
        all.push(RegisterAddress::Unnamed);
        let mut numeric = Self::iter_numeric();
        all.append(&mut numeric);
        let mut named = Self::iter_named();
        all.append(&mut named);
        assert(all@ =~= Seq::new(37, |i: int| RegisterAddress::at(i)));
        all
    }

    /// All numbered register addresses.
    pub fn iter_numeric() -> (r: Vec<RegisterAddress>)
        ensures
            r@ == Seq::new(10, |i: int| RegisterAddress::at(1 + i)),
    {
        broadcast use {numeric_by_view, numeric_of_view};

        let mut all: Vec<RegisterAddress> = Vec::new();
        for n in 0i8..N_NUMERIC
            invariant
                all@ =~= Seq::new(n as nat, |i: int| RegisterAddress::at(1 + i)),
        {
            all.push(RegisterAddress::Numeric(NumericT::new(n).unwrap()));
        }
        all
    }

    /// All named register addresses.
    pub fn iter_named() -> (r: Vec<RegisterAddress>)
        ensures
            r@ == Seq::new(26, |i: int| RegisterAddress::at(11 + i)),
    {
        broadcast use {named_by_view, named_of_view};

        let mut all: Vec<RegisterAddress> = Vec::new();
        for n in 0u8..N_NAMED
            invariant
                all@ =~= Seq::new(n as nat, |i: int| RegisterAddress::at(11 + i)),
        {
            all.push(RegisterAddress::Named(NamedT::new(n).unwrap()));
        }
        all
    }

    /// The text that the address is shown as.
    pub fn display(&self, alternate: bool) -> (r: String)
        ensures
            r@ == self.shown(alternate),
            self.in_range(),
    {
        self.check_range();
        let letter = match self {
            RegisterAddress::Numeric(n) => ascii_shift('0', n.get() as u8).unwrap(),
            RegisterAddress::Named(n) => ascii_shift('a', n.get()).unwrap(),
            RegisterAddress::Unnamed => '"',
        };
        let mut text = String::new();
        if !alternate {
            text.push('"');
        }
        text.push(letter);
        text
    }
}

impl Default for RegisterAddress {
    /// The default register is the unnamed register
    fn default() -> (r: RegisterAddress)
        ensures
            r == RegisterAddress::Unnamed,
    {
        RegisterAddress::Unnamed
    }
}

/// Read a register address from the front of a text; the rest of the text is left.
pub fn do_parse_address(input: &str) -> (r: Option<(&str, RegisterAddress)>)
    ensures
        r is Some <==> input@.len() > 0 && is_address_char(input@[0]),
        r matches Some((rest, address)) ==> {
            &&& rest@ == input@.skip(1)
            &&& address.letter() == input@[0]
            &&& address.in_range()
        },
{
    let len: usize = input.unicode_len();
    if len == 0 {
        return None;
    }
    let c = input.get_char(0);
    let address = if '0' <= c && c <= '9' {
        RegisterAddress::Numeric(NumericT::new(ascii_distance(c, '0').unwrap() as i8).unwrap())
    } else if 'a' <= c && c <= 'z' {
        RegisterAddress::Named(NamedT::new(ascii_distance(c, 'a').unwrap()).unwrap())
    } else if c == '"' {
        RegisterAddress::Unnamed
    } else {
        return None;
    };
    address.check_range();
    Some((input.substring_char(1, len), address))
}

impl RegisterAddress {
    /// The place of the address in the order of all addresses.
    pub(crate) fn place(self) -> (r: u8)
        ensures
            r == self.rank(),
            self.in_range(),
    {
        self.check_range();
        match self {
            RegisterAddress::Unnamed => 0,
            RegisterAddress::Numeric(n) => 1 + n.get() as u8,
            RegisterAddress::Named(n) => 1 + N_NUMERIC as u8 + n.get(),
        }
    }
}

impl PartialOrd for RegisterAddress {
    fn partial_cmp(&self, other: &RegisterAddress) -> (r: Option<Ordering>) {
        let a: u8 = self.place();
        let b: u8 = other.place();
        if a < b {
            Some(Ordering::Less)
        } else if a == b {
            Some(Ordering::Equal)
        } else {
            Some(Ordering::Greater)
        }
    }
}

impl PartialOrdSpecImpl for RegisterAddress {
    open spec fn obeys_partial_cmp_spec() -> bool {
        true
    }

    open spec fn partial_cmp_spec(&self, other: &RegisterAddress) -> Option<Ordering> {
        if self.rank() < other.rank() {
            Some(Ordering::Less)
        } else if self.rank() == other.rank() {
            Some(Ordering::Equal)
        } else {
            Some(Ordering::Greater)
        }
    }
}

/// `read` is what reading a text gives: the address that the single character of the text names,
/// or nothing if the text is of any other form.
pub open spec fn is_reading(text: Seq<char>, read: Option<RegisterAddress>) -> bool {
    &&& read is Some <==> text.len() == 1 && is_address_char(text[0])
    &&& read matches Some(address) ==> address.in_range() && address.letter() == text[0]
}

/// The message about a text that is no register address.
pub const ADDRESS_ERROR: &'static str =
    "Register address must be a single character from [\"0-9a-z].";

impl RegisterAddress {
    /// Read a register address from a text of a single character.
    pub fn parse(input: &str) -> (r: Result<RegisterAddress, Error>)
        ensures
            r matches Ok(address) ==> is_reading(input@, Some(address)),
            r matches Err(message) ==> is_reading(input@, None) && message@ == ADDRESS_ERROR@,
    {
        match do_parse_address(input) {
            Some((rest, address)) if rest.is_empty() => Ok(address),
            _ => Err(ADDRESS_ERROR.to_owned()),
        }
    }
}

impl FromStr for RegisterAddress {
    type Err = Error;

    fn from_str(input: &str) -> (r: Result<RegisterAddress, Error>)
        ensures
            r matches Ok(address) ==> is_reading(input@, Some(address)),
            r matches Err(message) ==> is_reading(input@, None) && message@ == ADDRESS_ERROR@,
    {
        RegisterAddress::parse(input)
    }
}

/// Each register has a character of its own.
pub proof fn letters_tell_addresses_apart(a: RegisterAddress, b: RegisterAddress)
    requires
        a.in_range(),
        b.in_range(),
    ensures
        is_address_char(a.letter()),
        a.letter() == b.letter() <==> a == b,
{
    broadcast use {numeric_by_view, named_by_view};

}

/// Each register has one place in the order of all addresses.
pub proof fn each_address_has_one_place(address: RegisterAddress, rank: int)
    requires
        address.in_range(),
        0 <= rank < 37,
    ensures
        0 <= address.rank() < 37,
        RegisterAddress::at(address.rank()) == address,
        RegisterAddress::at(rank).in_range(),
        RegisterAddress::at(rank).rank() == rank,
{
    broadcast use {numeric_by_view, numeric_of_view, named_by_view, named_of_view};

}

/// What an address is shown as in its short form is read back as that address.
pub proof fn shown_address_is_read_back(address: RegisterAddress, read: Option<RegisterAddress>)
    requires
        address.in_range(),
        is_reading(address.shown(true), read),
    ensures
        read == Some(address),
{
    letters_tell_addresses_apart(address, address);
    letters_tell_addresses_apart(address, read->0);
}

/// A text that is read as an address is what the address is shown as in its short form.
pub proof fn read_address_is_shown_back(text: Seq<char>, address: RegisterAddress)
    requires
        is_reading(text, Some(address)),
    ensures
        address.in_range(),
        address.shown(true) == text,
{
    assert(text =~= address.shown(true));
}

/// The unnamed register comes first in the order of all addresses, then come the numbered ones by
/// their numbers, then the named ones by their letters.
pub proof fn numbered_come_before_named(a: RegisterAddress, b: RegisterAddress)
    requires
        a.in_range(),
        b.in_range(),
    ensures
        a.rank() == b.rank() <==> a == b,
        (match (a, b) {
            (RegisterAddress::Unnamed, _) => a == b || a.rank() < b.rank(),
            (_, RegisterAddress::Unnamed) => b.rank() < a.rank(),
            (RegisterAddress::Numeric(m), RegisterAddress::Numeric(n)) => a.rank() < b.rank()
                <==> m@ < n@,
            (RegisterAddress::Numeric(_), RegisterAddress::Named(_)) => a.rank() < b.rank(),
            (RegisterAddress::Named(_), RegisterAddress::Numeric(_)) => b.rank() < a.rank(),
            (RegisterAddress::Named(m), RegisterAddress::Named(n)) => a.rank() < b.rank() <==> m@
                < n@,
        }),
{
    broadcast use {numeric_by_view, named_by_view};

}

/// A numbered register has its number for a character, a named one the letter of its number, and
/// the unnamed one a quote. An address is shown as its character, with a quote in front in the
/// long form.
pub proof fn address_is_shown_as_its_character(address: RegisterAddress)
    requires
        address.in_range(),
    ensures
        (match address {
            RegisterAddress::Unnamed => address.letter() == '"',
            RegisterAddress::Numeric(n) => address.letter() as u32 == 0x30 + n@,
            RegisterAddress::Named(n) => address.letter() as u32 == 0x61 + n@,
        }),
        address.shown(true).len() == 1,
        address.shown(true)[0] == address.letter(),
        address.shown(false).len() == 2,
        address.shown(false)[0] == '"',
        address.shown(false)[1] == address.letter(),
{
}

/// The characters that name a register are the digits, the small letters and the quote, and each
/// of them names one.
pub proof fn every_address_character_names_a_register(c: char)
    ensures
        is_address_char(c) <==> 0x30 <= c as u32 <= 0x39 || 0x61 <= c as u32 <= 0x7a || c == '"',
        is_address_char(c) <==> exists|address: RegisterAddress|
            address.in_range() && #[trigger] address.letter() == c,
{
    broadcast use {numeric_of_view, named_of_view};

    if '0' <= c && c <= '9' {
        let address = RegisterAddress::Numeric(NumericT::of(c as u32 - '0' as u32));
        assert(address.in_range() && address.letter() == c);
    } else if 'a' <= c && c <= 'z' {
        let address = RegisterAddress::Named(NamedT::of(c as u32 - 'a' as u32));
        assert(address.in_range() && address.letter() == c);
    } else if c == '"' {
        let address = RegisterAddress::Unnamed;
        assert(address.in_range() && address.letter() == c);
    }
}

/// Addresses are compared by their places in the order of all addresses.
pub proof fn lower_address_comes_first(a: RegisterAddress, b: RegisterAddress)
    requires
        a.in_range(),
        b.in_range(),
    ensures
        PartialOrdSpec::partial_cmp_spec(&a, &b) == Some(Ordering::Less) <==> a.rank() < b.rank(),
        PartialOrdSpec::partial_cmp_spec(&a, &b) == Some(Ordering::Equal) <==> a == b,
        PartialOrdSpec::partial_cmp_spec(&a, &b) == Some(Ordering::Greater) <==> b.rank()
            < a.rank(),
{
    broadcast use {numeric_by_view, named_by_view};

}

} // verus!
