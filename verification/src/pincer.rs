//! The state of the clipboard manager for one seat: its registers and how they are addressed.

use vstd::prelude::*;
use vstd::std_specs::iter::IteratorSpec;

use crate::address::{
    each_address_has_one_place, named_by_view, named_of_view, numeric_by_view, numeric_of_view,
    N_NAMED, N_NUMERIC,
};
use crate::error::Error;
use crate::listing::{Listing, Summaries};
use crate::mime::{same_types_answer_alike, type_answers_itself, MimeView};
use crate::register::{
    answer, comes_from, entries_view, every_pasted_type_is_kept, filled, first_answer_is_given,
    index_of, is_summarizable, last_paste_of_a_type_counts, lemma_total_len_prefix, summary,
    total_len, Entries, MimeType, NamedT, NumericT, Register, RegisterAddress,
};

pub use crate::seat::SeatPincerMap;

verus! {

/// What a [`Pincer`] holds.
pub struct PincerView {
    /// The active register.
    pub active: RegisterAddress,
    /// The register that was yanked into last.
    pub last_used: RegisterAddress,
    /// The contents of the numbered registers, in the order of their numbers.
    pub numeric: Seq<Entries>,
    /// The contents of the named registers, in the order of their letters.
    pub named: Seq<Entries>,
}

impl PincerView {
    /// All registers are there, and the register that was used last is known.
    pub open spec fn well_formed(self) -> bool {
        &&& self.numeric.len() == N_NUMERIC
        &&& self.named.len() == N_NAMED
        &&& self.active.in_range()
        &&& self.last_used.in_range()
        &&& self.last_used != RegisterAddress::Unnamed
    }

    /// The register that an address stands for: the unnamed register is the one used last.
    pub open spec fn resolved(self, addr: RegisterAddress) -> RegisterAddress {
        match addr {
            RegisterAddress::Unnamed => self.last_used,
            _ => addr,
        }
    }

    /// The contents of a register.
    pub open spec fn register(self, addr: RegisterAddress) -> Entries {
        match self.resolved(addr) {
            RegisterAddress::Numeric(n) => self.numeric[n@],
            RegisterAddress::Named(n) => self.named[n@],
            RegisterAddress::Unnamed => Entries::empty(),
        }
    }

    /// What pasting from a register gives: the register that was used, and the first entry in it
    /// that answers the request.
    pub open spec fn pasted(self, addr: RegisterAddress, mime: MimeView) -> Option<
        (RegisterAddress, (MimeView, Seq<u8>)),
    > {
        match answer(self.register(addr), mime) {
            Some(i) => Some((self.resolved(addr), self.register(addr)[i])),
            None => None,
        }
    }

    /// The state once `contents` is yanked into a register. A yank into the unnamed register goes
    /// into `"0`, and what was in a numbered register moves to the next higher number; what was
    /// in `"9` is gone. Any other yank replaces the contents of the register alone.
    pub open spec fn yanked(self, addr: RegisterAddress, contents: Entries) -> PincerView {
        match addr {
            RegisterAddress::Unnamed => PincerView {
                last_used: RegisterAddress::Numeric(NumericT::of(0)),
                numeric: seq![contents] + self.numeric.drop_last(),
                ..self
            },
            RegisterAddress::Numeric(n) => PincerView {
                last_used: addr,
                numeric: self.numeric.update(n@, contents),
                ..self
            },
            RegisterAddress::Named(n) => PincerView {
                last_used: addr,
                named: self.named.update(n@, contents),
                ..self
            },
        }
    }
}

/// The sum of two register numbers, wrapped around behind `"9`.
fn shift_forward(x: NumericT, y: NumericT) -> (r: NumericT)
    ensures
        r@ == (x@ + y@) % 10,
        r.in_range(),
{
    let z: i8 = (x.get() + y.get()) % N_NUMERIC;
    NumericT::new(z).unwrap()
}

/// The difference of two register numbers, wrapped around before `"0`.
fn shift_backward(x: NumericT, y: NumericT) -> (r: NumericT)
    ensures
        r@ == (x@ - y@) % 10,
        r.in_range(),
{
    let d: i8 = x.get() - y.get();
    let z: i8 = if d < 0 {
        d + N_NUMERIC
    } else {
        d
    };
    NumericT::new(z).unwrap()
}

/// Struct for the state of the clipboard manager
#[derive(Debug)]
pub struct Pincer {
    // The Pincer's currently active register
    active: RegisterAddress,
    last_used: RegisterAddress,
    // To avoid moving data as yanks into the unnamed register shift the numbered registers up, the
    // `numeric` array is treated as a circular buffer. This is the offset in that circular buffer.
    pointer: NumericT,
    numeric: [Register; 10],
    named: [Register; 26],
}

/// The place in a circular buffer of ten where register number `n` is.
spec fn slot(n: int, pointer: int) -> int {
    (n - pointer) % 10
}

impl View for Pincer {
    type V = PincerView;

    closed spec fn view(&self) -> PincerView {
        PincerView {
            active: self.active,
            last_used: self.last_used,
            numeric: Seq::new(10, |n: int| self.numeric@[slot(n, self.pointer@)]@),
            named: self.named@.map_values(|register: Register| register@),
        }
    }
}

impl Pincer {
    #[verifier::type_invariant]
    pub open spec fn well_formed(self) -> bool {
        self@.well_formed()
    }

    /// Create a new Pincer
    pub fn new() -> (r: Pincer)
        ensures
            r@ == (PincerView {
                active: RegisterAddress::Unnamed,
                last_used: RegisterAddress::Numeric(NumericT::of(0)),
                numeric: Seq::new(10, |n: int| Entries::empty()),
                named: Seq::new(26, |n: int| Entries::empty()),
            }),
    {
        broadcast use {numeric_by_view, numeric_of_view};

        let zero = NumericT::new(0).unwrap();
        let numeric: [Register; 10] = [
            Register::new(),
            Register::new(),
            Register::new(),
            Register::new(),
            Register::new(),
            Register::new(),
            Register::new(),
            Register::new(),
            Register::new(),
            Register::new(),
        ];
        let named: [Register; 26] = [
            Register::new(),
            Register::new(),
            Register::new(),
            Register::new(),
            Register::new(),
            Register::new(),
            Register::new(),
            Register::new(),
            Register::new(),
            Register::new(),
            Register::new(),
            Register::new(),
            Register::new(),
            Register::new(),
            Register::new(),
            Register::new(),
            Register::new(),
            Register::new(),
            Register::new(),
            Register::new(),
            Register::new(),
            Register::new(),
            Register::new(),
            Register::new(),
            Register::new(),
            Register::new(),
        ];
        assert(forall|i: int| 0 <= i < 10 ==> (#[trigger] numeric@[i])@ == Entries::empty());
        assert(forall|i: int| 0 <= i < 26 ==> (#[trigger] named@[i])@ == Entries::empty());
        let r = Pincer {
            active: RegisterAddress::Unnamed,
            last_used: RegisterAddress::Numeric(zero),
            pointer: zero,
            numeric,
            named,
        };
        assert(r@.numeric =~= Seq::new(10, |n: int| Entries::empty()));
        assert(r@.named =~= Seq::new(26, |n: int| Entries::empty()));
        r
    }

    /// Set the Pincer's register pointer
    pub fn set_active(&mut self, addr: RegisterAddress)
        ensures
            final(self)@ == (PincerView { active: addr, ..old(self)@ }),
    {
        proof {
            use_type_invariant(&*self);
        }
        addr.check_range();
        self.active = addr;
    }

    /// Get the Pincer's register pointer
    pub fn get_active(&self) -> (r: RegisterAddress)
        ensures
            r == self@.active,
    {
        self.active
    }

    /// Set the Pincer's register pointer back to the default
    pub fn reset_active(&mut self)
        ensures
            final(self)@ == (PincerView { active: RegisterAddress::Unnamed, ..old(self)@ }),
    {
        self.set_active(RegisterAddress::default());
    }

    /// Get a register from a register address
    pub fn register(&self, addr: RegisterAddress) -> (r: &Register)
        ensures
            r@ == self@.register(addr),
    {
        proof {
            use_type_invariant(self);
        }
        match self.resolve(addr) {
            RegisterAddress::Numeric(n) => {
                &self.numeric[shift_backward(n, self.pointer).get() as usize]
            },
            RegisterAddress::Named(n) => &self.named[n.get() as usize],
            RegisterAddress::Unnamed => {
                assert(false);
                &self.numeric[0]
            },
        }
    }

    /// Get the active register
    pub fn get_active_register(&self) -> (r: &Register)
        ensures
            r@ == self@.register(self@.active),
    {
        self.register(self.get_active())
    }

    fn advance_pointer(&mut self)
        ensures
            final(self).active == old(self).active,
            final(self).last_used == old(self).last_used,
            final(self).numeric == old(self).numeric,
            final(self).named == old(self).named,
            final(self).pointer@ == (old(self).pointer@ + 1) % 10,
    {
        proof {
            use_type_invariant(&*self);
        }
        self.pointer = shift_forward(self.pointer, NumericT::new(1).unwrap());
    }

    fn resolve(&self, addr: RegisterAddress) -> (r: RegisterAddress)
        ensures
            r == self@.resolved(addr),
            r != RegisterAddress::Unnamed,
            r.in_range(),
    {
        proof {
            use_type_invariant(self);
        }
        addr.check_range();
        match addr {
            RegisterAddress::Unnamed => self.last_used,
            _ => addr,
        }
    }
}

/// Collect what is to be yanked: the register that it makes, and its number of bytes.
fn collect<T>(pastes: T) -> (r: (Register, usize)) where T: Iterator<Item = (MimeType, Vec<u8>)>
    requires
        pastes.obeys_prophetic_iter_laws(),
        pastes.decrease() is Some,
        total_len(entries_view(pastes.remaining()))
            <= usize::MAX,
    ensures
        r.0@ == filled(entries_view(pastes.remaining())),
        r.1 == total_len(entries_view(pastes.remaining())),
{
    let ghost all = entries_view(pastes.remaining());
    let mut pastes = pastes;
    let mut register = Register::new();
    let mut bytes: usize = 0;
    let mut done: Ghost<int> = Ghost(0);
    assert(all.take(0) =~= Entries::empty());
    assert(all.skip(0) =~= all);
    loop
        invariant_except_break
            0 <= done@ <= all.len(),
            total_len(all) <= usize::MAX,
            register@ == filled(all.take(done@)),
            bytes == total_len(all.take(done@)),
            all.skip(done@) == entries_view(
                pastes.remaining(),
            ),
            pastes.obeys_prophetic_iter_laws(),
            pastes.decrease() is Some,
        ensures
            register@ == filled(all),
            bytes == total_len(all),
        decreases pastes.decrease()->0,
    {
        let ghost rest = pastes.remaining();
        assert(all.skip(done@).len() == rest.len());
        match pastes.next() {
            Some((mime, data)) => {
                proof {
                    assert(all.skip(done@)[0] == all[done@]);
                    assert(all.take(done@ + 1).drop_last() =~= all.take(done@));
                    lemma_total_len_prefix(all, done@ + 1);
                    assert(all.skip(done@ + 1) =~= all.skip(done@).drop_first());
                    assert(entries_view(rest).drop_first() =~= entries_view(rest.drop_first()));
                    done@ = done@ + 1;
                }
                bytes += data.len();
                register.insert(mime, data);
            },
            None => {
                assert(all.take(done@) =~= all);
                break;
            },
        }
    }
    (register, bytes)
}

impl Pincer {
    /// Get the data contained in a register
    ///
    /// # Arguments
    ///
    /// * `addr` -  address to the register to paste from. `Unnamed` means the last yank
    /// * `mime` -  MIME type to get
    ///
    /// # Returns
    ///
    /// If the MIME type exists in the register, `Some((addr, mime, buffer))` where `addr` is the
    /// register that was actually used, `mime` is the type that answers the request and `buffer`
    /// contains the data.  Otherwise `None`.
    pub fn paste_from(&self, addr: RegisterAddress, mime: &MimeType) -> (r: Option<
        (RegisterAddress, &MimeType, &Vec<u8>),
    >)
        ensures
            (match self@.pasted(addr, mime@) {
                Some((used, (kept, data))) => r matches Some((a, m, d)) && a == used && m@ == kept
                    && d@ == data,
                None => r is None,
            }),
    {
        let used = self.resolve(addr);
        match self.register(addr).get(mime) {
            Some((kept, data)) => Some((used, kept, data)),
            None => None,
        }
    }

    /// Get data from the currently active register
    ///
    /// # Arguments
    ///
    /// * `mime` -  MIME type to get
    ///
    /// # Returns
    ///
    /// The same as [`paste_from`](Pincer::paste_from) of the active register.
    pub fn paste(&self, mime: &MimeType) -> (r: Option<(RegisterAddress, &MimeType, &Vec<u8>)>)
        ensures
            (match self@.pasted(self@.active, mime@) {
                Some((used, (kept, data))) => r matches Some((a, m, d)) && a == used && m@ == kept
                    && d@ == data,
                None => r is None,
            }),
    {
        self.paste_from(self.active, mime)
    }

    /// Yank data of multiple MIME types into a register
    ///
    /// # Arguments
    ///
    /// * `addr` -  address to the register to yank into. Unnamed means the default, `"0`
    /// * `pastes` - an iterator over `(MIME, buffer)` tuples
    ///
    /// # Returns
    ///
    /// `Ok((addr, n))` where `addr` is the register that was used and `n` is the total number of
    /// bytes yanked.
    #[verifier::rlimit(50)]
    pub fn yank_into<T>(&mut self, addr: RegisterAddress, pastes: T) -> (r: Result<
        (RegisterAddress, usize),
        Error,
    >) where T: Iterator<Item = (MimeType, Vec<u8>)>
        requires
            pastes.obeys_prophetic_iter_laws(),
            pastes.decrease() is Some,
            total_len(entries_view(pastes.remaining()))
                <= usize::MAX,
        ensures
            final(self)@ == old(self)@.yanked(
                addr,
                filled(entries_view(pastes.remaining())),
            ),
            r is Ok,
            r->Ok_0.0 == final(self)@.last_used,
            r->Ok_0.1 == total_len(
                entries_view(pastes.remaining()),
            ),
    {
        broadcast use {numeric_by_view, numeric_of_view};

        proof {
            use_type_invariant(&*self);
        }
        addr.check_range();
        let zero = NumericT::new(0).unwrap();
        let (register, bytes) = collect(pastes);
        let ghost contents = register@;
        match addr {
            RegisterAddress::Numeric(n) => {
                let i: usize = shift_backward(n, self.pointer).get() as usize;
                self.numeric[i] = register;
                self.last_used = addr;
            },
            RegisterAddress::Named(n) => {
                let i: usize = n.get() as usize;
                self.named[i] = register;
                self.last_used = addr;
            },
            RegisterAddress::Unnamed => {
                self.advance_pointer();
                let i: usize = shift_backward(zero, self.pointer).get() as usize;
                self.numeric[i] = register;
                self.last_used = RegisterAddress::Numeric(zero);
            },
        }
        assert(self@.numeric =~= old(self)@.yanked(addr, contents).numeric);
        assert(self@.named =~= old(self)@.yanked(addr, contents).named);
        Ok((self.last_used, bytes))
    }
}

impl PincerView {
    /// Every register can be summarized.
    pub open spec fn is_listable(self) -> bool {
        forall|addr: RegisterAddress|
            addr.in_range() ==> is_summarizable(#[trigger] self.register(addr))
    }

    /// The summaries of those of the first `n` registers that are not empty, in the order of all
    /// addresses.
    pub open spec fn listed(self, n: int) -> Summaries
        decreases n,
    {
        if n <= 0 {
            seq![]
        } else {
            let addr = RegisterAddress::at(n - 1);
            let contents = self.register(addr);
            if contents.len() > 0 {
                self.listed(n - 1).push((addr, summary(contents)))
            } else {
                self.listed(n - 1)
            }
        }
    }
}

impl Pincer {
    /// Yank data of a single MIME type into a register
    ///
    /// # Arguments
    ///
    /// * `addr` -  address to the register to yank into. `Unnamed` means the default, `"0`
    /// * `paste` - the MIME type of the data and a buffer where it is stored
    ///
    /// # Returns
    ///
    /// `Ok((addr, n))` where `addr` is the register that was used and `n` is the total number of
    /// bytes yanked.
    pub fn yank_one_into(&mut self, addr: RegisterAddress, paste: (MimeType, Vec<u8>)) -> (r:
        Result<(RegisterAddress, usize), Error>)
        ensures
            final(self)@ == old(self)@.yanked(addr, seq![(paste.0@, paste.1@)]),
            r is Ok,
            r->Ok_0.0 == final(self)@.last_used,
            r->Ok_0.1 == paste.1@.len(),
    {
        let ghost one: Entries = seq![(paste.0@, paste.1@)];
        let mut pastes: Vec<(MimeType, Vec<u8>)> = Vec::new();
        pastes.push(paste);
        proof {
            assert(entries_view(pastes@) =~= one);
            assert(one.drop_last() =~= Entries::empty());
            assert(filled(one) =~= one) by {
                reveal_with_fuel(filled, 2);
                assert(index_of(Entries::empty(), paste.0@) is None);
            }
            assert(total_len(one) == paste.1.len()) by {
                reveal_with_fuel(total_len, 2);
            }
        }
        self.yank_into(addr, pastes.into_iter())
    }

    /// Yank data of multiple MIME types into the currently active register
    ///
    /// # Arguments
    ///
    /// * `pastes` - an iterator over `(MIME, buffer)` tuples
    ///
    /// # Returns
    ///
    /// `Ok((addr, n))` where `addr` is the register that was used and `n` is the total number of
    /// bytes yanked.
    pub fn yank<T>(&mut self, pastes: T) -> (r: Result<(RegisterAddress, usize), Error>) where
        T: Iterator<Item = (MimeType, Vec<u8>)>,

        requires
            pastes.obeys_prophetic_iter_laws(),
            pastes.decrease() is Some,
            total_len(entries_view(pastes.remaining())) <= usize::MAX,
        ensures
            final(self)@ == old(self)@.yanked(
                old(self)@.active,
                filled(entries_view(pastes.remaining())),
            ),
            r is Ok,
            r->Ok_0.0 == final(self)@.last_used,
            r->Ok_0.1 == total_len(entries_view(pastes.remaining())),
    {
        self.yank_into(self.active, pastes)
    }

    /// Yank data of a single MIME type into the currently active register
    ///
    /// # Arguments
    ///
    /// * `paste` - the MIME type of the data and a buffer where it is stored
    ///
    /// # Returns
    ///
    /// `Ok((addr, n))` where `addr` is the register that was used and `n` is the total number of
    /// bytes yanked.
    pub fn yank_one(&mut self, paste: (MimeType, Vec<u8>)) -> (r: Result<
        (RegisterAddress, usize),
        Error,
    >)
        ensures
            final(self)@ == old(self)@.yanked(old(self)@.active, seq![(paste.0@, paste.1@)]),
            r is Ok,
            r->Ok_0.0 == final(self)@.last_used,
            r->Ok_0.1 == paste.1@.len(),
    {
        self.yank_one_into(self.active, paste)
    }

    /// Whether [`list`](Pincer::list) can summarize all registers: the text by which a register
    /// would be summarized is valid UTF-8.
    pub fn is_listable(&self) -> (r: bool)
        ensures
            r == self@.is_listable(),
    {
        let all = RegisterAddress::in_order();
        for i in 0..all.len()
            invariant
                all@ == Seq::new(37, |i: int| RegisterAddress::at(i)),
                forall|j: int|
                    0 <= j < i ==> is_summarizable(
                        self@.register(#[trigger] RegisterAddress::at(j)),
                    ),
        {
            assert(all@[i as int] == RegisterAddress::at(i as int));
            if !self.register(all[i]).is_summarizable() {
                proof {
                    each_address_has_one_place(RegisterAddress::Unnamed, i as int);
                }
                return false;
            }
        }
        assert forall|addr: RegisterAddress| addr.in_range() implies is_summarizable(
            #[trigger] self@.register(addr),
        ) by {
            each_address_has_one_place(addr, 0);
        }
        true
    }

    /// Summarize the contents of all registers
    ///
    /// # Returns
    ///
    /// `Ok(l)` where `l` lists the addresses of the registers that are not empty, in order, with
    /// summaries of their contents.
    pub fn list(&self) -> (r: Result<Listing, Error>)
        requires
            self@.is_listable(),
        ensures
            r is Ok,
            r->Ok_0@ == self@.listed(37),
    {
        let mut out = Listing::new();
        let all = RegisterAddress::in_order();
        for i in 0..all.len()
            invariant
                all@ == Seq::new(37, |i: int| RegisterAddress::at(i)),
                self@.is_listable(),
                out@ == self@.listed(i as int),
        {
            proof {
                each_address_has_one_place(RegisterAddress::Unnamed, i as int);
                listing_is_ordered_and_complete(self@, i as int);
            }
            assert(all@[i as int] == RegisterAddress::at(i as int));
            let register = self.register(all[i]);
            if !register.is_empty() {
                let ghost before = out@;
                out.insert(all[i], register.summarize());
                assert(before.len() > 0 ==> before[before.len() - 1].0.rank() < i);
                assert(out@ =~= self@.listed(i + 1));
            }
        }
        Ok(out)
    }
}

impl Default for Pincer {
    fn default() -> (r: Pincer)
        ensures
            r@ == (PincerView {
                active: RegisterAddress::Unnamed,
                last_used: RegisterAddress::Numeric(NumericT::of(0)),
                numeric: Seq::new(10, |n: int| Entries::empty()),
                named: Seq::new(26, |n: int| Entries::empty()),
            }),
    {
        Pincer::new()
    }
}

/// After a yank all is as a Pincer has to be, the active register is the same, and the register
/// that was used is `"0` for a yank into the unnamed register and the given one for any other.
pub proof fn yank_keeps_the_pincer_well_formed(
    before: PincerView,
    addr: RegisterAddress,
    contents: Entries,
)
    requires
        before.well_formed(),
        addr.in_range(),
    ensures
        before.yanked(addr, contents).well_formed(),
        before.yanked(addr, contents).active == before.active,
        before.yanked(addr, contents).last_used == (if addr == RegisterAddress::Unnamed {
            RegisterAddress::at(1)
        } else {
            addr
        }),
{
    broadcast use numeric_of_view;

}

/// What was yanked is in the register that the yank names as the one used, and in the unnamed
/// register.
pub proof fn yanked_contents_are_there(
    before: PincerView,
    addr: RegisterAddress,
    contents: Entries,
)
    requires
        before.well_formed(),
        addr.in_range(),
    ensures
        before.yanked(addr, contents).register(before.yanked(addr, contents).last_used)
            == contents,
        before.yanked(addr, contents).register(addr) == contents,
        before.yanked(addr, contents).register(RegisterAddress::Unnamed) == contents,
{
    broadcast use numeric_of_view;

}

/// A yank into a numbered or a named register leaves every other register as it was.
pub proof fn yank_keeps_other_registers(
    before: PincerView,
    addr: RegisterAddress,
    contents: Entries,
    other: RegisterAddress,
)
    requires
        before.well_formed(),
        addr.in_range(),
        other.in_range(),
        addr != RegisterAddress::Unnamed,
        other != RegisterAddress::Unnamed,
        addr != other,
    ensures
        before.yanked(addr, contents).register(other) == before.register(other),
{
    broadcast use {numeric_by_view, named_by_view};

}

/// A yank into the unnamed register moves what was in each numbered register to the next higher
/// number, and leaves the named registers as they were.
pub proof fn unnamed_yank_shifts_the_numbered_registers(
    before: PincerView,
    contents: Entries,
    other: RegisterAddress,
)
    requires
        before.well_formed(),
        other.in_range(),
    ensures
        (match other {
            RegisterAddress::Numeric(n) => before.yanked(
                RegisterAddress::Unnamed,
                contents,
            ).register(other) == (if n@ == 0 {
                contents
            } else {
                before.register(RegisterAddress::at(n@))
            }),
            RegisterAddress::Named(n) => before.yanked(
                RegisterAddress::Unnamed,
                contents,
            ).register(other) == before.register(other),
            RegisterAddress::Unnamed => true,
        }),
{
    broadcast use numeric_of_view;

}

/// Data of one type that was yanked is what a request for that type is answered with, from the
/// register that was yanked into, from the register that the yank names as the one used and from
/// the unnamed register.
pub proof fn paste_gives_back_what_was_yanked(
    before: PincerView,
    addr: RegisterAddress,
    mime: MimeView,
    data: Seq<u8>,
)
    requires
        before.well_formed(),
        addr.in_range(),
    ensures
        ({
            let after = before.yanked(addr, seq![(mime, data)]);
            let answered = Some((after.last_used, (mime, data)));
            &&& after.pasted(after.last_used, mime) == answered
            &&& after.pasted(RegisterAddress::Unnamed, mime) == answered
            &&& addr != RegisterAddress::Unnamed ==> after.pasted(addr, mime) == answered
        }),
{
    let one: Entries = seq![(mime, data)];
    yanked_contents_are_there(before, addr, one);
    yank_keeps_the_pincer_well_formed(before, addr, one);
    first_answer_is_given(one, mime);
    type_answers_itself(mime);
    assert(one[0].0.answers(mime));
}

/// After a yank of data of several types, a request is answered if and only if one of the types
/// answers it, and then with the data that came last for a type that answers it, be it from the
/// register that was yanked into, from the one that the yank names as the one used or from the
/// unnamed register.
pub proof fn paste_answers_from_what_was_yanked(
    before: PincerView,
    addr: RegisterAddress,
    pastes: Entries,
    want: MimeView,
)
    requires
        before.well_formed(),
        addr.in_range(),
    ensures
        ({
            let after = before.yanked(addr, filled(pastes));
            let pasted = after.pasted(RegisterAddress::Unnamed, want);
            &&& after.pasted(after.last_used, want) == pasted
            &&& after.pasted(addr, want) == pasted
            &&& pasted is Some <==> exists|i: int|
                0 <= i < pastes.len() && (#[trigger] pastes[i]).0.answers(want)
            &&& pasted matches Some((used, entry)) ==> {
                &&& used == after.last_used
                &&& entry.0.answers(want)
                &&& exists|i: int| comes_from(pastes, entry, i) && pastes[i].0.answers(want)
            }
        }),
{
    let contents = filled(pastes);
    let after = before.yanked(addr, contents);
    yanked_contents_are_there(before, addr, contents);
    yank_keeps_the_pincer_well_formed(before, addr, contents);
    first_answer_is_given(contents, want);
    match answer(contents, want) {
        Some(k) => {
            last_paste_of_a_type_counts(pastes, k);
            let i = choose|i: int| comes_from(pastes, contents[k], i);
            same_types_answer_alike(pastes[i].0, contents[k].0, want);
            assert(comes_from(pastes, contents[k], i) && pastes[i].0.answers(want));
        },
        None => {
            assert forall|i: int| 0 <= i < pastes.len() implies !(#[trigger] pastes[i]).0.answers(
                want,
            ) by {
                every_pasted_type_is_kept(pastes, i);
                let k = choose|k: int|
                    0 <= k < contents.len() && pastes[i].0.same_type((#[trigger] contents[k]).0);
                same_types_answer_alike(pastes[i].0, contents[k].0, want);
            }
        },
    }
}

/// A paste from the unnamed register is a paste from the register that was used last.
pub proof fn unnamed_paste_is_from_the_last_used(pincer: PincerView, mime: MimeView)
    requires
        pincer.well_formed(),
    ensures
        pincer.pasted(RegisterAddress::Unnamed, mime) == pincer.pasted(pincer.last_used, mime),
{
}

/// An address stands for a register that is not the unnamed one: a numbered or a named address for
/// itself, the unnamed one for the register that was used last. That register stands for itself,
/// and both addresses name the same contents.
pub proof fn resolved_address_is_a_register(pincer: PincerView, addr: RegisterAddress)
    requires
        pincer.well_formed(),
    ensures
        pincer.resolved(addr) != RegisterAddress::Unnamed,
        addr.in_range() ==> pincer.resolved(addr).in_range(),
        addr != RegisterAddress::Unnamed ==> pincer.resolved(addr) == addr,
        pincer.resolved(pincer.resolved(addr)) == pincer.resolved(addr),
        pincer.register(pincer.resolved(addr)) == pincer.register(addr),
{
}

/// The state after several yanks into the unnamed register.
pub open spec fn yanked_in_turn(before: PincerView, yanks: Seq<Entries>) -> PincerView
    decreases yanks.len(),
{
    if yanks.len() == 0 {
        before
    } else {
        yanked_in_turn(before, yanks.drop_last()).yanked(RegisterAddress::Unnamed, yanks.last())
    }
}

/// The numbered registers are the history of the yanks into the unnamed register: `"0` holds the
/// last, `"1` the one before it, and so on; behind the yanks come the former registers in order.
pub proof fn numbered_registers_are_the_history(before: PincerView, yanks: Seq<Entries>, n: int)
    requires
        before.well_formed(),
        0 <= n < N_NUMERIC,
    ensures
        yanked_in_turn(before, yanks).well_formed(),
        yanked_in_turn(before, yanks).numeric[n] == (if n < yanks.len() {
            yanks[yanks.len() - 1 - n]
        } else {
            before.numeric[n - yanks.len()]
        }),
        yanked_in_turn(before, yanks).named == before.named,
    decreases yanks.len(),
{
    if yanks.len() > 0 {
        let front = yanks.drop_last();
        let m = if n > 0 {
            n - 1
        } else {
            0
        };
        numbered_registers_are_the_history(before, front, m);
        yank_keeps_the_pincer_well_formed(
            yanked_in_turn(before, front),
            RegisterAddress::Unnamed,
            yanks.last(),
        );
    }
}

/// A listing names each register that is not empty once, in the order of all addresses, with the
/// summary of its contents; it names no other.
pub proof fn listing_is_ordered_and_complete(pincer: PincerView, n: int)
    requires
        0 <= n <= 37,
    ensures
        forall|i: int, j: int|
            0 <= i < j < pincer.listed(n).len() ==> (#[trigger] pincer.listed(n)[i]).0.rank() < (
            #[trigger] pincer.listed(n)[j]).0.rank(),
        forall|i: int|
            0 <= i < pincer.listed(n).len() ==> {
                let (addr, shown) = #[trigger] pincer.listed(n)[i];
                &&& addr.in_range() && addr.rank() < n
                &&& pincer.register(addr).len() > 0
                &&& shown == summary(pincer.register(addr))
            },
        forall|addr: RegisterAddress|
            addr.in_range() && addr.rank() < n && (#[trigger] pincer.register(addr)).len() > 0
                ==> pincer.listed(n).contains((addr, summary(pincer.register(addr)))),
    decreases n,
{
    if n > 0 {
        listing_is_ordered_and_complete(pincer, n - 1);
        each_address_has_one_place(RegisterAddress::Unnamed, n - 1);
        let front = pincer.listed(n - 1);
        let here = RegisterAddress::at(n - 1);
        let all = pincer.listed(n);
        assert forall|addr: RegisterAddress|
            addr.in_range() && addr.rank() < n && (#[trigger] pincer.register(addr)).len()
                > 0 implies all.contains((addr, summary(pincer.register(addr)))) by {
            each_address_has_one_place(addr, 0);
            let entry = (addr, summary(pincer.register(addr)));
            if addr.rank() == n - 1 {
                assert(all[all.len() - 1] == entry);
            } else {
                assert(front.contains(entry));
                let i = choose|i: int| 0 <= i < front.len() && front[i] == entry;
                assert(all[i] == entry);
            }
        }
    }
}

/// A numbered or a named address stands for the register of its number, and the unnamed one for
/// the register that was used last.
pub proof fn address_names_its_register(pincer: PincerView, addr: RegisterAddress)
    requires
        pincer.well_formed(),
        addr.in_range(),
    ensures
        (match addr {
            RegisterAddress::Numeric(n) => pincer.resolved(addr) == addr && pincer.register(addr)
                == pincer.numeric[n@],
            RegisterAddress::Named(n) => pincer.resolved(addr) == addr && pincer.register(addr)
                == pincer.named[n@],
            RegisterAddress::Unnamed => pincer.resolved(addr) == pincer.last_used
                && pincer.register(addr) == (match pincer.last_used {
                RegisterAddress::Numeric(n) => pincer.numeric[n@],
                RegisterAddress::Named(n) => pincer.named[n@],
                RegisterAddress::Unnamed => Entries::empty(),
            }),
        }),
{
}

/// A paste gives the first entry of the register that is asked for that answers the request, and
/// names the register; it gives nothing only if no entry of the register answers the request.
pub proof fn paste_is_from_the_register_asked_for(
    pincer: PincerView,
    addr: RegisterAddress,
    want: MimeView,
)
    requires
        pincer.well_formed(),
        addr.in_range(),
    ensures
        (match pincer.pasted(addr, want) {
            Some((used, entry)) => {
                &&& used == (if addr is Unnamed {
                    pincer.last_used
                } else {
                    addr
                })
                &&& entry.0.answers(want)
                &&& exists|i: int|
                    0 <= i < pincer.register(addr).len() && #[trigger] pincer.register(addr)[i]
                        == entry && forall|j: int|
                        0 <= j < i ==> !(#[trigger] pincer.register(addr)[j]).0.answers(want)
            },
            None => forall|j: int|
                0 <= j < pincer.register(addr).len() ==> !(#[trigger] pincer.register(
                    addr,
                )[j]).0.answers(want),
        }),
{
    first_answer_is_given(pincer.register(addr), want);
    if answer(pincer.register(addr), want) is Some {
        let i = answer(pincer.register(addr), want)->0;
        assert(pincer.pasted(addr, want) == Some(
            (pincer.resolved(addr), pincer.register(addr)[i]),
        ));
    }
}

/// All registers can be listed if and only if each numbered and each named register can be
/// summarized.
pub proof fn listable_if_every_register_is_summarizable(pincer: PincerView)
    requires
        pincer.well_formed(),
    ensures
        pincer.is_listable() <==> (forall|n: int|
            0 <= n < 10 ==> is_summarizable(#[trigger] pincer.numeric[n])) && (forall|n: int|
            0 <= n < 26 ==> is_summarizable(#[trigger] pincer.named[n])),
{
    broadcast use {numeric_of_view, named_of_view};

    if pincer.is_listable() {
        assert forall|n: int| 0 <= n < 10 implies is_summarizable(
            #[trigger] pincer.numeric[n],
        ) by {
            let addr = RegisterAddress::Numeric(NumericT::of(n));
            assert(addr.in_range() && pincer.register(addr) == pincer.numeric[n]);
        }
        assert forall|n: int| 0 <= n < 26 implies is_summarizable(#[trigger] pincer.named[n]) by {
            let addr = RegisterAddress::Named(NamedT::of(n));
            assert(addr.in_range() && pincer.register(addr) == pincer.named[n]);
        }
    }
}

/// What was yanked into a numbered or a named register stays there through any yank into another
/// such register, and is still what a paste from it gives.
pub proof fn yanked_contents_stay(
    before: PincerView,
    addr: RegisterAddress,
    contents: Entries,
    other: RegisterAddress,
    others: Entries,
    want: MimeView,
)
    requires
        before.well_formed(),
        addr.in_range(),
        other.in_range(),
        addr != RegisterAddress::Unnamed,
        other != RegisterAddress::Unnamed,
        addr != other,
    ensures
        before.yanked(addr, contents).yanked(other, others).register(addr) == contents,
        before.yanked(addr, contents).yanked(other, others).pasted(addr, want) == before.yanked(
            addr,
            contents,
        ).pasted(addr, want),
{
    let once = before.yanked(addr, contents);
    yank_keeps_the_pincer_well_formed(before, addr, contents);
    yanked_contents_are_there(before, addr, contents);
    yank_keeps_other_registers(once, other, others, addr);
}

/// Of two yanks into one numbered or named register the second counts.
pub proof fn second_yank_counts(
    before: PincerView,
    addr: RegisterAddress,
    first: Entries,
    second: Entries,
)
    requires
        before.well_formed(),
        addr.in_range(),
        addr != RegisterAddress::Unnamed,
    ensures
        before.yanked(addr, first).yanked(addr, second) == before.yanked(addr, second),
{
    let twice = before.yanked(addr, first).yanked(addr, second);
    assert(twice.numeric =~= before.yanked(addr, second).numeric);
    assert(twice.named =~= before.yanked(addr, second).named);
}

} // verus!
