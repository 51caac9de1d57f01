//! Listings: registers with summaries of their contents.

use vstd::prelude::*;

use crate::address::{each_address_has_one_place, RegisterAddress};
use crate::register::{RegisterSummary, SummaryView};

verus! {

/// Register addresses, each with a summary.
pub type Summaries = Seq<(RegisterAddress, SummaryView)>;

/// A list of addresses with summaries, by its views.
pub open spec fn summaries_view(entries: Seq<(RegisterAddress, RegisterSummary)>) -> Summaries {
    entries.map_values(|l: (RegisterAddress, RegisterSummary)| (l.0, l.1@))
}

/// The addresses are in the order of all addresses, so that none is there twice.
pub open spec fn in_order(summaries: Summaries) -> bool {
    &&& forall|i: int| 0 <= i < summaries.len() ==> (#[trigger] summaries[i]).0.in_range()
    &&& forall|i: int, j: int|
        0 <= i < j < summaries.len() ==> (#[trigger] summaries[i]).0.rank() < (
        #[trigger] summaries[j]).0.rank()
}

/// The place in a listing where an address belongs: behind the last address that comes before it.
pub open spec fn place_in(summaries: Summaries, addr: RegisterAddress) -> int
    decreases summaries.len(),
{
    if summaries.len() == 0 {
        0
    } else if summaries.last().0.rank() < addr.rank() {
        summaries.len() as int
    } else {
        place_in(summaries.drop_last(), addr)
    }
}

/// The address is in the listing.
pub open spec fn has_address(summaries: Summaries, addr: RegisterAddress) -> bool {
    place_in(summaries, addr) < summaries.len() && summaries[place_in(summaries, addr)].0 == addr
}

/// The listing once an address is given a summary, in place of the one that it had.
pub open spec fn listed_with(
    summaries: Summaries,
    addr: RegisterAddress,
    summary: SummaryView,
) -> Summaries {
    if has_address(summaries, addr) {
        summaries.update(place_in(summaries, addr), (addr, summary))
    } else {
        summaries.insert(place_in(summaries, addr), (addr, summary))
    }
}

/// A `Listing` is a map from register addresses to summaries. It is walked in the order of the
/// addresses.
#[derive(Debug)]
pub struct Listing {
    entries: Vec<(RegisterAddress, RegisterSummary)>,
}

impl View for Listing {
    type V = Summaries;

    closed spec fn view(&self) -> Summaries {
        summaries_view(self.entries@)
    }
}

impl Listing {
    /// Each address has one summary, and the addresses are in order.
    #[verifier::type_invariant]
    pub open spec fn well_formed(self) -> bool {
        in_order(self@)
    }

    /// A listing of no registers.
    pub fn new() -> (r: Listing)
        ensures
            r@ == Summaries::empty(),
    {
        let entries: Vec<(RegisterAddress, RegisterSummary)> = Vec::new();
        assert(summaries_view(entries@) =~= Summaries::empty());
        Listing { entries }
    }

    fn find(&self, addr: RegisterAddress) -> (r: usize)
        ensures
            r == place_in(self@, addr),
            r <= self@.len(),
    {
        let rank: u8 = addr.place();
        let mut i: usize = self.entries.len();
        assert(self@.take(i as int) =~= self@);
        while i > 0 && self.entries[i - 1].0.place() >= rank
            invariant
                i <= self.entries@.len(),
                rank == addr.rank(),
                place_in(self@.take(i as int), addr) == place_in(self@, addr),
            decreases i,
        {
            assert(self@.take(i as int).drop_last() =~= self@.take(i - 1));
            assert(self@.take(i as int).last() == self@[i - 1]);
            i -= 1;
        }
        assert(i > 0 ==> self@.take(i as int).last() == self@[i - 1]);
        i
    }

    /// Give an address a summary. The summary that was there for the address is handed back.
    pub fn insert(&mut self, addr: RegisterAddress, summary: RegisterSummary) -> (r: Option<
        RegisterSummary,
    >)
        ensures
            final(self)@ == listed_with(old(self)@, addr, summary@),
            (if has_address(old(self)@, addr) {
                r matches Some(before) && before@ == old(self)@[place_in(old(self)@, addr)].1
            } else {
                r is None
            }),
    {
        addr.check_range();
        proof {
            use_type_invariant(&*self);
            listing_stays_in_order(self@, addr, summary@);
        }
        let i: usize = self.find(addr);
        let mut entries: Vec<(RegisterAddress, RegisterSummary)> = Vec::new();
        assert(summaries_view(entries@) =~= Summaries::empty());
        std::mem::swap(&mut entries, &mut self.entries);
        let r = if i < entries.len() && entries[i].0 == addr {
            let (_, before) = entries.remove(i);
            entries.insert(i, (addr, summary));
            Some(before)
        } else {
            entries.insert(i, (addr, summary));
            None
        };
        assert(summaries_view(entries@) =~= listed_with(old(self)@, addr, summary@));
        self.entries = entries;
        r
    }

    /// The addresses with their summaries, in order.
    pub fn entries(&self) -> (r: &Vec<(RegisterAddress, RegisterSummary)>)
        ensures
            summaries_view(r@) == self@,
            in_order(self@),
    {
        proof {
            use_type_invariant(self);
        }
        &self.entries
    }

    /// Take the listing apart into addresses with their summaries, in order.
    pub fn into_entries(self) -> (r: Vec<(RegisterAddress, RegisterSummary)>)
        ensures
            summaries_view(r@) == self@,
            in_order(self@),
    {
        proof {
            use_type_invariant(&self);
        }
        self.entries
    }
}

/// What comes before the place of an address in a listing is lower, and what comes at it or behind
/// it is not.
proof fn lemma_place_in(summaries: Summaries, addr: RegisterAddress)
    requires
        in_order(summaries),
    ensures
        0 <= place_in(summaries, addr) <= summaries.len(),
        forall|i: int|
            0 <= i < place_in(summaries, addr) ==> (#[trigger] summaries[i]).0.rank()
                < addr.rank(),
        forall|i: int|
            place_in(summaries, addr) <= i < summaries.len() ==> (#[trigger] summaries[i]).0.rank()
                >= addr.rank(),
    decreases summaries.len(),
{
    if summaries.len() > 0 {
        let front = summaries.drop_last();
        assert forall|i: int| 0 <= i < front.len() implies #[trigger] summaries[i] == front[i] by {}
        assert(in_order(front)) by {
            assert forall|i: int, j: int| 0 <= i < j < front.len() implies (
            #[trigger] front[i]).0.rank() < (#[trigger] front[j]).0.rank() by {
                assert(summaries[i].0.rank() < summaries[j].0.rank());
            }
            assert forall|i: int| 0 <= i < front.len() implies (
            #[trigger] front[i]).0.in_range() by {
                assert(summaries[i].0.in_range());
            }
        }
        if summaries.last().0.rank() >= addr.rank() {
            lemma_place_in(front, addr);
        }
    }
}

/// A listing stays in order when an address is given a summary.
pub proof fn listing_stays_in_order(
    summaries: Summaries,
    addr: RegisterAddress,
    summary: SummaryView,
)
    requires
        in_order(summaries),
        addr.in_range(),
    ensures
        in_order(listed_with(summaries, addr, summary)),
{
    lemma_place_in(summaries, addr);
    let p = place_in(summaries, addr);
    let after = listed_with(summaries, addr, summary);
    if !has_address(summaries, addr) {
        if p < summaries.len() && summaries[p].0.rank() == addr.rank() {
            each_address_has_one_place(addr, 0);
            each_address_has_one_place(summaries[p].0, 0);
        }
        assert forall|i: int, j: int| 0 <= i < j < after.len() implies (
        #[trigger] after[i]).0.rank() < (#[trigger] after[j]).0.rank() by {
            let a = if i < p {
                i
            } else {
                i - 1
            };
            let b = if j < p {
                j
            } else {
                j - 1
            };
            if i != p {
                assert(after[i] == summaries[a]);
            }
            if j != p {
                assert(after[j] == summaries[b]);
            }
            if i == p && p < summaries.len() && b > p {
                assert(summaries[p].0.rank() < summaries[b].0.rank());
            }
        }
        assert forall|i: int| 0 <= i < after.len() implies (#[trigger] after[i]).0.in_range() by {
            if i < p {
                assert(after[i] == summaries[i]);
            } else if i > p {
                assert(after[i] == summaries[i - 1]);
            }
        }
    }
}

/// A summary that an address is given is found under the address, and every other address keeps
/// the one that it had.
pub proof fn listing_holds_what_it_was_given(
    summaries: Summaries,
    addr: RegisterAddress,
    summary: SummaryView,
    other: (RegisterAddress, SummaryView),
)
    requires
        in_order(summaries),
        addr.in_range(),
        other.0 != addr,
    ensures
        listed_with(summaries, addr, summary).contains((addr, summary)),
        listed_with(summaries, addr, summary).contains(other) <==> summaries.contains(other),
{
    lemma_place_in(summaries, addr);
    let p = place_in(summaries, addr);
    let after = listed_with(summaries, addr, summary);
    assert(after[p] == (addr, summary));
    if summaries.contains(other) {
        let i = choose|i: int| 0 <= i < summaries.len() && summaries[i] == other;
        if has_address(summaries, addr) || i < p {
            assert(after[i] == other);
        } else {
            assert(after[i + 1] == other);
        }
    }
    if after.contains(other) {
        let i = choose|i: int| 0 <= i < after.len() && after[i] == other;
        if has_address(summaries, addr) || i < p {
            assert(summaries[i] == other);
        } else {
            assert(summaries[i - 1] == other);
        }
    }
}

/// The view of a list of addresses with summaries has each of them in its place.
pub proof fn summaries_are_viewed_one_by_one(entries: Seq<(RegisterAddress, RegisterSummary)>)
    ensures
        summaries_view(entries).len() == entries.len(),
        forall|i: int|
            0 <= i < entries.len() ==> (#[trigger] summaries_view(entries)[i]).0 == entries[i].0
                && summaries_view(entries)[i].1 == entries[i].1@,
{
}

/// An address is in a listing if and only if one of the entries is for it, and that entry is the
/// one at the place of the address.
pub proof fn address_is_found_in_its_place(summaries: Summaries, addr: RegisterAddress)
    requires
        in_order(summaries),
        addr.in_range(),
    ensures
        has_address(summaries, addr) <==> exists|i: int|
            0 <= i < summaries.len() && (#[trigger] summaries[i]).0 == addr,
        forall|i: int|
            0 <= i < summaries.len() && (#[trigger] summaries[i]).0 == addr ==> place_in(
                summaries,
                addr,
            ) == i,
{
    lemma_place_in(summaries, addr);
    let p = place_in(summaries, addr);
    assert forall|i: int| 0 <= i < summaries.len() && (#[trigger] summaries[i]).0
        == addr implies p == i by {
        if p < i {
            assert(summaries[p].0.rank() < summaries[i].0.rank());
        }
    }
    if has_address(summaries, addr) {
        assert(summaries[p].0 == addr);
    }
}

/// A summary for an address that has one takes its place; one for any other address makes the
/// listing longer by one.
pub proof fn listing_grows_with_new_addresses_alone(
    summaries: Summaries,
    addr: RegisterAddress,
    summary: SummaryView,
)
    requires
        in_order(summaries),
        addr.in_range(),
    ensures
        (exists|i: int| 0 <= i < summaries.len() && (#[trigger] summaries[i]).0 == addr)
            ==> listed_with(summaries, addr, summary).len() == summaries.len(),
        (forall|i: int| 0 <= i < summaries.len() ==> (#[trigger] summaries[i]).0 != addr)
            ==> listed_with(summaries, addr, summary).len() == summaries.len() + 1,
{
    lemma_place_in(summaries, addr);
    address_is_found_in_its_place(summaries, addr);
}

/// A listing is in order if the addresses ascend from each entry to any later one.
pub proof fn listing_in_order_ascends(summaries: Summaries, i: int, j: int)
    requires
        in_order(summaries),
        0 <= i < j < summaries.len(),
    ensures
        summaries[i].0.rank() < summaries[j].0.rank(),
        summaries[i].0 != summaries[j].0,
{
}

} // verus!
