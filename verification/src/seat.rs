//! Seats, and the registers of each.

use vstd::prelude::*;
use vstd::string::StringExecFns;

use crate::pincer::{Pincer, PincerView};
use crate::text::{debug_text, quoted_text};

verus! {

/// The name of a seat.
pub type SeatIdentifier = String;

/// Which seat a request is meant for.
#[derive(Debug)]
pub enum SeatSpecification {
    /// Any seat
    Unspecified,
    /// The seat of this name
    Specified(SeatIdentifier),
}

/// Which seat a request is meant for, by its view.
pub enum SeatView {
    Unspecified,
    Specified(Seq<char>),
}

impl View for SeatSpecification {
    type V = SeatView;

    open spec fn view(&self) -> SeatView {
        match self {
            SeatSpecification::Unspecified => SeatView::Unspecified,
            SeatSpecification::Specified(name) => SeatView::Specified(name@),
        }
    }
}

impl SeatView {
    /// How the specification is put in messages.
    pub open spec fn shown(self) -> Seq<char> {
        match self {
            SeatView::Unspecified => "Unspecified"@,
            SeatView::Specified(name) => "Specified("@ + quoted_text(name) + ")"@,
        }
    }
}

impl SeatSpecification {
    /// How the specification is put in messages.
    pub fn display(&self) -> (r: String)
        ensures
            r@ == self@.shown(),
    {
        match self {
            SeatSpecification::Unspecified => "Unspecified".to_owned(),
            SeatSpecification::Specified(name) => {
                "Specified(".to_owned().concat(&debug_text(name)).concat(")")
            },
        }
    }
}

/// Seats by name, each with what its Pincer holds.
pub type Seats = Seq<(Seq<char>, PincerView)>;

/// Names of seats and their Pincers side by side, by their views.
spec fn seats_view(names: Seq<SeatIdentifier>, pincers: Seq<Pincer>) -> Seats {
    Seq::new(names.len(), |i: int| (names[i]@, pincers[i]@))
}

/// No two seats have the same name.
pub open spec fn names_differ(seats: Seats) -> bool {
    forall|i: int, j: int|
        0 <= i < j < seats.len() ==> (#[trigger] seats[i]).0 != (#[trigger] seats[j]).0
}

/// The seat of a name.
pub open spec fn seat_named(seats: Seats, name: Seq<char>) -> Option<int>
    decreases seats.len(),
{
    if seats.len() == 0 {
        None
    } else {
        match seat_named(seats.drop_last(), name) {
            Some(i) => Some(i),
            None => if seats.last().0 == name {
                Some(seats.len() - 1)
            } else {
                None
            },
        }
    }
}

/// The seat that is meant: the first if it is left open, else the one of the given name.
pub open spec fn seat_meant(seats: Seats, seat: SeatView) -> Option<int> {
    match seat {
        SeatView::Unspecified => if seats.len() > 0 {
            Some(0int)
        } else {
            None
        },
        SeatView::Specified(name) => seat_named(seats, name),
    }
}

/// The seats once a seat is given a Pincer, in place of the one that it had.
pub open spec fn seat_set(seats: Seats, name: Seq<char>, pincer: PincerView) -> Seats {
    match seat_named(seats, name) {
        Some(i) => seats.update(i, (name, pincer)),
        None => seats.push((name, pincer)),
    }
}

/// The seats that are managed, each with its Pincer, in the order in which the seats first came.
#[derive(Debug)]
pub struct SeatPincerMap {
    names: Vec<SeatIdentifier>,
    pincers: Vec<Pincer>,
}

impl View for SeatPincerMap {
    type V = Seats;

    closed spec fn view(&self) -> Seats {
        seats_view(self.names@, self.pincers@)
    }
}

impl SeatPincerMap {
    /// Each seat has one Pincer.
    #[verifier::type_invariant]
    pub closed spec fn well_formed(self) -> bool {
        &&& self.names@.len() == self.pincers@.len()
        &&& forall|i: int, j: int|
            0 <= i < j < self.names@.len() ==> (#[trigger] self.names@[i])@ != (
            #[trigger] self.names@[j])@
    }

    /// No seats.
    pub fn new() -> (r: SeatPincerMap)
        ensures
            r@ == Seats::empty(),
    {
        let names: Vec<SeatIdentifier> = Vec::new();
        let pincers: Vec<Pincer> = Vec::new();
        assert(seats_view(names@, pincers@) =~= Seats::empty());
        SeatPincerMap { names, pincers }
    }

    fn find_named(&self, name: &SeatIdentifier) -> (r: Option<usize>)
        ensures
            (match r {
                Some(i) => seat_named(self@, name@) == Some(i as int) && i < self@.len(),
                None => seat_named(self@, name@) is None,
            }),
    {
        for i in 0..self.names.len()
            invariant
                seat_named(self@.take(i as int), name@) is None,
        {
            assert(self@.take(i + 1).drop_last() =~= self@.take(i as int));
            if self.names[i] == *name {
                proof {
                    lemma_seat_named_prefix(self@, name@, i + 1);
                }
                return Some(i);
            }
        }
        assert(self@.take(self@.len() as int) =~= self@);
        None
    }

    /// The place of the seat that is meant.
    pub(crate) fn find(&self, seat: &SeatSpecification) -> (r: Option<usize>)
        ensures
            (match r {
                Some(i) => seat_meant(self@, seat@) == Some(i as int) && i < self@.len(),
                None => seat_meant(self@, seat@) is None,
            }),
    {
        match seat {
            SeatSpecification::Unspecified => if self.names.len() > 0 {
                Some(0)
            } else {
                None
            },
            SeatSpecification::Specified(name) => self.find_named(name),
        }
    }

    /// Give a seat a Pincer. The Pincer that the seat had is handed back.
    pub fn insert(&mut self, name: SeatIdentifier, pincer: Pincer) -> (r: Option<Pincer>)
        ensures
            final(self)@ == seat_set(old(self)@, name@, pincer@),
            names_differ(final(self)@),
            (match seat_named(old(self)@, name@) {
                Some(i) => r matches Some(before) && before@ == old(self)@[i].1,
                None => r is None,
            }),
    {
        proof {
            use_type_invariant(&*self);
            lemma_seat_named(self@, name@);
        }
        let found = self.find_named(&name);
        match found {
            Some(i) => {
                let mut before = pincer;
                std::mem::swap(&mut self.pincers[i], &mut before);
                assert(self@ =~= seat_set(old(self)@, name@, pincer@));
                Some(before)
            },
            None => {
                let mut map = SeatPincerMap::new();
                std::mem::swap(&mut map, self);
                let SeatPincerMap { mut names, mut pincers } = map;
                assert forall|j: int| 0 <= j < names@.len() implies (#[trigger] names@[j])@
                    != name@ by {
                    assert(old(self)@[j].0 == names@[j]@);
                }
                names.push(name);
                pincers.push(pincer);
                assert(seats_view(names@, pincers@) =~= seat_set(old(self)@, name@, pincer@));
                *self = SeatPincerMap { names, pincers };
                None
            },
        }
    }

    /// The Pincer of the seat of a name.
    pub fn get(&self, name: &SeatIdentifier) -> (r: Option<&Pincer>)
        ensures
            (match seat_named(self@, name@) {
                Some(i) => r matches Some(pincer) && pincer@ == self@[i].1,
                None => r is None,
            }),
    {
        match self.find_named(name) {
            Some(i) => Some(self.at(i).1),
            None => None,
        }
    }

    /// The Pincer of the seat of a name, to be changed.
    pub fn get_mut(&mut self, name: &SeatIdentifier) -> (r: Option<&mut Pincer>)
        ensures
            (match seat_named(old(self)@, name@) {
                Some(i) => {
                    &&& r matches Some(pincer)
                    &&& pincer@ == old(self)@[i].1
                    &&& final(self)@ == old(self)@.update(i, (name@, final(pincer)@))
                },
                None => r is None && final(self)@ == old(self)@,
            }),
    {
        proof {
            lemma_seat_named(self@, name@);
        }
        match self.find_named(name) {
            Some(i) => Some(self.at_mut(i).1),
            None => None,
        }
    }

    /// The name of the seat at a place, and its Pincer.
    pub(crate) fn at(&self, i: usize) -> (r: (&SeatIdentifier, &Pincer))
        requires
            i < self@.len(),
        ensures
            r.0@ == self@[i as int].0,
            r.1@ == self@[i as int].1,
    {
        proof {
            use_type_invariant(self);
        }
        (&self.names[i], &self.pincers[i])
    }

    /// The name of the seat at a place, and its Pincer to be changed.
    pub(crate) fn at_mut(&mut self, i: usize) -> (r: (&SeatIdentifier, &mut Pincer))
        requires
            i < old(self)@.len(),
        ensures
            names_differ(old(self)@),
            r.0@ == old(self)@[i as int].0,
            r.1@ == old(self)@[i as int].1,
            final(self)@ == old(self)@.update(i as int, (old(self)@[i as int].0, final(r.1)@)),
    {
        proof {
            use_type_invariant(&*self);
        }
        (&self.names[i], &mut self.pincers[i])
    }
}

/// What is found among the first `n` seats is found among all.
proof fn lemma_seat_named_prefix(seats: Seats, name: Seq<char>, n: int)
    requires
        0 <= n <= seats.len(),
        seat_named(seats.take(n), name) is Some,
    ensures
        seat_named(seats, name) == seat_named(seats.take(n), name),
    decreases seats.len(),
{
    if n < seats.len() {
        assert(seats.drop_last().take(n) =~= seats.take(n));
        lemma_seat_named_prefix(seats.drop_last(), name, n);
    } else {
        assert(seats.take(n) =~= seats);
    }
}

/// What `seat_named` finds: a seat of that name, or nothing if there is none.
proof fn lemma_seat_named(seats: Seats, name: Seq<char>)
    ensures
        (match seat_named(seats, name) {
            Some(i) => 0 <= i < seats.len() && seats[i].0 == name,
            None => forall|j: int| 0 <= j < seats.len() ==> (#[trigger] seats[j]).0 != name,
        }),
    decreases seats.len(),
{
    if seats.len() > 0 {
        let front = seats.drop_last();
        lemma_seat_named(front, name);
        assert forall|j: int| 0 <= j < front.len() implies #[trigger] seats[j] == front[j] by {}
    }
}

/// The seat that is meant is one of the seats, and of the given name if there is one. None is meant
/// only if there is none of that name, or none at all.
pub proof fn seat_meant_is_a_seat(seats: Seats, seat: SeatView)
    ensures
        (match seat_meant(seats, seat) {
            Some(i) => {
                &&& 0 <= i < seats.len()
                &&& seat matches SeatView::Specified(name) ==> seats[i].0 == name
            },
            None => match seat {
                SeatView::Unspecified => seats.len() == 0,
                SeatView::Specified(name) => forall|j: int|
                    0 <= j < seats.len() ==> (#[trigger] seats[j]).0 != name,
            },
        }),
{
    if let SeatView::Specified(name) = seat {
        lemma_seat_named(seats, name);
    }
}

/// A seat that was given a Pincer is the one that is meant by its name, and has that Pincer; every
/// other seat keeps the one that it had.
pub proof fn seat_has_the_pincer_that_it_was_given(
    seats: Seats,
    name: Seq<char>,
    pincer: PincerView,
    other: Seq<char>,
)
    ensures
        seat_meant(seat_set(seats, name, pincer), SeatView::Specified(name)) matches Some(i)
            && seat_set(seats, name, pincer)[i] == (name, pincer),
        other != name ==> seat_meant(seat_set(seats, name, pincer), SeatView::Specified(other))
            == seat_meant(seats, SeatView::Specified(other)),
        other != name ==> (seat_meant(seats, SeatView::Specified(other)) matches Some(i)
            ==> seat_set(seats, name, pincer)[i] == seats[i]),
{
    let after = seat_set(seats, name, pincer);
    lemma_seat_named(seats, name);
    lemma_seat_named(seats, other);
    lemma_seat_named(after, name);
    lemma_seat_named(after, other);
    lemma_first_seat_is_meant(seats, name);
    lemma_first_seat_is_meant(seats, other);
    lemma_first_seat_is_meant(after, name);
    lemma_first_seat_is_meant(after, other);
    assert forall|j: int| 0 <= j < seats.len() implies (#[trigger] after[j]).0 == seats[j].0 by {}
    match seat_named(seats, name) {
        Some(i) => {
            assert(after[i].0 == name);
        },
        None => {
            assert(after[seats.len() as int].0 == name);
        },
    }
    if other != name {
        if seat_named(seats, other) is Some {
            assert(after[seat_named(seats, other)->0].0 == other);
        }
        if seat_named(after, other) is Some {
            assert(seats[seat_named(after, other)->0].0 == other);
        }
    }
}

/// Of several seats of a name the first is found.
proof fn lemma_first_seat_is_meant(seats: Seats, name: Seq<char>)
    ensures
        seat_named(seats, name) matches Some(i) ==> forall|j: int|
            0 <= j < i ==> (#[trigger] seats[j]).0 != name,
    decreases seats.len(),
{
    if seats.len() > 0 {
        let front = seats.drop_last();
        lemma_first_seat_is_meant(front, name);
        lemma_seat_named(front, name);
        assert forall|j: int| 0 <= j < front.len() implies #[trigger] seats[j] == front[j] by {}
    }
}

/// The view of a seat specification has the name that is specified.
pub proof fn seat_is_viewed_by_its_name(seat: SeatSpecification)
    ensures
        (match seat {
            SeatSpecification::Unspecified => seat@ is Unspecified,
            SeatSpecification::Specified(name) => seat@ matches SeatView::Specified(n) && n
                == name@,
        }),
{
}

/// A seat is put in messages by its quoted name, or as unspecified.
pub proof fn seat_is_shown_by_its_name(name: Seq<char>)
    ensures
        ({
            let shown = SeatView::Specified(name).shown();
            let n = 10 + quoted_text(name).len() as int;
            &&& shown.take(10) == seq!['S', 'p', 'e', 'c', 'i', 'f', 'i', 'e', 'd', '(']
            &&& shown.subrange(10, n) == quoted_text(name)
            &&& shown.skip(n) == seq![')']
        }),
        SeatView::Unspecified.shown() == seq![
            'U',
            'n',
            's',
            'p',
            'e',
            'c',
            'i',
            'f',
            'i',
            'e',
            'd',
        ],
{
    reveal_strlit("Specified(");
    reveal_strlit(")");
    reveal_strlit("Unspecified");
    let shown = SeatView::Specified(name).shown();
    let n = 10 + quoted_text(name).len() as int;
    assert(shown.take(10) =~= seq!['S', 'p', 'e', 'c', 'i', 'f', 'i', 'e', 'd', '(']);
    assert(shown.subrange(10, n) =~= quoted_text(name));
    assert(shown.skip(n) =~= seq![')']);
    assert("Unspecified"@ =~= seq!['U', 'n', 's', 'p', 'e', 'c', 'i', 'f', 'i', 'e', 'd']);
}

/// A seat is found by its name, and not found only if no seat has the name.
pub proof fn seat_is_found_by_its_name(seats: Seats, name: Seq<char>)
    ensures
        (match seat_named(seats, name) {
            Some(i) => {
                &&& 0 <= i < seats.len()
                &&& seats[i].0 == name
                &&& forall|j: int| 0 <= j < i ==> (#[trigger] seats[j]).0 != name
            },
            None => forall|j: int| 0 <= j < seats.len() ==> (#[trigger] seats[j]).0 != name,
        }),
{
    lemma_seat_named(seats, name);
    lemma_first_seat_is_meant(seats, name);
}

/// Giving a seat a Pincer changes no other seat: a seat that is new is put behind all others, and
/// every seat that was there stays in its place.
pub proof fn giving_a_pincer_changes_one_seat(
    seats: Seats,
    name: Seq<char>,
    pincer: PincerView,
)
    requires
        names_differ(seats),
    ensures
        forall|j: int|
            0 <= j < seats.len() ==> #[trigger] seat_set(seats, name, pincer)[j] == (
            if seats[j].0 == name {
                (name, pincer)
            } else {
                seats[j]
            }),
        (exists|j: int| 0 <= j < seats.len() && (#[trigger] seats[j]).0 == name) ==> seat_set(
            seats,
            name,
            pincer,
        ).len() == seats.len(),
        (forall|j: int| 0 <= j < seats.len() ==> (#[trigger] seats[j]).0 != name) ==> seat_set(
            seats,
            name,
            pincer,
        ) == seats.push((name, pincer)),
{
    lemma_seat_named(seats, name);
    if seat_named(seats, name) is Some {
        let i = seat_named(seats, name)->0;
        assert forall|j: int| 0 <= j < seats.len() implies #[trigger] seat_set(
            seats,
            name,
            pincer,
        )[j] == (if seats[j].0 == name {
            (name, pincer)
        } else {
            seats[j]
        }) by {
            if j < i {
                assert(seats[j].0 != seats[i].0);
            }
            if i < j {
                assert(seats[i].0 != seats[j].0);
            }
        }
    }
}

/// If the seat is left open, the first is meant, if there is any.
pub proof fn open_seat_is_the_first(seats: Seats)
    ensures
        seats.len() > 0 ==> seat_meant(seats, SeatView::Unspecified) == Some(0int),
        seats.len() == 0 ==> seat_meant(seats, SeatView::Unspecified) is None,
{
}

/// Looking a seat up by its name and specifying it by its name come to the same.
pub proof fn specified_seat_is_the_one_named(seats: Seats, name: Seq<char>)
    ensures
        seat_meant(seats, SeatView::Specified(name)) == seat_named(seats, name),
{
}

} // verus!
