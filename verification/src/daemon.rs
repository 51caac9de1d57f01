//! Requests and how they are answered.

use vstd::prelude::*;
use vstd::string::StringExecFns;

use crate::address::each_address_has_one_place;
use crate::error::Error;
use crate::listing::{in_order, Listing, Summaries};
use crate::mime::MimeView;
use crate::pincer::{
    listable_if_every_register_is_summarizable, listing_is_ordered_and_complete,
    yank_keeps_other_registers, yank_keeps_the_pincer_well_formed, yanked_contents_are_there, Pincer,
    PincerView,
};
use crate::register::{
    answer, distinct_entries_are_kept, first_answer_is_given, is_summarizable, summary, total_len,
    Entries, MimeType, Register, RegisterAddress, SummaryView,
};
use crate::seat::{
    seat_is_found_by_its_name, seat_meant, seat_meant_is_a_seat, seat_named, SeatPincerMap,
    SeatSpecification, SeatView, Seats,
};

verus! {

/// Commands that manipulate the daemon's register pointer
#[derive(Clone, Copy, Debug)]
pub enum RegisterCommand {
    /// Command to set the daemon's register pointer
    Select {
        /// What the register pointer should be set to
        address: RegisterAddress,
    },
    /// Command to get the daemon's register pointer
    Active {},
    /// Command to clear the daemon's register pointer
    Clear {},
}

/// Possible requests to the daemon. Each variant has a corresponding [`ResponseType`] variant for
/// the response from the daemon.
#[derive(Debug)]
pub enum RequestType {
    /// Yank into the the specified register address, or into `"0` if Unnamed
    Yank(RegisterAddress, Register),
    /// Paste from the the specified register address, or the previous yank if Unnamed, accepting
    /// specific MIME types
    Paste(RegisterAddress, Vec<MimeType>),
    /// Show all the contents of the specified register address, or of the most recent yank if
    /// Unnamed
    Show(RegisterAddress),
    /// Like [`Show`](RequestType::Show), but for all registers
    List(),
    /// Manipulate the daemon's register pointer
    Register(RegisterCommand),
}

/// A request to the daemon
#[derive(Debug)]
pub struct Request {
    /// The seat to which the request applies
    pub seat: SeatSpecification,
    /// The type of the request, and its arguments, if any
    pub request: RequestType,
}

/// Possible responses from the daemon. Each variant is the response to a corresponding
/// [`RequestType`] variant.
#[derive(Debug)]
pub enum ResponseType {
    /// Contains the register address into which the data was yanked, and the total number of bytes
    /// yanked.
    Yank(RegisterAddress, usize),
    /// Contains the register address from the which data was pasted, and a buffer for the data
    Paste(RegisterAddress, MimeType, Vec<u8>),
    /// Contains the register address which shown, and a map of MIME types to data buffers
    Show(RegisterAddress, Register),
    /// Contains the addresses of the registers that are not empty, in order, with summaries of
    /// their contents
    List(Listing),
    /// Contains the daemon's new register pointer
    Register(RegisterAddress),
}

/// A response from the daemon. An `Ok` variant if the request completed sucessfully, otherwise
/// an `Err` containing an error message.
pub type Response = Result<ResponseType, Error>;

/// MIME type handling for yanking.
#[derive(Debug, PartialEq, Eq)]
pub enum YankMime {
    /// Detect the MIME type automatically from the data.
    Autodetect,
    /// Use this MIME type.
    Specific(MimeType),
}

impl Clone for YankMime {
    fn clone(&self) -> (r: YankMime)
        ensures
            self is Autodetect ==> r is Autodetect,
            self matches YankMime::Specific(mime) ==> r matches YankMime::Specific(copy) && copy@
                == mime@,
    {
        match self {
            YankMime::Autodetect => YankMime::Autodetect,
            YankMime::Specific(mime) => YankMime::Specific(mime.clone()),
        }
    }
}

/// What the clipboard is to do.
#[derive(Debug)]
pub enum ClipboardMessage {
    /// Offer the contents of the registers on a seat
    OfferOnSeat(String),
}

/// A request by its view.
pub enum RequestView {
    Yank(RegisterAddress, Entries),
    Paste(RegisterAddress, Seq<MimeView>),
    Show(RegisterAddress),
    List,
    Register(RegisterCommand),
}

/// A list of MIME types, by its views.
pub open spec fn mimes_view(mimes: Seq<MimeType>) -> Seq<MimeView> {
    mimes.map_values(|m: MimeType| m@)
}

impl View for RequestType {
    type V = RequestView;

    open spec fn view(&self) -> RequestView {
        match self {
            RequestType::Yank(addr, register) => RequestView::Yank(*addr, register@),
            RequestType::Paste(addr, mimes) => RequestView::Paste(*addr, mimes_view(mimes@)),
            RequestType::Show(addr) => RequestView::Show(*addr),
            RequestType::List() => RequestView::List,
            RequestType::Register(command) => RequestView::Register(*command),
        }
    }
}

/// A response by its view.
pub enum ResponseView {
    Yank(RegisterAddress, nat),
    Paste(RegisterAddress, MimeView, Seq<u8>),
    Show(RegisterAddress, Entries),
    List(Summaries),
    Register(RegisterAddress),
}

impl View for ResponseType {
    type V = ResponseView;

    open spec fn view(&self) -> ResponseView {
        match self {
            ResponseType::Yank(addr, n) => ResponseView::Yank(*addr, *n as nat),
            ResponseType::Paste(addr, mime, data) => ResponseView::Paste(*addr, mime@, data@),
            ResponseType::Show(addr, register) => ResponseView::Show(*addr, register@),
            ResponseType::List(listing) => ResponseView::List(listing@),
            ResponseType::Register(addr) => ResponseView::Register(*addr),
        }
    }
}

/// A response or an error message, by its views.
pub open spec fn response_view(response: Response) -> Result<ResponseView, Seq<char>> {
    match response {
        Ok(r) => Ok(r@),
        Err(message) => Err(message@),
    }
}

/// The message that none of the requested types is in the register.
pub const NO_SUCH_TYPE: &'static str = "Register does not contain any of the requested MIME types";

/// What a paste gives that accepts several types, in order of preference.
pub open spec fn first_pasted(
    pincer: PincerView,
    addr: RegisterAddress,
    mimes: Seq<MimeView>,
) -> Option<(RegisterAddress, (MimeView, Seq<u8>))>
    decreases mimes.len(),
{
    if mimes.len() == 0 {
        None
    } else {
        match first_pasted(pincer, addr, mimes.drop_last()) {
            Some(pasted) => Some(pasted),
            None => pincer.pasted(addr, mimes.last()),
        }
    }
}

/// The response to a request to paste.
pub open spec fn paste_response(
    pincer: PincerView,
    addr: RegisterAddress,
    mimes: Seq<MimeView>,
) -> Result<ResponseView, Seq<char>> {
    match first_pasted(pincer, addr, mimes) {
        Some((used, (mime, data))) => Ok(ResponseView::Paste(used, mime, data)),
        None => Err(NO_SUCH_TYPE@),
    }
}

/// The active register once a command on it is carried out.
pub open spec fn commanded(active: RegisterAddress, command: RegisterCommand) -> RegisterAddress {
    match command {
        RegisterCommand::Select { address } => address,
        RegisterCommand::Active {  } => active,
        RegisterCommand::Clear {  } => RegisterAddress::Unnamed,
    }
}

impl RequestView {
    /// The request can be carried out: all that is to be summarized can be, and the bytes that are
    /// to be yanked can be counted.
    pub open spec fn can_be_executed(self, pincer: PincerView) -> bool {
        match self {
            RequestView::Yank(_, entries) => total_len(entries) <= usize::MAX,
            RequestView::List => pincer.is_listable(),
            _ => true,
        }
    }

    /// The state once the request is carried out.
    pub open spec fn next(self, pincer: PincerView) -> PincerView {
        match self {
            RequestView::Yank(addr, entries) => pincer.yanked(addr, entries),
            RequestView::Register(command) => PincerView {
                active: commanded(pincer.active, command),
                ..pincer
            },
            _ => pincer,
        }
    }

    /// The response to the request.
    pub open spec fn response(self, pincer: PincerView) -> Result<ResponseView, Seq<char>> {
        match self {
            RequestView::Yank(addr, entries) => Ok(
                ResponseView::Yank(self.next(pincer).last_used, total_len(entries)),
            ),
            RequestView::Paste(addr, mimes) => paste_response(pincer, addr, mimes),
            RequestView::Show(addr) => Ok(ResponseView::Show(addr, pincer.register(addr))),
            RequestView::List => Ok(ResponseView::List(pincer.listed(37))),
            RequestView::Register(command) => Ok(
                ResponseView::Register(commanded(pincer.active, command)),
            ),
        }
    }
}

/// Paste the first of several MIME types that the register has data of.
pub fn get_paste(pincer: &Pincer, addr: RegisterAddress, mimes: &Vec<MimeType>) -> (r: Response)
    ensures
        response_view(r) == paste_response(pincer@, addr, mimes_view(mimes@)),
{
    let ghost all = mimes_view(mimes@);
    for i in 0..mimes.len()
        invariant
            all == mimes_view(mimes@),
            first_pasted(pincer@, addr, all.take(i as int)) is None,
    {
        assert(all.take(i + 1).drop_last() =~= all.take(i as int));
        match pincer.paste_from(addr, &mimes[i]) {
            Some((used, mime, data)) => {
                proof {
                    lemma_first_pasted_prefix(pincer@, addr, all, i + 1);
                }
                let copy = data.clone();
                assert(copy@ =~= data@);
                return Ok(ResponseType::Paste(used, mime.clone(), copy));
            },
            None => {},
        }
    }
    assert(all.take(all.len() as int) =~= all);
    Err(NO_SUCH_TYPE.to_owned())
}

/// What is pasted with the first `n` types is pasted with all.
proof fn lemma_first_pasted_prefix(
    pincer: PincerView,
    addr: RegisterAddress,
    mimes: Seq<MimeView>,
    n: int,
)
    requires
        0 <= n <= mimes.len(),
        first_pasted(pincer, addr, mimes.take(n)) is Some,
    ensures
        first_pasted(pincer, addr, mimes) == first_pasted(pincer, addr, mimes.take(n)),
    decreases mimes.len(),
{
    if n < mimes.len() {
        assert(mimes.drop_last().take(n) =~= mimes.take(n));
        lemma_first_pasted_prefix(pincer, addr, mimes.drop_last(), n);
    } else {
        assert(mimes.take(n) =~= mimes);
    }
}

/// A response, and what the clipboard is to be told before it is sent.
#[derive(Debug)]
pub struct Outcome {
    pub response: Response,
    pub message: Option<ClipboardMessage>,
}

/// The seat on which the clipboard is to offer what was yanked.
pub open spec fn offered_seat(message: Option<ClipboardMessage>) -> Option<Seq<char>> {
    match message {
        Some(ClipboardMessage::OfferOnSeat(seat)) => Some(seat@),
        None => None,
    }
}

/// Carry out a request on the Pincer of a seat. After a yank the clipboard is to offer the new
/// contents on the seat.
pub fn execute_request(req: RequestType, seat: &str, pincer: &mut Pincer) -> (r: Outcome)
    requires
        req@.can_be_executed(old(pincer)@),
    ensures
        final(pincer)@ == req@.next(old(pincer)@),
        response_view(r.response) == req@.response(old(pincer)@),
        offered_seat(r.message) == (if req@ is Yank {
            Some(seat@)
        } else {
            None
        }),
{
    match req {
        RequestType::Yank(addr, register) => {
            proof {
                use_type_invariant(&register);
                distinct_entries_are_kept(register@);
            }
            match pincer.yank_into(addr, register.into_entries().into_iter()) {
                Ok((used, n)) => Outcome {
                    response: Ok(ResponseType::Yank(used, n)),
                    message: Some(ClipboardMessage::OfferOnSeat(seat.to_owned())),
                },
                Err(message) => Outcome { response: Err(message), message: None },
            }
        },
        RequestType::Paste(addr, mimes) => Outcome {
            response: get_paste(pincer, addr, &mimes),
            message: None,
        },
        RequestType::Show(addr) => Outcome {
            response: Ok(ResponseType::Show(addr, pincer.register(addr).clone())),
            message: None,
        },
        RequestType::List() => match pincer.list() {
            Ok(listing) => Outcome { response: Ok(ResponseType::List(listing)), message: None },
            Err(message) => Outcome { response: Err(message), message: None },
        },
        RequestType::Register(command) => {
            match command {
                RegisterCommand::Clear {  } => {
                    pincer.set_active(RegisterAddress::default());
                },
                RegisterCommand::Select { address } => {
                    pincer.set_active(address);
                },
                RegisterCommand::Active {  } => {},
            }
            Outcome { response: Ok(ResponseType::Register(pincer.get_active())), message: None }
        },
    }
}

/// The message that the seat of a request is not managed.
pub open spec fn not_managed(seat: SeatView) -> Seq<char> {
    "Received request for seat "@ + seat.shown()
        + ", but its clipboard is not managed by this daemon"@
}

/// The request can be carried out on the seat that is meant, if there is such a seat.
pub open spec fn can_be_handled(seats: Seats, seat: SeatView, request: RequestView) -> bool {
    seat_meant(seats, seat) matches Some(i) ==> request.can_be_executed(seats[i].1)
}

/// The seats once a request is carried out on the seat that is meant.
pub open spec fn seats_after(seats: Seats, seat: SeatView, request: RequestView) -> Seats {
    match seat_meant(seats, seat) {
        Some(i) => seats.update(i, (seats[i].0, request.next(seats[i].1))),
        None => seats,
    }
}

/// The response to a request for a seat.
pub open spec fn seat_response(seats: Seats, seat: SeatView, request: RequestView) -> Result<
    ResponseView,
    Seq<char>,
> {
    match seat_meant(seats, seat) {
        Some(i) => request.response(seats[i].1),
        None => Err(not_managed(seat)),
    }
}

/// Whether a request can be carried out: all that is to be summarized is valid UTF-8, and the
/// bytes that are to be yanked can be counted.
pub fn can_handle(req: &Request, pincers: &SeatPincerMap) -> (r: bool)
    ensures
        r == can_be_handled(pincers@, req.seat@, req.request@),
{
    match pincers.find(&req.seat) {
        Some(i) => match &req.request {
            RequestType::Yank(_, register) => register.total_len().is_some(),
            RequestType::List() => pincers.at(i).1.is_listable(),
            _ => true,
        },
        None => true,
    }
}

/// Handle an arriving request: carry it out on the seat that is meant.
pub fn handle_request(req: Request, pincers: &mut SeatPincerMap) -> (r: Outcome)
    requires
        can_be_handled(old(pincers)@, req.seat@, req.request@),
    ensures
        final(pincers)@ == seats_after(old(pincers)@, req.seat@, req.request@),
        response_view(r.response) == seat_response(old(pincers)@, req.seat@, req.request@),
        offered_seat(r.message) == (match seat_meant(old(pincers)@, req.seat@) {
            Some(i) if req.request@ is Yank => Some(old(pincers)@[i].0),
            _ => None,
        }),
{
    match pincers.find(&req.seat) {
        Some(i) => {
            let (seat, pincer) = pincers.at_mut(i);
            execute_request(req.request, seat, pincer)
        },
        None => {
            let message = "Received request for seat ".to_owned().concat(
                &req.seat.display(),
            ).concat(", but its clipboard is not managed by this daemon");
            Outcome { response: Err(message), message: None }
        },
    }
}

/// The response once the clipboard was told what it had to be told: if the message could not be
/// passed on, that is the response.
pub fn conclude(response: Response, passed: Result<(), Error>) -> (r: Response)
    ensures
        response_view(r) == (match passed {
            Ok(_) => response_view(response),
            Err(e) => Err("Could not pass message to Clipboard: "@ + e@),
        }),
{
    match passed {
        Ok(_) => response,
        Err(e) => Err("Could not pass message to Clipboard: ".to_owned().concat(&e)),
    }
}

/// Why a request could not be received.
#[derive(Clone, Copy, Debug, PartialEq, Eq, Structural)]
pub enum ReceiveError {
    TimedOut,
    ConnectionReset,
    ConnectionAborted,
    InvalidData,
    Other,
}

/// What to make of a request that could not be received.
#[derive(Clone, Copy, Debug, PartialEq, Eq, Structural)]
pub enum Received {
    /// The client went away, which is no error
    Disconnected,
    /// The client sent what is no request
    Malformed,
    /// Any other error
    Failed,
}

/// Decide what to make of a request that could not be received.
pub fn judge_receive_error(error: ReceiveError) -> (r: Received)
    ensures
        r == Received::Disconnected <==> error is TimedOut || error is ConnectionReset
            || error is ConnectionAborted,
        r == Received::Malformed <==> error is InvalidData,
        r == Received::Failed <==> error is Other,
{
    match error {
        ReceiveError::TimedOut | ReceiveError::ConnectionReset
        | ReceiveError::ConnectionAborted => Received::Disconnected,
        ReceiveError::InvalidData => Received::Malformed,
        ReceiveError::Other => Received::Failed,
    }
}

/// A response that is no error is of the variant that corresponds to the request.
pub proof fn response_corresponds_to_request(request: RequestView, pincer: PincerView)
    ensures
        request.response(pincer) matches Ok(response) ==> {
            &&& request is Yank <==> response is Yank
            &&& request is Paste <==> response is Paste
            &&& request is Show <==> response is Show
            &&& request is List <==> response is List
            &&& request is Register <==> response is Register
        },
{
}

/// The one request that is answered with an error is one to paste types of which the register has
/// none.
pub proof fn only_a_paste_can_fail(request: RequestView, pincer: PincerView)
    ensures
        request.response(pincer) is Err <==> (request matches RequestView::Paste(addr, mimes)
            && forall|i: int|
            0 <= i < mimes.len() ==> pincer.pasted(addr, #[trigger] mimes[i]) is None),
        request.response(pincer) matches Err(message) ==> message == NO_SUCH_TYPE@,
{
    if let RequestView::Paste(addr, mimes) = request {
        first_preferred_type_is_pasted(pincer, addr, mimes);
        if first_pasted(pincer, addr, mimes) is Some {
            let i = choose|i: int|
                0 <= i < mimes.len() && first_pasted(pincer, addr, mimes) == pincer.pasted(
                    addr,
                    #[trigger] mimes[i],
                );
            assert(pincer.pasted(addr, mimes[i]) is Some);
        }
    }
}

/// A paste that accepts several types gives the data of the first of them that the register has
/// data of.
pub proof fn first_preferred_type_is_pasted(
    pincer: PincerView,
    addr: RegisterAddress,
    mimes: Seq<MimeView>,
)
    ensures
        first_pasted(pincer, addr, mimes) is Some ==> exists|i: int|
            0 <= i < mimes.len() && first_pasted(pincer, addr, mimes) == pincer.pasted(
                addr,
                #[trigger] mimes[i],
            ) && forall|j: int|
                0 <= j < i ==> pincer.pasted(addr, #[trigger] mimes[j]) is None,
        first_pasted(pincer, addr, mimes) is None <==> forall|i: int|
            0 <= i < mimes.len() ==> pincer.pasted(addr, #[trigger] mimes[i]) is None,
    decreases mimes.len(),
{
    if mimes.len() > 0 {
        let front = mimes.drop_last();
        let last = mimes.len() - 1;
        first_preferred_type_is_pasted(pincer, addr, front);
        assert forall|j: int| 0 <= j < front.len() implies #[trigger] mimes[j] == front[j] by {}
        if first_pasted(pincer, addr, front) is Some {
            let i = choose|i: int|
                0 <= i < front.len() && first_pasted(pincer, addr, front) == pincer.pasted(
                    addr,
                    #[trigger] front[i],
                ) && forall|j: int|
                    0 <= j < i ==> pincer.pasted(addr, #[trigger] front[j]) is None;
            assert(mimes[i] == front[i]);
            assert(pincer.pasted(addr, mimes[i]) is Some);
        } else {
            assert(mimes[last] == mimes.last());
            assert forall|j: int| 0 <= j < last implies pincer.pasted(
                addr,
                #[trigger] mimes[j],
            ) is None by {
                assert(mimes[j] == front[j]);
            }
        }
    }
}

/// No request but one to yank changes a register, and no request but one on the active register
/// changes which register is active.
pub proof fn requests_change_only_what_they_name(request: RequestView, pincer: PincerView)
    ensures
        !(request is Yank) ==> request.next(pincer).numeric == pincer.numeric
            && request.next(pincer).named == pincer.named && request.next(pincer).last_used
            == pincer.last_used,
        !(request is Register) ==> request.next(pincer).active == pincer.active,
        !(request is Yank) && !(request is Register) ==> request.next(pincer) == pincer,
{
}

/// The active register is the one that was selected last, and the unnamed one once it was cleared;
/// asking for it changes nothing.
pub proof fn selected_register_is_active(pincer: PincerView, address: RegisterAddress)
    ensures
        ({
            let ask = RequestView::Register(RegisterCommand::Active {  });
            let select = RequestView::Register(RegisterCommand::Select { address });
            let clear = RequestView::Register(RegisterCommand::Clear {  });
            &&& ask.next(pincer) == pincer
            &&& ask.response(select.next(pincer)) == Ok::<ResponseView, Seq<char>>(
                ResponseView::Register(address),
            )
            &&& ask.response(clear.next(pincer)) == Ok::<ResponseView, Seq<char>>(
                ResponseView::Register(RegisterAddress::Unnamed),
            )
        }),
{
}

/// What was yanked is what a request to show the register shows, be it under the address that was
/// yanked into or as the most recent yank.
pub proof fn show_gives_back_what_was_yanked(
    pincer: PincerView,
    addr: RegisterAddress,
    entries: Entries,
)
    requires
        pincer.well_formed(),
        addr.in_range(),
    ensures
        ({
            let after = RequestView::Yank(addr, entries).next(pincer);
            &&& RequestView::Show(addr).response(after) == Ok::<ResponseView, Seq<char>>(
                ResponseView::Show(addr, entries),
            )
            &&& RequestView::Show(RegisterAddress::Unnamed).response(after) == Ok::<
                ResponseView,
                Seq<char>,
            >(ResponseView::Show(RegisterAddress::Unnamed, entries))
        }),
{
    yanked_contents_are_there(pincer, addr, entries);
}

/// A request leaves all seats in place and all but the one that is meant unchanged; a request for
/// a seat that is not managed changes nothing and is answered with an error.
pub proof fn other_seats_are_left_alone(
    seats: Seats,
    seat: SeatView,
    request: RequestView,
    other: int,
)
    requires
        0 <= other < seats.len(),
    ensures
        seats_after(seats, seat, request).len() == seats.len(),
        seats_after(seats, seat, request)[other].0 == seats[other].0,
        seat_meant(seats, seat) != Some(other) ==> seats_after(seats, seat, request)[other]
            == seats[other],
        seat_meant(seats, seat) is None ==> seats_after(seats, seat, request) == seats
            && seat_response(seats, seat, request) == Err::<ResponseView, Seq<char>>(
            not_managed(seat),
        ),
{
    seat_meant_is_a_seat(seats, seat);
}

/// The views of a request, of a response, of a list of types and of a message have all their parts.
pub proof fn messages_are_viewed_part_by_part(
    request: RequestType,
    response: ResponseType,
    mimes: Seq<MimeType>,
    message: ClipboardMessage,
    error: Error,
)
    ensures
        (match request {
            RequestType::Yank(addr, register) => request@ matches RequestView::Yank(a, entries) && a
                == addr && entries == register@,
            RequestType::Paste(addr, types) => request@ matches RequestView::Paste(a, views) && a
                == addr && views == mimes_view(types@),
            RequestType::Show(addr) => request@ matches RequestView::Show(a) && a == addr,
            RequestType::List() => request@ is List,
            RequestType::Register(command) => request@ matches RequestView::Register(c) && c
                == command,
        }),
        (match response {
            ResponseType::Yank(addr, n) => response@ matches ResponseView::Yank(a, m) && a == addr
                && m == n,
            ResponseType::Paste(addr, mime, data) => response@ matches ResponseView::Paste(a, m, d)
                && a == addr && m == mime@ && d == data@,
            ResponseType::Show(addr, register) => response@ matches ResponseView::Show(a, entries)
                && a == addr && entries == register@,
            ResponseType::List(listing) => response@ matches ResponseView::List(summaries)
                && summaries == listing@,
            ResponseType::Register(addr) => response@ matches ResponseView::Register(a) && a
                == addr,
        }),
        mimes_view(mimes).len() == mimes.len(),
        forall|i: int| 0 <= i < mimes.len() ==> #[trigger] mimes_view(mimes)[i] == mimes[i]@,
        response_view(Ok(response)) == Ok::<ResponseView, Seq<char>>(response@),
        response_view(Err(error)) == Err::<ResponseView, Seq<char>>(error@),
        (match message {
            ClipboardMessage::OfferOnSeat(seat) => offered_seat(Some(message)) == Some(seat@),
        }),
        offered_seat(None) is None,
{
}

/// A request to yank into a numbered or a named register replaces the contents of that register
/// and makes it the one that was used last; every other numbered or named register and the pointer
/// are as before.
pub proof fn yank_request_replaces_one_register(
    pincer: PincerView,
    addr: RegisterAddress,
    entries: Entries,
    other: RegisterAddress,
)
    requires
        pincer.well_formed(),
        addr.in_range(),
        other.in_range(),
        !(addr is Unnamed),
        !(other is Unnamed),
        other != addr,
    ensures
        ({
            let after = RequestView::Yank(addr, entries).next(pincer);
            &&& after.register(addr) == entries
            &&& after.register(RegisterAddress::Unnamed) == entries
            &&& after.register(other) == pincer.register(other)
            &&& after.last_used == addr
            &&& after.active == pincer.active
            &&& after.well_formed()
        }),
{
    yanked_contents_are_there(pincer, addr, entries);
    yank_keeps_other_registers(pincer, addr, entries, other);
    yank_keeps_the_pincer_well_formed(pincer, addr, entries);
}

/// A request to yank into the unnamed register puts the contents into `"0` and moves what was in
/// each numbered register to the next higher number; the named registers and the pointer are as
/// before, and `"0` is the register that was used last.
pub proof fn unnamed_yank_request_shifts_the_history(pincer: PincerView, entries: Entries)
    requires
        pincer.well_formed(),
    ensures
        ({
            let after = RequestView::Yank(RegisterAddress::Unnamed, entries).next(pincer);
            &&& after.numeric.len() == 10
            &&& after.numeric[0] == entries
            &&& forall|n: int| 1 <= n < 10 ==> #[trigger] after.numeric[n] == pincer.numeric[n - 1]
            &&& after.named.len() == 26
            &&& forall|n: int| 0 <= n < 26 ==> #[trigger] after.named[n] == pincer.named[n]
            &&& after.last_used matches RegisterAddress::Numeric(n) && n@ == 0
            &&& after.active == pincer.active
            &&& after.register(RegisterAddress::Unnamed) == entries
        }),
{
    yank_keeps_the_pincer_well_formed(pincer, RegisterAddress::Unnamed, entries);
    yanked_contents_are_there(pincer, RegisterAddress::Unnamed, entries);
    each_address_has_one_place(RegisterAddress::Unnamed, 1);
}

/// A yank is answered with the register that was used, `"0` for the unnamed one, and the number of
/// bytes of all the data.
pub proof fn yank_is_answered_with_register_and_size(
    pincer: PincerView,
    addr: RegisterAddress,
    entries: Entries,
)
    requires
        pincer.well_formed(),
        addr.in_range(),
    ensures
        RequestView::Yank(addr, entries).response(pincer) matches Ok(ResponseView::Yank(used, n))
            && n == total_len(entries) && (if addr is Unnamed {
            used matches RegisterAddress::Numeric(zero) && zero@ == 0
        } else {
            used == addr
        }),
{
    yank_keeps_the_pincer_well_formed(pincer, addr, entries);
    each_address_has_one_place(RegisterAddress::Unnamed, 1);
}

/// A request to paste is answered from the register that is asked for: with the first of its
/// entries that answers the first of the types of which it has data. The unnamed register is the
/// one that was used last.
pub proof fn paste_request_is_answered_from_its_register(
    pincer: PincerView,
    addr: RegisterAddress,
    mimes: Seq<MimeView>,
    i: int,
    k: int,
)
    requires
        pincer.well_formed(),
        addr.in_range(),
        0 <= i < mimes.len(),
        0 <= k < pincer.register(addr).len(),
        pincer.register(addr)[k].0.answers(mimes[i]),
        forall|l: int|
            0 <= l < k ==> !(#[trigger] pincer.register(addr)[l]).0.answers(mimes[i]),
        forall|j: int, l: int|
            0 <= j < i && 0 <= l < pincer.register(addr).len() ==> !(#[trigger] pincer.register(
                addr,
            )[l]).0.answers(#[trigger] mimes[j]),
    ensures
        RequestView::Paste(addr, mimes).response(pincer) == Ok::<ResponseView, Seq<char>>(
            ResponseView::Paste(
                if addr is Unnamed {
                    pincer.last_used
                } else {
                    addr
                },
                pincer.register(addr)[k].0,
                pincer.register(addr)[k].1,
            ),
        ),
{
    let contents = pincer.register(addr);
    first_answer_is_given(contents, mimes[i]);
    let first = answer(contents, mimes[i])->0;
    assert(contents[k].0.answers(mimes[i]));
    assert(contents[first].0.answers(mimes[i]));
    assert(first == k);
    assert forall|j: int| 0 <= j < i implies pincer.pasted(addr, #[trigger] mimes[j]) is None by {
        first_answer_is_given(contents, mimes[j]);
    }
    first_preferred_type_is_pasted(pincer, addr, mimes);
    assert(pincer.pasted(addr, mimes[i]) is Some);
    let m = choose|m: int|
        0 <= m < mimes.len() && first_pasted(pincer, addr, mimes) == pincer.pasted(
            addr,
            #[trigger] mimes[m],
        ) && forall|j: int| 0 <= j < m ==> pincer.pasted(addr, #[trigger] mimes[j]) is None;
    assert(pincer.pasted(addr, mimes[m]) is Some);
    assert(m == i);
}

/// A request to paste is refused if no entry of the register answers any of the types.
pub proof fn paste_request_without_an_answer_is_refused(
    pincer: PincerView,
    addr: RegisterAddress,
    mimes: Seq<MimeView>,
)
    requires
        pincer.well_formed(),
        addr.in_range(),
        forall|i: int, k: int|
            0 <= i < mimes.len() && 0 <= k < pincer.register(addr).len() ==> !(
            #[trigger] pincer.register(addr)[k]).0.answers(#[trigger] mimes[i]),
    ensures
        RequestView::Paste(addr, mimes).response(pincer) == Err::<ResponseView, Seq<char>>(
            "Register does not contain any of the requested MIME types"@,
        ),
{
    assert forall|i: int| 0 <= i < mimes.len() implies pincer.pasted(
        addr,
        #[trigger] mimes[i],
    ) is None by {
        first_answer_is_given(pincer.register(addr), mimes[i]);
    }
    first_preferred_type_is_pasted(pincer, addr, mimes);
}

/// What a paste is answered with is in the register that is asked for, and of one of the types
/// that are accepted; the register that the answer names is the one that the address stands for.
pub proof fn pasted_data_is_in_the_register(
    pincer: PincerView,
    addr: RegisterAddress,
    mimes: Seq<MimeView>,
)
    requires
        pincer.well_formed(),
        addr.in_range(),
    ensures
        RequestView::Paste(addr, mimes).response(pincer) matches Ok(response) ==> {
            &&& response matches ResponseView::Paste(used, mime, data)
            &&& used != RegisterAddress::Unnamed
            &&& addr is Unnamed || used == addr
            &&& pincer.register(used) == pincer.register(addr)
            &&& pincer.register(addr).contains((mime, data))
            &&& exists|i: int| 0 <= i < mimes.len() && mime.answers(#[trigger] mimes[i])
        },
{
    first_preferred_type_is_pasted(pincer, addr, mimes);
    if first_pasted(pincer, addr, mimes) is Some {
        let m = choose|m: int|
            0 <= m < mimes.len() && first_pasted(pincer, addr, mimes) == pincer.pasted(
                addr,
                #[trigger] mimes[m],
            ) && forall|j: int| 0 <= j < m ==> pincer.pasted(addr, #[trigger] mimes[j]) is None;
        first_answer_is_given(pincer.register(addr), mimes[m]);
        let k = answer(pincer.register(addr), mimes[m])->0;
        assert(pincer.register(addr)[k].0.answers(mimes[m]));
        assert(pincer.register(addr).contains(pincer.register(addr)[k]));
    }
}

/// A request to show a register is answered with all its contents, under the address that was
/// given: a numbered or a named register by its number, the unnamed one as the one used last.
pub proof fn show_request_gives_the_contents(pincer: PincerView, addr: RegisterAddress)
    requires
        pincer.well_formed(),
        addr.in_range(),
    ensures
        RequestView::Show(addr).response(pincer) matches Ok(ResponseView::Show(shown, contents))
            && shown == addr && (match addr {
            RegisterAddress::Numeric(n) => contents == pincer.numeric[n@],
            RegisterAddress::Named(n) => contents == pincer.named[n@],
            RegisterAddress::Unnamed => RequestView::Show(pincer.last_used).response(pincer)
                == Ok::<ResponseView, Seq<char>>(ResponseView::Show(pincer.last_used, contents)),
        }),
{
}

/// What was yanked into a numbered or a named register is shown for it, and pasted from it, after
/// any later yank into another such register.
pub proof fn later_yanks_keep_what_is_shown(
    pincer: PincerView,
    addr: RegisterAddress,
    entries: Entries,
    other: RegisterAddress,
    others: Entries,
    mimes: Seq<MimeView>,
)
    requires
        pincer.well_formed(),
        addr.in_range(),
        other.in_range(),
        !(addr is Unnamed),
        !(other is Unnamed),
        addr != other,
    ensures
        ({
            let once = RequestView::Yank(addr, entries).next(pincer);
            let twice = RequestView::Yank(other, others).next(once);
            &&& RequestView::Show(addr).response(twice) == Ok::<ResponseView, Seq<char>>(
                ResponseView::Show(addr, entries),
            )
            &&& RequestView::Show(other).response(twice) == Ok::<ResponseView, Seq<char>>(
                ResponseView::Show(other, others),
            )
            &&& RequestView::Paste(addr, mimes).response(twice) == RequestView::Paste(
                addr,
                mimes,
            ).response(once)
        }),
{
    let once = RequestView::Yank(addr, entries).next(pincer);
    let twice = RequestView::Yank(other, others).next(once);
    yank_request_replaces_one_register(pincer, addr, entries, other);
    yank_request_replaces_one_register(once, other, others, addr);
    lemma_same_contents_paste_alike(once, twice, addr, mimes);
}

proof fn lemma_same_contents_paste_alike(
    a: PincerView,
    b: PincerView,
    addr: RegisterAddress,
    mimes: Seq<MimeView>,
)
    requires
        !(addr is Unnamed),
        a.register(addr) == b.register(addr),
    ensures
        first_pasted(a, addr, mimes) == first_pasted(b, addr, mimes),
    decreases mimes.len(),
{
    if mimes.len() > 0 {
        lemma_same_contents_paste_alike(a, b, addr, mimes.drop_last());
    }
}

/// What was yanked into `"0` to `"8` or into a named register is shown after a later yank into the
/// unnamed register: under the next higher number, or under the same letter.
pub proof fn unnamed_yank_keeps_what_is_shown(
    pincer: PincerView,
    addr: RegisterAddress,
    moved: RegisterAddress,
    contents: Entries,
    entries: Entries,
)
    requires
        pincer.well_formed(),
        addr.in_range(),
        moved.in_range(),
        RequestView::Show(addr).response(pincer) == Ok::<ResponseView, Seq<char>>(
            ResponseView::Show(addr, contents),
        ),
        (match addr {
            RegisterAddress::Numeric(n) => moved matches RegisterAddress::Numeric(m) && m@ == n@
                + 1,
            RegisterAddress::Named(n) => moved == addr,
            RegisterAddress::Unnamed => false,
        }),
    ensures
        RequestView::Show(moved).response(
            RequestView::Yank(RegisterAddress::Unnamed, entries).next(pincer),
        ) == Ok::<ResponseView, Seq<char>>(ResponseView::Show(moved, contents)),
{
    let after = RequestView::Yank(RegisterAddress::Unnamed, entries).next(pincer);
    unnamed_yank_request_shifts_the_history(pincer, entries);
    show_request_gives_the_contents(pincer, addr);
    show_request_gives_the_contents(after, moved);
}

/// A request to list is answered with a summary of each register that is not empty and of no
/// other, in the order of the addresses.
pub proof fn list_request_summarizes_each_register(
    pincer: PincerView,
    addr: RegisterAddress,
    shown: SummaryView,
)
    requires
        pincer.well_formed(),
        addr.in_range(),
    ensures
        RequestView::List.response(pincer) matches Ok(ResponseView::List(listing)) && in_order(
            listing,
        ) && (listing.contains((addr, shown)) <==> pincer.register(addr).len() > 0 && shown
            == summary(pincer.register(addr))),
{
    listing_is_ordered_and_complete(pincer, 37);
    each_address_has_one_place(addr, 0);
    let listing = pincer.listed(37);
    if listing.contains((addr, shown)) {
        let i = choose|i: int| 0 <= i < listing.len() && listing[i] == (addr, shown);
        assert(listing[i].0 == addr);
    }
}

/// A request on the pointer is answered with what the pointer then is: the address that is
/// selected, the unnamed one once it is cleared, and the same as before if it is asked for. It
/// changes nothing else.
pub proof fn pointer_request_is_answered_with_the_pointer(
    pincer: PincerView,
    command: RegisterCommand,
)
    ensures
        ({
            let request = RequestView::Register(command);
            let after = request.next(pincer);
            &&& request.response(pincer) == Ok::<ResponseView, Seq<char>>(
                ResponseView::Register(after.active),
            )
            &&& match command {
                RegisterCommand::Select { address } => after.active == address,
                RegisterCommand::Active {  } => after.active == pincer.active,
                RegisterCommand::Clear {  } => after.active is Unnamed,
            }
            &&& after.last_used == pincer.last_used
            &&& after.numeric == pincer.numeric
            &&& after.named == pincer.named
        }),
{
}

/// The pointer survives all requests but those that select or clear it.
pub proof fn pointer_stays_until_it_is_set(pincer: PincerView, request: RequestView)
    requires
        pincer.well_formed(),
        !(request matches RequestView::Register(RegisterCommand::Select { .. })),
        !(request matches RequestView::Register(RegisterCommand::Clear { .. })),
    ensures
        RequestView::Register(RegisterCommand::Active {  }).response(request.next(pincer))
            == Ok::<ResponseView, Seq<char>>(ResponseView::Register(pincer.active)),
{
}

/// A request can be carried out unless it is to yank more bytes than can be counted, or to list
/// the registers while one of them cannot be summarized.
pub proof fn requests_can_be_executed_within_limits(pincer: PincerView, request: RequestView)
    requires
        pincer.well_formed(),
    ensures
        (match request {
            RequestView::Yank(_, entries) => request.can_be_executed(pincer) <==> total_len(entries)
                <= usize::MAX,
            RequestView::List => request.can_be_executed(pincer) <==> (forall|n: int|
                0 <= n < 10 ==> is_summarizable(#[trigger] pincer.numeric[n])) && (forall|n: int|
                0 <= n < 26 ==> is_summarizable(#[trigger] pincer.named[n])),
            _ => request.can_be_executed(pincer),
        }),
{
    listable_if_every_register_is_summarizable(pincer);
}

/// A request is carried out on the seat that is meant: the seat is left in the state that the
/// request leads to and keeps its name, and the response is the one of its Pincer. It can be
/// handled if it can be carried out there, or if there is no such seat.
pub proof fn request_takes_effect_on_its_seat(seats: Seats, seat: SeatView, request: RequestView)
    ensures
        (match seat_meant(seats, seat) {
            Some(i) => {
                &&& 0 <= i < seats.len()
                &&& seats_after(seats, seat, request)[i].0 == seats[i].0
                &&& seats_after(seats, seat, request)[i].1 == request.next(seats[i].1)
                &&& seat_response(seats, seat, request) == request.response(seats[i].1)
                &&& can_be_handled(seats, seat, request) <==> request.can_be_executed(seats[i].1)
            },
            None => {
                &&& seats_after(seats, seat, request) == seats
                &&& seat_response(seats, seat, request) is Err
                &&& can_be_handled(seats, seat, request)
            },
        }),
{
    seat_meant_is_a_seat(seats, seat);
}

/// A request changes nothing about which seat is meant by any later one.
pub proof fn requests_leave_the_seats_in_place(
    seats: Seats,
    seat: SeatView,
    request: RequestView,
    later: SeatView,
)
    ensures
        seat_meant(seats_after(seats, seat, request), later) == seat_meant(seats, later),
{
    let after = seats_after(seats, seat, request);
    seat_meant_is_a_seat(seats, seat);
    assert forall|j: int| 0 <= j < seats.len() implies (#[trigger] after[j]).0 == seats[j].0 by {}
    if let SeatView::Specified(name) = later {
        seat_is_found_by_its_name(seats, name);
        seat_is_found_by_its_name(after, name);
        if seat_named(seats, name) is Some {
            let i = seat_named(seats, name)->0;
            assert(after[i].0 == name);
        }
        if seat_named(after, name) is Some {
            let k = seat_named(after, name)->0;
            assert(seats[k].0 == name);
        }
    }
}

/// Two requests for one seat are two requests on its Pincer: the second is answered in the state
/// that the first has led to.
pub proof fn requests_for_one_seat_follow_each_other(
    seats: Seats,
    seat: SeatView,
    first: RequestView,
    second: RequestView,
)
    ensures
        seat_meant(seats, seat) matches Some(i) ==> {
            let once = seats_after(seats, seat, first);
            &&& seat_response(once, seat, second) == second.response(first.next(seats[i].1))
            &&& seats_after(once, seat, second)[i].1 == second.next(first.next(seats[i].1))
        },
{
    request_takes_effect_on_its_seat(seats, seat, first);
    requests_leave_the_seats_in_place(seats, seat, first, seat);
    request_takes_effect_on_its_seat(seats_after(seats, seat, first), seat, second);
}

/// A request for one seat changes no answer on another.
pub proof fn requests_for_two_seats_are_independent(
    seats: Seats,
    seat: SeatView,
    first: RequestView,
    other: SeatView,
    second: RequestView,
)
    requires
        seat_meant(seats, seat) != seat_meant(seats, other),
    ensures
        seat_response(seats_after(seats, seat, first), other, second) == seat_response(
            seats,
            other,
            second,
        ),
{
    seat_meant_is_a_seat(seats, other);
    requests_leave_the_seats_in_place(seats, seat, first, other);
    if seat_meant(seats, other) is Some {
        other_seats_are_left_alone(seats, seat, first, seat_meant(seats, other)->0);
    }
}

/// Once an address is selected on a seat, the pointer of the seat is that address, and once it is
/// cleared, the unnamed one.
pub proof fn selected_register_is_active_on_its_seat(
    seats: Seats,
    seat: SeatView,
    address: RegisterAddress,
)
    requires
        seat_meant(seats, seat) is Some,
    ensures
        ({
            let ask = RequestView::Register(RegisterCommand::Active {  });
            let select = RequestView::Register(RegisterCommand::Select { address });
            let clear = RequestView::Register(RegisterCommand::Clear {  });
            &&& seat_response(seats_after(seats, seat, select), seat, ask) == Ok::<
                ResponseView,
                Seq<char>,
            >(ResponseView::Register(address))
            &&& seat_response(seats_after(seats, seat, clear), seat, ask) == Ok::<
                ResponseView,
                Seq<char>,
            >(ResponseView::Register(RegisterAddress::Unnamed))
        }),
{
    let ask = RequestView::Register(RegisterCommand::Active {  });
    let i = seat_meant(seats, seat)->0;
    requests_for_one_seat_follow_each_other(
        seats,
        seat,
        RequestView::Register(RegisterCommand::Select { address }),
        ask,
    );
    requests_for_one_seat_follow_each_other(
        seats,
        seat,
        RequestView::Register(RegisterCommand::Clear {  }),
        ask,
    );
    selected_register_is_active(seats[i].1, address);
}

/// What is yanked on a seat is what is shown on that seat for the register.
pub proof fn yanked_contents_are_shown_on_their_seat(
    seats: Seats,
    seat: SeatView,
    addr: RegisterAddress,
    entries: Entries,
)
    requires
        addr.in_range(),
        seat_meant(seats, seat) matches Some(i) && seats[i].1.well_formed(),
    ensures
        seat_response(
            seats_after(seats, seat, RequestView::Yank(addr, entries)),
            seat,
            RequestView::Show(addr),
        ) == Ok::<ResponseView, Seq<char>>(ResponseView::Show(addr, entries)),
{
    let i = seat_meant(seats, seat)->0;
    requests_for_one_seat_follow_each_other(
        seats,
        seat,
        RequestView::Yank(addr, entries),
        RequestView::Show(addr),
    );
    show_gives_back_what_was_yanked(seats[i].1, addr, entries);
}

/// The message about a seat that is not managed names the seat.
pub proof fn unmanaged_seat_is_named(seat: SeatView)
    ensures
        ({
            let n = 26 + seat.shown().len() as int;
            &&& not_managed(seat).take(26) == "Received request for seat "@
            &&& not_managed(seat).subrange(26, n) == seat.shown()
            &&& not_managed(seat).skip(n) == ", but its clipboard is not managed by this daemon"@
        }),
{
    reveal_strlit("Received request for seat ");
    reveal_strlit(", but its clipboard is not managed by this daemon");
    let n = 26 + seat.shown().len() as int;
    assert(not_managed(seat).take(26) =~= "Received request for seat "@);
    assert(not_managed(seat).subrange(26, n) =~= seat.shown());
    assert(not_managed(seat).skip(n)
        =~= ", but its clipboard is not managed by this daemon"@);
}

/// Pasting from a Pincer is answered as a request to paste is.
pub proof fn pasting_is_answered_as_the_request(
    pincer: PincerView,
    addr: RegisterAddress,
    mimes: Seq<MimeView>,
)
    ensures
        paste_response(pincer, addr, mimes) == RequestView::Paste(addr, mimes).response(pincer),
{
}

/// Carrying out a request to yank is yanking, as far as can be told from the registers, and asking
/// for what was yanked is pasting.
pub proof fn yank_request_is_a_yank(
    pincer: PincerView,
    addr: RegisterAddress,
    entries: Entries,
    mime: MimeView,
    other: RegisterAddress,
)
    ensures
        RequestView::Yank(addr, entries).next(pincer).register(other) == pincer.yanked(
            addr,
            entries,
        ).register(other),
        RequestView::Yank(addr, entries).next(pincer).pasted(other, mime) == pincer.yanked(
            addr,
            entries,
        ).pasted(other, mime),
{
}

} // verus!
