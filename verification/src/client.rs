//! Making requests, and what a client makes of the responses.

use vstd::prelude::*;
use vstd::string::StringExecFns;
use vstd::utf8::{decode_utf8, valid_utf8};

use crate::address::address_is_shown_as_its_character;
use crate::daemon::{RequestType, Response, ResponseType, ResponseView};
use crate::error::Error;
use crate::listing::{in_order, summaries_view, Listing, Summaries};
use crate::mime::{same_name, MimeView};
use crate::register::{
    summary_is_shown_by_its_contents, Entries, MimeType, Register, RegisterAddress, SummaryView,
};
use crate::text::{
    decimal, decimal_number_is_read_back, decimal_text, is_space, join, joined,
    joining_puts_the_separator_between, number_read, text_from_utf8, trim_end, trimmed,
    trimming_cuts_off_white_space_alone,
};

verus! {

/// In what form a listing is put out.
#[derive(Clone, Copy, Debug, PartialEq, Eq, Structural)]
pub enum OutputFormat {
    /// A line for each register
    Plain,
    /// JSON
    JSON,
    /// A line for each register, in the form that Rofi reads
    Rofi,
}

impl Default for OutputFormat {
    fn default() -> (r: OutputFormat)
        ensures
            r == OutputFormat::Plain,
    {
        OutputFormat::Plain
    }
}

/// A list of texts, by its views.
pub open spec fn texts_view(texts: Seq<String>) -> Seq<Seq<char>> {
    texts.map_values(|text: String| text@)
}

/// The message about a response that does not correspond to the request. `kind` is what was
/// expected, `shown` is how the response is put.
pub open spec fn unexpected(kind: Seq<char>, shown: Seq<char>) -> Seq<char> {
    "Expected "@ + kind + " response, got "@ + shown
}

fn unexpected_response(kind: &str, shown: &str) -> (r: Error)
    ensures
        r@ == unexpected(kind@, shown@),
{
    "Expected ".to_owned().concat(kind).concat(" response, got ").concat(shown)
}

/// The message that so many bytes were yanked.
pub open spec fn yank_message(addr: RegisterAddress, n: nat) -> Seq<char> {
    "Yanked "@ + decimal(n) + " bytes into "@ + addr.shown(false)
}

/// The message to be logged for the response to a yank. `shown` is how the response is put in a
/// message if it is of another kind.
pub fn handle_yank(rsp: &ResponseType, shown: &str) -> (r: Result<String, Error>)
    ensures
        (match rsp@ {
            ResponseView::Yank(addr, n) => r matches Ok(text) && text@ == yank_message(addr, n),
            _ => r matches Err(message) && message@ == unexpected("Yank"@, shown@),
        }),
{
    match rsp {
        ResponseType::Yank(addr, n) => Ok(
            "Yanked ".to_owned().concat(&decimal_text(*n)).concat(" bytes into ").concat(
                &addr.display(false),
            ),
        ),
        _ => Err(unexpected_response("Yank", shown)),
    }
}

/// The bytes that are put out for pasted data: the data, and a line break on a terminal.
pub open spec fn pasted_bytes(data: Seq<u8>, terminal: bool) -> Seq<u8> {
    if terminal {
        data.push(10)
    } else {
        data
    }
}

/// The bytes to be put out for the response to a paste. `terminal` says whether they go to a
/// terminal, `shown` is how the response is put in a message if it is of another kind.
pub fn handle_paste(rsp: &ResponseType, terminal: bool, shown: &str) -> (r: Result<
    Vec<u8>,
    Error,
>)
    ensures
        (match rsp@ {
            ResponseView::Paste(_, _, data) => r matches Ok(bytes) && bytes@ == pasted_bytes(
                data,
                terminal,
            ),
            _ => r matches Err(message) && message@ == unexpected("Paste"@, shown@),
        }),
{
    match rsp {
        ResponseType::Paste(_, _, data) => {
            let mut bytes = data.clone();
            assert(bytes@ =~= data@);
            if terminal {
                bytes.push(10);
            }
            Ok(bytes)
        },
        _ => Err(unexpected_response("Paste", shown)),
    }
}

/// The line for a register in a plain listing.
pub open spec fn plain_line(
    entry: (RegisterAddress, SummaryView),
    size: Seq<char>,
) -> Seq<char> {
    entry.0.shown(false) + ": "@ + entry.1.shown(size)
}

/// The line for a register in the form that Rofi reads: the character of the register, and what is
/// displayed for it.
pub open spec fn rofi_line(
    entry: (RegisterAddress, SummaryView),
    size: Seq<char>,
) -> Seq<char> {
    entry.0.shown(true) + "\0display\x1f"@ + plain_line(entry, size)
}

/// A plain listing.
pub open spec fn plain_listing(
    listing: Summaries,
    sizes: Seq<Seq<char>>,
) -> Seq<char> {
    joined(Seq::new(listing.len(), |i: int| plain_line(listing[i], sizes[i])), "\n"@)
}

/// A listing in the form that Rofi reads.
pub open spec fn rofi_listing(
    listing: Summaries,
    sizes: Seq<Seq<char>>,
) -> Seq<char> {
    joined(Seq::new(listing.len(), |i: int| rofi_line(listing[i], sizes[i])), "\n"@)
}

/// The line for a register in a listing, in the form that Rofi reads or plain.
spec fn list_line(entry: (RegisterAddress, SummaryView), size: Seq<char>, rofi: bool) -> Seq<char> {
    if rofi {
        rofi_line(entry, size)
    } else {
        plain_line(entry, size)
    }
}

fn list_lines(listing: &Listing, sizes: &Vec<String>, rofi: bool) -> (r: String)
    requires
        sizes@.len() == listing@.len(),
    ensures
        r@ == (if rofi {
            rofi_listing(listing@, texts_view(sizes@))
        } else {
            plain_listing(listing@, texts_view(sizes@))
        }),
        in_order(listing@),
{
    let regs = listing.entries();
    let ghost wanted = Seq::new(
        listing@.len(),
        |i: int| list_line(listing@[i], texts_view(sizes@)[i], rofi),
    );
    let mut lines: Vec<String> = Vec::new();
    for i in 0..regs.len()
        invariant
            summaries_view(regs@) == listing@,
            sizes@.len() == listing@.len(),
            wanted == Seq::new(
                listing@.len(),
                |i: int| list_line(listing@[i], texts_view(sizes@)[i], rofi),
            ),
            texts_view(lines@) =~= wanted.take(i as int),
    {
        assert(listing@[i as int] == (regs@[i as int].0, regs@[i as int].1@));
        let mut line = regs[i].0.display(false).concat(": ").concat(&regs[i].1.display(&sizes[i]));
        if rofi {
            line = regs[i].0.display(true).concat("\0display\x1f").concat(&line);
        }
        assert(line@ == wanted[i as int]);
        assert(wanted.take(i + 1) =~= wanted.take(i as int).push(line@));
        lines.push(line);
    }
    assert(texts_view(lines@) =~= wanted);
    assert(wanted =~= if rofi {
        Seq::new(listing@.len(), |i: int| rofi_line(listing@[i], texts_view(sizes@)[i]))
    } else {
        Seq::new(listing@.len(), |i: int| plain_line(listing@[i], texts_view(sizes@)[i]))
    });
    join(&lines, "\n")
}

/// The text to be printed for the response to a list request. `sizes` holds, for each register in
/// the listing, its number of bytes in the form in which the user is to read it. `shown` is how
/// the response is put in a message if it is of another kind. There is no listing in JSON. The lines
/// are in the order of the addresses.
pub fn handle_list(
    rsp: &ResponseType,
    format: OutputFormat,
    sizes: &Vec<String>,
    shown: &str,
) -> (r: Result<String, Error>)
    requires
        rsp@ matches ResponseView::List(listing) ==> sizes@.len() == listing.len() && format
            != OutputFormat::JSON,
    ensures
        (match rsp@ {
            ResponseView::List(listing) => r matches Ok(text) && text@ == (if format
                == OutputFormat::Rofi {
                rofi_listing(listing, texts_view(sizes@))
            } else {
                plain_listing(listing, texts_view(sizes@))
            }),
            _ => r matches Err(message) && message@ == unexpected("List"@, shown@),
        }),
        rsp@ matches ResponseView::List(listing) ==> in_order(listing),
{
    match rsp {
        ResponseType::List(listing) => Ok(
            list_lines(listing, sizes, format == OutputFormat::Rofi),
        ),
        _ => Err(unexpected_response("List", shown)),
    }
}

/// Whether the data of a type is shown as text.
pub open spec fn is_text(mime: MimeView) -> bool {
    same_name(mime.ty, "text"@)
}

/// All that is shown as text is valid UTF-8.
pub open spec fn is_showable(entries: Entries) -> bool {
    forall|i: int|
        0 <= i < entries.len() && is_text((#[trigger] entries[i]).0) ==> valid_utf8(entries[i].1)
}

/// The line for one type in a register: its text, or else its size.
pub open spec fn show_line(entry: (MimeView, Seq<u8>), size: Seq<char>) -> Seq<char> {
    entry.0.shown() + ": "@ + (if is_text(entry.0) {
        trimmed(decode_utf8(entry.1))
    } else {
        size
    })
}

/// The lines for all types in a register.
pub open spec fn show_lines(entries: Entries, sizes: Seq<Seq<char>>) -> Seq<char> {
    joined(Seq::new(entries.len(), |i: int| show_line(entries[i], sizes[i])), "\n"@)
}

/// Whether a register can be shown: all that is shown as text is valid UTF-8.
pub fn can_show(register: &Register) -> (r: bool)
    ensures
        r == is_showable(register@),
{
    let entries = register.entries();
    for i in 0..entries.len()
        invariant
            crate::register::entries_view(entries@) == register@,
            forall|j: int|
                0 <= j < i && is_text((#[trigger] register@[j]).0) ==> valid_utf8(register@[j].1),
    {
        assert(register@[i as int] == (entries@[i as int].0@, entries@[i as int].1@));
        if entries[i].0.has_type("text") {
            let data = entries[i].1.clone();
            assert(data@ =~= entries@[i as int].1@);
            if text_from_utf8(data).is_none() {
                return false;
            }
        }
    }
    true
}

/// The text to be printed for the response to a show request. `sizes` holds, for each type in the
/// register, its number of bytes in the form in which the user is to read it. `shown` is how the
/// response is put in a message if it is of another kind.
pub fn handle_show(rsp: &ResponseType, sizes: &Vec<String>, shown: &str) -> (r: Result<
    String,
    Error,
>)
    requires
        rsp@ matches ResponseView::Show(_, entries) ==> sizes@.len() == entries.len()
            && is_showable(entries),
    ensures
        (match rsp@ {
            ResponseView::Show(_, entries) => r matches Ok(text) && text@ == show_lines(
                entries,
                texts_view(sizes@),
            ),
            _ => r matches Err(message) && message@ == unexpected("Show"@, shown@),
        }),
{
    match rsp {
        ResponseType::Show(_, register) => {
            let entries = register.entries();
            let ghost wanted = Seq::new(
                register@.len(),
                |i: int| show_line(register@[i], texts_view(sizes@)[i]),
            );
            let mut lines: Vec<String> = Vec::new();
            for i in 0..entries.len()
                invariant
                    crate::register::entries_view(entries@) == register@,
                    sizes@.len() == register@.len(),
                    is_showable(register@),
                    wanted == Seq::new(
                        register@.len(),
                        |i: int| show_line(register@[i], texts_view(sizes@)[i]),
                    ),
                    texts_view(lines@) =~= wanted.take(i as int),
            {
                assert(register@[i as int] == (entries@[i as int].0@, entries@[i as int].1@));
                let mut line = entries[i].0.display().concat(": ");
                if entries[i].0.has_type("text") {
                    let data = entries[i].1.clone();
                    assert(data@ =~= entries@[i as int].1@);
                    let text = text_from_utf8(data).unwrap();
                    line = line.concat(trim_end(&text));
                } else {
                    line = line.concat(&sizes[i]);
                }
                assert(line@ == wanted[i as int]);
                assert(wanted.take(i + 1) =~= wanted.take(i as int).push(line@));
                lines.push(line);
            }
            assert(texts_view(lines@) =~= wanted);
            Ok(join(&lines, "\n"))
        },
        _ => Err(unexpected_response("Show", shown)),
    }
}

/// What a client does with a response.
#[derive(Debug)]
pub enum Output {
    /// Log a message
    Log(String),
    /// Put out data
    Data(Vec<u8>),
    /// Nothing
    Nothing,
}

/// What a client does with a response: a yank is logged, pasted data is put out, and an error is
/// handed on.
pub fn handle_response(rsp: Response, terminal: bool) -> (r: Result<Output, Error>)
    ensures
        (match rsp {
            Err(message) => r == Err::<Output, Error>(message),
            Ok(response) => match response@ {
                ResponseView::Yank(addr, n) => r matches Ok(Output::Log(text)) && text@
                    == yank_message(addr, n),
                ResponseView::Paste(_, _, data) => r matches Ok(Output::Data(bytes)) && bytes@
                    == pasted_bytes(data, terminal),
                _ => r matches Ok(Output::Nothing),
            },
        }),
{
    match rsp {
        Err(message) => Err(message),
        Ok(response) => match &response {
            ResponseType::Yank(_, _) => match handle_yank(&response, "") {
                Ok(text) => Ok(Output::Log(text)),
                Err(message) => Err(message),
            },
            ResponseType::Paste(_, _, _) => match handle_paste(&response, terminal, "") {
                Ok(bytes) => Ok(Output::Data(bytes)),
                Err(message) => Err(message),
            },
            _ => Ok(Output::Nothing),
        },
    }
}

/// The request to yank data of one MIME type, into the unnamed register if no address is given.
pub fn make_yank_request(
    addr: Option<RegisterAddress>,
    mime: MimeType,
    data: Vec<u8>,
) -> (r: RequestType)
    ensures
        r@ == crate::daemon::RequestView::Yank(
            match addr {
                Some(addr) => addr,
                None => RegisterAddress::Unnamed,
            },
            seq![(mime@, data@)],
        ),
{
    let ghost one: Entries = seq![(mime@, data@)];
    let mut register = Register::new();
    register.insert(mime, data);
    assert(register@ =~= one);
    RequestType::Yank(addr.unwrap_or(RegisterAddress::Unnamed), register)
}

/// The view of a list of texts has each of them in its place.
pub proof fn texts_are_viewed_one_by_one(texts: Seq<String>)
    ensures
        texts_view(texts).len() == texts.len(),
        forall|i: int| 0 <= i < texts.len() ==> #[trigger] texts_view(texts)[i] == texts[i]@,
{
}

/// The message about an unexpected response names what was expected and what came.
pub proof fn unexpected_response_is_told(kind: Seq<char>, shown: Seq<char>)
    ensures
        ({
            let n = 9 + kind.len() as int;
            &&& unexpected(kind, shown).take(9) == "Expected "@
            &&& unexpected(kind, shown).subrange(9, n) == kind
            &&& unexpected(kind, shown).subrange(n, n + 15) == " response, got "@
            &&& unexpected(kind, shown).skip(n + 15) == shown
        }),
{
    reveal_strlit("Expected ");
    reveal_strlit(" response, got ");
    let n = 9 + kind.len() as int;
    assert(unexpected(kind, shown).take(9) =~= "Expected "@);
    assert(unexpected(kind, shown).subrange(9, n) =~= kind);
    assert(unexpected(kind, shown).subrange(n, n + 15) =~= " response, got "@);
    assert(unexpected(kind, shown).skip(n + 15) =~= shown);
}

/// The message about a yank tells the number of bytes in decimal digits, and ends with the quote
/// and the character of the register.
pub proof fn yank_message_tells_size_and_register(addr: RegisterAddress, n: nat)
    requires
        addr.in_range(),
    ensures
        ({
            let message = yank_message(addr, n);
            let end = message.len() as int;
            &&& message.take(7) == "Yanked "@
            &&& number_read(message.subrange(7, end - 14)) == n
            &&& forall|i: int|
                7 <= i < end - 14 ==> '0' <= #[trigger] message[i] && message[i] <= '9'
            &&& message[7] == '0' ==> n == 0
            &&& end > 21
            &&& message.subrange(end - 14, end - 2) == " bytes into "@
            &&& message[end - 2] == '"'
            &&& message[end - 1] == addr.letter()
        }),
{
    reveal_strlit("Yanked ");
    reveal_strlit(" bytes into ");
    let message = yank_message(addr, n);
    let end = message.len() as int;
    let digits = decimal(n);
    decimal_number_is_read_back(n);
    address_is_shown_as_its_character(addr);
    assert(message.take(7) =~= "Yanked "@);
    assert(message.subrange(7, end - 14) =~= digits);
    assert forall|i: int| 7 <= i < end - 14 implies '0' <= #[trigger] message[i] && message[i]
        <= '9' by {
        assert(message[i] == digits[i - 7]);
    }
    assert(message[7] == digits[0]);
    assert(message.subrange(end - 14, end - 2) =~= " bytes into "@);
}

/// Pasted data is put out as it is, and followed by one line break on a terminal.
pub proof fn pasted_data_is_put_out_whole(data: Seq<u8>, terminal: bool)
    ensures
        pasted_bytes(data, terminal).take(data.len() as int) == data,
        !terminal ==> pasted_bytes(data, terminal).len() == data.len(),
        terminal ==> pasted_bytes(data, terminal).len() == data.len() + 1 && pasted_bytes(
            data,
            terminal,
        )[data.len() as int] == 0x0A,
{
    assert(pasted_bytes(data, terminal).take(data.len() as int) =~= data);
}

/// The line of a register in a plain listing is the quote and the character of the register, a
/// colon and a blank, and the summary of the register, whatever the register is: a text up to the
/// white space at its end, a blob by its type and size, and a fixed mark for an empty register.
pub proof fn plain_line_shows_the_register(
    addr: RegisterAddress,
    summary: SummaryView,
    size: Seq<char>,
)
    requires
        addr.in_range(),
    ensures
        ({
            let line = plain_listing(seq![(addr, summary)], seq![size]);
            let shown = line.skip(4);
            &&& line.take(4) == seq!['"', addr.letter(), ':', ' ']
            &&& match summary {
                SummaryView::Text(text, _) => {
                    &&& shown.len() <= text.len()
                    &&& shown == text.take(shown.len() as int)
                    &&& forall|i: int|
                        shown.len() <= i < text.len() ==> is_space(#[trigger] text[i])
                    &&& shown.len() > 0 ==> !is_space(shown.last())
                },
                SummaryView::Blob(mime, _) => {
                    let n = 6 + mime.shown().len() as int;
                    &&& shown.take(6) == seq!['b', 'l', 'o', 'b', ' ', '(']
                    &&& shown.subrange(6, n) == mime.shown()
                    &&& shown.skip(n) == seq![',', ' '] + size + seq![')']
                },
                SummaryView::Empty => shown == seq!['<', 'E', 'M', 'P', 'T', 'Y', '>'],
            }
        }),
{
    reveal_strlit(": ");
    let listing: Summaries = seq![(addr, summary)];
    let sizes: Seq<Seq<char>> = seq![size];
    let line = plain_listing(listing, sizes);
    lemma_plain_listing_of_one(listing, sizes);
    address_is_shown_as_its_character(addr);
    summary_is_shown_by_its_contents(summary, size);
    assert(line.take(4) =~= seq!['"', addr.letter(), ':', ' ']);
    assert(line.skip(4) =~= summary.shown(size));
}

proof fn lemma_plain_listing_of_one(listing: Summaries, sizes: Seq<Seq<char>>)
    requires
        listing.len() == 1,
    ensures
        plain_listing(listing, sizes) == plain_line(listing[0], sizes[0]),
        rofi_listing(listing, sizes) == rofi_line(listing[0], sizes[0]),
{
}

/// Lines of registers with the same summary differ in the character of the register alone.
pub proof fn lines_differ_in_the_address_alone(
    a: RegisterAddress,
    b: RegisterAddress,
    summary: SummaryView,
    size: Seq<char>,
)
    requires
        a.in_range(),
        b.in_range(),
    ensures
        plain_listing(seq![(a, summary)], seq![size]).update(1, b.letter()) == plain_listing(
            seq![(b, summary)],
            seq![size],
        ),
{
    reveal_strlit(": ");
    let first = plain_listing(seq![(a, summary)], seq![size]);
    let second = plain_listing(seq![(b, summary)], seq![size]);
    lemma_plain_listing_of_one(seq![(a, summary)], seq![size]);
    lemma_plain_listing_of_one(seq![(b, summary)], seq![size]);
    address_is_shown_as_its_character(a);
    address_is_shown_as_its_character(b);
    assert(first.update(1, b.letter()) =~= second);
}

/// The line of a register in the form that Rofi reads is the character of the register, the mark
/// for what is displayed, and the plain line.
pub proof fn rofi_line_displays_the_plain_line(
    addr: RegisterAddress,
    summary: SummaryView,
    size: Seq<char>,
)
    requires
        addr.in_range(),
    ensures
        ({
            let line = rofi_listing(seq![(addr, summary)], seq![size]);
            &&& line.take(10) == seq![
                addr.letter(),
                '\0',
                'd',
                'i',
                's',
                'p',
                'l',
                'a',
                'y',
                '\x1f',
            ]
            &&& line.skip(10) == plain_listing(seq![(addr, summary)], seq![size])
        }),
{
    reveal_strlit("\0display\x1f");
    let listing: Summaries = seq![(addr, summary)];
    let sizes: Seq<Seq<char>> = seq![size];
    let line = rofi_listing(listing, sizes);
    lemma_plain_listing_of_one(listing, sizes);
    address_is_shown_as_its_character(addr);
    assert(line.take(10) =~= seq![
        addr.letter(),
        '\0',
        'd',
        'i',
        's',
        'p',
        'l',
        'a',
        'y',
        '\x1f',
    ]);
    assert(line.skip(10) =~= plain_listing(listing, sizes));
}

/// A listing has the lines of its registers one below the other: that of two parts is that of the
/// first, a line break, and that of the second; that of no registers is empty.
pub proof fn listing_has_a_line_for_each_register(
    a: Summaries,
    a_sizes: Seq<Seq<char>>,
    b: Summaries,
    b_sizes: Seq<Seq<char>>,
)
    requires
        a_sizes.len() == a.len(),
        b_sizes.len() == b.len(),
    ensures
        plain_listing(seq![], seq![]) == Seq::<char>::empty(),
        rofi_listing(seq![], seq![]) == Seq::<char>::empty(),
        a.len() > 0 && b.len() > 0 ==> plain_listing(a + b, a_sizes + b_sizes) == plain_listing(
            a,
            a_sizes,
        ) + seq!['\n'] + plain_listing(b, b_sizes),
        a.len() > 0 && b.len() > 0 ==> rofi_listing(a + b, a_sizes + b_sizes) == rofi_listing(
            a,
            a_sizes,
        ) + seq!['\n'] + rofi_listing(b, b_sizes),
{
    reveal_strlit("\n");
    assert("\n"@ =~= seq!['\n']);
    let sizes = a_sizes + b_sizes;
    let plain_a = Seq::new(a.len(), |i: int| plain_line(a[i], a_sizes[i]));
    let plain_b = Seq::new(b.len(), |i: int| plain_line(b[i], b_sizes[i]));
    assert(Seq::new((a + b).len(), |i: int| plain_line((a + b)[i], sizes[i])) =~= plain_a
        + plain_b);
    joining_puts_the_separator_between(seq![], plain_a, plain_b, "\n"@);
    let rofi_a = Seq::new(a.len(), |i: int| rofi_line(a[i], a_sizes[i]));
    let rofi_b = Seq::new(b.len(), |i: int| rofi_line(b[i], b_sizes[i]));
    assert(Seq::new((a + b).len(), |i: int| rofi_line((a + b)[i], sizes[i])) =~= rofi_a + rofi_b);
    joining_puts_the_separator_between(seq![], rofi_a, rofi_b, "\n"@);
}

/// Whether the data of a type is text is told by its top-level type, in whatever case.
pub proof fn text_is_told_by_the_type(mime: MimeView)
    ensures
        is_text(mime) <==> same_name(mime.ty, seq!['t', 'e', 'x', 't']),
{
    reveal_strlit("text");
    assert("text"@ =~= seq!['t', 'e', 'x', 't']);
}

/// Contents can be shown if and only if each part of them can, and data of one type if and only if
/// it is no text or valid UTF-8.
pub proof fn showable_if_every_text_is_valid(entry: (MimeView, Seq<u8>), a: Entries, b: Entries)
    ensures
        is_showable(Entries::empty()),
        is_showable(seq![entry]) <==> (same_name(entry.0.ty, seq!['t', 'e', 'x', 't'])
            ==> valid_utf8(entry.1)),
        is_showable(a + b) <==> is_showable(a) && is_showable(b),
{
    text_is_told_by_the_type(entry.0);
    let one: Entries = seq![entry];
    assert(one[0] == entry);
    let both = a + b;
    if is_showable(both) {
        assert forall|i: int| 0 <= i < a.len() && is_text((#[trigger] a[i]).0) implies valid_utf8(
            a[i].1,
        ) by {
            assert(both[i] == a[i]);
        }
        assert forall|i: int| 0 <= i < b.len() && is_text((#[trigger] b[i]).0) implies valid_utf8(
            b[i].1,
        ) by {
            assert(both[a.len() + i] == b[i]);
        }
    }
    if is_showable(a) && is_showable(b) {
        assert forall|i: int| 0 <= i < both.len() && is_text(
            (#[trigger] both[i]).0,
        ) implies valid_utf8(both[i].1) by {
            if i < a.len() {
                assert(both[i] == a[i]);
            } else {
                assert(both[i] == b[i - a.len()]);
            }
        }
    }
}

/// The line for one type in a register is the type, a colon and a blank, and then the text up to
/// the white space at its end, or the size if it is no text.
pub proof fn show_line_shows_the_data(entry: (MimeView, Seq<u8>), size: Seq<char>)
    ensures
        ({
            let line = show_lines(seq![entry], seq![size]);
            let n = entry.0.shown().len() as int;
            let shown = line.skip(n + 2);
            let text = decode_utf8(entry.1);
            &&& line.take(n) == entry.0.shown()
            &&& line.subrange(n, n + 2) == seq![':', ' ']
            &&& same_name(entry.0.ty, seq!['t', 'e', 'x', 't']) ==> {
                &&& shown.len() <= text.len()
                &&& shown == text.take(shown.len() as int)
                &&& forall|i: int| shown.len() <= i < text.len() ==> is_space(#[trigger] text[i])
                &&& shown.len() > 0 ==> !is_space(shown.last())
            }
            &&& !same_name(entry.0.ty, seq!['t', 'e', 'x', 't']) ==> shown == size
        }),
{
    reveal_strlit(": ");
    let one: Entries = seq![entry];
    let sizes: Seq<Seq<char>> = seq![size];
    let line = show_lines(one, sizes);
    assert(line == show_line(entry, size));
    let n = entry.0.shown().len() as int;
    let text = decode_utf8(entry.1);
    text_is_told_by_the_type(entry.0);
    trimming_cuts_off_white_space_alone(text);
    assert(line.take(n) =~= entry.0.shown());
    assert(line.subrange(n, n + 2) =~= seq![':', ' ']);
    assert(line.skip(n + 2) =~= if is_text(entry.0) {
        trimmed(text)
    } else {
        size
    });
}

/// What is shown of a register are the lines of its types one below the other.
pub proof fn register_is_shown_type_by_type(
    a: Entries,
    a_sizes: Seq<Seq<char>>,
    b: Entries,
    b_sizes: Seq<Seq<char>>,
)
    requires
        a_sizes.len() == a.len(),
        b_sizes.len() == b.len(),
    ensures
        show_lines(seq![], seq![]) == Seq::<char>::empty(),
        a.len() > 0 && b.len() > 0 ==> show_lines(a + b, a_sizes + b_sizes) == show_lines(
            a,
            a_sizes,
        ) + seq!['\n'] + show_lines(b, b_sizes),
{
    reveal_strlit("\n");
    assert("\n"@ =~= seq!['\n']);
    let sizes = a_sizes + b_sizes;
    let first = Seq::new(a.len(), |i: int| show_line(a[i], a_sizes[i]));
    let second = Seq::new(b.len(), |i: int| show_line(b[i], b_sizes[i]));
    assert(Seq::new((a + b).len(), |i: int| show_line((a + b)[i], sizes[i])) =~= first + second);
    joining_puts_the_separator_between(seq![], first, second, "\n"@);
}

} // verus!
