//! Registers: data buffers by MIME type.

use vstd::prelude::*;
use vstd::string::StringExecFns;
use vstd::utf8::{decode_utf8, valid_utf8};

pub use crate::address::{NamedT, NumericT, RegisterAddress, ADDRESS_HELP};
pub use crate::mime::MimeType;

use crate::mime::{
    lower, param_map, same_name, same_types_answer_alike, shown_params, MimeView,
};
use crate::text::{
    is_space, text_from_utf8, trim_end, trimmed, trimming_cuts_off_white_space_alone,
};

verus! {

/// The data of one MIME type.
pub type DataBuffer = Vec<u8>;

/// MIME types with their data, in the order in which the types first came.
pub type Entries = Seq<(MimeView, Seq<u8>)>;

/// A list of types with their data, by its views.
pub open spec fn entries_view(entries: Seq<(MimeType, DataBuffer)>) -> Entries {
    entries.map_values(|e: (MimeType, DataBuffer)| (e.0@, e.1@))
}

/// The first entry whose type meets `accepts`.
pub open spec fn first_with(entries: Entries, accepts: spec_fn(MimeView) -> bool) -> Option<int>
    decreases entries.len(),
{
    if entries.len() == 0 {
        None
    } else {
        match first_with(entries.drop_last(), accepts) {
            Some(i) => Some(i),
            None => if accepts(entries.last().0) {
                Some(entries.len() - 1)
            } else {
                None
            },
        }
    }
}

/// What a search accepts: just the wanted type, or any type that answers a request for it.
spec fn accepting(want: MimeView, exact: bool) -> spec_fn(MimeView) -> bool {
    if exact {
        |m: MimeView| m.same_type(want)
    } else {
        |m: MimeView| m.answers(want)
    }
}

/// The entry of just this type.
pub open spec fn index_of(entries: Entries, mime: MimeView) -> Option<int> {
    first_with(entries, |m: MimeView| m.same_type(mime))
}

/// The first entry that answers a request for `want`.
pub open spec fn answer(entries: Entries, want: MimeView) -> Option<int> {
    first_with(entries, |m: MimeView| m.answers(want))
}

/// The entries once data of a type is inserted: data of the same type is replaced, and a new type
/// is put last.
pub open spec fn inserted(entries: Entries, mime: MimeView, data: Seq<u8>) -> Entries {
    match index_of(entries, mime) {
        Some(i) => entries.update(i, (entries[i].0, data)),
        None => entries.push((mime, data)),
    }
}

/// The entries once each of `pastes` is inserted in turn, starting with none.
pub open spec fn filled(pastes: Entries) -> Entries
    decreases pastes.len(),
{
    if pastes.len() == 0 {
        seq![]
    } else {
        inserted(filled(pastes.drop_last()), pastes.last().0, pastes.last().1)
    }
}

/// The number of bytes of all the data.
pub open spec fn total_len(entries: Entries) -> nat
    decreases entries.len(),
{
    if entries.len() == 0 {
        0
    } else {
        total_len(entries.drop_last()) + entries.last().1.len()
    }
}

/// No type is there twice.
pub open spec fn types_differ(entries: Entries) -> bool {
    forall|i: int, j: int|
        0 <= i < j < entries.len() ==> !(#[trigger] entries[i]).0.same_type(
            (#[trigger] entries[j]).0,
        )
}

/// A `Register` is a map from MIME types to buffers containing the data of the respective MIME
/// types. It is walked in the order in which the types first came.
#[derive(Debug)]
pub struct Register {
    entries: Vec<(MimeType, DataBuffer)>,
}

impl View for Register {
    type V = Entries;

    closed spec fn view(&self) -> Entries {
        entries_view(self.entries@)
    }
}

impl Register {
    /// Each type has one buffer.
    #[verifier::type_invariant]
    pub open spec fn well_formed(self) -> bool {
        types_differ(self@)
    }

    /// An empty register.
    pub fn new() -> (r: Register)
        ensures
            r@ == Entries::empty(),
    {
        let entries: Vec<(MimeType, DataBuffer)> = Vec::new();
        assert(entries_view(entries@) =~= Entries::empty());
        Register { entries }
    }

    /// Clear all the data from this register.
    pub fn clear(&mut self)
        ensures
            final(self)@ == Entries::empty(),
    {
        *self = Register::new();
    }

    /// Whether the register holds no data.
    pub fn is_empty(&self) -> (r: bool)
        ensures
            r == (self@.len() == 0),
    {
        self.entries.len() == 0
    }

    fn find_first(&self, want: &MimeType, exact: bool) -> (r: Option<usize>)
        ensures
            (match r {
                Some(i) => first_with(self@, accepting(want@, exact)) == Some(i as int) && i
                    < self@.len(),
                None => first_with(self@, accepting(want@, exact)) is None,
            }),
    {
        let ghost accepts = accepting(want@, exact);
        for i in 0..self.entries.len()
            invariant
                accepts == accepting(want@, exact),
                first_with(self@.take(i as int), accepts) is None,
        {
            assert(self@.take(i + 1).drop_last() =~= self@.take(i as int));
            let mime = &self.entries[i].0;
            if (exact && mime.same_type(want)) || (!exact && mime.answers(want)) {
                proof {
                    lemma_first_with_prefix(self@, accepts, i + 1);
                }
                return Some(i);
            }
        }
        assert(self@.take(self@.len() as int) =~= self@);
        None
    }

    fn find_same(&self, mime: &MimeType) -> (r: Option<usize>)
        ensures
            (match r {
                Some(i) => index_of(self@, mime@) == Some(i as int) && i < self@.len(),
                None => index_of(self@, mime@) is None,
            }),
    {
        self.find_first(mime, true)
    }

    fn find(&self, want: &MimeType) -> (r: Option<usize>)
        ensures
            (match r {
                Some(i) => answer(self@, want@) == Some(i as int) && i < self@.len(),
                None => answer(self@, want@) is None,
            }),
    {
        self.find_first(want, false)
    }

    /// Get the data buffer corresponding to a given MIME type, and the type that it is kept under.
    pub fn get(&self, mime: &MimeType) -> (r: Option<(&MimeType, &DataBuffer)>)
        ensures
            (match answer(self@, mime@) {
                Some(i) => r matches Some((kept, data)) && (kept@, data@) == self@[i],
                None => r is None,
            }),
    {
        match self.find(mime) {
            Some(i) => Some((&self.entries[i].0, &self.entries[i].1)),
            None => None,
        }
    }

    /// Whether data of just this MIME type is there.
    pub fn has_mime(&self, mime: &MimeType) -> (r: bool)
        ensures
            r == (index_of(self@, mime@) is Some),
    {
        self.find_same(mime).is_some()
    }
}

/// What `first_with` finds: an entry that is accepted, with none before it, or nothing if none is
/// accepted.
pub proof fn lemma_first_with(entries: Entries, accepts: spec_fn(MimeView) -> bool)
    ensures
        (match first_with(entries, accepts) {
            Some(i) => {
                &&& 0 <= i < entries.len()
                &&& accepts(entries[i].0)
                &&& forall|j: int| 0 <= j < i ==> !accepts((#[trigger] entries[j]).0)
            },
            None => forall|j: int| 0 <= j < entries.len() ==> !accepts((#[trigger] entries[j]).0),
        }),
    decreases entries.len(),
{
    if entries.len() > 0 {
        let front = entries.drop_last();
        lemma_first_with(front, accepts);
        assert forall|j: int| 0 <= j < front.len() implies #[trigger] entries[j] == front[j] by {}
    }
}

/// What is found in the first `n` entries is found in all.
proof fn lemma_first_with_prefix(entries: Entries, accepts: spec_fn(MimeView) -> bool, n: int)
    requires
        0 <= n <= entries.len(),
        first_with(entries.take(n), accepts) is Some,
    ensures
        first_with(entries, accepts) == first_with(entries.take(n), accepts),
    decreases entries.len(),
{
    if n < entries.len() {
        assert(entries.drop_last().take(n) =~= entries.take(n));
        lemma_first_with_prefix(entries.drop_last(), accepts, n);
    } else {
        assert(entries.take(n) =~= entries);
    }
}

/// Inserting keeps the types apart.
proof fn lemma_inserted(entries: Entries, mime: MimeView, data: Seq<u8>)
    requires
        types_differ(entries),
    ensures
        types_differ(inserted(entries, mime, data)),
{
    lemma_first_with(entries, |m: MimeView| m.same_type(mime));
    match index_of(entries, mime) {
        Some(k) => {
            let after = inserted(entries, mime, data);
            assert forall|i: int, j: int| 0 <= i < j < after.len() implies !(
            #[trigger] after[i]).0.same_type((#[trigger] after[j]).0) by {
                assert(!entries[i].0.same_type(entries[j].0));
            }
        },
        None => {},
    }
}

impl Register {
    /// Insert new data of a specified MIME type into the register. The data that was there for
    /// the type is handed back.
    pub fn insert(&mut self, mime: MimeType, data: DataBuffer) -> (r: Option<DataBuffer>)
        ensures
            final(self)@ == inserted(old(self)@, mime@, data@),
            (match index_of(old(self)@, mime@) {
                Some(i) => r matches Some(before) && before@ == old(self)@[i].1,
                None => r is None,
            }),
    {
        proof {
            use_type_invariant(&*self);
            lemma_inserted(self@, mime@, data@);
        }
        let found = self.find_same(&mime);
        let mut entries: Vec<(MimeType, DataBuffer)> = Vec::new();
        assert(entries_view(entries@) =~= Entries::empty());
        std::mem::swap(&mut entries, &mut self.entries);
        let r = match found {
            Some(i) => {
                let (kept, before) = entries.remove(i);
                entries.insert(i, (kept, data));
                Some(before)
            },
            None => {
                entries.push((mime, data));
                None
            },
        };
        assert(entries_view(entries@) =~= inserted(old(self)@, mime@, data@));
        self.entries = entries;
        r
    }

    /// The MIME types of the data in this register.
    pub fn keys(&self) -> (r: Vec<&MimeType>)
        ensures
            r@.len() == self@.len(),
            forall|i: int| 0 <= i < r@.len() ==> (#[trigger] r@[i])@ == self@[i].0,
    {
        let mut keys: Vec<&MimeType> = Vec::new();
        for i in 0..self.entries.len()
            invariant
                keys@.len() == i,
                forall|j: int| 0 <= j < i ==> (#[trigger] keys@[j])@ == self@[j].0,
        {
            keys.push(&self.entries[i].0);
        }
        keys
    }

    /// The MIME types with their data.
    pub fn entries(&self) -> (r: &Vec<(MimeType, DataBuffer)>)
        ensures
            entries_view(r@) == self@,
    {
        &self.entries
    }

    /// Take the register apart into MIME types with their data.
    pub fn into_entries(self) -> (r: Vec<(MimeType, DataBuffer)>)
        ensures
            entries_view(r@) == self@,
    {
        self.entries
    }
}

impl Clone for Register {
    fn clone(&self) -> (r: Register)
        ensures
            r@ == self@,
    {
        proof {
            use_type_invariant(self);
        }
        let mut entries: Vec<(MimeType, DataBuffer)> = Vec::new();
        for i in 0..self.entries.len()
            invariant
                entries@.len() == i,
                forall|j: int|
                    0 <= j < i ==> (#[trigger] entries@[j]).0@ == self@[j].0 && entries@[j].1@
                        == self@[j].1,
        {
            let data = self.entries[i].1.clone();
            assert(data@ =~= self.entries@[i as int].1@);
            entries.push((self.entries[i].0.clone(), data));
        }
        assert(entries_view(entries@) =~= self@);
        Register { entries }
    }
}

impl Default for Register {
    fn default() -> (r: Register)
        ensures
            r@ == Entries::empty(),
    {
        Register::new()
    }
}

/// The type `text/plain; charset=utf-8`.
pub open spec fn text_plain_utf8() -> MimeView {
    MimeView {
        text: "text/plain; charset=utf-8"@,
        ty: "text"@,
        subty: "plain"@,
        suffix: None,
        params: seq![("charset"@, "utf-8"@)],
    }
}

/// The type `text/plain`.
pub open spec fn text_plain() -> MimeView {
    MimeView {
        text: "text/plain"@,
        ty: "text"@,
        subty: "plain"@,
        suffix: None,
        params: seq![],
    }
}

/// The entry that a register is summarized by if it holds plain text: the first that answers a
/// request for `text/plain; charset=utf-8`, else one for `text/plain`.
pub open spec fn text_entry(entries: Entries) -> Option<int> {
    match answer(entries, text_plain_utf8()) {
        Some(i) => Some(i),
        None => answer(entries, text_plain()),
    }
}

/// The text by which the entries would be summarized, if there is any, is valid UTF-8.
pub open spec fn is_summarizable(entries: Entries) -> bool {
    text_entry(entries) matches Some(i) ==> valid_utf8(entries[i].1)
}

/// A summary of the contents of a register.
pub enum SummaryView {
    Text(Seq<char>, nat),
    Blob(MimeView, nat),
    Empty,
}

/// The summary of the entries: their plain text, or else the type and the length of the first, or that
/// there is none.
pub open spec fn summary(entries: Entries) -> SummaryView {
    match text_entry(entries) {
        Some(i) => SummaryView::Text(decode_utf8(entries[i].1), entries[i].1.len()),
        None => if entries.len() > 0 {
            SummaryView::Blob(entries[0].0, entries[0].1.len())
        } else {
            SummaryView::Empty
        },
    }
}

/// A summary of the contents of a register.
#[derive(Debug)]
pub enum RegisterSummary {
    /// The register contains text/plain data, which is kept with its length in bytes
    Text(String, usize),
    /// The register contains something else, which is summarized with its MIME type and length
    Blob(MimeType, usize),
    /// The register contains nothing
    Empty,
}

impl View for RegisterSummary {
    type V = SummaryView;

    open spec fn view(&self) -> SummaryView {
        match self {
            RegisterSummary::Text(text, n) => SummaryView::Text(text@, *n as nat),
            RegisterSummary::Blob(mime, n) => SummaryView::Blob(mime@, *n as nat),
            RegisterSummary::Empty => SummaryView::Empty,
        }
    }
}

proof fn lemma_text_types_shown()
    ensures
        text_plain_utf8().is_simple(),
        text_plain().is_simple(),
        text_plain_utf8().shown() == "text/plain; charset=utf-8"@,
        text_plain().shown() == "text/plain"@,
{
    reveal_strlit("text");
    reveal_strlit("plain");
    reveal_strlit("charset");
    reveal_strlit("utf-8");
    reveal_strlit("text/plain; charset=utf-8");
    reveal_strlit("text/plain");
    assert(text_plain().shown() =~= "text/plain"@);
    let params = text_plain_utf8().params;
    assert(params.drop_last() =~= seq![]);
    assert(shown_params(params.drop_last()) =~= seq![]);
    assert(text_plain_utf8().shown() =~= "text/plain; charset=utf-8"@);
}

impl Register {
    fn find_text(&self) -> (r: Option<usize>)
        ensures
            (match r {
                Some(i) => text_entry(self@) == Some(i as int) && i < self@.len(),
                None => text_entry(self@) is None,
            }),
    {
        proof {
            lemma_text_types_shown();
        }
        let plain_utf8 = MimeType::parse("text/plain; charset=utf-8").unwrap();
        let plain = MimeType::parse("text/plain").unwrap();
        match self.find(&plain_utf8) {
            Some(i) => Some(i),
            None => self.find(&plain),
        }
    }

    /// Whether the register can be summarized: the text by which it would be, if there is any, is
    /// valid UTF-8.
    pub fn is_summarizable(&self) -> (r: bool)
        ensures
            r == is_summarizable(self@),
    {
        match self.find_text() {
            Some(i) => {
                let data = self.entries[i].1.clone();
                assert(data@ =~= self@[i as int].1);
                text_from_utf8(data).is_some()
            },
            None => true,
        }
    }

    /// Return a summary of the contents of this register.
    pub fn summarize(&self) -> (r: RegisterSummary)
        requires
            is_summarizable(self@),
        ensures
            r@ == summary(self@),
    {
        match self.find_text() {
            Some(i) => {
                let data = self.entries[i].1.clone();
                assert(data@ =~= self@[i as int].1);
                let n: usize = data.len();
                RegisterSummary::Text(text_from_utf8(data).unwrap(), n)
            },
            None => if self.entries.len() > 0 {
                RegisterSummary::Blob(self.entries[0].0.clone(), self.entries[0].1.len())
            } else {
                RegisterSummary::Empty
            },
        }
    }

    /// The number of bytes of all the data, if it can be counted.
    pub fn total_len(&self) -> (r: Option<usize>)
        ensures
            (match r {
                Some(n) => n == total_len(self@),
                None => total_len(self@) > usize::MAX,
            }),
    {
        let mut n: usize = 0;
        assert(self@.take(0) =~= Entries::empty());
        for i in 0..self.entries.len()
            invariant
                n == total_len(self@.take(i as int)),
        {
            assert(self@.take(i + 1).drop_last() =~= self@.take(i as int));
            proof {
                lemma_total_len_prefix(self@, i + 1);
            }
            match n.checked_add(self.entries[i].1.len()) {
                Some(sum) => {
                    n = sum;
                },
                None => return None,
            }
        }
        assert(self@.take(self@.len() as int) =~= self@);
        Some(n)
    }
}

/// The first `n` entries have no more bytes than all.
pub proof fn lemma_total_len_prefix(entries: Entries, n: int)
    requires
        0 <= n <= entries.len(),
    ensures
        total_len(entries.take(n)) <= total_len(entries),
    decreases entries.len(),
{
    if n < entries.len() {
        assert(entries.drop_last().take(n) =~= entries.take(n));
        lemma_total_len_prefix(entries.drop_last(), n);
    } else {
        assert(entries.take(n) =~= entries);
    }
}

impl SummaryView {
    /// The line that a summary is shown as, where `size` is how the length of a blob is put.
    pub open spec fn shown(self, size: Seq<char>) -> Seq<char> {
        match self {
            SummaryView::Text(text, _) => trimmed(text),
            SummaryView::Blob(mime, _) => "blob ("@ + mime.shown() + ", "@ + size + ")"@,
            SummaryView::Empty => "<EMPTY>"@,
        }
    }
}

impl RegisterSummary {
    /// The line that the summary is shown as. `size` is the length of a blob in the form in which
    /// the user is to read it.
    pub fn display(&self, size: &str) -> (r: String)
        ensures
            r@ == self@.shown(size@),
    {
        match self {
            RegisterSummary::Text(text, _) => trim_end(text).to_owned(),
            RegisterSummary::Blob(mime, _) => {
                let shown = mime.display();
                "blob (".to_owned().concat(&shown).concat(", ").concat(size).concat(")")
            },
            RegisterSummary::Empty => "<EMPTY>".to_owned(),
        }
    }
}

/// A request is answered by the first entry that answers it, and left unanswered only if no entry
/// answers it.
pub proof fn first_answer_is_given(entries: Entries, want: MimeView)
    ensures
        (match answer(entries, want) {
            Some(i) => {
                &&& 0 <= i < entries.len()
                &&& entries[i].0.answers(want)
                &&& forall|j: int| 0 <= j < i ==> !(#[trigger] entries[j]).0.answers(want)
            },
            None => forall|j: int|
                0 <= j < entries.len() ==> !(#[trigger] entries[j]).0.answers(want),
        }),
{
    lemma_first_with(entries, |m: MimeView| m.answers(want));
}

/// A request for a type with parameters is answered by the entry of just that type.
pub proof fn parameters_ask_for_the_type_itself(entries: Entries, want: MimeView)
    requires
        want.subty != seq!['*'],
        want.params.len() > 0,
    ensures
        answer(entries, want) == index_of(entries, want),
{
    lemma_first_with(entries, |m: MimeView| m.answers(want));
    lemma_first_with(entries, |m: MimeView| m.same_type(want));
}

/// A request for `*/*` is answered by the first entry, if there is one.
pub proof fn any_type_is_answered_by_the_first(entries: Entries, want: MimeView)
    requires
        want.ty == seq!['*'],
        want.subty == seq!['*'],
    ensures
        answer(entries, want) == (if entries.len() > 0 {
            Some(0int)
        } else {
            None
        }),
{
    lemma_first_with(entries, |m: MimeView| m.answers(want));
    if entries.len() > 0 {
        assert(entries[0].0.answers(want));
    }
}

/// Data that was inserted is found under its type, a request for its type is answered, and the
/// register is not empty.
pub proof fn inserted_data_is_found(entries: Entries, mime: MimeView, data: Seq<u8>)
    ensures
        inserted(entries, mime, data).len() > 0,
        index_of(inserted(entries, mime, data), mime) matches Some(i) && 0 <= i < inserted(
            entries,
            mime,
            data,
        ).len() && inserted(entries, mime, data)[i].1 == data,
        answer(inserted(entries, mime, data), mime) is Some,
{
    let after = inserted(entries, mime, data);
    lemma_first_with(entries, |m: MimeView| m.same_type(mime));
    lemma_first_with(after, |m: MimeView| m.same_type(mime));
    lemma_first_with(after, |m: MimeView| m.answers(mime));
    match index_of(entries, mime) {
        Some(k) => {
            assert(after[k].0.same_type(mime));
            assert(after[k].0.answers(mime)) by {
                same_types_answer_alike(after[k].0, mime, mime);
            }
            assert forall|j: int| 0 <= j < k implies !(#[trigger] after[j]).0.same_type(mime) by {
                assert(after[j] == entries[j]);
            }
        },
        None => {
            let last = entries.len() as int;
            assert(after[last].0.same_type(mime));
            assert(after[last].0.answers(mime));
            assert forall|j: int| 0 <= j < last implies !(#[trigger] after[j]).0.same_type(
                mime,
            ) by {
                assert(after[j] == entries[j]);
            }
        },
    }
}

/// Inserting data of one type leaves the data of every other type as it was.
pub proof fn insert_keeps_other_types(
    entries: Entries,
    mime: MimeView,
    data: Seq<u8>,
    other: MimeView,
)
    requires
        !mime.same_type(other),
    ensures
        index_of(inserted(entries, mime, data), other) == index_of(entries, other),
        index_of(entries, other) matches Some(i) ==> inserted(entries, mime, data)[i]
            == entries[i],
{
    let after = inserted(entries, mime, data);
    lemma_first_with(entries, |m: MimeView| m.same_type(mime));
    lemma_first_with(entries, |m: MimeView| m.same_type(other));
    lemma_first_with(after, |m: MimeView| m.same_type(other));
    assert forall|j: int| 0 <= j < entries.len() implies (#[trigger] after[j]).0 == entries[j].0 by {}
    if index_of(entries, other) is Some {
        let i = index_of(entries, other)->0;
        assert(after[i].0.same_type(other));
        assert(entries[i].0.same_type(other));
        let k = index_of(after, other)->0;
        if k < i {
            assert(after[k].0.same_type(other));
            assert(entries[k].0.same_type(other));
        }
        if i < k {
            assert(!after[i].0.same_type(other));
        }
    } else if index_of(after, other) is Some {
        let k = index_of(after, other)->0;
        assert(after[k].0.same_type(other));
        if k < entries.len() {
            assert(entries[k].0.same_type(other));
        }
    }
}

/// Of two insertions of one type the second counts.
pub proof fn second_insert_counts(
    entries: Entries,
    mime: MimeView,
    first: Seq<u8>,
    second: Seq<u8>,
)
    ensures
        inserted(inserted(entries, mime, first), mime, second) == inserted(entries, mime, second),
{
    let once = inserted(entries, mime, first);
    lemma_first_with(entries, |m: MimeView| m.same_type(mime));
    lemma_first_with(once, |m: MimeView| m.same_type(mime));
    inserted_data_is_found(entries, mime, first);
    let k = index_of(once, mime)->0;
    match index_of(entries, mime) {
        Some(i) => {
            assert(once[i].0.same_type(mime));
            assert(entries[k].0.same_type(mime));
            assert(k == i);
        },
        None => {
            if k < entries.len() {
                assert(entries[k].0.same_type(mime));
            }
            assert(k == entries.len());
        },
    }
    assert(inserted(once, mime, second) =~= inserted(entries, mime, second));
}

/// Whatever is inserted in turn, no type is there twice.
pub proof fn filled_types_differ(pastes: Entries)
    ensures
        types_differ(filled(pastes)),
    decreases pastes.len(),
{
    if pastes.len() > 0 {
        filled_types_differ(pastes.drop_last());
        lemma_inserted(filled(pastes.drop_last()), pastes.last().0, pastes.last().1);
    }
}

/// Entries of different types, inserted in turn, make up a register of just these entries.
pub proof fn distinct_entries_are_kept(entries: Entries)
    requires
        types_differ(entries),
    ensures
        filled(entries) == entries,
    decreases entries.len(),
{
    if entries.len() > 0 {
        let front = entries.drop_last();
        let last = entries.last().0;
        assert forall|i: int, j: int| 0 <= i < j < front.len() implies !(
        #[trigger] front[i]).0.same_type((#[trigger] front[j]).0) by {
            assert(!entries[i].0.same_type(entries[j].0));
        }
        distinct_entries_are_kept(front);
        lemma_first_with(front, |m: MimeView| m.same_type(last));
        if index_of(front, last) is Some {
            let i = index_of(front, last)->0;
            assert(front[i].0.same_type(last));
            assert(!entries[i].0.same_type(entries[entries.len() - 1].0));
        }
        assert(front.push(entries.last()) =~= entries);
    }
}

/// An entry holds the data of paste number `i`: the two are of the same type, and no later paste is
/// of that type.
pub open spec fn comes_from(pastes: Entries, entry: (MimeView, Seq<u8>), i: int) -> bool {
    &&& 0 <= i < pastes.len()
    &&& pastes[i].0.same_type(entry.0)
    &&& pastes[i].1 == entry.1
    &&& forall|j: int| i < j < pastes.len() ==> !(#[trigger] pastes[j]).0.same_type(entry.0)
}

/// Each entry of what was filled in holds the data of the last paste of its type.
pub proof fn last_paste_of_a_type_counts(pastes: Entries, k: int)
    requires
        0 <= k < filled(pastes).len(),
    ensures
        exists|i: int| comes_from(pastes, filled(pastes)[k], i),
    decreases pastes.len(),
{
    let front = pastes.drop_last();
    let before = filled(front);
    let last = pastes.len() - 1;
    let (mime, data) = pastes.last();
    let entry = filled(pastes)[k];
    filled_types_differ(front);
    lemma_first_with(before, |m: MimeView| m.same_type(mime));
    if k < before.len() && index_of(before, mime) != Some(k) {
        assert(entry == before[k]);
        last_paste_of_a_type_counts(front, k);
        let i = choose|i: int| comes_from(front, before[k], i);
        assert(!mime.same_type(entry.0)) by {
            if index_of(before, mime) is Some {
                let p = index_of(before, mime)->0;
                assert(before[p].0.same_type(mime));
                if p < k {
                    assert(!before[p].0.same_type(before[k].0));
                } else {
                    assert(!before[k].0.same_type(before[p].0));
                }
            } else {
                assert(!before[k].0.same_type(mime));
            }
        }
        assert forall|j: int| i < j < pastes.len() implies !(#[trigger] pastes[j]).0.same_type(
            entry.0,
        ) by {
            if j < last {
                assert(front[j] == pastes[j]);
            }
        }
        assert(front[i] == pastes[i]);
        assert(comes_from(pastes, entry, i));
    } else {
        assert(mime.same_type(entry.0));
        assert(comes_from(pastes, entry, last));
    }
}

/// Each paste has an entry of its type among what was filled in.
pub proof fn every_pasted_type_is_kept(pastes: Entries, i: int)
    requires
        0 <= i < pastes.len(),
    ensures
        exists|k: int|
            0 <= k < filled(pastes).len() && pastes[i].0.same_type(
                (#[trigger] filled(pastes)[k]).0,
            ),
    decreases pastes.len(),
{
    let front = pastes.drop_last();
    let before = filled(front);
    let after = filled(pastes);
    let (mime, data) = pastes.last();
    lemma_first_with(before, |m: MimeView| m.same_type(mime));
    if i < front.len() {
        every_pasted_type_is_kept(front, i);
        assert(front[i] == pastes[i]);
        let k = choose|k: int|
            0 <= k < before.len() && front[i].0.same_type((#[trigger] before[k]).0);
        assert(after[k].0 == before[k].0);
        assert(pastes[i].0.same_type(after[k].0));
    } else {
        match index_of(before, mime) {
            Some(p) => {
                assert(before[p].0.same_type(mime));
                assert(pastes[i].0.same_type(after[p].0));
            },
            None => {
                assert(pastes[i].0.same_type(after[before.len() as int].0));
            },
        }
    }
}

/// The view of a list of types with their data has each of them in its place, and the view of a
/// summary has its parts.
pub proof fn entries_and_summaries_are_viewed_part_by_part(
    entries: Seq<(MimeType, DataBuffer)>,
    summary: RegisterSummary,
)
    ensures
        entries_view(entries).len() == entries.len(),
        forall|i: int|
            0 <= i < entries.len() ==> (#[trigger] entries_view(entries)[i]).0 == entries[i].0@
                && entries_view(entries)[i].1 == entries[i].1@,
        (match summary {
            RegisterSummary::Text(text, n) => summary@ matches SummaryView::Text(t, m) && t == text@
                && m == n,
            RegisterSummary::Blob(mime, n) => summary@ matches SummaryView::Blob(t, m) && t == mime@
                && m == n,
            RegisterSummary::Empty => summary@ is Empty,
        }),
{
}

/// A type is found in the entry of that type, and not found only if no entry is of that type.
pub proof fn type_is_found_in_its_entry(entries: Entries, mime: MimeView)
    ensures
        (match index_of(entries, mime) {
            Some(i) => {
                &&& 0 <= i < entries.len()
                &&& entries[i].0.same_type(mime)
                &&& forall|j: int| 0 <= j < i ==> !(#[trigger] entries[j]).0.same_type(mime)
            },
            None => forall|j: int|
                0 <= j < entries.len() ==> !(#[trigger] entries[j]).0.same_type(mime),
        }),
{
    lemma_first_with(entries, |m: MimeView| m.same_type(mime));
}

/// Inserting data changes no more than the data of one entry, or adds one entry behind all others:
/// the types that were there stay in their places as they were written.
pub proof fn insert_changes_one_entry(entries: Entries, mime: MimeView, data: Seq<u8>)
    ensures
        forall|j: int|
            0 <= j < entries.len() ==> (#[trigger] inserted(entries, mime, data)[j]).0
                == entries[j].0,
        forall|j: int|
            0 <= j < entries.len() && !(#[trigger] entries[j]).0.same_type(mime) ==> inserted(
                entries,
                mime,
                data,
            )[j] == entries[j],
        (exists|j: int| 0 <= j < entries.len() && (#[trigger] entries[j]).0.same_type(mime))
            ==> inserted(entries, mime, data).len() == entries.len(),
        (forall|j: int| 0 <= j < entries.len() ==> !(#[trigger] entries[j]).0.same_type(mime))
            ==> inserted(entries, mime, data) == entries.push((mime, data)),
{
    lemma_first_with(entries, |m: MimeView| m.same_type(mime));
}

/// The number of bytes of one entry is that of its data, and the numbers of bytes of several add
/// up.
pub proof fn numbers_of_bytes_add_up(entry: (MimeView, Seq<u8>), a: Entries, b: Entries)
    ensures
        total_len(Entries::empty()) == 0,
        total_len(seq![entry]) == entry.1.len(),
        total_len(a + b) == total_len(a) + total_len(b),
    decreases b.len(),
{
    let one: Entries = seq![entry];
    assert(one.drop_last() =~= Entries::empty());
    reveal_with_fuel(total_len, 2);
    if b.len() > 0 {
        assert((a + b).drop_last() =~= a + b.drop_last());
        assert((a + b).last() == b.last());
        numbers_of_bytes_add_up(entry, a, b.drop_last());
    } else {
        assert(a + b =~= a);
    }
}

/// The type is `text/plain`, with whatever parameters.
pub open spec fn is_plain_text(mime: MimeView) -> bool {
    &&& same_name(mime.ty, seq!['t', 'e', 'x', 't'])
    &&& same_name(mime.subty, seq!['p', 'l', 'a', 'i', 'n'])
    &&& mime.suffix is None
}

/// The type is `text/plain` with the parameter `charset=utf-8` and no other.
pub open spec fn is_utf8_text(mime: MimeView) -> bool {
    &&& is_plain_text(mime)
    &&& param_map(mime.params) == Map::<Seq<char>, Seq<char>>::empty().insert(
        seq!['c', 'h', 'a', 'r', 's', 'e', 't'],
        seq!['u', 't', 'f', '-', '8'],
    )
}

proof fn lemma_text_types(mime: MimeView)
    ensures
        mime.answers(text_plain()) <==> is_plain_text(mime),
        mime.answers(text_plain_utf8()) <==> is_utf8_text(mime),
{
    reveal_strlit("text");
    reveal_strlit("plain");
    reveal_strlit("charset");
    reveal_strlit("utf-8");
    assert("text"@ =~= seq!['t', 'e', 'x', 't']);
    assert("plain"@ =~= seq!['p', 'l', 'a', 'i', 'n']);
    assert("charset"@ =~= seq!['c', 'h', 'a', 'r', 's', 'e', 't']);
    assert("utf-8"@ =~= seq!['u', 't', 'f', '-', '8']);
    assert("plain"@ != seq!['*']) by {
        assert("plain"@.len() == 5);
    }
    let params = text_plain_utf8().params;
    assert(params.drop_last() =~= seq![]);
    assert(lower("charset"@) =~= "charset"@);
    assert(param_map(params.drop_last()) == Map::<Seq<char>, Seq<char>>::empty());
    assert(param_map(params) == Map::<Seq<char>, Seq<char>>::empty().insert(
        "charset"@,
        "utf-8"@,
    ));
}

/// A register that holds plain text is summarized by it: by the first that is in UTF-8, or by the
/// first of all if none is. The summary has the text itself and its number of bytes, and it can be
/// made if and only if that text is valid UTF-8.
pub proof fn plain_text_is_the_summary(entries: Entries, i: int)
    requires
        0 <= i < entries.len(),
        is_plain_text(entries[i].0),
        is_utf8_text(entries[i].0) || forall|j: int|
            0 <= j < entries.len() ==> !is_utf8_text((#[trigger] entries[j]).0),
        forall|j: int|
            0 <= j < i ==> !is_plain_text((#[trigger] entries[j]).0) || (is_utf8_text(entries[i].0)
                && !is_utf8_text(entries[j].0)),
    ensures
        summary(entries) == SummaryView::Text(decode_utf8(entries[i].1), entries[i].1.len()),
        is_summarizable(entries) <==> valid_utf8(entries[i].1),
{
    assert forall|j: int| 0 <= j < entries.len() implies ((#[trigger] entries[j]).0.answers(
        text_plain(),
    ) <==> is_plain_text(entries[j].0)) && (entries[j].0.answers(text_plain_utf8())
        <==> is_utf8_text(entries[j].0)) by {
        lemma_text_types(entries[j].0);
    }
    first_answer_is_given(entries, text_plain_utf8());
    first_answer_is_given(entries, text_plain());
    let k = text_entry(entries)->0;
    assert(entries[i].0.answers(text_plain()));
    if is_utf8_text(entries[i].0) {
        assert(entries[i].0.answers(text_plain_utf8()));
        assert(entries[k].0.answers(text_plain_utf8()));
        if k < i {
            assert(is_utf8_text(entries[k].0));
        }
    } else {
        assert(answer(entries, text_plain_utf8()) is None);
        if k < i {
            assert(is_plain_text(entries[k].0));
        }
    }
    assert(k == i);
}

/// A register that holds no plain text can always be summarized: by the type and the number of
/// bytes of the first data in it, and as empty if and only if there is none.
pub proof fn other_contents_are_summarized_by_type_and_size(entries: Entries)
    requires
        forall|j: int| 0 <= j < entries.len() ==> !is_plain_text((#[trigger] entries[j]).0),
    ensures
        is_summarizable(entries),
        entries.len() > 0 ==> summary(entries) == SummaryView::Blob(
            entries[0].0,
            entries[0].1.len(),
        ),
        entries.len() == 0 ==> summary(entries) == SummaryView::Empty,
{
    assert forall|j: int| 0 <= j < entries.len() implies !(#[trigger] entries[j]).0.answers(
        text_plain(),
    ) && !entries[j].0.answers(text_plain_utf8()) by {
        lemma_text_types(entries[j].0);
    }
    first_answer_is_given(entries, text_plain_utf8());
    first_answer_is_given(entries, text_plain());
}

/// A register is summarized as empty if and only if it is.
pub proof fn summary_is_empty_only_for_no_contents(entries: Entries)
    ensures
        summary(entries) is Empty <==> entries.len() == 0,
{
    first_answer_is_given(entries, text_plain_utf8());
    first_answer_is_given(entries, text_plain());
}

/// A text is shown up to the white space at its end, a blob by its type and the given size, and
/// that a register is empty in a fixed form.
pub proof fn summary_is_shown_by_its_contents(summary: SummaryView, size: Seq<char>)
    ensures
        (match summary {
            SummaryView::Text(text, _) => {
                let shown = summary.shown(size);
                &&& shown.len() <= text.len()
                &&& shown == text.take(shown.len() as int)
                &&& forall|i: int| shown.len() <= i < text.len() ==> is_space(#[trigger] text[i])
                &&& shown.len() > 0 ==> !is_space(shown.last())
            },
            SummaryView::Blob(mime, _) => {
                let shown = summary.shown(size);
                let n = 6 + mime.shown().len() as int;
                &&& shown.take(6) == seq!['b', 'l', 'o', 'b', ' ', '(']
                &&& shown.subrange(6, n) == mime.shown()
                &&& shown.skip(n) == seq![',', ' '] + size + seq![')']
            },
            SummaryView::Empty => summary.shown(size) == seq!['<', 'E', 'M', 'P', 'T', 'Y', '>'],
        }),
{
    reveal_strlit("blob (");
    reveal_strlit(", ");
    reveal_strlit(")");
    reveal_strlit("<EMPTY>");
    match summary {
        SummaryView::Text(text, _) => {
            trimming_cuts_off_white_space_alone(text);
        },
        SummaryView::Blob(mime, _) => {
            let shown = summary.shown(size);
            let n = 6 + mime.shown().len() as int;
            assert(shown.take(6) =~= seq!['b', 'l', 'o', 'b', ' ', '(']);
            assert(shown.subrange(6, n) =~= mime.shown());
            assert(shown.skip(n) =~= seq![',', ' '] + size + seq![')']);
        },
        SummaryView::Empty => {
            assert("<EMPTY>"@ =~= seq!['<', 'E', 'M', 'P', 'T', 'Y', '>']);
        },
    }
}

/// What is filled in is inserted one after the other, starting with nothing.
pub proof fn filling_inserts_one_after_another(
    pastes: Entries,
    mime: MimeView,
    data: Seq<u8>,
)
    ensures
        filled(Entries::empty()) == Entries::empty(),
        filled(pastes.push((mime, data))) == inserted(filled(pastes), mime, data),
{
    assert(pastes.push((mime, data)).drop_last() =~= pastes);
}

/// What is filled in has the types in the order in which they first came, each as it was first
/// written.
pub proof fn types_are_in_the_order_of_their_first_coming(pastes: Entries, more: Entries)
    ensures
        filled(pastes).len() <= filled(pastes + more).len(),
        forall|k: int|
            0 <= k < filled(pastes).len() ==> (#[trigger] filled(pastes + more)[k]).0 == filled(
                pastes,
            )[k].0,
    decreases more.len(),
{
    if more.len() > 0 {
        let all = pastes + more;
        let (mime, data) = more.last();
        assert(all.drop_last() =~= pastes + more.drop_last());
        types_are_in_the_order_of_their_first_coming(pastes, more.drop_last());
        insert_changes_one_entry(filled(all.drop_last()), mime, data);
        assert forall|k: int| 0 <= k < filled(pastes).len() implies (#[trigger] filled(all)[k]).0
            == filled(pastes)[k].0 by {
            assert(filled(all)[k] == inserted(filled(all.drop_last()), mime, data)[k]);
        }
        lemma_first_with(filled(all.drop_last()), |m: MimeView| m.same_type(mime));
    } else {
        assert(pastes + more =~= pastes);
    }
}

} // verus!
