//! MIME types, as the `mediatype` crate reads and compares them.

use std::str::FromStr;

use mediatype::{MediaTypeBuf, Name, ReadParams};
use vstd::prelude::*;
use vstd::std_specs::cmp::PartialEqSpec;

use crate::error::Error;

verus! {

/// A MIME type: its text, and its parts as they are written in it.
pub struct MimeView {
    /// The text of the type, up to the end of the last parameter.
    pub text: Seq<char>,
    /// The top-level type, such as `text`.
    pub ty: Seq<char>,
    /// The subtype, such as `plain`.
    pub subty: Seq<char>,
    /// The suffix, such as `xml` in `image/svg+xml`.
    pub suffix: Option<Seq<char>>,
    /// The parameters in order, each a name and a value. A quoted value keeps its quotes.
    pub params: Seq<(Seq<char>, Seq<char>)>,
}

/// The lower-case form of an ASCII letter; any other character is kept.
pub open spec fn ascii_lower(c: char) -> char {
    if 'A' <= c && c <= 'Z' {
        ((c as u32) + 32) as char
    } else {
        c
    }
}

/// A name with its ASCII letters in lower case.
pub open spec fn lower(s: Seq<char>) -> Seq<char> {
    s.map_values(|c: char| ascii_lower(c))
}

/// Two names are the same if they differ at most in the case of ASCII letters.
pub open spec fn same_name(a: Seq<char>, b: Seq<char>) -> bool {
    lower(a) == lower(b)
}

/// The text in which each `\` is dropped and the character behind it is kept.
pub open spec fn unescaped(s: Seq<char>) -> Seq<char>
    decreases s.len(),
{
    if s.len() == 0 {
        seq![]
    } else if s[0] == '\\' {
        if s.len() == 1 {
            seq![]
        } else {
            seq![s[1]] + unescaped(s.skip(2))
        }
    } else {
        seq![s[0]] + unescaped(s.skip(1))
    }
}

/// The text that a parameter value stands for: a quoted value without its quotes and escapes.
pub open spec fn unquoted(value: Seq<char>) -> Seq<char> {
    if value.len() >= 2 && value[0] == '"' {
        unescaped(value.subrange(1, value.len() - 1))
    } else {
        value
    }
}

/// The parameters as a map from lower-case names to values. Of several values of one name the
/// last counts.
pub open spec fn param_map(params: Seq<(Seq<char>, Seq<char>)>) -> Map<Seq<char>, Seq<char>>
    decreases params.len(),
{
    if params.len() == 0 {
        Map::empty()
    } else {
        param_map(params.drop_last()).insert(lower(params.last().0), unquoted(params.last().1))
    }
}

/// A character of a name.
pub open spec fn is_name_char(c: char) -> bool {
    ||| 'a' <= c && c <= 'z'
    ||| 'A' <= c && c <= 'Z'
    ||| '0' <= c && c <= '9'
    ||| c == '!' || c == '#' || c == '$' || c == '&' || c == '-' || c == '^' || c == '_'
    ||| c == '.' || c == '+' || c == '%' || c == '*' || c == '\''
}

/// A name of 1 to 127 name characters without `+`, which starts with a letter, a digit or `*`.
pub open spec fn is_simple_name(s: Seq<char>) -> bool {
    &&& 1 <= s.len() <= 127
    &&& forall|i: int| 0 <= i < s.len() ==> is_name_char(#[trigger] s[i]) && s[i] != '+'
    &&& {
        ||| 'a' <= s[0] && s[0] <= 'z'
        ||| 'A' <= s[0] && s[0] <= 'Z'
        ||| '0' <= s[0] && s[0] <= '9'
        ||| s[0] == '*'
    }
}

/// A value that needs no quotes.
pub open spec fn is_token(s: Seq<char>) -> bool {
    forall|i: int| 0 <= i < s.len() ==> is_name_char(#[trigger] s[i])
}

/// The parameters as they are written behind a type.
pub open spec fn shown_params(params: Seq<(Seq<char>, Seq<char>)>) -> Seq<char>
    decreases params.len(),
{
    if params.len() == 0 {
        seq![]
    } else {
        shown_params(params.drop_last()) + seq![';', ' '] + params.last().0 + seq!['=']
            + params.last().1
    }
}

/// A text without the blanks, tabs and semicolons at its end.
pub open spec fn without_separators(text: Seq<char>) -> Seq<char>
    decreases text.len(),
{
    if text.len() > 0 && (text.last() == ' ' || text.last() == '\t' || text.last() == ';') {
        without_separators(text.drop_last())
    } else {
        text
    }
}

impl MimeView {
    /// `type/subtype+suffix; name=value; ...`
    pub open spec fn shown(self) -> Seq<char> {
        self.ty + seq!['/'] + self.subty + (match self.suffix {
            Some(suffix) => seq!['+'] + suffix,
            None => seq![],
        }) + shown_params(self.params)
    }

    /// Simple names all over, no quoted value, and written as it is shown.
    pub open spec fn is_simple(self) -> bool {
        &&& self.text == self.shown()
        &&& is_simple_name(self.ty)
        &&& is_simple_name(self.subty)
        &&& self.suffix matches Some(suffix) ==> is_simple_name(suffix)
        &&& forall|i: int|
            0 <= i < self.params.len() ==> is_simple_name(#[trigger] self.params[i].0) && is_token(
                self.params[i].1,
            )
    }

    /// The types agree up to their parameters.
    pub open spec fn same_essence(self, other: MimeView) -> bool {
        &&& same_name(self.ty, other.ty)
        &&& same_name(self.subty, other.subty)
        &&& match (self.suffix, other.suffix) {
            (Some(a), Some(b)) => same_name(a, b),
            (None, None) => true,
            _ => false,
        }
    }

    /// The types agree, and so do their parameters, in whatever order they are written.
    pub open spec fn same_type(self, other: MimeView) -> bool {
        &&& self.same_essence(other)
        &&& param_map(self.params) == param_map(other.params)
    }

    /// A type that is kept answers a request for `want`: the subtype `*` stands for any subtype,
    /// the type `*/*` for any type. A request with parameters asks for exactly that type, one
    /// without asks for the type with any parameters.
    pub open spec fn answers(self, want: MimeView) -> bool {
        if want.subty != seq!['*'] {
            if want.params.len() > 0 {
                self.same_type(want)
            } else {
                self.same_essence(want)
            }
        } else if want.ty != seq!['*'] {
            same_name(self.ty, want.ty)
        } else {
            true
        }
    }
}

/// What `MediaTypeBuf::from_str` makes of a text: the text and the parts of the type, or the
/// message of the error.
pub uninterp spec fn media_type_of(text: Seq<char>) -> Result<MimeView, Seq<char>>;

/// A MIME type as plain values.
#[derive(Debug)]
struct MimeParts {
    text: String,
    ty: String,
    subty: String,
    suffix: Option<String>,
    params: Vec<(String, String)>,
}

impl View for MimeParts {
    type V = MimeView;

    closed spec fn view(&self) -> MimeView {
        MimeView {
            text: self.text@,
            ty: self.ty@,
            subty: self.subty@,
            suffix: match self.suffix {
                Some(suffix) => Some(suffix@),
                None => None,
            },
            params: self.params@.map_values(|p: (String, String)| (p.0@, p.1@)),
        }
    }
}

/// A result of reading a MIME type, by its views.
pub open spec fn read_view<T: View<V = MimeView>>(r: Result<T, Error>) -> Result<
    MimeView,
    Seq<char>,
> {
    match r {
        Ok(mime) => Ok(mime@),
        Err(message) => Err(message@),
    }
}

/// If the text is what a simple type is shown as, then that type is what was read.
pub open spec fn reads_back(text: Seq<char>, read: Result<MimeView, Seq<char>>) -> bool {
    forall|v: MimeView|
        v.is_simple() && text == #[trigger] v.shown() ==> read == Ok::<MimeView, Seq<char>>(v)
}

/// Calls `MediaTypeBuf::from_str` and hands out what `as_str`, `ty`, `subty`, `suffix` and `params`
/// give, or the text of the error. The result depends on the text alone. A type with simple names
/// and unquoted values, written as `Display` writes it, is read back as it was. The text that is
/// kept ends behind the last parameter, or behind the names if there is none, so that blanks, tabs
/// and semicolons at the end are dropped; it reads as the same type again.
#[verifier::external_body]
fn read_media_type(text: &str) -> (r: Result<MimeParts, Error>)
    ensures
        read_view(r) == media_type_of(text@),
        reads_back(text@, read_view(r)),
        r matches Ok(parts) ==> parts@.text == without_separators(text@),
        r matches Ok(parts) ==> media_type_of(parts@.text) == media_type_of(text@),
{
    match MediaTypeBuf::from_str(text) {
        Ok(m) => Ok(
            MimeParts {
                text: m.as_str().to_owned(),
                ty: m.ty().as_str().to_owned(),
                subty: m.subty().as_str().to_owned(),
                suffix: m.suffix().map(|n| n.as_str().to_owned()),
                params: m.params().map(
                    |(n, v)| (n.as_str().to_owned(), v.as_str().to_owned()),
                ).collect(),
            },
        ),
        Err(e) => Err(e.to_string()),
    }
}

/// Calls `==` of `mediatype::Name`, which ignores the case of ASCII letters.
#[verifier::external_body]
fn names_eq(a: &str, b: &str) -> (r: bool)
    ensures
        r == same_name(a@, b@),
{
    Name::new_unchecked(a) == Name::new_unchecked(b)
}

/// Calls `==` of `MediaTypeBuf` on the types that the two texts stand for. It compares the names
/// without regard to ASCII case and the parameters as maps from names to unquoted values.
#[verifier::external_body]
fn media_types_eq(a: &str, b: &str) -> (r: bool)
    requires
        media_type_of(a@) is Ok,
        media_type_of(b@) is Ok,
    ensures
        r == media_type_of(a@)->Ok_0.same_type(media_type_of(b@)->Ok_0),
{
    MediaTypeBuf::from_str(a).unwrap() == MediaTypeBuf::from_str(b).unwrap()
}

/// Calls `==` on what `MediaTypeBuf::essence` gives of the types that the two texts stand for:
/// type, subtype and suffix are compared, the parameters are not.
#[verifier::external_body]
fn essences_eq(a: &str, b: &str) -> (r: bool)
    requires
        media_type_of(a@) is Ok,
        media_type_of(b@) is Ok,
    ensures
        r == media_type_of(a@)->Ok_0.same_essence(media_type_of(b@)->Ok_0),
{
    MediaTypeBuf::from_str(a).unwrap().essence() == MediaTypeBuf::from_str(b).unwrap().essence()
}

/// Calls `to_string` of `MediaTypeBuf` on the type that the text stands for. It writes the parts
/// as they are, with `; ` before each parameter.
#[verifier::external_body]
fn media_type_shown(text: &str) -> (r: String)
    requires
        media_type_of(text@) is Ok,
    ensures
        r@ == media_type_of(text@)->Ok_0.shown(),
{
    MediaTypeBuf::from_str(text).unwrap().to_string()
}

/// A MIME type.
#[derive(Debug)]
pub struct MimeType {
    parts: MimeParts,
}

impl View for MimeType {
    type V = MimeView;

    closed spec fn view(&self) -> MimeView {
        self.parts@
    }
}

impl MimeType {
    #[verifier::type_invariant]
    closed spec fn well_formed(self) -> bool {
        media_type_of(self.parts@.text) == Ok::<MimeView, Seq<char>>(self.parts@)
    }

    /// Read a MIME type from its text.
    pub fn parse(text: &str) -> (r: Result<MimeType, Error>)
        ensures
            read_view(r) == media_type_of(text@),
            reads_back(text@, read_view(r)),
            r matches Ok(mime) ==> mime@.text == without_separators(text@),
            r matches Ok(mime) ==> media_type_of(mime@.text) == media_type_of(text@),
    {
        match read_media_type(text) {
            Ok(parts) => Ok(MimeType { parts }),
            Err(message) => Err(message),
        }
    }

    /// Whether the two types are the same, parameters included.
    pub fn same_type(&self, other: &MimeType) -> (r: bool)
        ensures
            r == self@.same_type(other@),
    {
        proof {
            use_type_invariant(self);
            use_type_invariant(other);
        }
        media_types_eq(&self.parts.text, &other.parts.text)
    }

    /// Whether the top-level type is `name`.
    pub fn has_type(&self, name: &str) -> (r: bool)
        ensures
            r == same_name(self@.ty, name@),
    {
        names_eq(&self.parts.ty, name)
    }

    /// Whether this type answers a request for `want`.
    pub fn answers(&self, want: &MimeType) -> (r: bool)
        ensures
            r == self@.answers(want@),
    {
        proof {
            use_type_invariant(self);
            use_type_invariant(want);
            lemma_star(want@.ty);
            lemma_star(want@.subty);
        }
        let has_params = want.parts.params.len() > 0;
        let any_subtype = names_eq(&want.parts.subty, "*");
        if !any_subtype && has_params {
            media_types_eq(&self.parts.text, &want.parts.text)
        } else if !any_subtype {
            essences_eq(&self.parts.text, &want.parts.text)
        } else if !names_eq(&want.parts.ty, "*") {
            names_eq(&self.parts.ty, &want.parts.ty)
        } else {
            true
        }
    }

    /// The type as it is shown to the user.
    pub fn display(&self) -> (r: String)
        ensures
            r@ == self@.shown(),
    {
        proof {
            use_type_invariant(self);
        }
        media_type_shown(&self.parts.text)
    }

    /// The text of the type: what it was read from, up to the end of the last parameter.
    pub fn as_str(&self) -> (r: &str)
        ensures
            r@ == self@.text,
            media_type_of(r@) == Ok::<MimeView, Seq<char>>(self@),
    {
        proof {
            use_type_invariant(self);
        }
        &self.parts.text
    }
}

impl Clone for MimeType {
    fn clone(&self) -> (r: MimeType)
        ensures
            r@ == self@,
    {
        proof {
            use_type_invariant(self);
        }
        let source = &self.parts.params;
        let mut params: Vec<(String, String)> = Vec::new();
        for i in 0..source.len()
            invariant
                params@.len() == i,
                forall|j: int|
                    0 <= j < i ==> (#[trigger] params@[j]).0@ == source@[j].0@ && params@[j].1@
                        == source@[j].1@,
        {
            params.push((source[i].0.clone(), source[i].1.clone()));
        }
        let suffix = match &self.parts.suffix {
            Some(suffix) => Some(suffix.clone()),
            None => None,
        };
        let parts = MimeParts {
            text: self.parts.text.clone(),
            ty: self.parts.ty.clone(),
            subty: self.parts.subty.clone(),
            suffix,
            params,
        };
        assert(parts@.params =~= self.parts@.params);
        MimeType { parts }
    }
}

impl PartialEq for MimeType {
    fn eq(&self, other: &MimeType) -> (r: bool) {
        self.same_type(other)
    }
}

impl vstd::std_specs::cmp::PartialEqSpecImpl for MimeType {
    open spec fn obeys_eq_spec() -> bool {
        true
    }

    open spec fn eq_spec(&self, other: &MimeType) -> bool {
        self@.same_type(other@)
    }
}

impl Eq for MimeType {

}

/// Only `*` itself is the same name as `*`.
proof fn lemma_star(s: Seq<char>)
    ensures
        same_name(s, "*"@) <==> s == seq!['*'],
{
    reveal_strlit("*");
    assert("*"@ =~= seq!['*']);
    assert(lower("*"@) =~= seq!['*']);
    if same_name(s, "*"@) {
        assert(lower(s).len() == 1);
        assert(lower(s)[0] == ascii_lower(s[0]));
        assert(s =~= seq!['*']);
    }
}

/// Being the same type is an equivalence, and so is being the same type up to parameters.
pub proof fn same_type_is_an_equivalence(a: MimeView, b: MimeView, c: MimeView)
    ensures
        a.same_type(a),
        a.same_type(b) ==> b.same_type(a),
        a.same_type(b) && b.same_type(c) ==> a.same_type(c),
        a.same_essence(a),
        a.same_essence(b) ==> b.same_essence(a),
        a.same_essence(b) && b.same_essence(c) ==> a.same_essence(c),
{
}

/// Types that are the same answer the same requests.
pub proof fn same_types_answer_alike(a: MimeView, b: MimeView, want: MimeView)
    requires
        a.same_type(b),
    ensures
        a.answers(want) == b.answers(want),
{
}

/// Every type answers a request for itself.
pub proof fn type_answers_itself(mime: MimeView)
    ensures
        mime.answers(mime),
{
}

/// A simple type is read back from the text that it is shown as.
pub proof fn shown_type_is_read_back(mime: MimeView, read: Result<MimeView, Seq<char>>)
    requires
        mime.is_simple(),
        reads_back(mime.shown(), read),
    ensures
        read == Ok::<MimeView, Seq<char>>(mime),
{
}

/// Two names are the same if they have the same characters in the same places, where an ASCII
/// letter may be in upper case in the one and in lower case in the other.
pub proof fn names_differ_at_most_in_case(a: Seq<char>, b: Seq<char>)
    ensures
        same_name(a, b) <==> a.len() == b.len() && forall|i: int|
            0 <= i < a.len() ==> {
                ||| #[trigger] a[i] == b[i]
                ||| 'A' <= a[i] && a[i] <= 'Z' && b[i] as u32 == a[i] as u32 + 32
                ||| 'A' <= b[i] && b[i] <= 'Z' && a[i] as u32 == b[i] as u32 + 32
            },
{
    if same_name(a, b) {
        assert(lower(a).len() == lower(b).len());
        assert forall|i: int| 0 <= i < a.len() implies {
            ||| #[trigger] a[i] == b[i]
            ||| 'A' <= a[i] && a[i] <= 'Z' && b[i] as u32 == a[i] as u32 + 32
            ||| 'A' <= b[i] && b[i] <= 'Z' && a[i] as u32 == b[i] as u32 + 32
        } by {
            assert(lower(a)[i] == ascii_lower(a[i]));
            assert(lower(b)[i] == ascii_lower(b[i]));
        }
    }
    if a.len() == b.len() && forall|i: int|
        0 <= i < a.len() ==> {
            ||| #[trigger] a[i] == b[i]
            ||| 'A' <= a[i] && a[i] <= 'Z' && b[i] as u32 == a[i] as u32 + 32
            ||| 'A' <= b[i] && b[i] <= 'Z' && a[i] as u32 == b[i] as u32 + 32
        } {
        assert forall|i: int| 0 <= i < a.len() implies ascii_lower(#[trigger] a[i]) == ascii_lower(
            b[i],
        ) by {}
        assert(lower(a) =~= lower(b));
    }
}

/// A parameter is there if one of that name is written, in whatever case, and its value is the one
/// that is written last for the name.
pub proof fn last_value_of_a_parameter_counts(
    params: Seq<(Seq<char>, Seq<char>)>,
    name: Seq<char>,
    i: int,
)
    ensures
        param_map(params).contains_key(lower(name)) <==> exists|k: int|
            0 <= k < params.len() && same_name((#[trigger] params[k]).0, name),
        0 <= i < params.len() && same_name(params[i].0, name) && (forall|j: int|
            i < j < params.len() ==> !same_name((#[trigger] params[j]).0, name)) ==> param_map(
            params,
        )[lower(name)] == unquoted(params[i].1),
    decreases params.len(),
{
    if params.len() > 0 {
        let front = params.drop_last();
        let last = params.len() - 1;
        last_value_of_a_parameter_counts(front, name, i);
        assert forall|k: int| 0 <= k < front.len() implies #[trigger] params[k] == front[k] by {}
        assert(params[last] == params.last());
        if !same_name(params[last].0, name) {
            assert(lower(params.last().0) != lower(name));
            if param_map(front).contains_key(lower(name)) {
                let k = choose|k: int|
                    0 <= k < front.len() && same_name((#[trigger] front[k]).0, name);
                assert(same_name(params[k].0, name));
            } else {
                assert forall|k: int| 0 <= k < params.len() implies !same_name(
                    (#[trigger] params[k]).0,
                    name,
                ) by {
                    if k < last {
                        assert(!same_name(front[k].0, name));
                    }
                }
            }
        }
    }
}

/// A value stands for itself if it is not quoted, and a quoted one without escapes for what is
/// between the quotes.
pub proof fn quotes_are_not_part_of_a_value(text: Seq<char>)
    ensures
        text.len() < 2 || text[0] != '"' ==> unquoted(text) == text,
        !text.contains('\\') ==> unquoted(seq!['"'] + text + seq!['"']) == text,
{
    if !text.contains('\\') {
        let quoted = seq!['"'] + text + seq!['"'];
        assert(quoted.subrange(1, quoted.len() - 1) =~= text);
        lemma_nothing_to_unescape(text);
    }
}

proof fn lemma_nothing_to_unescape(text: Seq<char>)
    requires
        !text.contains('\\'),
    ensures
        unescaped(text) == text,
    decreases text.len(),
{
    if text.len() > 0 {
        assert(text.contains(text[0]));
        assert forall|c: char| text.skip(1).contains(c) implies text.contains(c) by {
            let i = choose|i: int| 0 <= i < text.skip(1).len() && text.skip(1)[i] == c;
            assert(text[i + 1] == c);
        }
        lemma_nothing_to_unescape(text.skip(1));
        assert(unescaped(text) =~= text);
    } else {
        assert(unescaped(text) =~= text);
    }
}

/// Types are the same if their names are and each parameter that the one has, the other has with
/// the same value; the order of the parameters does not matter.
pub proof fn same_types_have_the_same_names_and_parameters(a: MimeView, b: MimeView)
    ensures
        a.same_essence(b) <==> same_name(a.ty, b.ty) && same_name(a.subty, b.subty) && (
        a.suffix is Some <==> b.suffix is Some) && (a.suffix is Some && b.suffix is Some
            ==> same_name(a.suffix->0, b.suffix->0)),
        a.same_type(b) <==> a.same_essence(b) && forall|name: Seq<char>|
            {
                &&& #[trigger] param_map(a.params).contains_key(name) <==> param_map(
                    b.params,
                ).contains_key(name)
                &&& param_map(a.params).contains_key(name) ==> param_map(a.params)[name]
                    == param_map(b.params)[name]
            },
{
    if forall|name: Seq<char>|
        {
            &&& #[trigger] param_map(a.params).contains_key(name) <==> param_map(
                b.params,
            ).contains_key(name)
            &&& param_map(a.params).contains_key(name) ==> param_map(a.params)[name] == param_map(
                b.params,
            )[name]
        } {
        assert(param_map(a.params) =~= param_map(b.params));
    }
}

/// A request for `*/*` is answered by any type, one for `type/*` by any subtype of the type, one
/// without parameters by the type with whatever parameters, and one with parameters by just that
/// type.
pub proof fn wildcards_stand_for_any_name(kept: MimeView, want: MimeView)
    ensures
        want.ty == seq!['*'] && want.subty == seq!['*'] ==> kept.answers(want),
        want.ty != seq!['*'] && want.subty == seq!['*'] ==> (kept.answers(want) <==> same_name(
            kept.ty,
            want.ty,
        )),
        want.subty != seq!['*'] && want.params.len() == 0 ==> (kept.answers(want) <==> same_name(
            kept.ty,
            want.ty,
        ) && same_name(kept.subty, want.subty) && (kept.suffix is Some <==> want.suffix is Some)
            && (kept.suffix is Some && want.suffix is Some ==> same_name(
            kept.suffix->0,
            want.suffix->0,
        ))),
        want.subty != seq!['*'] && want.params.len() > 0 ==> (kept.answers(want)
            <==> kept.same_type(want)),
{
}

/// Dropping a restriction from a request loses no answer: what answers a request answers the one
/// without its parameters, and what answers that one answers the one for any subtype.
pub proof fn wider_requests_are_answered_too(kept: MimeView, want: MimeView)
    requires
        kept.answers(want),
    ensures
        kept.answers(MimeView { params: seq![], ..want }),
        kept.answers(MimeView { subty: seq!['*'], ..want }),
        kept.answers(MimeView { ty: seq!['*'], subty: seq!['*'], ..want }),
{
}

/// A type is shown with its names, and with each parameter behind those before it.
pub proof fn shown_type_names_all_parts(mime: MimeView, name: Seq<char>, value: Seq<char>)
    ensures
        mime.params.len() == 0 && mime.suffix is None ==> mime.shown() == mime.ty + seq!['/']
            + mime.subty,
        mime.params.len() == 0 ==> (mime.suffix matches Some(suffix) ==> mime.shown() == mime.ty
            + seq!['/'] + mime.subty + seq!['+'] + suffix),
        (MimeView { params: mime.params.push((name, value)), ..mime }).shown() == mime.shown()
            + seq![';', ' '] + name + seq!['='] + value,
{
    let longer = mime.params.push((name, value));
    assert(longer.drop_last() =~= mime.params);
    if mime.params.len() == 0 {
        assert(shown_params(mime.params) =~= seq![]);
        if mime.suffix is Some {
            assert(mime.shown() =~= mime.ty + seq!['/'] + mime.subty + seq!['+']
                + mime.suffix->0);
        } else {
            assert(mime.shown() =~= mime.ty + seq!['/'] + mime.subty);
        }
    }
    assert((MimeView { params: longer, ..mime }).shown() =~= mime.shown() + seq![';', ' '] + name
        + seq!['='] + value);
}

/// What is dropped at the end of a text are blanks, tabs and semicolons, and what is left is the
/// front of the text and ends in none of them.
pub proof fn separators_alone_are_dropped(text: Seq<char>)
    ensures
        without_separators(text).len() <= text.len(),
        without_separators(text) == text.take(without_separators(text).len() as int),
        forall|i: int|
            without_separators(text).len() <= i < text.len() ==> #[trigger] text[i] == ' '
                || text[i] == '\t' || text[i] == ';',
        without_separators(text).len() > 0 ==> without_separators(text).last() != ' '
            && without_separators(text).last() != '\t' && without_separators(text).last() != ';',
    decreases text.len(),
{
    if text.len() > 0 && (text.last() == ' ' || text.last() == '\t' || text.last() == ';') {
        let front = text.drop_last();
        separators_alone_are_dropped(front);
        let n = without_separators(text).len() as int;
        assert(front.take(n) =~= text.take(n));
        assert forall|i: int| n <= i < text.len() implies #[trigger] text[i] == ' ' || text[i]
            == '\t' || text[i] == ';' by {
            if i < front.len() {
                assert(front[i] == text[i]);
            }
        }
    } else {
        assert(text.take(text.len() as int) =~= text);
    }
}

/// Comparing types with `==` tells whether they are the same.
pub proof fn equal_types_are_the_same(a: MimeType, b: MimeType)
    ensures
        a.eq_spec(&b) <==> a@.same_type(b@),
        a.eq_spec(&a),
        a.eq_spec(&b) ==> b.eq_spec(&a),
{
}

} // verus!
