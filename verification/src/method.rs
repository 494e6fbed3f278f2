//! Request methods: the supported set, and how a caller's spelling is matched to it.

use vstd::prelude::*;
use vstd::utf8::is_ascii_chars;
use crate::failure::{Failure, FailureView};

verus! {

/// A method that the forwarder can dispatch.
#[derive(Clone, Copy, Debug, PartialEq, Eq, Structural)]
pub enum HttpMethod {
    Get,
    Post,
    Put,
    Delete,
    Patch,
    Head,
    Options,
}

impl HttpMethod {
    /// The canonical, upper-case name of the method.
    pub open spec fn name(self) -> Seq<char> {
        match self {
            HttpMethod::Get => seq!['G', 'E', 'T'],
            HttpMethod::Post => seq!['P', 'O', 'S', 'T'],
            HttpMethod::Put => seq!['P', 'U', 'T'],
            HttpMethod::Delete => seq!['D', 'E', 'L', 'E', 'T', 'E'],
            HttpMethod::Patch => seq!['P', 'A', 'T', 'C', 'H'],
            HttpMethod::Head => seq!['H', 'E', 'A', 'D'],
            HttpMethod::Options => seq!['O', 'P', 'T', 'I', 'O', 'N', 'S'],
        }
    }

    /// Whether a request with this method may carry a payload.
    pub open spec fn carries_body(self) -> bool {
        self != HttpMethod::Get && self != HttpMethod::Head
    }

    /// The canonical name, as used on the wire.
    pub fn as_str(&self) -> (text: &'static str)
        ensures
            text@ == self.name(),
    {
        proof {
            reveal_strlit("GET");
            reveal_strlit("POST");
            reveal_strlit("PUT");
            reveal_strlit("DELETE");
            reveal_strlit("PATCH");
            reveal_strlit("HEAD");
            reveal_strlit("OPTIONS");
        }
        let text = match self {
            HttpMethod::Get => "GET",
            HttpMethod::Post => "POST",
            HttpMethod::Put => "PUT",
            HttpMethod::Delete => "DELETE",
            HttpMethod::Patch => "PATCH",
            HttpMethod::Head => "HEAD",
            HttpMethod::Options => "OPTIONS",
        };
        assert(text@ =~= self.name());
        text
    }

    /// Tells whether a payload supplied by the caller is sent along.
    pub fn allows_body(&self) -> (allowed: bool)
        ensures
            allowed == self.carries_body(),
    {
        match self {
            HttpMethod::Get => false,
            HttpMethod::Head => false,
            _ => true,
        }
    }
}

/// Upper-case form of one character: `a` to `z` become `A` to `Z`, all others stay.
pub open spec fn upper_char(c: char) -> char {
    if 'a' <= c && c <= 'z' {
        ((c as u8) - 32) as u8 as char
    } else {
        c
    }
}

/// Upper-case form of a text, character by character.
pub open spec fn upper_text(text: Seq<char>) -> Seq<char> {
    Seq::new(text.len(), |i: int| upper_char(text[i]))
}

/// The upper-case form that `str::to_uppercase` gives a text.
pub uninterp spec fn unicode_upper(text: Seq<char>) -> Seq<char>;

/// The form in which a spelling is compared with the canonical names: its
/// upper-case form. For a text of ASCII characters that is the text with
/// `a` to `z` raised; for any other text it is what `str::to_uppercase` gives.
pub open spec fn normalized(text: Seq<char>) -> Seq<char> {
    if is_ascii_chars(text) {
        upper_text(text)
    } else {
        unicode_upper(text)
    }
}

/// The method whose canonical name is exactly the given text, if any.
pub open spec fn with_name(upper: Seq<char>) -> Option<HttpMethod> {
    if upper == HttpMethod::Get.name() {
        Some(HttpMethod::Get)
    } else if upper == HttpMethod::Post.name() {
        Some(HttpMethod::Post)
    } else if upper == HttpMethod::Put.name() {
        Some(HttpMethod::Put)
    } else if upper == HttpMethod::Delete.name() {
        Some(HttpMethod::Delete)
    } else if upper == HttpMethod::Patch.name() {
        Some(HttpMethod::Patch)
    } else if upper == HttpMethod::Head.name() {
        Some(HttpMethod::Head)
    } else if upper == HttpMethod::Options.name() {
        Some(HttpMethod::Options)
    } else {
        None
    }
}

/// The method that a spelling stands for, if any: the one whose canonical name
/// is the spelling's upper-case form.
pub open spec fn method_named(text: Seq<char>) -> Option<HttpMethod> {
    with_name(normalized(text))
}

/// `text` spells `name` in some mix of upper and lower case.
pub open spec fn is_letter_case_of(text: Seq<char>, name: Seq<char>) -> bool {
    &&& text.len() == name.len()
    &&& forall|i: int|
        0 <= i < name.len() ==> (#[trigger] text[i] == name[i] || ('A' <= name[i] && name[i] <= 'Z'
            && text[i] as int == name[i] as int + 32))
}

/// Upper-cases a text with `str::to_uppercase` of the standard library, which
/// goes by the Unicode case mappings and by nothing but the text.
#[verifier::external_body]
fn unicode_uppercase(text: &str) -> (upper: String)
    ensures
        upper@ == unicode_upper(text@),
{
    text.to_uppercase()
}

/// Upper-case form of one character.
pub fn to_upper_char(c: char) -> (upper: char)
    ensures
        upper == upper_char(c),
{
    if 'a' <= c && c <= 'z' {
        let code: u8 = c as u8;
        let shifted: u8 = code - 32;
        shifted as char
    } else {
        c
    }
}

/// The characters of a text that is no longer than the longest canonical name.
fn short_text(text: &str) -> (chars: Option<Vec<char>>)
    ensures
        match chars {
            Some(found) => found@ == text@,
            None => text@.len() > 7,
        },
{
    let n: usize = text.unicode_len();
    if n > 7 {
        return None;
    }
    let mut chars: Vec<char> = Vec::new();
    let mut i: usize = 0;
    while i < n
        invariant
            n == text@.len(),
            i <= n,
            chars@.len() == i,
            forall|k: int| 0 <= k < i ==> chars@[k] == text@[k],
        decreases n - i,
    {
        chars.push(text.get_char(i));
        i = i + 1;
    }
    assert(chars@ =~= text@);
    Some(chars)
}

/// Looks up the method whose canonical name is spelled by the characters.
fn lookup(upper: &Vec<char>) -> (found: Option<HttpMethod>)
    ensures
        found == with_name(upper@),
{
    let n: usize = upper.len();
    let found = if n == 3 && upper[0] == 'G' && upper[1] == 'E' && upper[2] == 'T' {
        Some(HttpMethod::Get)
    } else if n == 4 && upper[0] == 'P' && upper[1] == 'O' && upper[2] == 'S' && upper[3] == 'T' {
        Some(HttpMethod::Post)
    } else if n == 3 && upper[0] == 'P' && upper[1] == 'U' && upper[2] == 'T' {
        Some(HttpMethod::Put)
    } else if n == 6 && upper[0] == 'D' && upper[1] == 'E' && upper[2] == 'L' && upper[3] == 'E'
        && upper[4] == 'T' && upper[5] == 'E' {
        Some(HttpMethod::Delete)
    } else if n == 5 && upper[0] == 'P' && upper[1] == 'A' && upper[2] == 'T' && upper[3] == 'C'
        && upper[4] == 'H' {
        Some(HttpMethod::Patch)
    } else if n == 4 && upper[0] == 'H' && upper[1] == 'E' && upper[2] == 'A' && upper[3] == 'D' {
        Some(HttpMethod::Head)
    } else if n == 7 && upper[0] == 'O' && upper[1] == 'P' && upper[2] == 'T' && upper[3] == 'I'
        && upper[4] == 'O' && upper[5] == 'N' && upper[6] == 'S' {
        Some(HttpMethod::Options)
    } else {
        None
    };
    proof {
        match found {
            Some(method) => {
                assert(upper@ =~= method.name());
                lemma_names_differ(method);
            },
            None => {
                assert forall|method: HttpMethod| upper@ != #[trigger] method.name() by {
                    let name = method.name();
                    if upper@ == name {
                        assert(upper@.len() == name.len());
                        assert(upper@[0] == name[0]);
                        assert(upper@[1] == name[1]);
                        assert(upper@[2] == name[2]);
                        if name.len() > 3 {
                            assert(upper@[3] == name[3]);
                        }
                        if name.len() > 4 {
                            assert(upper@[4] == name[4]);
                        }
                        if name.len() > 5 {
                            assert(upper@[5] == name[5]);
                        }
                        if name.len() > 6 {
                            assert(upper@[6] == name[6]);
                        }
                    }
                }
            },
        }
    }
    found
}

/// Looks up the method whose canonical name is exactly `upper`.
pub fn method_with_name(upper: &str) -> (found: Option<HttpMethod>)
    ensures
        found == with_name(upper@),
{
    match short_text(upper) {
        Some(chars) => lookup(&chars),
        None => None,
    }
}

/// Matches a caller's spelling of a method, in any letter case, to the
/// supported set. Any other text is refused, and the refusal carries the text
/// as given.
pub fn parse_method(method: &str) -> (outcome: Result<HttpMethod, Failure>)
    ensures
        match method_named(method@) {
            Some(expected) => outcome == Ok::<HttpMethod, Failure>(expected),
            None => outcome is Err && outcome->Err_0@ == FailureView::UnsupportedMethod(method@),
        },
{
    let found = if method.is_ascii() {
        match short_text(method) {
            Some(chars) => {
                let mut upper: Vec<char> = Vec::new();
                let mut i: usize = 0;
                while i < chars.len()
                    invariant
                        i <= chars@.len(),
                        upper@.len() == i,
                        forall|k: int| 0 <= k < i ==> upper@[k] == upper_char(chars@[k]),
                    decreases chars@.len() - i,
                {
                    upper.push(to_upper_char(chars[i]));
                    i = i + 1;
                }
                assert(upper@ =~= upper_text(method@));
                lookup(&upper)
            },
            None => {
                assert(upper_text(method@).len() > 7);
                None
            },
        }
    } else {
        let upper = unicode_uppercase(method);
        method_with_name(upper.as_str())
    };
    match found {
        Some(dispatch) => Ok(dispatch),
        None => Err(Failure::UnsupportedMethod(String::from_str(method))),
    }
}

/// Every spelling of a supported method in mixed letter case is matched to
/// that method. Among the texts of ASCII characters nothing else is: such a
/// text is matched to a method exactly when it spells the method's name in
/// some letter case. Any other text is matched by its Unicode upper-case form.
pub proof fn lemma_method_matching_ignores_letter_case(text: Seq<char>, method: HttpMethod)
    ensures
        is_letter_case_of(text, method.name()) ==> method_named(text) == Some(method),
        is_ascii_chars(text) && method_named(text) == Some(method) ==> is_letter_case_of(
            text,
            method.name(),
        ),
        !is_ascii_chars(text) ==> (method_named(text) == Some(method) <==> unicode_upper(text)
            == method.name()),
{
    let name = method.name();
    let upper = upper_text(text);
    lemma_names_differ(method);
    if is_letter_case_of(text, name) {
        assert forall|i: int| 0 <= i < text.len() implies '\0' <= #[trigger] text[i]
            <= '\u{7f}' by {
            lemma_name_is_upper_case(method, i);
            assert(text[i] == name[i] || ('A' <= name[i] && name[i] <= 'Z' && text[i] as int
                == name[i] as int + 32));
        }
        assert forall|i: int| 0 <= i < name.len() implies upper[i] == name[i] by {
            assert(text[i] == name[i] || ('A' <= name[i] && name[i] <= 'Z' && text[i] as int
                == name[i] as int + 32));
        }
        assert(upper =~= name);
    }
    if is_ascii_chars(text) && method_named(text) == Some(method) {
        assert(upper == name);
        assert forall|i: int| 0 <= i < name.len() implies (#[trigger] text[i] == name[i] || ('A'
            <= name[i] && name[i] <= 'Z' && text[i] as int == name[i] as int + 32)) by {
            assert(upper[i] == upper_char(text[i]));
            assert(upper[i] == name[i]);
            lemma_name_is_upper_case(method, i);
        }
    }
}

/// The canonical names consist of the letters `A` to `Z`.
pub proof fn lemma_name_is_upper_case(method: HttpMethod, i: int)
    requires
        0 <= i < method.name().len(),
    ensures
        'A' <= method.name()[i] && method.name()[i] <= 'Z',
{
}

/// No two methods share a canonical name, so a name leads to one method.
pub proof fn lemma_names_differ(method: HttpMethod)
    ensures
        forall|other: HttpMethod| other != method ==> #[trigger] other.name() != method.name(),
        with_name(method.name()) == Some(method),
{
    assert forall|other: HttpMethod| other != method implies #[trigger] other.name()
        != method.name() by {
        let a = other.name();
        let b = method.name();
        if a == b {
            assert(a.len() == b.len());
            assert(a[0] == b[0]);
            assert(a[1] == b[1]);
            assert(a[2] == b[2]);
        }
    }
}

} // verus!
