//! The envelope handed back for a forwarded request: status, the headers that
//! could be read as text, and the body.

use vstd::prelude::*;
use crate::forward::HeaderPair;

verus! {

/// A response header as received: its name, and the bytes of its value.
#[derive(Debug, PartialEq, Eq)]
pub struct RawHeader {
    pub name: String,
    pub value: Vec<u8>,
}

impl View for RawHeader {
    type V = (Seq<char>, Seq<u8>);

    open spec fn view(&self) -> (Seq<char>, Seq<u8>) {
        (self.name@, self.value@)
    }
}

/// The views of a list of received headers, in order.
pub open spec fn raw_views(raw: Seq<RawHeader>) -> Seq<(Seq<char>, Seq<u8>)> {
    Seq::new(raw.len(), |i: int| raw[i]@)
}

/// A byte that may stand in a header value read as text: a printable ASCII
/// character, a space or a tab.
pub open spec fn is_visible_ascii(byte: u8) -> bool {
    (32 <= byte && byte < 127) || byte == 9
}

/// The text of a header value: its bytes as characters if every one of them is
/// visible ASCII, and nothing otherwise.
pub open spec fn header_text(value: Seq<u8>) -> Option<Seq<char>> {
    if forall|i: int| 0 <= i < value.len() ==> is_visible_ascii(#[trigger] value[i]) {
        Some(Seq::new(value.len(), |i: int| value[i] as char))
    } else {
        None
    }
}

/// The header mapping of a response: going through the received headers in
/// order, each one whose value reads as text is entered under its name, taking
/// the place of an earlier entry with that name; the others are left out.
pub open spec fn collect_headers(raw: Seq<(Seq<char>, Seq<u8>)>) -> Map<Seq<char>, Seq<char>>
    decreases raw.len(),
{
    if raw.len() == 0 {
        Map::empty()
    } else {
        let earlier = collect_headers(raw.drop_last());
        match header_text(raw.last().1) {
            Some(text) => earlier.insert(raw.last().0, text),
            None => earlier,
        }
    }
}

/// Reads a header value as text with `reqwest::header::HeaderValue`: the bytes
/// go through `HeaderValue::from_bytes` and then `HeaderValue::to_str`. Together
/// the two accept a value exactly when each byte is visible ASCII, and the text
/// then has one character per byte, with the byte's code.
#[verifier::external_body]
fn decode_header_value(value: &Vec<u8>) -> (text: Option<String>)
    ensures
        match header_text(value@) {
            Some(expected) => text is Some && text->Some_0@ == expected,
            None => text is None,
        },
{
    match reqwest::header::HeaderValue::from_bytes(value.as_slice()) {
        Ok(parsed) => match parsed.to_str() {
            Ok(text) => Some(text.to_string()),
            Err(_) => None,
        },
        Err(_) => None,
    }
}

/// No header name occurs twice in the list.
pub open spec fn names_distinct(headers: Seq<HeaderPair>) -> bool {
    forall|i: int, j: int|
        0 <= i < j < headers.len() ==> (#[trigger] headers[i]).name@ != (
        #[trigger] headers[j]).name@
}

/// The mapping that a list of headers stands for; where a name occurs more
/// than once, the entry nearest the end counts.
pub open spec fn map_of(headers: Seq<HeaderPair>) -> Map<Seq<char>, Seq<char>>
    decreases headers.len(),
{
    if headers.len() == 0 {
        Map::empty()
    } else {
        map_of(headers.drop_last()).insert(headers.last().name@, headers.last().value@)
    }
}

/// The names in the mapping are the names in the list.
pub proof fn lemma_map_of_names(headers: Seq<HeaderPair>)
    ensures
        forall|name: Seq<char>| #[trigger]
            map_of(headers).contains_key(name) <==> exists|i: int|
                0 <= i < headers.len() && (#[trigger] headers[i]).name@ == name,
    decreases headers.len(),
{
    if headers.len() > 0 {
        let front = headers.drop_last();
        let last = headers.last();
        lemma_map_of_names(front);
        assert forall|name: Seq<char>| #[trigger]
            map_of(headers).contains_key(name) <==> exists|i: int|
                0 <= i < headers.len() && (#[trigger] headers[i]).name@ == name by {
            if map_of(headers).contains_key(name) {
                if name == last.name@ {
                    assert(headers[headers.len() - 1].name@ == name);
                } else {
                    assert(map_of(front).contains_key(name));
                    let i = choose|i: int|
                        0 <= i < front.len() && (#[trigger] front[i]).name@ == name;
                    assert(headers[i].name@ == name);
                }
            }
            if exists|i: int| 0 <= i < headers.len() && (#[trigger] headers[i]).name@ == name {
                let i = choose|i: int|
                    0 <= i < headers.len() && (#[trigger] headers[i]).name@ == name;
                if i < front.len() {
                    assert(front[i].name@ == name);
                    assert(map_of(front).contains_key(name));
                }
            }
        }
    }
}

/// Under a name the mapping holds the value of the last entry with that name.
pub proof fn lemma_map_of_last(headers: Seq<HeaderPair>, at: int)
    requires
        0 <= at < headers.len(),
        forall|k: int|
            at < k < headers.len() ==> (#[trigger] headers[k]).name@ != headers[at].name@,
    ensures
        map_of(headers).contains_key(headers[at].name@),
        map_of(headers)[headers[at].name@] == headers[at].value@,
    decreases headers.len(),
{
    if at < headers.len() - 1 {
        let front = headers.drop_last();
        assert(headers[headers.len() - 1].name@ != headers[at].name@);
        assert forall|k: int| at < k < front.len() implies (#[trigger] front[k]).name@
            != front[at].name@ by {
            assert(headers[k].name@ != headers[at].name@);
        }
        lemma_map_of_last(front, at);
    }
}

/// Replacing the entry that holds a name, in a list without repeated names,
/// replaces the value that the mapping holds under that name.
pub proof fn lemma_map_of_update(headers: Seq<HeaderPair>, at: int, entry: HeaderPair)
    requires
        0 <= at < headers.len(),
        names_distinct(headers),
        headers[at].name@ == entry.name@,
    ensures
        names_distinct(headers.update(at, entry)),
        map_of(headers.update(at, entry)) == map_of(headers).insert(entry.name@, entry.value@),
    decreases headers.len(),
{
    let updated = headers.update(at, entry);
    assert forall|i: int, j: int| 0 <= i < j < updated.len() implies (
    #[trigger] updated[i]).name@ != (#[trigger] updated[j]).name@ by {
        assert(headers[i].name@ != headers[j].name@);
    }
    let front = headers.drop_last();
    let last = headers.last();
    if at == headers.len() - 1 {
        assert(updated.drop_last() =~= front);
        assert(map_of(updated) =~= map_of(headers).insert(entry.name@, entry.value@));
    } else {
        assert(names_distinct(front)) by {
            assert forall|i: int, j: int| 0 <= i < j < front.len() implies (
            #[trigger] front[i]).name@ != (#[trigger] front[j]).name@ by {
                assert(headers[i].name@ != headers[j].name@);
            }
        }
        lemma_map_of_update(front, at, entry);
        assert(updated.drop_last() =~= front.update(at, entry));
        assert(updated.last() == last);
        assert(headers[at].name@ != headers[headers.len() - 1].name@);
        assert(map_of(updated) =~= map_of(headers).insert(entry.name@, entry.value@));
    }
}

/// Enters a header under its name: the value replaces that of an entry with
/// the same name, or a new entry is added.
fn upsert(headers: &mut Vec<HeaderPair>, name: String, value: String)
    requires
        names_distinct(old(headers)@),
    ensures
        names_distinct(final(headers)@),
        map_of(final(headers)@) == map_of(old(headers)@).insert(name@, value@),
{
    let mut i: usize = 0;
    while i < headers.len()
        invariant
            i <= headers@.len(),
            headers@ == old(headers)@,
            names_distinct(headers@),
            forall|k: int| 0 <= k < i ==> (#[trigger] headers@[k]).name@ != name@,
        decreases headers@.len() - i,
    {
        if headers[i].name == name {
            let entry = HeaderPair { name, value };
            proof {
                lemma_map_of_update(headers@, i as int, entry);
            }
            headers.set(i, entry);
            return ;
        }
        i = i + 1;
    }
    let entry = HeaderPair { name, value };
    proof {
        let extended = headers@.push(entry);
        assert(extended.drop_last() =~= headers@);
        assert forall|a: int, b: int| 0 <= a < b < extended.len() implies (
        #[trigger] extended[a]).name@ != (#[trigger] extended[b]).name@ by {
            if b < headers@.len() {
                assert(headers@[a].name@ != headers@[b].name@);
            }
        }
    }
    headers.push(entry);
}

/// What a forwarded request produced.
#[derive(Debug, PartialEq, Eq)]
pub struct ProxyResponse {
    /// The status code of the response.
    pub status: u16,
    /// The response headers that could be read as text, one entry per name.
    pub headers: Vec<HeaderPair>,
    /// The response body as text.
    pub body: String,
}

impl ProxyResponse {
    /// No header name occurs twice.
    pub open spec fn wf(&self) -> bool {
        names_distinct(self.headers@)
    }

    /// The headers as a mapping from name to value.
    pub open spec fn header_map(&self) -> Map<Seq<char>, Seq<char>> {
        map_of(self.headers@)
    }

    /// Looks up a header by its name.
    pub fn header(&self, name: &str) -> (value: Option<&String>)
        ensures
            match value {
                Some(text) => self.header_map().contains_key(name@) && self.header_map()[name@]
                    == text@,
                None => !self.header_map().contains_key(name@),
            },
    {
        let wanted = String::from_str(name);
        let mut i: usize = self.headers.len();
        while i > 0
            invariant
                i <= self.headers@.len(),
                wanted@ == name@,
                forall|k: int|
                    i <= k < self.headers@.len() ==> (#[trigger] self.headers@[k]).name@ != name@,
            decreases i,
        {
            i = i - 1;
            if self.headers[i].name == wanted {
                proof {
                    lemma_map_of_last(self.headers@, i as int);
                }
                return Some(&self.headers[i].value);
            }
        }
        proof {
            lemma_map_of_names(self.headers@);
        }
        None
    }
}

/// Builds the envelope for a response. Nothing here can fail: a header whose
/// value does not read as text is left out, and the rest are kept.
pub fn assemble_response(status: u16, raw_headers: Vec<RawHeader>, body: String) -> (response:
    ProxyResponse)
    ensures
        response.status == status,
        response.body@ == body@,
        response.wf(),
        response.header_map() == collect_headers(raw_views(raw_headers@)),
{
    let ghost raw = raw_views(raw_headers@);
    let mut headers: Vec<HeaderPair> = Vec::new();
    let mut i: usize = 0;
    while i < raw_headers.len()
        invariant
            i <= raw_headers@.len(),
            raw == raw_views(raw_headers@),
            names_distinct(headers@),
            map_of(headers@) == collect_headers(raw.take(i as int)),
        decreases raw_headers@.len() - i,
    {
        proof {
            assert(raw.take(i + 1).drop_last() =~= raw.take(i as int));
            assert(raw.take(i + 1).last() == raw_headers@[i as int]@);
        }
        match decode_header_value(&raw_headers[i].value) {
            Some(text) => {
                let name = raw_headers[i].name.clone();
                upsert(&mut headers, name, text);
            },
            None => {},
        }
        i = i + 1;
    }
    assert(raw.take(raw_headers@.len() as int) =~= raw);
    ProxyResponse { status, headers, body }
}

/// The names of the received headers whose value does not read as text, in
/// the order received: the ones that [`assemble_response`] leaves out.
pub open spec fn unreadable_names(raw: Seq<(Seq<char>, Seq<u8>)>) -> Seq<Seq<char>>
    decreases raw.len(),
{
    if raw.len() == 0 {
        Seq::empty()
    } else if header_text(raw.last().1) is None {
        unreadable_names(raw.drop_last()).push(raw.last().0)
    } else {
        unreadable_names(raw.drop_last())
    }
}

/// Lists the headers that will be missing from the envelope, so that the
/// caller can report them.
pub fn unreadable_headers(raw_headers: &Vec<RawHeader>) -> (names: Vec<String>)
    ensures
        names@.len() == unreadable_names(raw_views(raw_headers@)).len(),
        forall|k: int|
            0 <= k < names@.len() ==> (#[trigger] names@[k])@ == unreadable_names(
                raw_views(raw_headers@),
            )[k],
{
    let ghost raw = raw_views(raw_headers@);
    let mut names: Vec<String> = Vec::new();
    let mut i: usize = 0;
    while i < raw_headers.len()
        invariant
            i <= raw_headers@.len(),
            raw == raw_views(raw_headers@),
            names@.len() == unreadable_names(raw.take(i as int)).len(),
            forall|k: int|
                0 <= k < names@.len() ==> (#[trigger] names@[k])@ == unreadable_names(
                    raw.take(i as int),
                )[k],
        decreases raw_headers@.len() - i,
    {
        proof {
            assert(raw.take(i + 1).drop_last() =~= raw.take(i as int));
            assert(raw.take(i + 1).last() == raw_headers@[i as int]@);
        }
        if decode_header_value(&raw_headers[i].value).is_none() {
            names.push(raw_headers[i].name.clone());
        }
        i = i + 1;
    }
    assert(raw.take(raw_headers@.len() as int) =~= raw);
    names
}

/// The received header at `i` carries `name` and a value that reads as text.
pub open spec fn reads_as_text(raw: Seq<(Seq<char>, Seq<u8>)>, i: int, name: Seq<char>) -> bool {
    0 <= i < raw.len() && raw[i].0 == name && header_text(raw[i].1) is Some
}

/// A name is in the envelope exactly when some received header with that name
/// has a value that reads as text, and the envelope then holds the text of the
/// last such header. So a header with an unreadable value never appears, and
/// it keeps no readable header out.
pub proof fn lemma_unreadable_headers_are_left_out(
    raw: Seq<(Seq<char>, Seq<u8>)>,
    name: Seq<char>,
)
    ensures
        collect_headers(raw).contains_key(name) <==> exists|i: int| reads_as_text(raw, i, name),
        forall|i: int|
            reads_as_text(raw, i, name) && (forall|j: int| i < j ==> !reads_as_text(raw, j, name))
                ==> collect_headers(raw)[name] == header_text(raw[i].1)->Some_0,
    decreases raw.len(),
{
    if raw.len() > 0 {
        let front = raw.drop_last();
        let last = raw.len() - 1;
        lemma_unreadable_headers_are_left_out(front, name);
        assert forall|i: int| reads_as_text(front, i, name) implies reads_as_text(
            raw,
            i,
            name,
        ) by {}
        assert forall|i: int| reads_as_text(raw, i, name) && i != last implies reads_as_text(
            front,
            i,
            name,
        ) by {}
        if collect_headers(raw).contains_key(name) {
            if reads_as_text(raw, last, name) {
            } else {
                assert(collect_headers(front).contains_key(name));
                let i = choose|i: int| reads_as_text(front, i, name);
                assert(reads_as_text(raw, i, name));
            }
        }
        if exists|i: int| reads_as_text(raw, i, name) {
            let i = choose|i: int| reads_as_text(raw, i, name);
            if i != last {
                assert(reads_as_text(front, i, name));
            }
        }
        assert forall|i: int|
            reads_as_text(raw, i, name) && (forall|j: int| i < j ==> !reads_as_text(
                raw,
                j,
                name,
            )) implies collect_headers(raw)[name] == header_text(raw[i].1)->Some_0 by {
            if i != last {
                assert(!reads_as_text(raw, last, name));
                assert(reads_as_text(front, i, name));
                assert forall|j: int| i < j implies !reads_as_text(front, j, name) by {
                    if reads_as_text(front, j, name) {
                        assert(reads_as_text(raw, j, name));
                    }
                }
            }
        }
    }
}

} // verus!
