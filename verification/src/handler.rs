//! The headers of the upgrade request, and the handler that gathers
//! them from the pieces a tokenizer of HTTP hands over.

use vstd::prelude::*;
use vstd::string::StringSliceAdditionalSpecFns;
use vstd::utf8::{decode_utf8, encode_utf8_decode_utf8, valid_utf8};

verus! {

/// Calls `std::str::from_utf8`. Taken on trust: what comes back is the
/// same bytes as text, if they are well-formed UTF-8, and `None` if
/// they are not.
#[verifier::external_body]
fn text_of(bytes: &[u8]) -> (r: Option<&str>)
    ensures
        r is Some <==> valid_utf8(bytes@),
        r matches Some(text) ==> text.spec_bytes() == bytes@,
{
    std::str::from_utf8(bytes).ok()
}

/// Whether two texts hold the same characters.
pub fn same_text(a: &str, b: &str) -> (r: bool)
    ensures
        r == (a@ == b@),
{
    let x = a.as_bytes();
    let y = b.as_bytes();
    proof {
        encode_utf8_decode_utf8(a@);
        encode_utf8_decode_utf8(b@);
    }
    if x.len() != y.len() {
        return false;
    }
    let n: usize = x.len();
    let mut idx: usize = 0;
    while idx < n
        invariant
            idx <= n,
            n == x@.len(),
            n == y@.len(),
            x@ == a.spec_bytes(),
            y@ == b.spec_bytes(),
            forall|i: int| 0 <= i < idx ==> x@[i] == y@[i],
        decreases n - idx,
    {
        if x[idx] != y[idx] {
            return false;
        }
        idx += 1;
    }
    assert(x@ =~= y@);
    true
}

/// Whether some entry carries the name.
pub open spec fn has_name(entries: Seq<(String, String)>, name: Seq<char>) -> bool {
    exists|i: int| 0 <= i < entries.len() && (#[trigger] entries[i]).0@ == name
}

/// The place of an entry that carries the name.
pub open spec fn place_of(entries: Seq<(String, String)>, name: Seq<char>) -> int {
    choose|i: int| 0 <= i < entries.len() && (#[trigger] entries[i]).0@ == name
}

/// Header names with their values, each name once, case as received.
#[derive(Debug)]
pub struct Headers {
    pub entries: Vec<(String, String)>,
}

impl View for Headers {
    type V = Map<Seq<char>, Seq<char>>;

    /// The value under each name.
    open spec fn view(&self) -> Map<Seq<char>, Seq<char>> {
        Map::new(
            |name: Seq<char>| has_name(self.entries@, name),
            |name: Seq<char>| self.entries@[place_of(self.entries@, name)].1@,
        )
    }
}

impl Headers {
    /// No name occurs twice.
    pub open spec fn wf(&self) -> bool {
        forall|i: int, j: int|
            0 <= i < j < self.entries@.len() ==> (#[trigger] self.entries@[i]).0@ != (
            #[trigger] self.entries@[j]).0@
    }

    pub fn new() -> (headers: Headers)
        ensures
            headers.wf(),
            headers@ == Map::<Seq<char>, Seq<char>>::empty(),
    {
        Headers { entries: Vec::new() }
    }

    /// How many names there are.
    pub fn len(&self) -> (n: usize)
        ensures
            n == self.entries@.len(),
    {
        self.entries.len()
    }

    /// Where the entry with the name stands, if there is one.
    pub fn find(&self, name: &str) -> (r: Option<usize>)
        ensures
            r is Some <==> self@.contains_key(name@),
            r matches Some(i) ==> i < self.entries@.len() && self.entries@[i as int].0@ == name@,
    {
        let n: usize = self.entries.len();
        let mut idx: usize = 0;
        while idx < n
            invariant
                idx <= n,
                n == self.entries@.len(),
                forall|i: int| 0 <= i < idx ==> (#[trigger] self.entries@[i]).0@ != name@,
            decreases n - idx,
        {
            if same_text(self.entries[idx].0.as_str(), name) {
                return Some(idx);
            }
            idx += 1;
        }
        None
    }

    /// The value under the name, if there is one.
    pub fn get(&self, name: &str) -> (r: Option<&String>)
        requires
            self.wf(),
        ensures
            r is Some <==> self@.contains_key(name@),
            r matches Some(value) ==> value@ == self@[name@],
    {
        match self.find(name) {
            Some(i) => Some(&self.entries[i].1),
            None => None,
        }
    }

    /// Puts the value under the name, in place of an earlier one if
    /// there was one.
    pub fn insert(&mut self, name: String, value: String)
        requires
            old(self).wf(),
        ensures
            final(self).wf(),
            final(self)@ == old(self)@.insert(name@, value@),
    {
        let ghost before = self.entries@;
        match self.find(name.as_str()) {
            Some(i) => {
                self.entries.set(i, (name, value));
                let ghost after = self.entries@;
                // the names are the same, each at its place
                assert forall|k: Seq<char>| has_name(after, k) == has_name(before, k) by {
                    if has_name(before, k) {
                        assert(after[place_of(before, k)].0@ == k);
                    }
                    if has_name(after, k) {
                        assert(before[place_of(after, k)].0@ == k);
                    }
                }
                assert forall|k: Seq<char>| has_name(after, k) implies #[trigger] self@[k]
                    == old(self)@.insert(name@, value@)[k] by {
                    assert(before[place_of(after, k)].0@ == k);
                }
            },
            None => {
                self.entries.push((name, value));
                let ghost after = self.entries@;
                let ghost last = before.len() as int;
                // the new name stands at the end, the others where they stood
                assert(after[last].0@ == name@);
                assert forall|k: Seq<char>| has_name(after, k) == (has_name(before, k) || k
                    == name@) by {
                    if has_name(before, k) {
                        assert(after[place_of(before, k)].0@ == k);
                    }
                    if has_name(after, k) && place_of(after, k) < last {
                        assert(before[place_of(after, k)].0@ == k);
                    }
                }
                assert forall|k: Seq<char>| has_name(after, k) implies #[trigger] self@[k]
                    == old(self)@.insert(name@, value@)[k] by {
                    if k != name@ {
                        assert(after[place_of(before, k)].0@ == k);
                    }
                }
            },
        }
    }
}

/// Takes the header names and values as the tokenizer finds them, and
/// notes when the headers have ended.
#[derive(Debug)]
pub struct HttpParserHandler {
    /// The name that the next value belongs to.
    pub current_key: Option<String>,
    pub headers: Headers,
    /// Whether the end of the headers was seen.
    pub complete: bool,
}

/// A handler as a value.
pub struct HandlerView {
    pub current_key: Option<Seq<char>>,
    pub headers: Map<Seq<char>, Seq<char>>,
    pub complete: bool,
}

impl View for HttpParserHandler {
    type V = HandlerView;

    open spec fn view(&self) -> HandlerView {
        HandlerView {
            current_key: match self.current_key {
                Some(name) => Some(name@),
                None => None,
            },
            headers: self.headers@,
            complete: self.complete,
        }
    }
}

impl HttpParserHandler {
    pub open spec fn wf(&self) -> bool {
        self.headers.wf()
    }

    /// A handler that has seen nothing yet.
    pub fn new() -> (handler: HttpParserHandler)
        ensures
            handler.wf(),
            handler@ == (HandlerView {
                current_key: None,
                headers: Map::<Seq<char>, Seq<char>>::empty(),
                complete: false,
            }),
    {
        HttpParserHandler { current_key: None, headers: Headers::new(), complete: false }
    }

    /// Takes a header name. Says whether to go on: not if the name is
    /// no UTF-8, and then nothing changes.
    pub fn on_header_field(&mut self, s: &[u8]) -> (go_on: bool)
        requires
            old(self).wf(),
        ensures
            final(self).wf(),
            go_on == valid_utf8(s@),
            go_on ==> final(self)@ == (HandlerView {
                current_key: Some(decode_utf8(s@)),
                ..old(self)@
            }),
            !go_on ==> final(self)@ == old(self)@,
    {
        match text_of(s) {
            Some(name) => {
                proof {
                    encode_utf8_decode_utf8(name@);
                }
                self.current_key = Some(name.to_owned());
                true
            },
            None => false,
        }
    }

    /// Takes a header value and puts it under the name taken last. Says
    /// whether to go on: not if there is no such name or the value is
    /// no UTF-8, and then nothing changes.
    pub fn on_header_value(&mut self, s: &[u8]) -> (go_on: bool)
        requires
            old(self).wf(),
        ensures
            final(self).wf(),
            go_on == (valid_utf8(s@) && old(self)@.current_key is Some),
            go_on ==> final(self)@ == (HandlerView {
                headers: old(self)@.headers.insert(
                    old(self)@.current_key->Some_0,
                    decode_utf8(s@),
                ),
                ..old(self)@
            }),
            !go_on ==> final(self)@ == old(self)@,
    {
        let name: String = match &self.current_key {
            Some(name) => name.clone(),
            None => {
                return false;
            },
        };
        match text_of(s) {
            Some(value) => {
                proof {
                    encode_utf8_decode_utf8(value@);
                }
                self.headers.insert(name, value.to_owned());
                true
            },
            None => false,
        }
    }

    /// Notes that the headers have ended. The answer `false` tells the
    /// tokenizer that no body is to be read.
    pub fn on_headers_complete(&mut self) -> (go_on: bool)
        requires
            old(self).wf(),
        ensures
            final(self).wf(),
            !go_on,
            final(self)@ == (HandlerView { complete: true, ..old(self)@ }),
    {
        self.complete = true;
        false
    }
}

} // verus!
