//! Cursor streams: the enumeration of a large collection in several round
//! trips.
//!
//! The server hands a collection out in pages. Each page comes with a cursor,
//! which the next request gives back; the cursor `0` starts the enumeration
//! and, when the server returns it, ends it. A stream gives the elements of
//! each page one at a time, and asks for the next page when it has none left.
//!
//! A stream does no input or output. Where it needs a page it hands out the
//! command to run, and the reply to that command is handed back to it.

use std::collections::VecDeque;
use vstd::prelude::*;
use vstd::string::StringSliceAdditionalSpecFns;
use crate::command::Command;
use crate::decimal::{push_signed_decimal, signed_decimal};
use crate::value::{byte_strings, lemma_array_view, replies, strings_of, Reply, Value};

verus! {

/// The cursor that starts an enumeration and ends it.
pub open spec fn zero() -> Seq<u8> {
    seq![48u8]
}

/// One page of an enumeration: the cursor of the page after it, and its
/// elements.
pub struct Page {
    pub cursor: Seq<u8>,
    pub elements: Seq<Seq<u8>>,
}

/// The page that a reply carries: an array of two items, the first a string
/// and the second an array of strings. Any other reply carries no page.
pub open spec fn page_of(reply: Reply) -> Option<Page> {
    match reply {
        Reply::Array(parts) => if parts.len() == 2 && parts[0] is String
            && parts[1].is_string_array() {
            Some(Page { cursor: parts[0].bytes(), elements: strings_of(parts[1].items()) })
        } else {
            None
        },
        _ => None,
    }
}

/// The mathematical model of a cursor stream.
pub struct Scanning {
    /// The name of the scanning command.
    pub command: Seq<u8>,
    /// The key of the collection, for a command that scans one.
    pub key: Option<Seq<u8>>,
    /// The pattern that elements must match, if any.
    pub pattern: Option<Seq<u8>>,
    /// The number of elements to look at in each round trip, if given.
    pub count: Option<int>,
    /// The cursor that the last page came with; `0` before the first page.
    pub cursor: Seq<u8>,
    /// Whether a page has been received.
    pub started: bool,
    /// The elements received and not yet given out, in order.
    pub buffered: Seq<Seq<u8>>,
}

impl Scanning {
    /// Whether the server has said that there are no more pages.
    pub open spec fn exhausted(self) -> bool {
        self.started && self.cursor == zero()
    }

    /// The name and arguments of the command that asks for the next page: the
    /// name, the key if there is one, the cursor, then `MATCH` and the
    /// pattern if there is one, then `COUNT` and the count if there is one.
    pub open spec fn query(self) -> Seq<Seq<u8>> {
        let target = match self.key {
            Some(key) => seq![self.command, key, self.cursor],
            None => seq![self.command, self.cursor],
        };
        let filter = match self.pattern {
            Some(pattern) => seq!["MATCH".spec_bytes(), pattern],
            None => Seq::empty(),
        };
        let hint = match self.count {
            Some(count) => seq!["COUNT".spec_bytes(), signed_decimal(count)],
            None => Seq::empty(),
        };
        target + filter + hint
    }

    /// The stream after it has taken `page` in.
    pub open spec fn accept(self, page: Page) -> Scanning {
        Scanning {
            cursor: page.cursor,
            started: true,
            buffered: self.buffered + page.elements,
            ..self
        }
    }

    /// The stream after it has given out `width` elements.
    pub open spec fn advance(self, width: int) -> Scanning {
        Scanning { buffered: self.buffered.skip(width), ..self }
    }

    /// The elements that the stream gives out, in order, when its requests
    /// for pages are answered with `pages` in order, up to the point where it
    /// finishes or where a request would find no page left.
    pub open spec fn yields(self, pages: Seq<Page>) -> Seq<Seq<u8>>
        decreases pages.len(), self.buffered.len(),
    {
        if self.buffered.len() > 0 {
            seq![self.buffered[0]] + self.advance(1).yields(pages)
        } else if self.exhausted() || pages.len() == 0 {
            Seq::empty()
        } else {
            self.accept(pages[0]).yields(pages.skip(1))
        }
    }

    /// The number of requests for a page that the stream makes when its
    /// requests are answered with `pages` in order.
    pub open spec fn round_trips(self, pages: Seq<Page>) -> nat
        decreases pages.len(), self.buffered.len(),
    {
        if self.buffered.len() > 0 {
            self.advance(1).round_trips(pages)
        } else if self.exhausted() || pages.len() == 0 {
            0
        } else {
            1 + self.accept(pages[0]).round_trips(pages.skip(1))
        }
    }

    /// The pairs that a stream of pairs gives out, in order, when its
    /// requests for pages are answered with `pages` in order, up to the point
    /// where it finishes or where a request would find no page left.
    pub open spec fn yields_pairs(self, pages: Seq<Page>) -> Seq<(Seq<u8>, Seq<u8>)>
        decreases pages.len(), self.buffered.len(),
    {
        if self.buffered.len() >= 2 {
            seq![(self.buffered[0], self.buffered[1])] + self.advance(2).yields_pairs(pages)
        } else if self.exhausted() || pages.len() == 0 {
            Seq::empty()
        } else {
            self.accept(pages[0]).yields_pairs(pages.skip(1))
        }
    }

    /// The state in which the stream is left when its requests are answered
    /// with `pages` in order.
    pub open spec fn outcome(self, pages: Seq<Page>) -> Scanning
        decreases pages.len(), self.buffered.len(),
    {
        if self.buffered.len() > 0 {
            self.advance(1).outcome(pages)
        } else if self.exhausted() || pages.len() == 0 {
            self
        } else {
            self.accept(pages[0]).outcome(pages.skip(1))
        }
    }
}

/// The elements of `pages`, page after page.
pub open spec fn elements_of(pages: Seq<Page>) -> Seq<Seq<u8>>
    decreases pages.len(),
{
    if pages.len() == 0 {
        Seq::empty()
    } else {
        pages[0].elements + elements_of(pages.skip(1))
    }
}

/// Whether `pages` is one whole enumeration: the last page, and no page
/// before it, comes with the cursor `0`.
pub open spec fn complete(pages: Seq<Page>) -> bool {
    &&& pages.len() > 0
    &&& pages.last().cursor == zero()
    &&& forall|i: int| 0 <= i < pages.len() - 1 ==> (#[trigger] pages[i]).cursor != zero()
}

/// A stream that has elements left gives them out before anything else.
pub proof fn lemma_drain(state: Scanning, pages: Seq<Page>)
    ensures
        state.yields(pages) == state.buffered + state.advance(state.buffered.len() as int).yields(
            pages,
        ),
        state.round_trips(pages) == state.advance(state.buffered.len() as int).round_trips(pages),
        state.outcome(pages) == state.advance(state.buffered.len() as int).outcome(pages),
    decreases state.buffered.len(),
{
    let n = state.buffered.len() as int;
    if n == 0 {
        assert(state.advance(0).buffered =~= state.buffered);
    } else {
        let next = state.advance(1);
        lemma_drain(next, pages);
        assert(next.advance(n - 1).buffered =~= state.advance(n).buffered);
    }
}

/// **A cursor stream visits every element once and ends.** Let the server
/// answer with the pages of one whole enumeration. Then a stream that has
/// not asked yet, or whose last page came with another cursor than `0`,
/// gives out the elements that it holds and then every element of every
/// page, in order and once each; it makes one round trip for each page; and
/// it is left with nothing to give and nothing to ask. What the stream asks
/// with (a pattern, a count) and how large the pages are plays no part.
pub proof fn lemma_scan_visits_all(state: Scanning, pages: Seq<Page>)
    requires
        complete(pages),
        !state.exhausted(),
    ensures
        state.yields(pages) == state.buffered + elements_of(pages),
        state.round_trips(pages) == pages.len(),
        state.outcome(pages).exhausted(),
        state.outcome(pages).buffered.len() == 0,
    decreases pages.len(),
{
    let n = state.buffered.len() as int;
    lemma_drain(state, pages);
    let empty = state.advance(n);
    let taken = empty.accept(pages[0]);
    let later = pages.skip(1);
    if pages.len() == 1 {
        lemma_drain(taken, later);
        assert(elements_of(later) =~= Seq::<Seq<u8>>::empty());
    } else {
        lemma_scan_visits_all(taken, later);
    }
}

/// **A cursor stream visits each element of the collection exactly once.**
/// Let the pages of one whole enumeration hold every element of a collection
/// and none of them twice. Then what a stream gives out from its start holds
/// every element of the collection, and none of them twice.
pub proof fn lemma_scan_visits_each_once(
    state: Scanning,
    pages: Seq<Page>,
    collection: Set<Seq<u8>>,
)
    requires
        complete(pages),
        !state.started,
        state.buffered.len() == 0,
        elements_of(pages).no_duplicates(),
        elements_of(pages).to_set() == collection,
    ensures
        state.yields(pages).no_duplicates(),
        state.yields(pages).to_set() == collection,
        state.round_trips(pages) == pages.len(),
{
    lemma_scan_visits_all(state, pages);
}

/// The elements of `elements` two by two: the first with the second, the
/// third with the fourth, and so on. A last element without a partner is left
/// out.
pub open spec fn pairs(elements: Seq<Seq<u8>>) -> Seq<(Seq<u8>, Seq<u8>)>
    decreases elements.len(),
{
    if elements.len() < 2 {
        Seq::empty()
    } else {
        seq![(elements[0], elements[1])] + pairs(elements.skip(2))
    }
}

/// Once the server has said that there are no more pages, a stream of pairs
/// gives out the pairs of what it holds and nothing else.
pub proof fn lemma_pairs_of_rest(state: Scanning, pages: Seq<Page>)
    requires
        state.exhausted() || pages.len() == 0,
    ensures
        state.yields_pairs(pages) == pairs(state.buffered),
    decreases state.buffered.len(),
{
    if state.buffered.len() >= 2 {
        lemma_pairs_of_rest(state.advance(2), pages);
    }
}

/// **A stream of pairs visits every field with its value, once, and ends.**
/// Let the server answer with the pages of one whole enumeration. Then a
/// stream that has not asked yet, or whose last page came with another cursor
/// than `0`, gives out the elements that it holds and those of every page,
/// two by two and in order.
pub proof fn lemma_hscan_visits_all(state: Scanning, pages: Seq<Page>)
    requires
        complete(pages),
        !state.exhausted(),
    ensures
        state.yields_pairs(pages) == pairs(state.buffered + elements_of(pages)),
    decreases pages.len(), state.buffered.len(),
{
    let all = state.buffered + elements_of(pages);
    if state.buffered.len() >= 2 {
        let next = state.advance(2);
        lemma_hscan_visits_all(next, pages);
        assert(all.skip(2) =~= next.buffered + elements_of(pages));
    } else {
        let taken = state.accept(pages[0]);
        let later = pages.skip(1);
        if pages.len() == 1 {
            lemma_pairs_of_rest(taken, later);
        } else {
            lemma_hscan_visits_all(taken, later);
            assert(taken.buffered + elements_of(later) =~= all);
        }
    }
}

/// What pulling on a cursor stream gives.
#[derive(Debug, PartialEq, Eq)]
pub enum Scan<T> {
    /// The next element.
    Item(T),
    /// The stream has no element left and needs the next page: run this
    /// command and hand its reply to the stream.
    Query(Command),
    /// The enumeration has ended.
    Finished,
}

/// Whether `value` carries a page.
pub fn is_page(value: &Value) -> (r: bool)
    ensures
        r == page_of(value@) is Some,
{
    match value {
        Value::Array(parts) => {
            proof {
                lemma_array_view(*parts);
            }
            if parts.len() != 2 {
                return false;
            }
            let cursor_ok = match &parts[0] {
                Value::String(_) => true,
                _ => false,
            };
            if !cursor_ok {
                return false;
            }
            let r = is_string_array(&parts[1]);
            r
        },
        _ => false,
    }
}

/// Whether `value` is an array of strings only.
pub fn is_string_array(value: &Value) -> (r: bool)
    ensures
        r == value@.is_string_array(),
{
    match value {
        Value::Array(items) => {
            proof {
                lemma_array_view(*items);
            }
            let mut i: usize = 0;
            while i < items.len()
                invariant
                    i <= items.len(),
                    value@ == Reply::Array(replies(items@)),
                    forall|j: int| 0 <= j < i ==> (#[trigger] replies(items@)[j]) is String,
                decreases items.len() - i,
            {
                let here = match &items[i] {
                    Value::String(_) => true,
                    _ => false,
                };
                if !here {
                    assert(!(replies(items@)[i as int] is String));
                    return false;
                }
                i += 1;
            }
            true
        },
        _ => false,
    }
}

/// The settings of a scan over the keys of the database or over the members
/// of a set.
#[derive(Debug)]
pub struct ScanBuilder {
    command: &'static str,
    key: Option<Vec<u8>>,
    pattern: Option<Vec<u8>>,
    count: Option<i64>,
}

/// What an optional byte string holds.
pub open spec fn optional_bytes(bytes: Option<Vec<u8>>) -> Option<Seq<u8>> {
    match bytes {
        Some(bytes) => Some(bytes@),
        None => None,
    }
}

/// What an optional count holds.
pub open spec fn optional_count(count: Option<i64>) -> Option<int> {
    match count {
        Some(count) => Some(count as int),
        None => None,
    }
}

impl View for ScanBuilder {
    type V = Scanning;

    /// The stream that these settings start.
    closed spec fn view(&self) -> Scanning {
        Scanning {
            command: self.command.spec_bytes(),
            key: optional_bytes(self.key),
            pattern: optional_bytes(self.pattern),
            count: optional_count(self.count),
            cursor: zero(),
            started: false,
            buffered: Seq::empty(),
        }
    }
}

impl ScanBuilder {
    /// A scan with the command `command`, over the collection at `key` if
    /// there is one, without a pattern or a count.
    pub fn new(command: &'static str, key: Option<&[u8]>) -> (builder: ScanBuilder)
        ensures
            builder@ == (Scanning {
                command: command.spec_bytes(),
                key: match key {
                    Some(key) => Some(key@),
                    None => None,
                },
                pattern: None,
                count: None,
                cursor: zero(),
                started: false,
                buffered: Seq::empty(),
            }),
    {
        let key = match key {
            Some(key) => Some(vstd::slice::slice_to_vec(key)),
            None => None,
        };
        ScanBuilder { command, key, pattern: None, count: None }
    }

    /// These settings with `pattern` as the pattern that elements must
    /// match.
    pub fn pattern(self, pattern: &[u8]) -> (builder: ScanBuilder)
        ensures
            builder@ == (Scanning { pattern: Some(pattern@), ..self@ }),
    {
        ScanBuilder {
            command: self.command,
            key: self.key,
            pattern: Some(vstd::slice::slice_to_vec(pattern)),
            count: self.count,
        }
    }

    /// These settings with `count` as the number of elements to look at in
    /// each round trip.
    pub fn count(self, count: i64) -> (builder: ScanBuilder)
        ensures
            builder@ == (Scanning { count: Some(count as int), ..self@ }),
    {
        ScanBuilder {
            command: self.command,
            key: self.key,
            pattern: self.pattern,
            count: Some(count),
        }
    }

    /// The stream of the scan.
    pub fn run(self) -> (stream: ScanStream)
        ensures
            stream@ == self@,
    {
        let mut cursor: Vec<u8> = Vec::new();
        cursor.push(48);
        let stream = ScanStream { settings: self, cursor, started: false, buffer: VecDeque::new() };
        assert(stream@.buffered =~= self@.buffered);
        stream
    }
}

/// The elements of a scan, one at a time.
#[derive(Debug)]
pub struct ScanStream {
    settings: ScanBuilder,
    cursor: Vec<u8>,
    started: bool,
    buffer: VecDeque<Vec<u8>>,
}

impl View for ScanStream {
    type V = Scanning;

    closed spec fn view(&self) -> Scanning {
        Scanning {
            cursor: self.cursor@,
            started: self.started,
            buffered: byte_strings(self.buffer@),
            ..self.settings@
        }
    }
}

impl ScanStream {
    /// Whether the server has said that there are no more pages.
    fn exhausted(&self) -> (r: bool)
        ensures
            r == self@.exhausted(),
    {
        let r = self.started && self.cursor.len() == 1 && self.cursor[0] == 48;
        proof {
            if r {
                assert(self.cursor@ =~= zero());
            }
        }
        r
    }

    /// The command that asks for the next page.
    fn query(&self) -> (command: Command)
        ensures
            command@ == self@.query(),
    {
        let mut command = Command::new(self.settings.command);
        match &self.settings.key {
            Some(key) => {
                command.append_arg(key.as_slice());
            },
            None => {},
        }
        command.append_arg(self.cursor.as_slice());
        match &self.settings.pattern {
            Some(pattern) => {
                command.append_arg("MATCH".as_bytes());
                command.append_arg(pattern.as_slice());
            },
            None => {},
        }
        match self.settings.count {
            Some(count) => {
                let mut text: Vec<u8> = Vec::new();
                push_signed_decimal(&mut text, count);
                command.append_arg("COUNT".as_bytes());
                command.append_arg(text.as_slice());
            },
            None => {},
        }
        command
    }

    /// Pulls the next element.
    ///
    /// An element that the stream holds is given out. Where it holds none,
    /// the enumeration has ended if the last page came with the cursor `0`;
    /// otherwise the stream asks for the next page and stays as it is.
    pub fn next(&mut self) -> (r: Scan<Vec<u8>>)
        ensures
            match r {
                Scan::Item(element) => {
                    &&& old(self)@.buffered.len() > 0
                    &&& element@ == old(self)@.buffered[0]
                    &&& final(self)@ == old(self)@.advance(1)
                },
                Scan::Query(command) => {
                    &&& old(self)@.buffered.len() == 0
                    &&& !old(self)@.exhausted()
                    &&& command@ == old(self)@.query()
                    &&& final(self)@ == old(self)@
                },
                Scan::Finished => {
                    &&& old(self)@.buffered.len() == 0
                    &&& old(self)@.exhausted()
                    &&& final(self)@ == old(self)@
                },
            },
    {
        match self.buffer.pop_front() {
            Some(element) => {
                assert(final(self)@.buffered =~= old(self)@.buffered.skip(1));
                Scan::Item(element)
            },
            None => {
                if self.exhausted() {
                    Scan::Finished
                } else {
                    Scan::Query(self.query())
                }
            },
        }
    }

    /// Takes in the reply to the command that the stream asked to run: the
    /// cursor of the page becomes the stream's cursor, and its elements come
    /// after those that the stream still holds.
    pub fn accept(&mut self, reply: Value)
        requires
            page_of(reply@) is Some,
        ensures
            final(self)@ == old(self)@.accept(page_of(reply@).unwrap()),
    {
        let ghost page = page_of(reply@).unwrap();
        let mut parts = reply.unwrap_array();
        let list = parts.pop().unwrap();
        let cursor = parts.pop().unwrap().unwrap_string();
        let mut elements = list.unwrap_string_array();
        let ghost all = elements@;
        let mut fresh: VecDeque<Vec<u8>> = VecDeque::new();
        while elements.len() > 0
            invariant
                elements@.len() + fresh@.len() == all.len(),
                elements@ == all.take(elements@.len() as int),
                fresh@ == all.skip(elements@.len() as int),
            decreases elements@.len(),
        {
            let element = elements.pop().unwrap();
            fresh.push_front(element);
        }
        self.buffer.append(&mut fresh);
        self.cursor = cursor;
        self.started = true;
        assert(final(self)@.buffered =~= old(self)@.buffered + page.elements);
    }
}

/// The settings of a scan over the fields of a hash.
#[derive(Debug)]
pub struct HScanBuilder {
    inner: ScanBuilder,
}

impl View for HScanBuilder {
    type V = Scanning;

    /// The stream that these settings start.
    closed spec fn view(&self) -> Scanning {
        self.inner@
    }
}

impl HScanBuilder {
    /// A scan over the fields of the hash at `key`, without a pattern or a
    /// count.
    pub fn new(key: &[u8]) -> (builder: HScanBuilder)
        ensures
            builder@ == (Scanning {
                command: "HSCAN".spec_bytes(),
                key: Some(key@),
                pattern: None,
                count: None,
                cursor: zero(),
                started: false,
                buffered: Seq::empty(),
            }),
    {
        HScanBuilder { inner: ScanBuilder::new("HSCAN", Some(key)) }
    }

    /// These settings with `pattern` as the pattern that fields must match.
    pub fn pattern(self, pattern: &[u8]) -> (builder: HScanBuilder)
        ensures
            builder@ == (Scanning { pattern: Some(pattern@), ..self@ }),
    {
        HScanBuilder { inner: self.inner.pattern(pattern) }
    }

    /// These settings with `count` as the number of fields to look at in
    /// each round trip.
    pub fn count(self, count: i64) -> (builder: HScanBuilder)
        ensures
            builder@ == (Scanning { count: Some(count as int), ..self@ }),
    {
        HScanBuilder { inner: self.inner.count(count) }
    }

    /// The stream of the scan.
    pub fn run(self) -> (stream: HScanStream)
        ensures
            stream@ == self@,
    {
        HScanStream { inner: self.inner.run() }
    }
}

/// The fields of a hash with their values, one pair at a time.
///
/// The server sends a page as a flat list: a field, its value, the next
/// field, its value. The stream pairs each element with the one after it.
#[derive(Debug)]
pub struct HScanStream {
    inner: ScanStream,
}

impl View for HScanStream {
    type V = Scanning;

    closed spec fn view(&self) -> Scanning {
        self.inner@
    }
}

impl HScanStream {
    /// Pulls the next field and its value.
    ///
    /// Where the stream holds two elements or more, the first two are given
    /// out as a pair. Where it holds fewer, the enumeration has ended if the
    /// last page came with the cursor `0`; otherwise the stream asks for the
    /// next page and stays as it is.
    pub fn next(&mut self) -> (r: Scan<(Vec<u8>, Vec<u8>)>)
        ensures
            match r {
                Scan::Item(pair) => {
                    &&& old(self)@.buffered.len() >= 2
                    &&& pair.0@ == old(self)@.buffered[0]
                    &&& pair.1@ == old(self)@.buffered[1]
                    &&& final(self)@ == old(self)@.advance(2)
                },
                Scan::Query(command) => {
                    &&& old(self)@.buffered.len() < 2
                    &&& !old(self)@.exhausted()
                    &&& command@ == old(self)@.query()
                    &&& final(self)@ == old(self)@
                },
                Scan::Finished => {
                    &&& old(self)@.buffered.len() < 2
                    &&& old(self)@.exhausted()
                    &&& final(self)@ == old(self)@
                },
            },
    {
        if self.inner.buffer.len() >= 2 {
            let field = self.inner.buffer.pop_front().unwrap();
            let value = self.inner.buffer.pop_front().unwrap();
            assert(final(self)@.buffered =~= old(self)@.buffered.skip(2));
            Scan::Item((field, value))
        } else if self.inner.exhausted() {
            Scan::Finished
        } else {
            Scan::Query(self.inner.query())
        }
    }

    /// Takes in the reply to the command that the stream asked to run: the
    /// cursor of the page becomes the stream's cursor, and its elements come
    /// after those that the stream still holds.
    pub fn accept(&mut self, reply: Value)
        requires
            page_of(reply@) is Some,
        ensures
            final(self)@ == old(self)@.accept(page_of(reply@).unwrap()),
    {
        self.inner.accept(reply);
    }
}

} // verus!
