//! Extracting test cases from the event stream of a Markdown document.
use vstd::prelude::*;
use vstd::string::StringSliceAdditionalSpecFns;
use pulldown_cmark::{CodeBlockKind, Event, Parser, Tag, TagEnd};
use crate::classify::{code_block_info, parse_code_block_info, CodeBlockInfo};
use crate::clean::{block_body, block_lines, cleaned, kept, lemma_block_body_filters, push_fragment_lines, strings_view};
use crate::names::{derive_name, opt_view, sanitize_ident, sanitize_section, test_name};
use crate::text::{chars_of, push_all, string_of};

verus! {

/// The structural events of a document that extraction reads.
pub enum EventKind {
    /// A heading of the given level (1 to 6) opens.
    HeadingStart(u8),
    /// A heading of the given level closes.
    HeadingEnd(u8),
    /// A fenced code block opens, with its info string.
    FenceStart(String),
    /// A text fragment.
    Text(String),
    /// A code block, fenced or indented, closes.
    CodeEnd,
    /// Anything else.
    Other,
}

/// An event and the byte offset in the document at which it starts.
pub struct DocEvent {
    pub kind: EventKind,
    pub start: usize,
}

/// The events that the Markdown parser reports for a document.
pub uninterp spec fn markdown_events(text: Seq<char>) -> Seq<DocEvent>;

/// Relies on pulldown_cmark's `Parser::into_offset_iter`: the events of the
/// document in order, each with the start of its byte range.
#[verifier::external_body]
fn scan_markdown(s: &str) -> (r: Vec<DocEvent>)
    ensures
        r@ == markdown_events(s@),
{
    let mut out = Vec::new();
    for (e, range) in Parser::new(s).into_offset_iter() {
        let kind = match e {
            Event::Start(Tag::Heading { level, .. }) => EventKind::HeadingStart(level as u8),
            Event::End(TagEnd::Heading(level)) => EventKind::HeadingEnd(level as u8),
            Event::Start(Tag::CodeBlock(CodeBlockKind::Fenced(info))) => EventKind::FenceStart(info.to_string()),
            Event::End(TagEnd::CodeBlock) => EventKind::CodeEnd,
            Event::Text(t) => EventKind::Text(t.to_string()),
            _ => EventKind::Other,
        };
        out.push(DocEvent { kind, start: range.start });
    }
    out
}

/// The number of bytes of `b` that equal `needle`.
pub open spec fn count_byte(b: Seq<u8>, needle: u8) -> nat
    decreases b.len(),
{
    if b.len() == 0 {
        0
    } else {
        count_byte(b.drop_last(), needle) + if b.last() == needle { 1nat } else { 0nat }
    }
}

/// Relies on bytecount::count: how many bytes of `haystack` equal `needle`.
#[verifier::external_body]
fn count_bytes(haystack: &[u8], needle: u8) -> (r: usize)
    ensures
        r == count_byte(haystack@, needle),
{
    bytecount::count(haystack, needle)
}

/// The 0-based line of the document on which byte `offset` stands.
pub open spec fn line_at(bytes: Seq<u8>, offset: nat) -> nat {
    let end = if offset <= bytes.len() { offset as int } else { bytes.len() as int };
    count_byte(bytes.take(end), 10u8)
}

/// The line after the one on which byte `offset` stands (a document holds
/// fewer than `usize::MAX` lines, so the bound is never reached).
pub open spec fn line_after(bytes: Seq<u8>, offset: nat) -> nat {
    let l = line_at(bytes, offset);
    if l < usize::MAX { l + 1 } else { l }
}

/// One runnable code sample of a document.
pub struct Test {
    /// The cleaned lines of the sample.
    pub text: Vec<String>,
    /// The document it comes from.
    pub path: String,
    /// The sanitized heading of the section it stands in, if any.
    pub section: Option<String>,
    /// The 0-based line of the document where the sample starts.
    pub line_number: usize,
    pub ignore: bool,
    pub no_run: bool,
    pub should_panic: bool,
}

pub struct TestView {
    pub text: Seq<Seq<char>>,
    pub path: Seq<char>,
    pub section: Option<Seq<char>>,
    pub line_number: nat,
    pub ignore: bool,
    pub no_run: bool,
    pub should_panic: bool,
}

impl View for Test {
    type V = TestView;

    open spec fn view(&self) -> TestView {
        TestView {
            text: strings_view(self.text@),
            path: self.path@,
            section: opt_view(self.section),
            line_number: self.line_number as nat,
            ignore: self.ignore,
            no_run: self.no_run,
            should_panic: self.should_panic,
        }
    }
}

impl Test {
    /// The test's name, derived from its document, section and line.
    pub fn name(&self) -> (r: String)
        ensures
            r@ == test_name(self@.path, self@.section, self@.line_number),
    {
        derive_name(self.path.as_str(), &self.section, self.line_number)
    }
}

pub open spec fn tests_view(v: Seq<Test>) -> Seq<TestView> {
    v.map_values(|t: Test| t@)
}

/// What extraction is accumulating.
pub enum BufferView {
    Empty,
    Heading(Seq<char>),
    /// The text fragments of the block so far, and whether one has been seen.
    Code(Seq<Seq<char>>, bool),
}

/// The state of extraction after a prefix of the events.
pub struct ScanState {
    pub buffer: BufferView,
    pub section: Option<Seq<char>>,
    pub start: nat,
    pub pending: Option<CodeBlockInfo>,
    pub tests: Seq<TestView>,
}

pub open spec fn initial_state() -> ScanState {
    ScanState {
        buffer: BufferView::Empty,
        section: None,
        start: 0,
        pending: None,
        tests: Seq::empty(),
    }
}

/// One event of extraction. Headings of level 1 and 2 name the section;
/// a runnable fenced block collects its cleaned lines and, when it closes,
/// becomes a test under the current section, starting on the line of its
/// first text fragment, or on the line after the fence if it has none.
pub open spec fn step(st: ScanState, ev: DocEvent, bytes: Seq<u8>, path: Seq<char>) -> ScanState {
    match ev.kind {
        EventKind::HeadingStart(level) => if level < 3 {
            ScanState { buffer: BufferView::Heading(Seq::empty()), ..st }
        } else {
            st
        },
        EventKind::HeadingEnd(level) => if level < 3 {
            let section = match st.buffer {
                BufferView::Heading(h) => Some(sanitize_ident(h)),
                _ => st.section,
            };
            ScanState { buffer: BufferView::Empty, section, ..st }
        } else {
            st
        },
        EventKind::FenceStart(info) => {
            let f = code_block_info(info@);
            if f.is_rust {
                ScanState {
                    buffer: BufferView::Code(Seq::empty(), false),
                    pending: Some(f),
                    start: line_after(bytes, ev.start as nat),
                    ..st
                }
            } else {
                st
            }
        },
        EventKind::Text(t) => match st.buffer {
            BufferView::Code(fragments, seen) => ScanState {
                buffer: BufferView::Code(fragments.push(t@), true),
                start: if seen { st.start } else { line_at(bytes, ev.start as nat) },
                ..st
            },
            BufferView::Heading(h) => ScanState { buffer: BufferView::Heading(h + t@), ..st },
            BufferView::Empty => st,
        },
        EventKind::CodeEnd => match st.pending {
            None => st,
            Some(f) => match st.buffer {
                BufferView::Code(fragments, _) => ScanState {
                    buffer: BufferView::Empty,
                    pending: None,
                    tests: st.tests.push(
                        TestView {
                            text: block_body(fragments),
                            path,
                            section: st.section,
                            line_number: st.start,
                            ignore: f.ignore,
                            no_run: f.no_run,
                            should_panic: f.should_panic,
                        },
                    ),
                    ..st
                },
                _ => ScanState { buffer: BufferView::Empty, ..st },
            },
        },
        EventKind::Other => st,
    }
}

/// The state of extraction after all of `events`.
pub open spec fn scan(events: Seq<DocEvent>, bytes: Seq<u8>, path: Seq<char>) -> ScanState
    decreases events.len(),
{
    if events.len() == 0 {
        initial_state()
    } else {
        step(scan(events.drop_last(), bytes, path), events.last(), bytes, path)
    }
}

/// The tests of a document, in document order.
pub open spec fn extracted(events: Seq<DocEvent>, bytes: Seq<u8>, path: Seq<char>) -> Seq<TestView> {
    scan(events, bytes, path).tests
}

pub open spec fn opens_runnable_block(ev: DocEvent) -> bool {
    match ev.kind {
        EventKind::FenceStart(info) => code_block_info(info@).is_rust,
        _ => false,
    }
}

proof fn lemma_quiet_scan(events: Seq<DocEvent>, bytes: Seq<u8>, path: Seq<char>)
    requires
        forall|i: int| 0 <= i < events.len() ==> !opens_runnable_block(#[trigger] events[i]),
    ensures
        scan(events, bytes, path).pending is None,
        !(scan(events, bytes, path).buffer is Code),
        scan(events, bytes, path).tests.len() == 0,
    decreases events.len(),
{
    if events.len() > 0 {
        let rest = events.drop_last();
        assert forall|i: int| 0 <= i < rest.len() implies !opens_runnable_block(#[trigger] rest[i]) by {
            assert(rest[i] == events[i]);
        }
        lemma_quiet_scan(rest, bytes, path);
        assert(!opens_runnable_block(events[events.len() - 1]));
    }
}

/// A document in which no fenced block is runnable yields no tests.
pub proof fn lemma_no_runnable_block_no_tests(events: Seq<DocEvent>, bytes: Seq<u8>, path: Seq<char>)
    requires
        forall|i: int| 0 <= i < events.len() ==> !opens_runnable_block(#[trigger] events[i]),
    ensures
        extracted(events, bytes, path).len() == 0,
{
    lemma_quiet_scan(events, bytes, path);
}

/// The text fragments among `events`, in order.
pub open spec fn texts_in(events: Seq<DocEvent>) -> Seq<Seq<char>>
    decreases events.len(),
{
    if events.len() == 0 {
        Seq::empty()
    } else {
        let before = texts_in(events.drop_last());
        match events.last().kind {
            EventKind::Text(t) => before.push(t@),
            _ => before,
        }
    }
}

/// Events `a` to `b - 1` form a runnable block: a runnable fence opens it at
/// `a`, the block closes at `b - 1`, and its text comes in between.
pub open spec fn is_block(events: Seq<DocEvent>, a: int, b: int) -> bool {
    &&& 0 <= a < b - 1
    &&& b <= events.len()
    &&& opens_runnable_block(events[a])
    &&& events[b - 1].kind is CodeEnd
}

/// `text` is the body of a runnable block of `events`.
pub open spec fn body_of_block(events: Seq<DocEvent>, text: Seq<Seq<char>>) -> bool {
    exists|a: int, b: int|
        is_block(events, a, b) && text == block_body(texts_in(events.subrange(a + 1, b - 1)))
}

proof fn lemma_scan_blocks(events: Seq<DocEvent>, bytes: Seq<u8>, path: Seq<char>)
    ensures
        forall|i: int|
            0 <= i < scan(events, bytes, path).tests.len() ==> body_of_block(
                events,
                #[trigger] scan(events, bytes, path).tests[i].text,
            ),
        match scan(events, bytes, path).buffer {
            BufferView::Code(fragments, _) => exists|a: int|
                0 <= a < events.len() && opens_runnable_block(events[a]) && fragments == texts_in(
                    events.subrange(a + 1, events.len() as int),
                ),
            _ => true,
        },
    decreases events.len(),
{
    if events.len() > 0 {
        let rest = events.drop_last();
        let n = events.len() as int;
        lemma_scan_blocks(rest, bytes, path);
        let st = scan(rest, bytes, path);
        let ev = events.last();
        let nst = scan(events, bytes, path);
        assert(nst == step(st, ev, bytes, path));
        assert(nst.tests.len() > st.tests.len() ==> ev.kind is CodeEnd && st.buffer is Code
            && nst.tests == st.tests.push(nst.tests.last()) && nst.tests.last().text == block_body(
            st.buffer->Code_0,
        ));
        assert(nst.tests.len() <= st.tests.len() ==> nst.tests == st.tests);
        match st.buffer {
            BufferView::Code(fragments, seen) => {
                let a = choose|a: int|
                    0 <= a < rest.len() && opens_runnable_block(rest[a]) && fragments == texts_in(
                        rest.subrange(a + 1, rest.len() as int),
                    );
                assert(events.subrange(a + 1, n).drop_last() == rest.subrange(a + 1, n - 1));
                assert(events.subrange(a + 1, n).last() == ev);
                assert(rest[a] == events[a]);
                assert(rest.subrange(a + 1, rest.len() as int) == events.subrange(a + 1, n - 1));
            },
            _ => {},
        }
        assert forall|i: int| 0 <= i < nst.tests.len() implies body_of_block(
            events,
            #[trigger] nst.tests[i].text,
        ) by {
            if i < st.tests.len() {
                assert(nst.tests[i] == st.tests[i]);
                assert(body_of_block(rest, st.tests[i].text));
                let (a, b) = choose|a: int, b: int|
                    is_block(rest, a, b) && st.tests[i].text == block_body(
                        texts_in(rest.subrange(a + 1, b - 1)),
                    );
                assert(rest.subrange(a + 1, b - 1) == events.subrange(a + 1, b - 1));
                assert(rest[a] == events[a] && rest[b - 1] == events[b - 1]);
                assert(is_block(events, a, b));
                assert(nst.tests[i].text == block_body(texts_in(events.subrange(a + 1, b - 1))));
            } else {
                let fragments = st.buffer->Code_0;
                let a = choose|a: int|
                    0 <= a < rest.len() && opens_runnable_block(rest[a]) && fragments == texts_in(
                        rest.subrange(a + 1, rest.len() as int),
                    );
                assert(rest[a] == events[a]);
                assert(rest.subrange(a + 1, rest.len() as int) == events.subrange(a + 1, n - 1));
                assert(is_block(events, a, n));
                assert(nst.tests[i].text == block_body(texts_in(events.subrange(a + 1, n - 1))));
            }
        }
        if opens_runnable_block(ev) {
            assert(events.subrange(n, n) =~= Seq::<DocEvent>::empty());
            assert(opens_runnable_block(events[n - 1]));
        }
    } else {
        assert(scan(events, bytes, path) == initial_state());
    }
}

/// Each test of a document comes from one runnable block of it: its text is
/// the lines of the block's text, without those that are blank or a bare
/// `#` once trimmed, each with a leading `# ` taken off, in their order.
pub proof fn lemma_tests_are_cleaned_blocks(events: Seq<DocEvent>, bytes: Seq<u8>, path: Seq<char>, i: int)
    requires
        0 <= i < extracted(events, bytes, path).len(),
    ensures
        exists|a: int, b: int|
            is_block(events, a, b) && #[trigger] extracted(events, bytes, path)[i].text == block_lines(
                texts_in(events.subrange(a + 1, b - 1)),
            ).filter(|l: Seq<char>| kept(l)).map_values(|l: Seq<char>| cleaned(l)),
{
    lemma_scan_blocks(events, bytes, path);
    assert(body_of_block(events, scan(events, bytes, path).tests[i].text));
    let (a, b) = choose|a: int, b: int|
        is_block(events, a, b) && scan(events, bytes, path).tests[i].text == block_body(
            texts_in(events.subrange(a + 1, b - 1)),
        );
    lemma_block_body_filters(texts_in(events.subrange(a + 1, b - 1)));
}

/// What extraction is accumulating.
enum Buffer {
    Empty,
    Heading(Vec<char>),
    Code(Vec<String>, bool),
}

spec fn buffer_view(b: Buffer, fragments: Seq<Seq<char>>) -> BufferView {
    match b {
        Buffer::Empty => BufferView::Empty,
        Buffer::Heading(h) => BufferView::Heading(h@),
        Buffer::Code(_, seen) => BufferView::Code(fragments, seen),
    }
}

spec fn body_matches(b: Buffer, fragments: Seq<Seq<char>>) -> bool {
    match b {
        Buffer::Code(lines, _) => strings_view(lines@) == block_body(fragments),
        _ => true,
    }
}

fn line_of(bytes: &[u8], offset: usize) -> (r: usize)
    ensures
        r == line_at(bytes@, offset as nat),
{
    let end = if offset <= bytes.len() { offset } else { bytes.len() };
    let head = &bytes[0..end];
    assert(head@ =~= bytes@.take(end as int));
    count_bytes(head, 10u8)
}

spec fn state_view(
    buffer: Buffer,
    fragments: Seq<Seq<char>>,
    section: Option<String>,
    start: usize,
    pending: Option<CodeBlockInfo>,
    tests: Seq<Test>,
) -> ScanState {
    ScanState {
        buffer: buffer_view(buffer, fragments),
        section: opt_view(section),
        start: start as nat,
        pending,
        tests: tests_view(tests),
    }
}

fn clone_section(section: &Option<String>) -> (r: Option<String>)
    ensures
        opt_view(r) == opt_view(*section),
{
    match section {
        Some(s) => Some(s.clone()),
        None => None,
    }
}

/// Extracts the tests of the document at `path`, given the events of the
/// document and its bytes.
pub fn extract_tests_from_events(events: &Vec<DocEvent>, bytes: &[u8], path: &str) -> (r: Vec<Test>)
    ensures
        tests_view(r@) == extracted(events@, bytes@, path@),
{
    let mut buffer = Buffer::Empty;
    let mut section: Option<String> = None;
    let mut start: usize = 0;
    let mut pending: Option<CodeBlockInfo> = None;
    let mut tests: Vec<Test> = Vec::new();
    let ghost mut fragments: Seq<Seq<char>> = Seq::empty();
    assert(tests_view(tests@) =~= Seq::<TestView>::empty());
    assert(events@.take(0) =~= Seq::<DocEvent>::empty());
    for i in 0..events.len()
        invariant
            body_matches(buffer, fragments),
            scan(events@.take(i as int), bytes@, path@) == state_view(
                buffer,
                fragments,
                section,
                start,
                pending,
                tests@,
            ),
    {
        let ghost st = scan(events@.take(i as int), bytes@, path@);
        let ev = &events[i];
        assert(events@.take(i + 1).drop_last() =~= events@.take(i as int));
        assert(events@.take(i + 1).last() == *ev);
        match &ev.kind {
            EventKind::HeadingStart(level) => {
                if *level < 3 {
                    buffer = Buffer::Heading(Vec::new());
                }
            },
            EventKind::HeadingEnd(level) => {
                if *level < 3 {
                    let old_buffer = buffer;
                    buffer = Buffer::Empty;
                    match old_buffer {
                        Buffer::Heading(h) => {
                            let text = string_of(&h);
                            section = Some(sanitize_section(text.as_str()));
                        },
                        _ => {},
                    }
                }
            },
            EventKind::FenceStart(info) => {
                let f = parse_code_block_info(info.as_str());
                if f.is_rust {
                    let lines: Vec<String> = Vec::new();
                    assert(strings_view(lines@) =~= Seq::<Seq<char>>::empty());
                    buffer = Buffer::Code(lines, false);
                    pending = Some(f);
                    let l = line_of(bytes, ev.start);
                    start = if l < usize::MAX { l + 1 } else { l };
                    proof {
                        fragments = Seq::empty();
                    }
                }
            },
            EventKind::Text(t) => {
                let old_buffer = buffer;
                buffer = Buffer::Empty;
                match old_buffer {
                    Buffer::Code(mut lines, seen) => {
                        if !seen {
                            start = line_of(bytes, ev.start);
                        }
                        push_fragment_lines(&mut lines, t.as_str());
                        proof {
                            assert(fragments.push(t@).drop_last() == fragments);
                            fragments = fragments.push(t@);
                        }
                        buffer = Buffer::Code(lines, true);
                    },
                    Buffer::Heading(mut h) => {
                        let tc = chars_of(t.as_str());
                        push_all(&mut h, &tc);
                        buffer = Buffer::Heading(h);
                    },
                    Buffer::Empty => {},
                }
            },
            EventKind::CodeEnd => {
                match pending {
                    Some(f) => {
                        let old_buffer = buffer;
                        buffer = Buffer::Empty;
                        match old_buffer {
                            Buffer::Code(lines, _) => {
                                let ghost before = tests@;
                                let test = Test {
                                    text: lines,
                                    path: path.to_owned(),
                                    section: clone_section(&section),
                                    line_number: start,
                                    ignore: f.ignore,
                                    no_run: f.no_run,
                                    should_panic: f.should_panic,
                                };
                                tests.push(test);
                                assert(tests_view(tests@) =~= tests_view(before).push(test@));
                                pending = None;
                            },
                            _ => {},
                        }
                    },
                    None => {},
                }
            },
            EventKind::Other => {},
        }
        assert(step(st, *ev, bytes@, path@) == state_view(buffer, fragments, section, start, pending, tests@));
    }
    assert(events@.take(events.len() as int) =~= events@);
    tests
}

/// Extracts the tests of a Markdown document, in document order.
pub fn extract_tests_from_string(s: &str, path: &str) -> (r: Vec<Test>)
    ensures
        tests_view(r@) == extracted(markdown_events(s@), s.spec_bytes(), path@),
{
    let events = scan_markdown(s);
    extract_tests_from_events(&events, s.as_bytes(), path)
}

} // verus!
