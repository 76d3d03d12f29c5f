//! Payload lines of a frame, the events they carry, and the assembly of events into
//! content blocks.

use vstd::prelude::*;
use vstd::utf8::{decode_utf8, valid_utf8};
use crate::frame::{FrameDecoder, frames_of, leftover_of, NEWLINE};
use crate::json::{get_str, json_or_null, member, parse_json_or_null, str_member, utf8_text};
use crate::llm::{ContentBlock, LlmCompletion, StreamChunk, StreamedCompletion, ToolCall, BlockView, ChunkView, ToolCallView, blocks_view, chunks_view, opt_view, copy_opt};

verus! {

/// The field prefix of a significant line: `data: `.
pub open spec fn data_prefix() -> Seq<u8> {
    seq![100u8, 97u8, 116u8, 97u8, 58u8, 32u8]
}

/// The termination sentinel `[DONE]`.
pub open spec fn done_sentinel() -> Seq<u8> {
    seq![91u8, 68u8, 79u8, 78u8, 69u8, 93u8]
}

/// ASCII whitespace: tab, line feed, vertical tab, form feed, carriage return and space.
pub open spec fn is_space(b: u8) -> bool {
    (9 <= b && b <= 13) || b == 32
}

/// `p` without its leading whitespace.
pub open spec fn trim_start(p: Seq<u8>) -> Seq<u8>
    decreases p.len(),
{
    if p.len() > 0 && is_space(p[0]) {
        trim_start(p.skip(1))
    } else {
        p
    }
}

/// `p` without its trailing whitespace.
pub open spec fn trim_end(p: Seq<u8>) -> Seq<u8>
    decreases p.len(),
{
    if p.len() > 0 && is_space(p.last()) {
        trim_end(p.drop_last())
    } else {
        p
    }
}

/// A line without the carriage return that may end it.
pub open spec fn strip_cr(line: Seq<u8>) -> Seq<u8> {
    if line.len() > 0 && line.last() == 13u8 {
        line.drop_last()
    } else {
        line
    }
}

/// The payload that one line carries: what follows `data: `, unless that is the sentinel.
pub open spec fn line_payload(line: Seq<u8>) -> Seq<Seq<u8>> {
    let l = strip_cr(line);
    if l.len() >= 6 && l.take(6) == data_prefix() && trim_end(trim_start(l.skip(6)))
        != done_sentinel() {
        seq![l.skip(6)]
    } else {
        Seq::empty()
    }
}

/// The payloads of the lines of `f` from the line that starts at `ls`, scanning at `i`.
/// Lines end at a newline; an empty last line after a final newline does not count.
pub open spec fn payloads_from(f: Seq<u8>, ls: int, i: int) -> Seq<Seq<u8>>
    decreases f.len() - i,
{
    if i >= f.len() || i < 0 {
        if ls < f.len() {
            line_payload(f.subrange(ls, f.len() as int))
        } else {
            Seq::empty()
        }
    } else if f[i] == NEWLINE {
        line_payload(f.subrange(ls, i)) + payloads_from(f, i + 1, i + 1)
    } else {
        payloads_from(f, ls, i + 1)
    }
}

/// The payloads of a frame, in order.
pub open spec fn frame_payloads_spec(f: Seq<u8>) -> Seq<Seq<u8>> {
    payloads_from(f, 0, 0)
}

/// Whether `p[from..]` starts with `q`.
fn starts_with_at(p: &Vec<u8>, from: usize, q: &[u8]) -> (r: bool)
    requires
        from <= p@.len(),
    ensures
        r == (p@.len() - from >= q@.len() && p@.subrange(from as int, from + q@.len()) == q@),
{
    if p.len() - from < q.len() {
        return false;
    }
    let n = p.len();
    let mut k: usize = 0;
    while k < q.len()
        invariant
            n == p@.len(),
            from <= p@.len(),
            p@.len() - from >= q@.len(),
            0 <= k <= q@.len(),
            forall|j: int| 0 <= j < k ==> p@[from + j] == q@[j],
        decreases q@.len() - k,
    {
        if p[from + k] != q[k] {
            assert(p@.subrange(from as int, from + q@.len())[k as int] != q@[k as int]);
            return false;
        }
        k = k + 1;
    }
    assert(p@.subrange(from as int, from + q@.len()) =~= q@);
    true
}

/// Whether `b` is ASCII whitespace.
fn space(b: u8) -> (r: bool)
    ensures
        r == is_space(b),
{
    (9 <= b && b <= 13) || b == 32
}

/// Whether the line `f[from..to]`, which starts with `data: `, carries the sentinel.
fn is_sentinel(f: &Vec<u8>, from: usize, to: usize) -> (r: bool)
    requires
        from <= to <= f@.len(),
    ensures
        r == (trim_end(trim_start(f@.subrange(from as int, to as int))) == done_sentinel()),
{
    let mut a: usize = from;
    while a < to && space(f[a])
        invariant
            from <= a <= to <= f@.len(),
            trim_start(f@.subrange(from as int, to as int)) == trim_start(
                f@.subrange(a as int, to as int),
            ),
        decreases to - a,
    {
        assert(f@.subrange(a as int, to as int).skip(1) =~= f@.subrange(a + 1, to as int));
        a = a + 1;
    }
    let ghost t = f@.subrange(a as int, to as int);
    assert(trim_start(t) == t);
    let mut b: usize = to;
    while b > a && space(f[b - 1])
        invariant
            from <= a <= b <= to <= f@.len(),
            trim_end(t) == trim_end(f@.subrange(a as int, b as int)),
        decreases b - a,
    {
        assert(f@.subrange(a as int, b as int).drop_last() =~= f@.subrange(a as int, b - 1));
        b = b - 1;
    }
    let ghost u = f@.subrange(a as int, b as int);
    assert(trim_end(u) == u);
    let sentinel: [u8; 6] = [91u8, 68u8, 79u8, 78u8, 69u8, 93u8];
    assert(sentinel@ =~= done_sentinel());
    if b - a != 6 {
        return false;
    }
    let r = starts_with_at(f, a, &sentinel);
    assert(r == (u == done_sentinel())) by {
        if r {
            assert(u =~= done_sentinel());
        }
    }
    r
}

/// The payload of the line `f[ls..le]`, if it carries one.
fn payload_of_line(f: &Vec<u8>, ls: usize, le: usize) -> (r: Option<Vec<u8>>)
    requires
        ls <= le <= f@.len(),
    ensures
        match r {
            Some(p) => line_payload(f@.subrange(ls as int, le as int)) == seq![p@],
            None => line_payload(f@.subrange(ls as int, le as int)) == Seq::<Seq<u8>>::empty(),
        },
{
    let ghost line = f@.subrange(ls as int, le as int);
    let mut end = le;
    if le > ls && f[le - 1] == 13u8 {
        end = le - 1;
    }
    assert(strip_cr(line) =~= f@.subrange(ls as int, end as int));
    let prefix: [u8; 6] = [100u8, 97u8, 116u8, 97u8, 58u8, 32u8];
    assert(prefix@ =~= data_prefix());
    if end - ls >= 6 && starts_with_at(f, ls, &prefix) {
        let ghost l = f@.subrange(ls as int, end as int);
        assert(l.take(6) =~= f@.subrange(ls as int, ls + 6));
        assert(l.skip(6) =~= f@.subrange(ls + 6, end as int));
        if is_sentinel(f, ls + 6, end) {
            None
        } else {
            let p = crate::frame::copy_range(f, ls + 6, end);
            Some(p)
        }
    } else {
        proof {
            let l = f@.subrange(ls as int, end as int);
            if l.len() >= 6 {
                assert(l.take(6) =~= f@.subrange(ls as int, ls + 6));
            }
        }
        None
    }
}

/// The payloads of the `data: ` lines of a frame, in order, without the sentinel.
pub fn frame_payloads(f: &Vec<u8>) -> (r: Vec<Vec<u8>>)
    ensures
        r@.map_values(|p: Vec<u8>| p@) == frame_payloads_spec(f@),
{
    let mut r: Vec<Vec<u8>> = Vec::new();
    let mut ls: usize = 0;
    let mut i: usize = 0;
    let n = f.len();
    while i < n
        invariant
            ls <= i <= n == f@.len(),
            r@.map_values(|p: Vec<u8>| p@) + payloads_from(f@, ls as int, i as int)
                == frame_payloads_spec(f@),
        decreases n - i,
    {
        if f[i] == NEWLINE {
            let ghost before = r@.map_values(|p: Vec<u8>| p@);
            match payload_of_line(f, ls, i) {
                Some(p) => {
                    r.push(p);
                    assert(r@.map_values(|p: Vec<u8>| p@) =~= before + line_payload(
                        f@.subrange(ls as int, i as int),
                    ));
                },
                None => {
                    assert(before + line_payload(f@.subrange(ls as int, i as int)) =~= before);
                },
            }
            assert(r@.map_values(|p: Vec<u8>| p@) + payloads_from(f@, i + 1, i + 1) =~= before
                + payloads_from(f@, ls as int, i as int));
            i = i + 1;
            ls = i;
        } else {
            i = i + 1;
        }
    }
    let ghost before = r@.map_values(|p: Vec<u8>| p@);
    if ls < n {
        match payload_of_line(f, ls, n) {
            Some(p) => {
                r.push(p);
                assert(r@.map_values(|p: Vec<u8>| p@) =~= before + payloads_from(
                    f@,
                    ls as int,
                    i as int,
                ));
            },
            None => {
                assert(before =~= before + payloads_from(f@, ls as int, i as int));
            },
        }
    } else {
        assert(before =~= before + payloads_from(f@, ls as int, i as int));
    }
    r
}

/// What opens a content block.
#[derive(Debug, Clone)]
pub enum BlockKind {
    Text,
    ToolUse { id: String, name: String },
}

/// One decoded event of a streamed completion.
#[derive(Debug, Clone)]
pub enum StreamEvent {
    BlockStart(BlockKind),
    TextDelta(String),
    InputFragment(String),
    BlockStop,
    MessageStop(Option<String>),
    /// A payload that is not a recognised event: another `type`, or not JSON at all.
    Unrecognized,
}

/// The mathematical value of a stream event.
pub enum EventView {
    TextStart,
    ToolStart(Seq<char>, Seq<char>),
    TextDelta(Seq<char>),
    InputFragment(Seq<char>),
    BlockStop,
    MessageStop(Option<Seq<char>>),
    Unrecognized,
}

impl View for StreamEvent {
    type V = EventView;

    open spec fn view(&self) -> EventView {
        match self {
            StreamEvent::BlockStart(BlockKind::Text) => EventView::TextStart,
            StreamEvent::BlockStart(BlockKind::ToolUse { id, name }) => EventView::ToolStart(
                id@,
                name@,
            ),
            StreamEvent::TextDelta(t) => EventView::TextDelta(t@),
            StreamEvent::InputFragment(p) => EventView::InputFragment(p@),
            StreamEvent::BlockStop => EventView::BlockStop,
            StreamEvent::MessageStop(r) => EventView::MessageStop(opt_view(*r)),
            StreamEvent::Unrecognized => EventView::Unrecognized,
        }
    }
}

/// An optional string, or the empty string.
pub open spec fn or_empty(o: Option<Seq<char>>) -> Seq<char> {
    match o {
        Some(s) => s,
        None => Seq::empty(),
    }
}

/// The event that a decoded payload carries, read by its `type` discriminator.
/// Payloads of other types carry none.
pub open spec fn event_of_json_spec(v: serde_json::Value) -> EventView {
    let t = str_member(v, "type"@);
    if t == Some("content_block_start"@) {
        match crate::json::json_member(v, "content_block"@) {
            Some(b) => {
                let bt = str_member(b, "type"@);
                if bt == Some("tool_use"@) {
                    EventView::ToolStart(
                        or_empty(str_member(b, "id"@)),
                        or_empty(str_member(b, "name"@)),
                    )
                } else if bt == Some("text"@) {
                    EventView::TextStart
                } else {
                    EventView::Unrecognized
                }
            },
            None => EventView::Unrecognized,
        }
    } else if t == Some("content_block_delta"@) {
        match crate::json::json_member(v, "delta"@) {
            Some(d) => {
                let dt = str_member(d, "type"@);
                if dt == Some("text_delta"@) {
                    match str_member(d, "text"@) {
                        Some(x) => EventView::TextDelta(x),
                        None => EventView::Unrecognized,
                    }
                } else if dt == Some("input_json_delta"@) {
                    match str_member(d, "partial_json"@) {
                        Some(x) => EventView::InputFragment(x),
                        None => EventView::Unrecognized,
                    }
                } else {
                    EventView::Unrecognized
                }
            },
            None => EventView::Unrecognized,
        }
    } else if t == Some("content_block_stop"@) {
        EventView::BlockStop
    } else if t == Some("message_stop"@) {
        EventView::MessageStop(str_member(v, "stop_reason"@))
    } else {
        EventView::Unrecognized
    }
}

/// The event that a payload carries: none unless it is UTF-8 text of a recognised event.
pub open spec fn payload_event(p: Seq<u8>) -> EventView {
    if valid_utf8(p) {
        event_of_json_spec(json_or_null(decode_utf8(p)))
    } else {
        EventView::Unrecognized
    }
}

/// Whether an optional string equals `lit`.
fn is_text(s: &Option<String>, lit: &str) -> (r: bool)
    ensures
        r == (opt_view(*s) == Some(lit@)),
{
    match s {
        Some(t) => {
            let l = String::from_str(lit);
            *t == l
        },
        None => false,
    }
}

/// An optional string, or the empty string.
fn unwrap_or_empty(o: Option<String>) -> (r: String)
    ensures
        r@ == or_empty(opt_view(o)),
{
    match o {
        Some(s) => s,
        None => String::new(),
    }
}

/// Reads the event that a decoded payload carries.
pub fn event_of_json(v: &serde_json::Value) -> (r: StreamEvent)
    ensures
        r@ == event_of_json_spec(*v),
{
    let t = get_str(v, "type");
    if is_text(&t, "content_block_start") {
        match member(v, "content_block") {
            Some(b) => {
                let bt = get_str(b, "type");
                if is_text(&bt, "tool_use") {
                    let id = unwrap_or_empty(get_str(b, "id"));
                    let name = unwrap_or_empty(get_str(b, "name"));
                    StreamEvent::BlockStart(BlockKind::ToolUse { id, name })
                } else if is_text(&bt, "text") {
                    StreamEvent::BlockStart(BlockKind::Text)
                } else {
                    StreamEvent::Unrecognized
                }
            },
            None => StreamEvent::Unrecognized,
        }
    } else if is_text(&t, "content_block_delta") {
        match member(v, "delta") {
            Some(d) => {
                let dt = get_str(d, "type");
                if is_text(&dt, "text_delta") {
                    match get_str(d, "text") {
                        Some(x) => StreamEvent::TextDelta(x),
                        None => StreamEvent::Unrecognized,
                    }
                } else if is_text(&dt, "input_json_delta") {
                    match get_str(d, "partial_json") {
                        Some(x) => StreamEvent::InputFragment(x),
                        None => StreamEvent::Unrecognized,
                    }
                } else {
                    StreamEvent::Unrecognized
                }
            },
            None => StreamEvent::Unrecognized,
        }
    } else if is_text(&t, "content_block_stop") {
        StreamEvent::BlockStop
    } else if is_text(&t, "message_stop") {
        StreamEvent::MessageStop(get_str(v, "stop_reason"))
    } else {
        StreamEvent::Unrecognized
    }
}

/// Decodes one payload into the event it carries, if any.
pub fn event_of_payload(p: &Vec<u8>) -> (r: StreamEvent)
    ensures
        r@ == payload_event(p@),
{
    match utf8_text(p.as_slice()) {
        Some(text) => {
            let v = parse_json_or_null(text);
            event_of_json(&v)
        },
        None => StreamEvent::Unrecognized,
    }
}

/// A stream event that does not fit the state of the stream.
#[derive(Debug, Clone, Copy, PartialEq, Eq, Structural)]
pub enum StreamDefect {
    /// A tool-use block started while another was still open; the open one was closed first.
    ToolStartWhileOpen,
    /// An input fragment arrived while no tool-use block was open; it was dropped.
    FragmentWithoutTool,
    /// A payload carried no recognised event; it was dropped.
    UnrecognizedEvent,
}

/// A tool-use block whose input is still arriving.
#[derive(Debug, Clone)]
struct OpenTool {
    id: String,
    name: String,
    input: String,
}

/// The mathematical value of an open tool-use block.
pub struct OpenToolView {
    pub id: Seq<char>,
    pub name: Seq<char>,
    pub input: Seq<char>,
}

/// The mathematical value of an assembler.
pub struct AssemblerView {
    pub content: Seq<BlockView>,
    pub chunks: Seq<ChunkView>,
    pub current: Option<OpenToolView>,
    pub stop_reason: Option<Seq<char>>,
}

/// The assembler before any event.
pub open spec fn initial_assembler() -> AssemblerView {
    AssemblerView {
        content: Seq::empty(),
        chunks: Seq::empty(),
        current: None,
        stop_reason: None,
    }
}

/// `content` with `t` appended to its last block if that is text, else with a new text block.
pub open spec fn add_text(content: Seq<BlockView>, t: Seq<char>) -> Seq<BlockView> {
    if content.len() > 0 && content.last() is Text {
        content.drop_last().push(BlockView::Text(content.last()->Text_0 + t))
    } else {
        content.push(BlockView::Text(t))
    }
}

/// The call that an open tool-use block becomes once closed: its input parsed, or `null`.
pub open spec fn finished_call(o: OpenToolView) -> ToolCallView {
    ToolCallView { id: o.id, name: o.name, input: json_or_null(o.input) }
}

/// Closes the open tool-use block, if any, into a content block and a notification.
pub open spec fn close_open(s: AssemblerView) -> AssemblerView {
    match s.current {
        Some(o) => AssemblerView {
            content: s.content.push(BlockView::ToolUse(finished_call(o))),
            chunks: s.chunks.push(ChunkView::ToolUse(finished_call(o))),
            current: None,
            ..s
        },
        None => s,
    }
}

/// The assembler after one event.
pub open spec fn apply_event(s: AssemblerView, e: EventView) -> AssemblerView {
    match e {
        EventView::TextStart => s,
        EventView::ToolStart(id, name) => AssemblerView {
            current: Some(OpenToolView { id, name, input: Seq::empty() }),
            ..close_open(s)
        },
        EventView::TextDelta(t) => AssemblerView {
            content: add_text(s.content, t),
            chunks: s.chunks.push(ChunkView::Text(t)),
            ..s
        },
        EventView::InputFragment(p) => match s.current {
            Some(o) => AssemblerView {
                current: Some(OpenToolView { input: o.input + p, ..o }),
                ..s
            },
            None => s,
        },
        EventView::BlockStop => close_open(s),
        EventView::MessageStop(r) => AssemblerView {
            chunks: s.chunks.push(ChunkView::Done(r)),
            stop_reason: r,
            ..s
        },
        EventView::Unrecognized => s,
    }
}

/// The defect, if any, of applying `e` in state `s`.
pub open spec fn defect_of(s: AssemblerView, e: EventView) -> Option<StreamDefect> {
    match e {
        EventView::ToolStart(_, _) => if s.current is Some {
            Some(StreamDefect::ToolStartWhileOpen)
        } else {
            None
        },
        EventView::InputFragment(_) => if s.current is None {
            Some(StreamDefect::FragmentWithoutTool)
        } else {
            None
        },
        EventView::Unrecognized => Some(StreamDefect::UnrecognizedEvent),
        _ => None,
    }
}

/// The assembler after a sequence of events, in order.
pub open spec fn apply_all(s: AssemblerView, es: Seq<EventView>) -> AssemblerView
    decreases es.len(),
{
    if es.len() == 0 {
        s
    } else {
        apply_all(apply_event(s, es[0]), es.drop_first())
    }
}

/// Turns decoded events into ordered content blocks and a notification sequence.
pub struct ContentAssembler {
    content: Vec<ContentBlock>,
    chunks: Vec<StreamChunk>,
    current: Option<OpenTool>,
    stop_reason: Option<String>,
}

impl View for ContentAssembler {
    type V = AssemblerView;

    closed spec fn view(&self) -> AssemblerView {
        AssemblerView {
            content: blocks_view(self.content@),
            chunks: chunks_view(self.chunks@),
            current: match self.current {
                Some(o) => Some(OpenToolView { id: o.id@, name: o.name@, input: o.input@ }),
                None => None,
            },
            stop_reason: opt_view(self.stop_reason),
        }
    }
}

impl ContentAssembler {
    pub fn new() -> (r: Self)
        ensures
            r@ == initial_assembler(),
    {
        let r = ContentAssembler {
            content: Vec::new(),
            chunks: Vec::new(),
            current: None,
            stop_reason: None,
        };
        assert(r@.content =~= Seq::<BlockView>::empty());
        assert(r@.chunks =~= Seq::<ChunkView>::empty());
        r
    }

    fn close_current(&mut self)
        ensures
            final(self)@ == close_open(old(self)@),
    {
        if self.current.is_some() {
            let o = self.current.take().unwrap();
            let input = parse_json_or_null(o.input.as_str());
            let call = ToolCall { id: o.id, name: o.name, input };
            let copy = call.duplicate();
            self.content.push(ContentBlock::ToolUse(call));
            self.chunks.push(StreamChunk::ToolUse(copy));
            assert(final(self)@.content =~= close_open(old(self)@).content);
            assert(final(self)@.chunks =~= close_open(old(self)@).chunks);
        }
    }

    fn add_text_block(&mut self, t: String)
        ensures
            final(self)@ == (AssemblerView { content: add_text(old(self)@.content, t@), ..old(self)@ }),
    {
        let n = self.content.len();
        if n > 0 && matches!(self.content[n - 1], ContentBlock::Text { .. }) {
            let last = self.content.pop().unwrap();
            match last {
                ContentBlock::Text { text } => {
                    let mut joined = text;
                    joined.append(t.as_str());
                    self.content.push(ContentBlock::Text { text: joined });
                },
                _ => {},
            }
            assert(final(self)@.content =~= add_text(old(self)@.content, t@));
        } else {
            self.content.push(ContentBlock::Text { text: t });
            assert(final(self)@.content =~= add_text(old(self)@.content, t@));
        }
    }

    /// Applies one event; reports it where it does not fit the state of the stream.
    pub fn apply(&mut self, e: StreamEvent) -> (r: Option<StreamDefect>)
        ensures
            final(self)@ == apply_event(old(self)@, e@),
            r == defect_of(old(self)@, e@),
    {
        match e {
            StreamEvent::BlockStart(BlockKind::Text) => None,
            StreamEvent::BlockStart(BlockKind::ToolUse { id, name }) => {
                let defect = if self.current.is_some() {
                    Some(StreamDefect::ToolStartWhileOpen)
                } else {
                    None
                };
                self.close_current();
                self.current = Some(OpenTool { id, name, input: String::new() });
                defect
            },
            StreamEvent::TextDelta(t) => {
                let copy = t.clone();
                self.chunks.push(StreamChunk::Text(copy));
                self.add_text_block(t);
                assert(final(self)@.chunks =~= apply_event(old(self)@, e@).chunks);
                None
            },
            StreamEvent::InputFragment(p) => {
                match self.current.take() {
                    Some(o) => {
                        let mut input = o.input;
                        input.append(p.as_str());
                        self.current = Some(OpenTool { id: o.id, name: o.name, input });
                        None
                    },
                    None => Some(StreamDefect::FragmentWithoutTool),
                }
            },
            StreamEvent::BlockStop => {
                self.close_current();
                None
            },
            StreamEvent::Unrecognized => Some(StreamDefect::UnrecognizedEvent),
            StreamEvent::MessageStop(r) => {
                let copy = copy_opt(&r);
                self.chunks.push(StreamChunk::Done { stop_reason: copy });
                self.stop_reason = r;
                assert(final(self)@.chunks =~= apply_event(old(self)@, e@).chunks);
                None
            },
        }
    }

    /// The content blocks and notifications assembled so far.
    pub fn finish(self) -> (r: StreamedCompletion)
        ensures
            blocks_view(r.content@) == self@.content,
            chunks_view(r.chunks@) == self@.chunks,
    {
        StreamedCompletion { content: self.content, chunks: self.chunks }
    }

    /// The assembled completion: its content blocks and the recorded stop reason.
    pub fn into_completion(self) -> (r: LlmCompletion)
        ensures
            blocks_view(r.content@) == self@.content,
            opt_view(r.stop_reason) == self@.stop_reason,
    {
        LlmCompletion { content: self.content, stop_reason: self.stop_reason }
    }
}

/// Applying two event sequences one after the other is applying their concatenation.
pub proof fn lemma_apply_all_append(s: AssemblerView, a: Seq<EventView>, b: Seq<EventView>)
    ensures
        apply_all(s, a + b) == apply_all(apply_all(s, a), b),
    decreases a.len(),
{
    if a.len() == 0 {
        assert(a + b =~= b);
    } else {
        assert((a + b).drop_first() =~= a.drop_first() + b);
        lemma_apply_all_append(apply_event(s, a[0]), a.drop_first(), b);
    }
}

/// The input-fragment events that deliver `frs` in order.
pub open spec fn fragment_events(frs: Seq<Seq<char>>) -> Seq<EventView> {
    frs.map_values(|f: Seq<char>| EventView::InputFragment(f))
}

/// Fragments delivered to an open tool-use block extend its input by their concatenation.
pub proof fn lemma_fragments_extend_input(s: AssemblerView, frs: Seq<Seq<char>>)
    requires
        s.current is Some,
    ensures
        apply_all(s, fragment_events(frs)) == (AssemblerView {
            current: Some(
                OpenToolView { input: s.current->0.input + frs.flatten(), ..s.current->0 },
            ),
            ..s
        }),
    decreases frs.len(),
{
    let o = s.current->0;
    if frs.len() == 0 {
        assert(o.input + frs.flatten() =~= o.input);
    } else {
        let s1 = apply_event(s, EventView::InputFragment(frs[0]));
        assert(fragment_events(frs).drop_first() =~= fragment_events(frs.drop_first()));
        lemma_fragments_extend_input(s1, frs.drop_first());
        assert(o.input + frs[0] + frs.drop_first().flatten() =~= o.input + frs.flatten());
    }
}

/// Applying a single event.
pub proof fn lemma_apply_one(s: AssemblerView, e: EventView)
    ensures
        apply_all(s, seq![e]) == apply_event(s, e),
{
    assert(seq![e].drop_first() =~= Seq::<EventView>::empty());
    assert(apply_all(apply_event(s, e), Seq::<EventView>::empty()) == apply_event(s, e));
}

/// Input fragments of one tool-use block, delivered in order and then closed, give the
/// same state as the whole input delivered as a single fragment.
pub proof fn lemma_fragment_assembly(
    s: AssemblerView,
    id: Seq<char>,
    name: Seq<char>,
    frs: Seq<Seq<char>>,
)
    ensures
        apply_all(
            s,
            seq![EventView::ToolStart(id, name)] + fragment_events(frs) + seq![
                EventView::BlockStop,
            ],
        ) == apply_all(
            s,
            seq![
                EventView::ToolStart(id, name),
                EventView::InputFragment(frs.flatten()),
                EventView::BlockStop,
            ],
        ),
        apply_all(
            s,
            seq![EventView::ToolStart(id, name)] + fragment_events(frs) + seq![
                EventView::BlockStop,
            ],
        ).content.len() > 0,
        apply_all(
            s,
            seq![EventView::ToolStart(id, name)] + fragment_events(frs) + seq![
                EventView::BlockStop,
            ],
        ).content.last() == BlockView::ToolUse(
            ToolCallView { id, name, input: json_or_null(frs.flatten()) },
        ),
{
    let start = seq![EventView::ToolStart(id, name)];
    let stop = seq![EventView::BlockStop];
    let s1 = apply_event(s, EventView::ToolStart(id, name));
    lemma_apply_all_append(s, start, fragment_events(frs));
    lemma_apply_all_append(s, start + fragment_events(frs), stop);
    lemma_apply_one(s, EventView::ToolStart(id, name));
    lemma_fragments_extend_input(s1, frs);
    let s2 = apply_all(s1, fragment_events(frs));
    lemma_apply_one(s2, EventView::BlockStop);
    assert(Seq::<char>::empty() + frs.flatten() =~= frs.flatten());
    let whole = seq![
        EventView::ToolStart(id, name),
        EventView::InputFragment(frs.flatten()),
        EventView::BlockStop,
    ];
    let s2w = apply_event(s1, EventView::InputFragment(frs.flatten()));
    assert(s2w == s2);
    assert(whole =~= start + seq![EventView::InputFragment(frs.flatten())] + stop);
    lemma_apply_all_append(s, start, seq![EventView::InputFragment(frs.flatten())]);
    lemma_apply_all_append(s, start + seq![EventView::InputFragment(frs.flatten())], stop);
    lemma_apply_one(s1, EventView::InputFragment(frs.flatten()));
}

/// The events that a sequence of payloads carries, in order.
pub open spec fn payload_events(ps: Seq<Seq<u8>>) -> Seq<EventView>
    decreases ps.len(),
{
    if ps.len() == 0 {
        Seq::empty()
    } else {
        payload_events(ps.drop_last()).push(payload_event(ps.last()))
    }
}

/// The events that a sequence of frames carries, in order.
pub open spec fn frame_events(fs: Seq<Seq<u8>>) -> Seq<EventView>
    decreases fs.len(),
{
    if fs.len() == 0 {
        Seq::empty()
    } else {
        frame_events(fs.drop_last()) + payload_events(frame_payloads_spec(fs.last()))
    }
}

/// The assembler state after a byte stream delivered as `chunks` has been decoded.
pub open spec fn decoded_stream(chunks: Seq<Seq<u8>>) -> AssemblerView {
    apply_all(initial_assembler(), frame_events(crate::frame::decode_chunks(chunks)))
}

/// The events of two frame sequences, one after the other.
pub proof fn lemma_frame_events_append(a: Seq<Seq<u8>>, b: Seq<Seq<u8>>)
    ensures
        frame_events(a + b) == frame_events(a) + frame_events(b),
    decreases b.len(),
{
    if b.len() == 0 {
        assert(a + b =~= a);
        assert(frame_events(a) + frame_events(b) =~= frame_events(a));
    } else {
        assert((a + b).drop_last() =~= a + b.drop_last());
        assert((a + b).last() == b.last());
        lemma_frame_events_append(a, b.drop_last());
        assert(frame_events(a + b) =~= frame_events(a) + frame_events(b));
    }
}

/// The state of a stream decoder, as its operations state it: the pending bytes and the
/// assembled content.
pub open spec fn push_all(
    pending: Seq<u8>,
    assembled: AssemblerView,
    chunks: Seq<Seq<u8>>,
) -> (Seq<u8>, AssemblerView)
    decreases chunks.len(),
{
    if chunks.len() == 0 {
        (pending, assembled)
    } else {
        push_all(
            leftover_of(pending + chunks[0]),
            apply_all(assembled, frame_events(frames_of(pending + chunks[0]))),
            chunks.drop_first(),
        )
    }
}

/// Pushing chunks one by one assembles the events of all frames of their concatenation.
pub proof fn lemma_push_all(pending: Seq<u8>, assembled: AssemblerView, chunks: Seq<Seq<u8>>)
    requires
        frames_of(pending).len() == 0,
    ensures
        push_all(pending, assembled, chunks).1 == apply_all(
            assembled,
            frame_events(crate::frame::feed_all(pending, chunks).0),
        ),
    decreases chunks.len(),
{
    if chunks.len() == 0 {
        assert(frame_events(Seq::<Seq<u8>>::empty()) =~= Seq::<EventView>::empty());
    } else {
        let step = crate::frame::split_frames(pending + chunks[0]);
        crate::frame::lemma_leftover_has_no_frames(pending + chunks[0]);
        let content1 = apply_all(assembled, frame_events(step.0));
        lemma_push_all(step.1, content1, chunks.drop_first());
        let rest = crate::frame::feed_all(step.1, chunks.drop_first()).0;
        lemma_frame_events_append(step.0, rest);
        lemma_apply_all_append(assembled, frame_events(step.0), frame_events(rest));
    }
}

/// Decoding a streamed completion does not depend on where the delivery chunks were cut:
/// a fresh decoder fed either chunking assembles the same content, notifications and stop
/// reason.
pub proof fn lemma_stream_chunking_irrelevant(a: Seq<Seq<u8>>, b: Seq<Seq<u8>>)
    requires
        a.flatten() == b.flatten(),
    ensures
        push_all(Seq::empty(), initial_assembler(), a).1 == push_all(
            Seq::empty(),
            initial_assembler(),
            b,
        ).1,
        push_all(Seq::empty(), initial_assembler(), a).1 == decoded_stream(a),
        decoded_stream(a) == apply_all(initial_assembler(), frame_events(frames_of(a.flatten()))),
{
    crate::frame::lemma_chunking_irrelevant(a, b);
    assert(frames_of(Seq::<u8>::empty()) =~= Seq::<Seq<u8>>::empty());
    lemma_push_all(Seq::empty(), initial_assembler(), a);
    lemma_push_all(Seq::empty(), initial_assembler(), b);
}

/// The defects met while applying `es` in order from state `s`.
pub open spec fn defects_all(s: AssemblerView, es: Seq<EventView>) -> Seq<StreamDefect>
    decreases es.len(),
{
    if es.len() == 0 {
        Seq::empty()
    } else {
        (match defect_of(s, es[0]) {
            Some(d) => seq![d],
            None => Seq::empty(),
        }) + defects_all(apply_event(s, es[0]), es.drop_first())
    }
}

/// The defects of two event sequences applied one after the other.
pub proof fn lemma_defects_append(s: AssemblerView, a: Seq<EventView>, b: Seq<EventView>)
    ensures
        defects_all(s, a + b) == defects_all(s, a) + defects_all(apply_all(s, a), b),
    decreases a.len(),
{
    if a.len() == 0 {
        assert(a + b =~= b);
        assert(defects_all(s, a) + defects_all(apply_all(s, a), b) =~= defects_all(s, b));
    } else {
        assert((a + b).drop_first() =~= a.drop_first() + b);
        lemma_defects_append(apply_event(s, a[0]), a.drop_first(), b);
        let d = match defect_of(s, a[0]) {
            Some(d) => seq![d],
            None => Seq::<StreamDefect>::empty(),
        };
        assert(d + (defects_all(apply_event(s, a[0]), a.drop_first()) + defects_all(
            apply_all(apply_event(s, a[0]), a.drop_first()),
            b,
        )) =~= (d + defects_all(apply_event(s, a[0]), a.drop_first())) + defects_all(
            apply_all(s, a),
            b,
        ));
    }
}

/// The defects of a single event.
pub proof fn lemma_defects_one(s: AssemblerView, e: EventView)
    ensures
        defects_all(s, seq![e]) == match defect_of(s, e) {
            Some(d) => seq![d],
            None => Seq::<StreamDefect>::empty(),
        },
{
    assert(seq![e].drop_first() =~= Seq::<EventView>::empty());
    assert(defects_all(apply_event(s, e), Seq::<EventView>::empty()) =~= Seq::<StreamDefect>::empty());
    let d = match defect_of(s, e) {
        Some(d) => seq![d],
        None => Seq::<StreamDefect>::empty(),
    };
    assert(d + Seq::<StreamDefect>::empty() =~= d);
}

/// Applying one more event after a sequence.
pub proof fn lemma_apply_all_push(s: AssemblerView, a: Seq<EventView>, e: EventView)
    ensures
        apply_all(s, a.push(e)) == apply_event(apply_all(s, a), e),
{
    lemma_apply_all_append(s, a, seq![e]);
    assert(a + seq![e] =~= a.push(e));
    lemma_apply_one(apply_all(s, a), e);
}

/// Decodes a streamed completion: frames, their payloads, events, and content blocks.
pub struct StreamDecoder {
    frames: FrameDecoder,
    assembler: ContentAssembler,
    defects: Vec<StreamDefect>,
}

impl StreamDecoder {
    /// The bytes received after the last complete frame.
    pub closed spec fn pending(&self) -> Seq<u8> {
        self.frames.pending()
    }

    /// The content assembled so far.
    pub closed spec fn assembled(&self) -> AssemblerView {
        self.assembler@
    }

    /// The defects met so far, in order.
    pub closed spec fn defects(&self) -> Seq<StreamDefect> {
        self.defects@
    }

    pub closed spec fn wf(&self) -> bool {
        self.frames.wf()
    }

    pub fn new() -> (r: Self)
        ensures
            r.pending() == Seq::<u8>::empty(),
            r.assembled() == initial_assembler(),
            r.defects() == Seq::<StreamDefect>::empty(),
            r.wf(),
    {
        StreamDecoder {
            frames: FrameDecoder::new(),
            assembler: ContentAssembler::new(),
            defects: Vec::new(),
        }
    }

    fn apply_payloads(&mut self, ps: &Vec<Vec<u8>>)
        ensures
            final(self).pending() == old(self).pending(),
            final(self).wf() == old(self).wf(),
            final(self).assembled() == apply_all(
                old(self).assembled(),
                payload_events(ps@.map_values(|p: Vec<u8>| p@)),
            ),
            final(self).defects() == old(self).defects() + defects_all(
                old(self).assembled(),
                payload_events(ps@.map_values(|p: Vec<u8>| p@)),
            ),
    {
        let ghost pv = ps@.map_values(|p: Vec<u8>| p@);
        let mut j: usize = 0;
        assert(self.defects@ =~= old(self).defects@ + defects_all(
            old(self).assembler@,
            payload_events(pv.take(0)),
        ));
        while j < ps.len()
            invariant
                0 <= j <= ps@.len(),
                pv == ps@.map_values(|p: Vec<u8>| p@),
                self.frames == old(self).frames,
                self.assembler@ == apply_all(old(self).assembler@, payload_events(pv.take(j as int))),
                self.defects@ == old(self).defects@ + defects_all(
                    old(self).assembler@,
                    payload_events(pv.take(j as int)),
                ),
            decreases ps@.len() - j,
        {
            assert(pv.take(j + 1).drop_last() =~= pv.take(j as int));
            assert(pv.take(j + 1).last() == ps@[j as int]@);
            let e = event_of_payload(&ps[j]);
            assert(payload_events(pv.take(j + 1)) =~= payload_events(pv.take(j as int)).push(e@));
            proof {
                lemma_apply_all_push(old(self).assembler@, payload_events(pv.take(j as int)), e@);
                lemma_defects_append(
                    old(self).assembler@,
                    payload_events(pv.take(j as int)),
                    seq![e@],
                );
                lemma_defects_one(self.assembler@, e@);
                assert(payload_events(pv.take(j as int)) + seq![e@] =~= payload_events(
                    pv.take(j as int),
                ).push(e@));
            }
            match self.assembler.apply(e) {
                Some(d) => {
                    self.defects.push(d);
                    assert(self.defects@ =~= old(self).defects@ + defects_all(
                        old(self).assembler@,
                        payload_events(pv.take(j + 1)),
                    ));
                },
                None => {
                    assert(self.defects@ =~= old(self).defects@ + defects_all(
                        old(self).assembler@,
                        payload_events(pv.take(j + 1)),
                    ));
                },
            }
            j = j + 1;
        }
        assert(pv.take(j as int) =~= pv);
    }

    /// Takes the next chunk of the response body and decodes the frames that it completes.
    pub fn push_chunk(&mut self, chunk: &[u8])
        ensures
            final(self).pending() == leftover_of(old(self).pending() + chunk@),
            final(self).assembled() == apply_all(
                old(self).assembled(),
                frame_events(frames_of(old(self).pending() + chunk@)),
            ),
            final(self).defects() == old(self).defects() + defects_all(
                old(self).assembled(),
                frame_events(frames_of(old(self).pending() + chunk@)),
            ),
            final(self).wf(),
    {
        let frames = self.frames.push(chunk);
        let ghost fv = frames@.map_values(|f: Vec<u8>| f@);
        let ghost a0 = self.assembler@;
        let mut k: usize = 0;
        assert(self.defects@ =~= old(self).defects@ + defects_all(a0, frame_events(fv.take(0))));
        while k < frames.len()
            invariant
                0 <= k <= frames@.len(),
                fv == frames@.map_values(|f: Vec<u8>| f@),
                fv == frames_of(old(self).pending() + chunk@),
                self.frames.pending() == leftover_of(old(self).pending() + chunk@),
                self.frames.wf(),
                self.assembler@ == apply_all(a0, frame_events(fv.take(k as int))),
                self.defects@ == old(self).defects@ + defects_all(a0, frame_events(fv.take(k as int))),
            decreases frames@.len() - k,
        {
            let ps = frame_payloads(&frames[k]);
            let ghost before = self.assembler@;
            self.apply_payloads(&ps);
            proof {
                assert(fv.take(k + 1).drop_last() =~= fv.take(k as int));
                assert(fv.take(k + 1).last() == frames@[k as int]@);
                lemma_apply_all_append(
                    a0,
                    frame_events(fv.take(k as int)),
                    payload_events(frame_payloads_spec(frames@[k as int]@)),
                );
                lemma_defects_append(
                    a0,
                    frame_events(fv.take(k as int)),
                    payload_events(frame_payloads_spec(frames@[k as int]@)),
                );
                assert(self.defects@ =~= old(self).defects@ + defects_all(
                    a0,
                    frame_events(fv.take(k + 1)),
                ));
            }
            k = k + 1;
        }
        assert(fv.take(k as int) =~= fv);
    }

    /// Ends the stream: a truncated last frame is discarded; returns the completion.
    pub fn finish(self) -> (r: StreamedCompletion)
        ensures
            blocks_view(r.content@) == self.assembled().content,
            chunks_view(r.chunks@) == self.assembled().chunks,
    {
        self.assembler.finish()
    }

    /// Ends the stream and returns the normalised completion.
    pub fn into_completion(self) -> (r: LlmCompletion)
        ensures
            blocks_view(r.content@) == self.assembled().content,
            opt_view(r.stop_reason) == self.assembled().stop_reason,
    {
        self.assembler.into_completion()
    }

    /// The defects met so far, in order.
    pub fn defect_list(&self) -> (r: &Vec<StreamDefect>)
        ensures
            r@ == self.defects(),
    {
        &self.defects
    }
}

} // verus!
