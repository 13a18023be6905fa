//! The state machine that turns the bytes of a binary FBX stream into events.
//!
//! The parser does not read by itself: it says how many bytes it needs next
//! (`wanted`), and is handed them (`feed`), or the failure of the read (`fail`).
//! Where it needs no bytes, `resume` goes on. `next` runs these steps over a
//! stream held in memory.
use vstd::prelude::*;
use vstd::utf8::{decode_utf8, valid_utf8};
use crate::error::{Error, ErrorView, Result};
use crate::event::{EventView, FbxEvent, FbxHeaderInfo};
use crate::le::{le_i32, le_u32, le_u64, read_i32, read_u32, read_u64};
use crate::property::{decode_text, valid_up_to, DelayedProperties};
use crate::reader::ParserConfig;
use crate::text::{decimal, push_decimal};
use vstd::string::StringExecFns;

verus! {

/// The byte length of the magic at the start of the data.
pub const MAGIC_LEN: u64 = 21;

/// The magic: `Kaydara FBX Binary`, two spaces and a NUL.
pub open spec fn magic() -> Seq<u8> {
    seq![
        0x4bu8, 0x61, 0x79, 0x64, 0x61, 0x72, 0x61, 0x20, 0x46, 0x42, 0x58, 0x20, 0x42, 0x69,
        0x6e, 0x61, 0x72, 0x79, 0x20, 0x20, 0x00,
    ]
}

/// From this version on, the length fields of a record header take eight bytes, not four.
pub const WIDE_HEADER_VERSION: i32 = 7500;

/// The byte length of each of the three length fields of a record header.
pub open spec fn field_len(version: i32) -> nat {
    if version < WIDE_HEADER_VERSION {
        4
    } else {
        8
    }
}

/// The byte length of a record header in data of the given version.
pub open spec fn header_len(version: i32) -> nat {
    if version < WIDE_HEADER_VERSION {
        13
    } else {
        25
    }
}

/// A header of a node record.
#[derive(Debug, Clone, Copy, PartialEq, Eq, Structural)]
pub struct NodeRecordHeader {
    /// Position of the end of the node.
    pub end_offset: u64,
    /// Number of the properties of the node.
    pub num_properties: u64,
    /// Byte size of the properties of the node.
    pub property_byte_len: u64,
    /// Byte size of the node name.
    pub name_len: u8,
}

/// The record header at the start of `b`, in data of the given version.
pub open spec fn header_of(b: Seq<u8>, version: i32) -> NodeRecordHeader {
    if version < WIDE_HEADER_VERSION {
        NodeRecordHeader {
            end_offset: le_u32(b) as u64,
            num_properties: le_u32(b.skip(4)) as u64,
            property_byte_len: le_u32(b.skip(8)) as u64,
            name_len: b[12],
        }
    } else {
        NodeRecordHeader {
            end_offset: le_u64(b),
            num_properties: le_u64(b.skip(8)),
            property_byte_len: le_u64(b.skip(16)),
            name_len: b[24],
        }
    }
}

impl NodeRecordHeader {
    /// Whether all four fields are zero: the marker of the end of a list of children.
    pub open spec fn is_null(self) -> bool {
        self.end_offset == 0 && self.num_properties == 0 && self.property_byte_len == 0
            && self.name_len == 0
    }

    /// Reads a record header from the start of `bytes`, in the layout of the given version.
    pub fn read_from(bytes: &[u8], fbx_version: i32) -> (r: Self)
        requires
            bytes@.len() >= header_len(fbx_version),
        ensures
            r == header_of(bytes@, fbx_version),
    {
        if fbx_version < WIDE_HEADER_VERSION {
            let end_offset = read_u32(bytes, 0);
            let num_properties = read_u32(bytes, 4);
            let property_byte_len = read_u32(bytes, 8);
            proof {
                assert(bytes@.subrange(4, 8) =~= bytes@.skip(4).subrange(0, 4));
                assert(bytes@.subrange(8, 12) =~= bytes@.skip(8).subrange(0, 4));
            }
            NodeRecordHeader {
                end_offset: end_offset as u64,
                num_properties: num_properties as u64,
                property_byte_len: property_byte_len as u64,
                name_len: bytes[12],
            }
        } else {
            let end_offset = read_u64(bytes, 0);
            let num_properties = read_u64(bytes, 8);
            let property_byte_len = read_u64(bytes, 16);
            proof {
                assert(bytes@.subrange(8, 16) =~= bytes@.skip(8).subrange(0, 8));
                assert(bytes@.subrange(16, 24) =~= bytes@.skip(16).subrange(0, 8));
                assert(bytes@.subrange(0, 8).subrange(4, 8) =~= bytes@.subrange(4, 8));
                assert(bytes@.skip(8).subrange(0, 8).subrange(4, 8) =~= bytes@.skip(8).subrange(4, 8));
                assert(bytes@.skip(16).subrange(0, 8).subrange(4, 8) =~= bytes@.skip(16).subrange(4, 8));
            }
            NodeRecordHeader { end_offset, num_properties, property_byte_len, name_len: bytes[24] }
        }
    }

    /// Whether the header marks the end of a list of children.
    pub fn is_null_record(&self) -> (r: bool)
        ensures
            r == self.is_null(),
    {
        self.end_offset == 0 && self.num_properties == 0 && self.property_byte_len == 0
            && self.name_len == 0
    }
}

/// The text of the error for a node that does not end where its header said: it names
/// both positions in decimal.
pub open spec fn mismatch_text(expected: nat, actual: nat) -> Seq<char> {
    "Node does not end at expected position (expected "@ + decimal(expected) + ", now at "@
        + decimal(actual) + ")"@
}

/// The message of the error for a node that does not end where its header said.
fn mismatch_message(expected: u64, actual: usize) -> (r: String)
    ensures
        r@ == mismatch_text(expected as nat, actual as nat),
{
    let mut s = String::from_str("Node does not end at expected position (expected ");
    push_decimal(&mut s, expected);
    s.append(", now at ");
    push_decimal(&mut s, actual as u64);
    s.append(")");
    s
}

/// The kind of an event, as the parser records the events that it has produced.
pub enum EventKind {
    StartFbx,
    EndFbx,
    StartNode,
    EndNode,
}

/// The kind of an event.
pub open spec fn kind_of(e: EventView) -> EventKind {
    match e {
        EventView::StartFbx(_) => EventKind::StartFbx,
        EventView::EndFbx => EventKind::EndFbx,
        EventView::StartNode(_, _, _) => EventKind::StartNode,
        EventView::EndNode => EventKind::EndNode,
    }
}

/// Where the parser stands.
#[derive(Debug)]
enum State {
    /// Before the magic.
    ReadingMagic,
    /// Before the two bytes after the magic.
    ReadingMarker,
    /// Before the version.
    ReadingVersion,
    /// At the start of a node record, or at the end of a node.
    ReadingNodes,
    /// Within a record header: the bytes of the fields read so far.
    ReadingHeader(Vec<u8>),
    /// Before the name of the node whose header was read.
    ReadingName(NodeRecordHeader),
    /// Before the properties of the node whose header and name were read.
    ReadingProperties(NodeRecordHeader, String),
    /// After the end of the data.
    SuccessfullyFinished,
    /// After an error.
    Failed(Error),
}

/// Where the parser stands, as plain data.
pub enum Phase {
    Magic,
    Marker,
    Version,
    Record,
    Header(Seq<u8>),
    Name(NodeRecordHeader),
    Properties(NodeRecordHeader, Seq<char>),
    Finished,
    Failed(ErrorView),
}

/// The parser as plain data: where it stands, the version read, the number of bytes
/// consumed, the end offsets of the open nodes, and the events produced so far.
pub struct ParserView {
    pub phase: Phase,
    pub version: i32,
    pub pos: nat,
    pub stack: Seq<u64>,
    pub emitted: Seq<EventKind>,
}

/// The pull parser of binary FBX data.
pub struct Parser {
    config: ParserConfig,
    state: State,
    version: i32,
    pos: usize,
    end_offset_stack: Vec<u64>,
    emitted: Ghost<Seq<EventKind>>,
}

impl View for Parser {
    type V = ParserView;

    closed spec fn view(&self) -> ParserView {
        ParserView {
            phase: match self.state {
                State::ReadingMagic => Phase::Magic,
                State::ReadingMarker => Phase::Marker,
                State::ReadingVersion => Phase::Version,
                State::ReadingNodes => Phase::Record,
                State::ReadingHeader(got) => Phase::Header(got@),
                State::ReadingName(h) => Phase::Name(h),
                State::ReadingProperties(h, name) => Phase::Properties(h, name@),
                State::SuccessfullyFinished => Phase::Finished,
                State::Failed(e) => Phase::Failed(e@),
            },
            version: self.version,
            pos: self.pos as nat,
            stack: self.end_offset_stack@,
            emitted: self.emitted@,
        }
    }
}

/// How many bytes the parser reads next; `None` where it goes on without reading.
pub open spec fn wanted_of(p: ParserView) -> Option<nat> {
    match p.phase {
        Phase::Magic => Some(MAGIC_LEN as nat),
        Phase::Marker => Some(2),
        Phase::Version => Some(4),
        Phase::Record => if p.stack.len() > 0 && p.stack.last() == p.pos {
            None
        } else {
            Some(field_len(p.version))
        },
        Phase::Header(got) => if got.len() < 3 * field_len(p.version) {
            Some(field_len(p.version))
        } else {
            Some(1)
        },
        Phase::Name(h) => Some(h.name_len as nat),
        Phase::Properties(h, _) => Some(h.property_byte_len as nat),
        Phase::Finished => None,
        Phase::Failed(_) => None,
    }
}

/// The declared number of properties as the property buffer holds it: capped at the
/// largest `usize`, which no buffer can exceed anyway.
pub open spec fn count_of(n: u64) -> nat {
    if n <= usize::MAX {
        n as nat
    } else {
        usize::MAX as nat
    }
}

/// `p` after it produced the event `e`.
pub open spec fn emit(p: ParserView, e: EventView) -> ParserView {
    ParserView { emitted: p.emitted.push(kind_of(e)), ..p }
}

/// `p` after it failed with `e`.
pub open spec fn fail_with(p: ParserView, e: ErrorView) -> ParserView {
    ParserView { phase: Phase::Failed(e), ..p }
}

/// What the parser does once it holds the bytes `got` of a record header, or of its
/// first fields; `q` is the parser at a record, with these bytes consumed.
pub open spec fn header_step(q: ParserView, got: Seq<u8>) -> (ParserView, Option<
    core::result::Result<EventView, ErrorView>,
>) {
    if got.len() < header_len(q.version) {
        (ParserView { phase: Phase::Header(got), ..q }, None)
    } else {
        let h = header_of(got, q.version);
        if !h.is_null() {
            (ParserView { phase: Phase::Name(h), stack: q.stack.push(h.end_offset), ..q }, None)
        } else if q.stack.len() == 0 {
            (
                emit(ParserView { phase: Phase::Finished, ..q }, EventView::EndFbx),
                Some(Ok(EventView::EndFbx)),
            )
        } else if q.stack.last() == q.pos {
            (
                emit(
                    ParserView { phase: Phase::Record, stack: q.stack.drop_last(), ..q },
                    EventView::EndNode,
                ),
                Some(Ok(EventView::EndNode)),
            )
        } else {
            let e = ErrorView::DataError(mismatch_text(q.stack.last() as nat, q.pos));
            (fail_with(ParserView { stack: q.stack.drop_last(), ..q }, e), Some(Err(e)))
        }
    }
}

/// What the parser does with the bytes `b` that it asked for: its next state, and the
/// event or error that it produces, if any.
pub open spec fn feed_spec(p: ParserView, b: Seq<u8>) -> (ParserView, Option<
    core::result::Result<EventView, ErrorView>,
>) {
    let q = ParserView { pos: p.pos + b.len(), ..p };
    match p.phase {
        Phase::Magic => if b == magic() {
            (ParserView { phase: Phase::Marker, ..q }, None)
        } else {
            (fail_with(q, ErrorView::InvalidMagic), Some(Err(ErrorView::InvalidMagic)))
        },
        Phase::Marker => (ParserView { phase: Phase::Version, ..q }, None),
        Phase::Version => {
            let v = le_i32(b);
            (
                emit(ParserView { phase: Phase::Record, version: v, ..q }, EventView::StartFbx(v)),
                Some(Ok(EventView::StartFbx(v))),
            )
        },
        Phase::Record => header_step(q, b),
        Phase::Header(got) => header_step(ParserView { phase: Phase::Record, ..q }, got + b),
        Phase::Name(h) => if valid_utf8(b) {
            (ParserView { phase: Phase::Properties(h, decode_utf8(b)), ..q }, None)
        } else {
            (
                fail_with(q, ErrorView::Utf8Error(valid_up_to(b))),
                Some(Err(ErrorView::Utf8Error(valid_up_to(b)))),
            )
        },
        Phase::Properties(h, name) => {
            let e = EventView::StartNode(name, b, count_of(h.num_properties));
            (emit(ParserView { phase: Phase::Record, ..q }, e), Some(Ok(e)))
        },
        _ => (p, None),
    }
}

/// What the parser does where it needs no bytes.
pub open spec fn resume_spec(p: ParserView) -> (ParserView, core::result::Result<
    EventView,
    ErrorView,
>) {
    match p.phase {
        Phase::Finished => (p, Ok(EventView::EndFbx)),
        Phase::Failed(e) => (p, Err(e)),
        _ => (
            emit(ParserView { stack: p.stack.drop_last(), ..p }, EventView::EndNode),
            Ok(EventView::EndNode),
        ),
    }
}

/// How many reads are left before the parser produces an event.
pub open spec fn reads_left(phase: Phase) -> nat {
    match phase {
        Phase::Magic => 3,
        Phase::Marker => 2,
        Phase::Version => 1,
        Phase::Record => 30,
        Phase::Header(got) => if got.len() < 26 {
            (29 - got.len()) as nat
        } else {
            3
        },
        Phase::Name(_) => 2,
        Phase::Properties(_, _) => 1,
        _ => 0,
    }
}

/// The next event that the parser produces from the stream `source`, whose first
/// `p.pos` bytes it has consumed; a stream that ends early gives `UnexpectedEof`.
pub open spec fn next_spec(p: ParserView, source: Seq<u8>) -> (ParserView, core::result::Result<
    EventView,
    ErrorView,
>)
    decreases reads_left(p.phase),
{
    match wanted_of(p) {
        None => resume_spec(p),
        Some(n) => if p.pos + n > source.len() {
            (fail_with(p, ErrorView::UnexpectedEof), Err(ErrorView::UnexpectedEof))
        } else {
            let (q, r) = feed_spec(p, source.subrange(p.pos as int, (p.pos + n) as int));
            match r {
                Some(x) => (q, x),
                None => if reads_left(q.phase) < reads_left(p.phase) {
                    next_spec(q, source)
                } else {
                    (fail_with(q, ErrorView::UnexpectedEof), Err(ErrorView::UnexpectedEof))
                },
            }
        },
    }
}

/// How an event changes the number of open nodes.
pub open spec fn depth_step(k: EventKind) -> int {
    match k {
        EventKind::StartNode => 1,
        EventKind::EndNode => -1,
        _ => 0,
    }
}

/// The number of nodes that the events `s` leave open.
pub open spec fn depth(s: Seq<EventKind>) -> int
    decreases s.len(),
{
    if s.len() == 0 {
        0
    } else {
        depth(s.drop_last()) + depth_step(s.last())
    }
}

/// Whether the event starts or ends a node.
pub open spec fn is_node_event(k: EventKind) -> bool {
    k is StartNode || k is EndNode
}

/// Node events only, and none of them ends a node that is not open.
pub open spec fn well_nested(s: Seq<EventKind>) -> bool {
    &&& forall|i: int| 0 <= i < s.len() ==> is_node_event(#[trigger] s[i])
    &&& forall|k: int| 0 <= k <= s.len() ==> depth(#[trigger] s.take(k)) >= 0
}

/// The events of a document that has started and not ended, with `d` nodes open.
pub open spec fn open_document(s: Seq<EventKind>, d: nat) -> bool {
    &&& s.len() >= 1
    &&& s[0] is StartFbx
    &&& well_nested(s.skip(1))
    &&& depth(s.skip(1)) == d
}

/// The events of a whole document: one start, node events in which every node that
/// starts also ends, and one end.
pub open spec fn balanced_document(s: Seq<EventKind>) -> bool {
    &&& s.len() >= 2
    &&& s.last() is EndFbx
    &&& open_document(s.drop_last(), 0)
}

/// What the events produced so far are, in each state of the parser.
pub open spec fn history_ok(p: ParserView) -> bool {
    match p.phase {
        Phase::Magic | Phase::Marker | Phase::Version => p.emitted.len() == 0 && p.stack.len()
            == 0,
        Phase::Record => open_document(p.emitted, p.stack.len()),
        Phase::Header(got) => {
            &&& open_document(p.emitted, p.stack.len())
            &&& (got.len() == field_len(p.version) || got.len() == 2 * field_len(p.version)
                || got.len() == 3 * field_len(p.version))
        },
        Phase::Name(_) | Phase::Properties(_, _) => p.stack.len() >= 1 && open_document(
            p.emitted,
            (p.stack.len() - 1) as nat,
        ),
        Phase::Finished => balanced_document(p.emitted),
        Phase::Failed(_) => p.emitted.len() == 0 || (p.emitted[0] is StartFbx && well_nested(
            p.emitted.skip(1),
        )),
    }
}

proof fn lemma_push_node(s: Seq<EventKind>, k: EventKind)
    requires
        well_nested(s),
        is_node_event(k),
        depth(s) + depth_step(k) >= 0,
    ensures
        well_nested(s.push(k)),
        depth(s.push(k)) == depth(s) + depth_step(k),
{
    let t = s.push(k);
    assert(t.drop_last() =~= s);
    assert forall|j: int| 0 <= j <= t.len() implies depth(#[trigger] t.take(j)) >= 0 by {
        if j <= s.len() {
            assert(t.take(j) =~= s.take(j));
        } else {
            assert(t.take(j) =~= t);
        }
    }
    assert forall|i: int| 0 <= i < t.len() implies is_node_event(#[trigger] t[i]) by {
        if i < s.len() {
            assert(t[i] == s[i]);
        }
    }
}

proof fn lemma_open_push(s: Seq<EventKind>, d: nat, k: EventKind)
    requires
        open_document(s, d),
        is_node_event(k),
        d + depth_step(k) >= 0,
    ensures
        open_document(s.push(k), (d + depth_step(k)) as nat),
{
    assert(s.push(k).skip(1) =~= s.skip(1).push(k));
    lemma_push_node(s.skip(1), k);
}

proof fn lemma_start_document()
    ensures
        open_document(seq![EventKind::StartFbx], 0),
{
    let s = seq![EventKind::StartFbx];
    assert(s.skip(1) =~= Seq::<EventKind>::empty());
    assert forall|k: int| 0 <= k <= s.skip(1).len() implies depth(
        #[trigger] s.skip(1).take(k),
    ) >= 0 by {
        assert(s.skip(1).take(k) =~= Seq::<EventKind>::empty());
    }
}

proof fn lemma_end_document(s: Seq<EventKind>)
    requires
        open_document(s, 0),
    ensures
        balanced_document(s.push(EventKind::EndFbx)),
{
    assert(s.push(EventKind::EndFbx).drop_last() =~= s);
}

proof fn lemma_header_step_history(q: ParserView, got: Seq<u8>)
    requires
        open_document(q.emitted, q.stack.len()),
        got.len() == field_len(q.version) || got.len() == 2 * field_len(q.version) || got.len()
            == 3 * field_len(q.version) || got.len() == header_len(q.version),
    ensures
        history_ok(header_step(q, got).0),
        header_step(q, got).0.emitted == match header_step(q, got).1 {
            Some(Ok(e)) => q.emitted.push(kind_of(e)),
            _ => q.emitted,
        },
{
    if got.len() >= header_len(q.version) {
        let h = header_of(got, q.version);
        if !h.is_null() {
        } else if q.stack.len() == 0 {
            lemma_end_document(q.emitted);
        } else if q.stack.last() == q.pos {
            lemma_open_push(q.emitted, q.stack.len(), EventKind::EndNode);
        }
    }
}

/// Whatever bytes the parser is fed, the events that it has produced stay a start of a
/// document in which no node ends that is not open, with as many open nodes as end
/// offsets on its stack; and once it has finished, they form one whole balanced document.
pub proof fn lemma_feed_keeps_history(p: ParserView, b: Seq<u8>)
    requires
        history_ok(p),
        wanted_of(p) == Some(b.len()),
    ensures
        history_ok(feed_spec(p, b).0),
        feed_spec(p, b).0.emitted == match feed_spec(p, b).1 {
            Some(Ok(e)) => p.emitted.push(kind_of(e)),
            _ => p.emitted,
        },
        feed_spec(p, b).0.phase is Finished ==> balanced_document(feed_spec(p, b).0.emitted),
{
    match p.phase {
        Phase::Version => {
            assert(p.emitted.push(EventKind::StartFbx) =~= seq![EventKind::StartFbx]);
            lemma_start_document();
        },
        Phase::Record => {
            lemma_header_step_history(ParserView { pos: p.pos + b.len(), ..p }, b);
        },
        Phase::Header(got) => {
            lemma_header_step_history(
                ParserView { phase: Phase::Record, pos: p.pos + b.len(), ..p },
                got + b,
            );
        },
        Phase::Properties(h, name) => {
            lemma_open_push(p.emitted, (p.stack.len() - 1) as nat, EventKind::StartNode);
        },
        _ => {},
    }
}

/// Where the parser goes on without reading, the events stay as the lemma on feeding says.
pub proof fn lemma_resume_keeps_history(p: ParserView)
    requires
        history_ok(p),
        wanted_of(p) is None,
    ensures
        history_ok(resume_spec(p).0),
        resume_spec(p).0.emitted == match resume_spec(p).1 {
            Ok(e) => if p.phase is Finished {
                p.emitted
            } else {
                p.emitted.push(kind_of(e))
            },
            Err(_) => p.emitted,
        },
{
    if p.phase is Record {
        lemma_open_push(p.emitted, p.stack.len(), EventKind::EndNode);
    }
}

/// A failed read leaves the events as they were.
pub proof fn lemma_fail_keeps_history(p: ParserView, e: ErrorView)
    requires
        history_ok(p),
        wanted_of(p) is Some,
    ensures
        history_ok(fail_with(p, e)),
{
}

/// Once the parser has finished, the events that it produced form one whole balanced
/// document.
pub proof fn lemma_finished_is_balanced(p: ParserView)
    requires
        history_ok(p),
        p.phase is Finished,
    ensures
        balanced_document(p.emitted),
{
}

/// The outcome of feeding, as plain data.
pub open spec fn view_step(r: Option<Result<FbxEvent>>) -> Option<
    core::result::Result<EventView, ErrorView>,
> {
    match r {
        Some(Ok(e)) => Some(Ok(e@)),
        Some(Err(e)) => Some(Err(e@)),
        None => None,
    }
}

/// The outcome of a pull, as plain data.
pub open spec fn view_result(r: Result<FbxEvent>) -> core::result::Result<EventView, ErrorView> {
    match r {
        Ok(e) => Ok(e@),
        Err(e) => Err(e@),
    }
}

/// Whether `b` is the magic.
fn is_magic(b: &[u8]) -> (r: bool)
    ensures
        r == (b@ == magic()),
{
    let expected: [u8; 21] = [
        0x4b, 0x61, 0x79, 0x64, 0x61, 0x72, 0x61, 0x20, 0x46, 0x42, 0x58, 0x20, 0x42, 0x69, 0x6e,
        0x61, 0x72, 0x79, 0x20, 0x20, 0x00,
    ];
    assert(expected@ =~= magic());
    if b.len() != 21 {
        return false;
    }
    let mut i: usize = 0;
    while i < 21
        invariant
            i <= 21,
            b@.len() == 21,
            expected@ == magic(),
            forall|j: int| 0 <= j < i ==> b@[j] == magic()[j],
        decreases 21 - i,
    {
        if b[i] != expected[i] {
            return false;
        }
        i += 1;
    }
    assert(b@ =~= magic());
    true
}

impl Parser {
    /// The invariant of the parser: its record of events fits its state.
    pub open spec fn wf(&self) -> bool {
        history_ok(self@)
    }

    /// A parser before the start of the data.
    pub fn new(config: ParserConfig) -> (r: Self)
        ensures
            r.wf(),
            r@.phase == Phase::Magic,
            r@.pos == 0,
            r@.stack.len() == 0,
            r@.emitted.len() == 0,
    {
        Parser {
            config,
            state: State::ReadingMagic,
            version: i32::MIN,
            pos: 0,
            end_offset_stack: Vec::new(),
            emitted: Ghost(Seq::empty()),
        }
    }

    /// The number of bytes consumed.
    pub fn pos(&self) -> (r: usize)
        ensures
            r == self@.pos,
    {
        self.pos
    }

    /// How many bytes the parser reads next; `None` where it goes on without reading.
    pub fn wanted(&self) -> (r: Option<u64>)
        ensures
            match r {
                Some(n) => wanted_of(self@) == Some(n as nat),
                None => wanted_of(self@) is None,
            },
    {
        match &self.state {
            State::ReadingMagic => Some(MAGIC_LEN),
            State::ReadingMarker => Some(2),
            State::ReadingVersion => Some(4),
            State::ReadingNodes => {
                let n = self.end_offset_stack.len();
                if n > 0 && self.end_offset_stack[n - 1] == self.pos as u64 {
                    None
                } else {
                    Some(self.field_len())
                }
            },
            State::ReadingHeader(got) => {
                if (got.len() as u64) < 3 * self.field_len() {
                    Some(self.field_len())
                } else {
                    Some(1)
                }
            },
            State::ReadingName(h) => Some(h.name_len as u64),
            State::ReadingProperties(h, _) => Some(h.property_byte_len),
            State::SuccessfullyFinished => None,
            State::Failed(_) => None,
        }
    }

    /// The byte length of each length field of a record header.
    fn field_len(&self) -> (r: u64)
        ensures
            r == field_len(self.version),
    {
        if self.version < WIDE_HEADER_VERSION {
            4
        } else {
            8
        }
    }

    /// Goes on with the bytes `got` of a record header or of its first fields, at a record.
    fn take_header(&mut self, got: Vec<u8>) -> (r: Option<Result<FbxEvent>>)
        requires
            old(self)@.phase == Phase::Record,
            got@.len() <= header_len(old(self)@.version),
        ensures
            (final(self)@, view_step(r)) == header_step(old(self)@, got@),
    {
        if got.len() < 13 || (self.version >= WIDE_HEADER_VERSION && got.len() < 25) {
            self.state = State::ReadingHeader(got);
            return None;
        }
        let h = NodeRecordHeader::read_from(got.as_slice(), self.version);
        if !h.is_null_record() {
            self.end_offset_stack.push(h.end_offset);
            self.state = State::ReadingName(h);
            None
        } else if self.end_offset_stack.len() == 0 {
            self.state = State::SuccessfullyFinished;
            self.emitted = Ghost(self.emitted@.push(EventKind::EndFbx));
            Some(Ok(FbxEvent::EndFbx))
        } else {
            let expected = self.end_offset_stack.pop().unwrap();
            if self.pos as u64 == expected {
                self.state = State::ReadingNodes;
                self.emitted = Ghost(self.emitted@.push(EventKind::EndNode));
                Some(Ok(FbxEvent::EndNode))
            } else {
                let message = mismatch_message(expected, self.pos);
                let e = Error::DataError(message);
                self.state = State::Failed(e.clone());
                Some(Err(e))
            }
        }
    }

    /// Hands the parser the bytes that `wanted` asked for. The position moves on by their
    /// number. The result is the event or error that they complete, or `None` where the
    /// parser wants to read more first.
    pub fn feed(&mut self, bytes: &[u8]) -> (r: Option<Result<FbxEvent>>)
        requires
            old(self).wf(),
            wanted_of(old(self)@) == Some(bytes@.len()),
            old(self)@.pos + bytes@.len() <= usize::MAX,
        ensures
            final(self).wf(),
            final(self)@.pos == old(self)@.pos + bytes@.len(),
            (final(self)@, view_step(r)) == feed_spec(old(self)@, bytes@),
    {
        proof {
            lemma_feed_keeps_history(self@, bytes@);
        }
        self.pos = self.pos + bytes.len();
        let mut state = State::ReadingNodes;
        std::mem::swap(&mut self.state, &mut state);
        match state {
            State::ReadingMagic => {
                if is_magic(bytes) {
                    self.state = State::ReadingMarker;
                    None
                } else {
                    self.state = State::Failed(Error::InvalidMagic);
                    Some(Err(Error::InvalidMagic))
                }
            },
            State::ReadingMarker => {
                self.state = State::ReadingVersion;
                None
            },
            State::ReadingVersion => {
                let version = read_i32(bytes, 0);
                self.version = version;
                self.state = State::ReadingNodes;
                self.emitted = Ghost(self.emitted@.push(EventKind::StartFbx));
                Some(Ok(FbxEvent::StartFbx(FbxHeaderInfo { version })))
            },
            State::ReadingNodes => self.take_header(vstd::slice::slice_to_vec(bytes)),
            State::ReadingHeader(mut got) => {
                let mut more = vstd::slice::slice_to_vec(bytes);
                got.append(&mut more);
                self.take_header(got)
            },
            State::ReadingName(h) => {
                match decode_text(bytes) {
                    Ok(name) => {
                        self.state = State::ReadingProperties(h, name.to_owned());
                        None
                    },
                    Err(valid_up_to) => {
                        self.state = State::Failed(Error::Utf8Error(valid_up_to));
                        Some(Err(Error::Utf8Error(valid_up_to)))
                    },
                }
            },
            State::ReadingProperties(h, name) => {
                let count = if h.num_properties > usize::MAX as u64 {
                    usize::MAX
                } else {
                    h.num_properties as usize
                };
                let properties = DelayedProperties::from_vec_u8(
                    vstd::slice::slice_to_vec(bytes),
                    self.version,
                    count,
                );
                self.state = State::ReadingNodes;
                self.emitted = Ghost(self.emitted@.push(EventKind::StartNode));
                Some(Ok(FbxEvent::StartNode { name, properties }))
            },
            other => {
                self.state = other;
                None
            },
        }
    }

    /// Goes on where `wanted` asks for nothing: ends the node that ends here, or, once the
    /// parser has stopped, gives again `EndFbx` or the error that it stopped with.
    pub fn resume(&mut self) -> (r: Result<FbxEvent>)
        requires
            old(self).wf(),
            wanted_of(old(self)@) is None,
        ensures
            final(self).wf(),
            final(self)@.pos == old(self)@.pos,
            (final(self)@, view_result(r)) == resume_spec(old(self)@),
    {
        proof {
            lemma_resume_keeps_history(self@);
        }
        match &self.state {
            State::SuccessfullyFinished => Ok(FbxEvent::EndFbx),
            State::Failed(e) => Err(e.clone()),
            _ => {
                self.end_offset_stack.pop();
                self.emitted = Ghost(self.emitted@.push(EventKind::EndNode));
                Ok(FbxEvent::EndNode)
            },
        }
    }

    /// The read that `wanted` asked for failed with `err`: the parser stops with it.
    pub fn fail(&mut self, err: Error) -> (r: Result<FbxEvent>)
        requires
            old(self).wf(),
            wanted_of(old(self)@) is Some,
        ensures
            final(self).wf(),
            final(self)@ == fail_with(old(self)@, err@),
            r == Err::<FbxEvent, Error>(err),
    {
        proof {
            lemma_fail_keeps_history(self@, err@);
        }
        self.state = State::Failed(err.clone());
        Err(err)
    }

    /// The next event of the stream held in `source`, of which the parser has consumed
    /// the first `pos` bytes. A stream that ends early gives `UnexpectedEof`.
    pub fn next(&mut self, source: &[u8]) -> (r: Result<FbxEvent>)
        requires
            old(self).wf(),
        ensures
            final(self).wf(),
            (final(self)@, view_result(r)) == next_spec(old(self)@, source@),
    {
        let ghost goal = next_spec(self@, source@);
        loop
            invariant
                self.wf(),
                goal == next_spec(old(self)@, source@),
                next_spec(self@, source@) == goal,
            decreases reads_left(self@.phase),
        {
            match self.wanted() {
                None => {
                    return self.resume();
                },
                Some(n) => {
                    if self.pos > source.len() || n > (source.len() - self.pos) as u64 {
                        return self.fail(Error::UnexpectedEof);
                    }
                    let end = self.pos + n as usize;
                    let chunk = vstd::slice::slice_subrange(source, self.pos, end);
                    match self.feed(chunk) {
                        Some(r) => {
                            return r;
                        },
                        None => {},
                    }
                },
            }
        }
    }
}

/// Where a pull fails, the parser is left failed with that very error.
proof fn lemma_error_is_kept(p: ParserView, source: Seq<u8>)
    ensures
        next_spec(p, source).1 matches Err(e) ==> next_spec(p, source).0.phase == Phase::Failed(e),
    decreases reads_left(p.phase),
{
    if let Some(n) = wanted_of(p) {
        if p.pos + n <= source.len() {
            let (q, r) = feed_spec(p, source.subrange(p.pos as int, (p.pos + n) as int));
            if r is None && reads_left(q.phase) < reads_left(p.phase) {
                lemma_error_is_kept(q, source);
            }
        }
    }
}

/// After a pull has returned an error, every later pull, whatever the stream, returns
/// an equal error and leaves the parser as it is.
pub proof fn lemma_error_latches(p: ParserView, source: Seq<u8>, later: Seq<u8>)
    requires
        next_spec(p, source).1 is Err,
    ensures
        next_spec(next_spec(p, source).0, later) == next_spec(p, source),
{
    lemma_error_is_kept(p, source);
}

/// A pull moves the position on by the bytes that it took from the stream, and takes no
/// byte beyond its end.
pub proof fn lemma_pos_counts_consumed(p: ParserView, source: Seq<u8>)
    ensures
        p.pos <= next_spec(p, source).0.pos,
        next_spec(p, source).0.pos == p.pos || next_spec(p, source).0.pos <= source.len(),
    decreases reads_left(p.phase),
{
    if let Some(n) = wanted_of(p) {
        if p.pos + n <= source.len() {
            let (q, r) = feed_spec(p, source.subrange(p.pos as int, (p.pos + n) as int));
            if r is None && reads_left(q.phase) < reads_left(p.phase) {
                lemma_pos_counts_consumed(q, source);
            }
        }
    }
}

/// A stream shorter than the magic gives `UnexpectedEof` on the first pull.
pub proof fn lemma_short_input(p: ParserView, source: Seq<u8>)
    requires
        p.phase == Phase::Magic,
        p.pos == 0,
        source.len() < MAGIC_LEN,
    ensures
        next_spec(p, source).1 == Err::<EventView, ErrorView>(ErrorView::UnexpectedEof),
{
}

/// A stream that does not start with the magic gives `InvalidMagic` on the first pull.
pub proof fn lemma_bad_magic(p: ParserView, source: Seq<u8>)
    requires
        p.phase == Phase::Magic,
        p.pos == 0,
        source.len() >= MAGIC_LEN,
        source.take(MAGIC_LEN as int) != magic(),
    ensures
        next_spec(p, source).1 == Err::<EventView, ErrorView>(ErrorView::InvalidMagic),
{
    assert(source.subrange(0, MAGIC_LEN as int) == source.take(MAGIC_LEN as int));
}

/// A list of children that ends elsewhere than its node gives a `DataError` that names
/// the expected and the actual position.
pub proof fn lemma_overrun(q: ParserView, got: Seq<u8>)
    requires
        got.len() == header_len(q.version),
        header_of(got, q.version).is_null(),
        q.stack.len() > 0,
        q.stack.last() != q.pos,
    ensures
        header_step(q, got).1 == Some(
            Err::<EventView, ErrorView>(
                ErrorView::DataError(mismatch_text(q.stack.last() as nat, q.pos)),
            ),
        ),
        header_step(q, got).0.phase is Failed,
{
}

/// A pull reads the stream only from the parser's position on: two streams of one length
/// that agree from there give the same pull.
pub proof fn lemma_reads_only_ahead(p: ParserView, s1: Seq<u8>, s2: Seq<u8>)
    requires
        s1.len() == s2.len(),
        forall|i: int| p.pos <= i < s1.len() ==> s1[i] == s2[i],
    ensures
        next_spec(p, s1) == next_spec(p, s2),
    decreases reads_left(p.phase),
{
    if let Some(n) = wanted_of(p) {
        if p.pos + n <= s1.len() {
            let lo = p.pos as int;
            let hi = (p.pos + n) as int;
            assert(s1.subrange(lo, hi) =~= s2.subrange(lo, hi));
            let (q, r) = feed_spec(p, s1.subrange(lo, hi));
            if r is None && reads_left(q.phase) < reads_left(p.phase) {
                lemma_reads_only_ahead(q, s1, s2);
            }
        }
    }
}

/// What the property bytes of a node hold does not steer the parser: two streams that
/// differ only within them give the same next state and the same start of the node, but
/// for those bytes, and then the same pull after it. An unknown type code or array
/// encoding in them only ends the decoding of that node's properties.
pub proof fn lemma_property_bytes_do_not_steer(p: ParserView, s1: Seq<u8>, s2: Seq<u8>)
    requires
        p.phase is Properties,
        s1.len() == s2.len(),
        p.pos + wanted_of(p).unwrap() <= s1.len(),
        forall|i: int|
            0 <= i < s1.len() && !(p.pos <= i < p.pos + wanted_of(p).unwrap()) ==> s1[i]
                == s2[i],
    ensures
        next_spec(p, s1).0 == next_spec(p, s2).0,
        next_spec(p, s1).1 matches Ok(EventView::StartNode(name, bytes, count)) && bytes
            == s1.subrange(p.pos as int, (p.pos + wanted_of(p).unwrap()) as int) && next_spec(p, s2).1
            == Ok::<EventView, ErrorView>(
            EventView::StartNode(name, s2.subrange(p.pos as int, (p.pos + wanted_of(p).unwrap()) as int), count),
        ),
        next_spec(next_spec(p, s1).0, s1) == next_spec(next_spec(p, s2).0, s2),
{
    let q = next_spec(p, s1).0;
    lemma_reads_only_ahead(q, s1, s2);
}

} // verus!
