//! The host side of the boundary: how a decoded entry is read as a span or
//! an event of the host's tracing system.
//!
//! The host keys its filtering on static descriptors, one per call site. The
//! sandbox has unboundedly many call sites, so ten fixed descriptors stand in
//! for all of them, one per level and kind, and what really identifies the
//! call site (name, target, file, line, module) travels as ordinary field
//! values of every span and event. Filtering by level works as for native
//! call sites; filtering by call site does not.
use crate::level::WasmLevel;
use crate::metadata::{AttributesModel, WasmEntryAttributes, WasmMetadata};
use crate::text::{lossy_text, render_entries, text_of};
use vstd::prelude::*;

verus! {

/// The one call site that every descriptor of this table names as its own.
#[derive(Clone, Copy, Debug, PartialEq, Eq, Structural)]
pub struct WasmCallsite;

/// The name and target that every descriptor carries on the host.
pub const WASM_TRACE_IDENTIFIER: &'static str = "wasm_tracing";

/// The field that carries the name given on the sandboxed side.
pub const WASM_NAME_KEY: &'static str = "name";

/// The field that carries the target given on the sandboxed side.
pub const WASM_TARGET_KEY: &'static str = "target";

/// The names of the six fields that every descriptor declares, in the
/// order in which it declares them.
pub const GENERIC_FIELDS: [&'static str; 6] = [
    WASM_TARGET_KEY,
    WASM_NAME_KEY,
    "file",
    "line",
    "module_path",
    "params",
];

/// The six declared field names as texts, in order: what identifies the
/// call site on the sandboxed side, then the rendered values.
pub open spec fn field_names() -> Seq<Seq<char>> {
    seq![WASM_TARGET_KEY@, WASM_NAME_KEY@, "file"@, "line"@, "module_path"@, "params"@]
}

/// How many descriptors the table holds: five levels, two kinds.
pub const DESCRIPTOR_COUNT: usize = 10;

/// The ten static descriptors. Each is created once, describes one level
/// and one kind, and never changes.
#[derive(Clone, Copy, Debug, PartialEq, Eq, Structural)]
pub enum Descriptor {
    SpanError,
    SpanWarn,
    SpanInfo,
    SpanDebug,
    SpanTrace,
    EventError,
    EventWarn,
    EventInfo,
    EventDebug,
    EventTrace,
}

impl Descriptor {
    /// The level this descriptor was created with.
    pub open spec fn level_of(self) -> WasmLevel {
        match self {
            Descriptor::SpanError => WasmLevel::ERROR,
            Descriptor::SpanWarn => WasmLevel::WARN,
            Descriptor::SpanInfo => WasmLevel::INFO,
            Descriptor::SpanDebug => WasmLevel::DEBUG,
            Descriptor::SpanTrace => WasmLevel::TRACE,
            Descriptor::EventError => WasmLevel::ERROR,
            Descriptor::EventWarn => WasmLevel::WARN,
            Descriptor::EventInfo => WasmLevel::INFO,
            Descriptor::EventDebug => WasmLevel::DEBUG,
            Descriptor::EventTrace => WasmLevel::TRACE,
        }
    }

    /// Whether this descriptor was created for spans (`true`) or for events.
    pub open spec fn spans(self) -> bool {
        match self {
            Descriptor::SpanError => true,
            Descriptor::SpanWarn => true,
            Descriptor::SpanInfo => true,
            Descriptor::SpanDebug => true,
            Descriptor::SpanTrace => true,
            Descriptor::EventError => false,
            Descriptor::EventWarn => false,
            Descriptor::EventInfo => false,
            Descriptor::EventDebug => false,
            Descriptor::EventTrace => false,
        }
    }

    /// The place of this descriptor in the table: the five span descriptors
    /// from most to least severe, then the five event descriptors likewise.
    pub open spec fn slot_of(self) -> nat {
        match self {
            Descriptor::SpanError => 0,
            Descriptor::SpanWarn => 1,
            Descriptor::SpanInfo => 2,
            Descriptor::SpanDebug => 3,
            Descriptor::SpanTrace => 4,
            Descriptor::EventError => 5,
            Descriptor::EventWarn => 6,
            Descriptor::EventInfo => 7,
            Descriptor::EventDebug => 8,
            Descriptor::EventTrace => 9,
        }
    }

    /// The name this descriptor carries on the host: the same for all ten,
    /// whatever the entry is called that it stands for.
    pub open spec fn name_of(self) -> Seq<char> {
        WASM_TRACE_IDENTIFIER@
    }

    /// The target this descriptor carries on the host: the same for all ten.
    pub open spec fn target_of(self) -> Seq<char> {
        WASM_TRACE_IDENTIFIER@
    }

    /// The names of the fields this descriptor declares: the same six for
    /// all ten, whatever fields the entry declares that it stands for.
    pub open spec fn fields_of(self) -> Seq<Seq<char>> {
        field_names()
    }

    /// The name this descriptor carries on the host.
    pub fn name(&self) -> (r: &'static str)
        ensures
            r@ == self.name_of(),
    {
        WASM_TRACE_IDENTIFIER
    }

    /// The target this descriptor carries on the host.
    pub fn target(&self) -> (r: &'static str)
        ensures
            r@ == self.target_of(),
    {
        WASM_TRACE_IDENTIFIER
    }

    /// The names of the fields this descriptor declares, in order.
    pub fn fields(&self) -> (r: [&'static str; 6])
        ensures
            r@.len() == self.fields_of().len(),
            forall|i: int| 0 <= i < r@.len() ==> (#[trigger] r@[i])@ == self.fields_of()[i],
    {
        GENERIC_FIELDS
    }

    /// The level this descriptor was created with.
    pub fn level(&self) -> (l: WasmLevel)
        ensures
            l == self.level_of(),
    {
        match self {
            Descriptor::SpanError => WasmLevel::ERROR,
            Descriptor::SpanWarn => WasmLevel::WARN,
            Descriptor::SpanInfo => WasmLevel::INFO,
            Descriptor::SpanDebug => WasmLevel::DEBUG,
            Descriptor::SpanTrace => WasmLevel::TRACE,
            Descriptor::EventError => WasmLevel::ERROR,
            Descriptor::EventWarn => WasmLevel::WARN,
            Descriptor::EventInfo => WasmLevel::INFO,
            Descriptor::EventDebug => WasmLevel::DEBUG,
            Descriptor::EventTrace => WasmLevel::TRACE,
        }
    }

    /// Whether this descriptor was created for spans (`true`) or for events.
    pub fn is_span(&self) -> (b: bool)
        ensures
            b == self.spans(),
    {
        match self {
            Descriptor::SpanError => true,
            Descriptor::SpanWarn => true,
            Descriptor::SpanInfo => true,
            Descriptor::SpanDebug => true,
            Descriptor::SpanTrace => true,
            _ => false,
        }
    }

    /// The place of this descriptor in the table of ten.
    pub fn slot(&self) -> (i: usize)
        ensures
            i == self.slot_of(),
            i < DESCRIPTOR_COUNT,
    {
        match self {
            Descriptor::SpanError => 0,
            Descriptor::SpanWarn => 1,
            Descriptor::SpanInfo => 2,
            Descriptor::SpanDebug => 3,
            Descriptor::SpanTrace => 4,
            Descriptor::EventError => 5,
            Descriptor::EventWarn => 6,
            Descriptor::EventInfo => 7,
            Descriptor::EventDebug => 8,
            Descriptor::EventTrace => 9,
        }
    }

    /// The descriptor at a place of the table; there is none from ten on.
    pub fn at(slot: usize) -> (r: Option<Descriptor>)
        ensures
            slot < DESCRIPTOR_COUNT <==> r is Some,
            r matches Some(d) ==> d.slot_of() == slot,
    {
        if slot == 0 {
            Some(Descriptor::SpanError)
        } else if slot == 1 {
            Some(Descriptor::SpanWarn)
        } else if slot == 2 {
            Some(Descriptor::SpanInfo)
        } else if slot == 3 {
            Some(Descriptor::SpanDebug)
        } else if slot == 4 {
            Some(Descriptor::SpanTrace)
        } else if slot == 5 {
            Some(Descriptor::EventError)
        } else if slot == 6 {
            Some(Descriptor::EventWarn)
        } else if slot == 7 {
            Some(Descriptor::EventInfo)
        } else if slot == 8 {
            Some(Descriptor::EventDebug)
        } else if slot == 9 {
            Some(Descriptor::EventTrace)
        } else {
            None
        }
    }
}

/// The descriptor that stands for a level and a kind: a direct pairing,
/// with no fallback and no default.
pub open spec fn select(level: WasmLevel, is_span: bool) -> Descriptor {
    match (level, is_span) {
        (WasmLevel::ERROR, true) => Descriptor::SpanError,
        (WasmLevel::WARN, true) => Descriptor::SpanWarn,
        (WasmLevel::INFO, true) => Descriptor::SpanInfo,
        (WasmLevel::DEBUG, true) => Descriptor::SpanDebug,
        (WasmLevel::TRACE, true) => Descriptor::SpanTrace,
        (WasmLevel::ERROR, false) => Descriptor::EventError,
        (WasmLevel::WARN, false) => Descriptor::EventWarn,
        (WasmLevel::INFO, false) => Descriptor::EventInfo,
        (WasmLevel::DEBUG, false) => Descriptor::EventDebug,
        (WasmLevel::TRACE, false) => Descriptor::EventTrace,
    }
}

/// Every pair of a level and a kind selects a descriptor of exactly that
/// level and kind.
pub proof fn lemma_selection_matches(level: WasmLevel, is_span: bool)
    ensures
        select(level, is_span).level_of() == level,
        select(level, is_span).spans() == is_span,
{
}

/// Two different pairs never select the same descriptor.
pub proof fn lemma_selection_is_injective(
    level_a: WasmLevel,
    is_span_a: bool,
    level_b: WasmLevel,
    is_span_b: bool,
)
    ensures
        select(level_a, is_span_a) == select(level_b, is_span_b) ==> level_a == level_b
            && is_span_a == is_span_b,
{
}

/// Each of the ten descriptors is selected by its own level and kind, so
/// the table holds none that is never used.
pub proof fn lemma_every_descriptor_is_selected(d: Descriptor)
    ensures
        select(d.level_of(), d.spans()) == d,
{
}

/// Every descriptor has a place among the ten, and no two share one.
pub proof fn lemma_slots_distinct(a: Descriptor, b: Descriptor)
    ensures
        a.slot_of() < DESCRIPTOR_COUNT,
        a.slot_of() == b.slot_of() ==> a == b,
{
}

impl From<&WasmMetadata> for Descriptor {
    /// Selects the descriptor for an entry by pairing its level with its
    /// kind. All ten pairs are covered, so the lookup cannot fail.
    fn from(wm: &WasmMetadata) -> (d: Descriptor)
        ensures
            d == select(wm.level, wm.is_span),
            d.level_of() == wm.level,
            d.spans() == wm.is_span,
    {
        match (wm.level, wm.is_span) {
            (WasmLevel::ERROR, true) => Descriptor::SpanError,
            (WasmLevel::WARN, true) => Descriptor::SpanWarn,
            (WasmLevel::INFO, true) => Descriptor::SpanInfo,
            (WasmLevel::DEBUG, true) => Descriptor::SpanDebug,
            (WasmLevel::TRACE, true) => Descriptor::SpanTrace,
            (WasmLevel::ERROR, false) => Descriptor::EventError,
            (WasmLevel::WARN, false) => Descriptor::EventWarn,
            (WasmLevel::INFO, false) => Descriptor::EventInfo,
            (WasmLevel::DEBUG, false) => Descriptor::EventDebug,
            (WasmLevel::TRACE, false) => Descriptor::EventTrace,
        }
    }
}

impl vstd::std_specs::convert::FromSpecImpl<&WasmMetadata> for Descriptor {
    open spec fn obeys_from_spec() -> bool {
        true
    }

    open spec fn from_spec(wm: &WasmMetadata) -> Descriptor {
        select(wm.level, wm.is_span)
    }
}

/// What the host is handed for one entry: the descriptor to create it
/// against, the parent it names, and the six field values.
#[derive(Clone, Debug, PartialEq, Eq)]
pub struct HostRecord {
    /// The static descriptor that stands in for the call site.
    pub descriptor: Descriptor,
    /// The parent as the entry names it; `None` means the span that is
    /// current on the host when the entry is created.
    pub parent_id: Option<u64>,
    pub target: String,
    pub name: String,
    pub file: String,
    pub line: u32,
    pub mod_path: String,
    /// The supplied values, rendered into one text.
    pub params: String,
}

/// What a `HostRecord` stands for.
pub struct RecordModel {
    pub descriptor: Descriptor,
    pub parent_id: Option<u64>,
    pub target: Seq<char>,
    pub name: Seq<char>,
    pub file: Seq<char>,
    pub line: u32,
    pub mod_path: Seq<char>,
    pub params: Seq<char>,
}

impl View for HostRecord {
    type V = RecordModel;

    open spec fn view(&self) -> RecordModel {
        RecordModel {
            descriptor: self.descriptor,
            parent_id: self.parent_id,
            target: self.target@,
            name: self.name@,
            file: self.file@,
            line: self.line,
            mod_path: self.mod_path@,
            params: self.params@,
        }
    }
}

/// The reading of an entry on the host. Each text is decoded on its own,
/// and one that is not UTF-8 becomes empty without touching the others; the
/// line and the parent are passed on as they are.
pub open spec fn host_record(a: AttributesModel) -> RecordModel {
    RecordModel {
        descriptor: select(a.metadata.level, a.metadata.is_span),
        parent_id: a.parent_id,
        target: text_of(a.metadata.target),
        name: text_of(a.metadata.name),
        file: text_of(a.metadata.file),
        line: a.metadata.line,
        mod_path: text_of(a.metadata.mod_path),
        params: render_entries(a.fields),
    }
}

/// An event, ready to be handed to the host's subscriber.
#[derive(Clone, Debug, PartialEq, Eq)]
pub struct HostEvent {
    pub record: HostRecord,
}

/// A span, ready to be created on the host and entered by the caller.
#[derive(Clone, Debug, PartialEq, Eq)]
pub struct HostSpan {
    pub record: HostRecord,
}

fn read_entry(a: &WasmEntryAttributes) -> (r: HostRecord)
    ensures
        r@ == host_record(a@),
{
    HostRecord {
        descriptor: Descriptor::from(&a.metadata),
        parent_id: a.parent_id,
        target: lossy_text(a.metadata.target.as_slice()).to_owned(),
        name: lossy_text(a.metadata.name.as_slice()).to_owned(),
        file: lossy_text(a.metadata.file.as_slice()).to_owned(),
        line: a.metadata.line,
        mod_path: lossy_text(a.metadata.mod_path.as_slice()).to_owned(),
        params: a.fields.render(),
    }
}

impl WasmEntryAttributes {
    /// Turns the attributes into the event that the host is to observe.
    /// This never fails: what cannot be read as text is shown as empty.
    pub fn emit(self) -> (event: HostEvent)
        ensures
            event.record@ == host_record(self@),
    {
        HostEvent { record: read_entry(&self) }
    }
}

impl From<WasmEntryAttributes> for HostSpan {
    /// Turns the attributes into the span that the host is to create.
    /// This never fails: what cannot be read as text is shown as empty.
    fn from(a: WasmEntryAttributes) -> (span: HostSpan)
        ensures
            span.record@ == host_record(a@),
    {
        HostSpan { record: read_entry(&a) }
    }
}

// `from` describes its result by its view, so there is no `from_spec` to
// obey.
impl vstd::std_specs::convert::FromSpecImpl<WasmEntryAttributes> for HostSpan {
    open spec fn obeys_from_spec() -> bool {
        false
    }

    open spec fn from_spec(a: WasmEntryAttributes) -> HostSpan {
        arbitrary()
    }
}

/// `tracing_core::span::Id`, the host's handle for a span. It is made and
/// handed on; of what it holds only its number is spoken of.
#[verifier::external_type_specification]
#[verifier::external_body]
pub struct ExSpanId(tracing_core::span::Id);

/// The number that a span identifier holds: what it was made from, and
/// what `tracing_core::span::Id::into_u64` gives back.
pub uninterp spec fn span_number(id: tracing_core::span::Id) -> u64;

/// `tracing_core::span::Id::from_u64` wraps a non-zero number as a span
/// identifier, which then holds that number. It panics on zero, which is
/// therefore left out.
pub assume_specification[ tracing_core::span::Id::from_u64 ](u: u64) -> (id: tracing_core::span::Id)
    requires
        u != 0,
    ensures
        span_number(id) == u,
;

impl HostRecord {
    /// The named parent as a span identifier of the host: the identifier
    /// of exactly the number that the entry names, passed on without asking
    /// whether such a span is alive. There is none where the entry names no
    /// parent, nor where it names zero, which the host cannot hold as an
    /// identifier.
    pub fn parent(&self) -> (r: Option<tracing_core::span::Id>)
        ensures
            r is Some <==> (self.parent_id matches Some(p) && p != 0),
            r matches Some(id) ==> self.parent_id == Some(span_number(id)),
    {
        match self.parent_id {
            Some(p) => {
                if p != 0 {
                    Some(tracing_core::span::Id::from_u64(p))
                } else {
                    None
                }
            },
            None => None,
        }
    }
}

} // verus!
