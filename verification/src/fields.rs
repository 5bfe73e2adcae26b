//! Field names, the declared list of names of a call site, and the values a
//! call site supplied for them.
//!
//! All three keep the order they were built in: nothing is sorted, merged or
//! checked for being text.
use crate::value::{
    lemma_value_canonical, lemma_value_round_trip, parse_value, value_fits, value_wire,
    ValueModel, WasmValue,
};
use crate::wire::{lemma_bytes_canonical, lemma_len_canonical, lemma_u8_canonical};
use crate::wire::{
    bytes_wire, fits_len, lemma_bytes_round_trip, lemma_len_round_trip, lemma_u8_round_trip,
    len_fits, len_wire, outcome, parse_bytes, parse_len, parse_u8, put_bytes, put_len, take_bytes,
    take_len, take_u8, DecodeError, Parsed,
};
use crate::text::{push_entry, render_entries, render_entries_tail};
use vstd::prelude::*;
use vstd::std_specs::iter::IteratorSpec;
use vstd::string::StringExecFns;
use vstd::string::StringSliceAdditionalSpecFns;

verus! {

/// The name of a field, as given where the span or event was declared.
/// Most likely printable, but held as the bytes it came as.
#[derive(Clone, Debug, PartialEq, Eq)]
pub struct WasmFieldName(Vec<u8>);

/// A list of field names in the order provided. A name may occur twice.
#[derive(Clone, Debug, PartialEq, Eq)]
pub struct WasmFields(Vec<WasmFieldName>);

/// A list of field names, each with the value supplied for it, if any, in
/// the order provided.
#[derive(Clone, Debug, PartialEq, Eq)]
pub struct WasmValuesSet(Vec<(WasmFieldName, Option<WasmValue>)>);

/// One entry of a value set: the name's bytes, and the value where one was
/// supplied.
pub type EntryModel = (Seq<u8>, Option<ValueModel>);

/// What an optional value stands for.
pub open spec fn opt_model(o: Option<WasmValue>) -> Option<ValueModel> {
    match o {
        Some(v) => Some(v@),
        None => None,
    }
}

/// The bytes of each name, in order.
pub open spec fn names_of(v: Seq<WasmFieldName>) -> Seq<Seq<u8>> {
    Seq::new(v.len(), |i: int| v[i]@)
}

/// Each pair as name bytes and optional value, in order.
pub open spec fn entries_of(v: Seq<(WasmFieldName, Option<WasmValue>)>) -> Seq<EntryModel> {
    Seq::new(v.len(), |i: int| (v[i].0@, opt_model(v[i].1)))
}

impl View for WasmFieldName {
    type V = Seq<u8>;

    closed spec fn view(&self) -> Seq<u8> {
        self.0@
    }
}

impl View for WasmFields {
    type V = Seq<Seq<u8>>;

    closed spec fn view(&self) -> Seq<Seq<u8>> {
        names_of(self.0@)
    }
}

impl View for WasmValuesSet {
    type V = Seq<EntryModel>;

    closed spec fn view(&self) -> Seq<EntryModel> {
        entries_of(self.0@)
    }
}

// ---------------------------------------------------------------------------
// Byte format
// ---------------------------------------------------------------------------

/// Puts the items already read in front of what reading the rest yields.
pub open spec fn prepend<T>(done: Seq<T>, r: Parsed<Seq<T>>) -> Parsed<Seq<T>> {
    match r {
        Ok((more, after)) => Ok((done + more, after)),
        Err(e) => Err(e),
    }
}

/// Whether a list of names can be written: the list and every name fit the
/// length prefix.
pub open spec fn names_fit(names: Seq<Seq<u8>>) -> bool {
    &&& fits_len(names.len())
    &&& forall|i: int| 0 <= i < names.len() ==> fits_len(#[trigger] names[i].len())
}

/// The names one after the other, first to last, each as a byte string.
pub open spec fn names_body(names: Seq<Seq<u8>>) -> Seq<u8>
    decreases names.len(),
{
    if names.len() == 0 {
        Seq::empty()
    } else {
        bytes_wire(names[0]) + names_body(names.skip(1))
    }
}

/// A list of names on the wire: how many there are, then the names in order.
pub open spec fn names_wire(names: Seq<Seq<u8>>) -> Seq<u8> {
    len_wire(names.len() as u32) + names_body(names)
}

/// Reads `n` names, first to last.
pub open spec fn parse_names_body(n: nat, s: Seq<u8>) -> Parsed<Seq<Seq<u8>>>
    decreases n,
{
    if n == 0 {
        Ok((Seq::empty(), s))
    } else {
        match parse_bytes(s) {
            Err(e) => Err(e),
            Ok((name, rest)) => prepend(seq![name], parse_names_body((n - 1) as nat, rest)),
        }
    }
}

/// Reads how many names follow, then the names.
pub open spec fn parse_names(s: Seq<u8>) -> Parsed<Seq<Seq<u8>>> {
    match parse_len(s) {
        Err(e) => Err(e),
        Ok((n, rest)) => parse_names_body(n as nat, rest),
    }
}

/// An optional value on the wire: a presence byte, then the value if present.
pub open spec fn opt_value_wire(o: Option<ValueModel>) -> Seq<u8> {
    match o {
        None => seq![0u8],
        Some(v) => seq![1u8] + value_wire(v),
    }
}

/// Reads a presence byte and, where it says so, a value; a presence byte
/// other than 0 or 1 is refused.
pub open spec fn parse_opt_value(s: Seq<u8>) -> Parsed<Option<ValueModel>> {
    match parse_u8(s) {
        Err(e) => Err(e),
        Ok((flag, rest)) => if flag == 0 {
            Ok((None, rest))
        } else if flag == 1 {
            match parse_value(rest) {
                Ok((v, after)) => Ok((Some(v), after)),
                Err(e) => Err(e),
            }
        } else {
            Err(DecodeError::InvalidOption)
        },
    }
}

/// Whether an entry can be written: its name and its value fit.
pub open spec fn entry_fits(e: EntryModel) -> bool {
    &&& fits_len(e.0.len())
    &&& e.1 matches Some(v) ==> value_fits(v)
}

/// One entry on the wire: the name, then the optional value.
pub open spec fn entry_wire(e: EntryModel) -> Seq<u8> {
    bytes_wire(e.0) + opt_value_wire(e.1)
}

/// Reads a name, then an optional value.
pub open spec fn parse_entry(s: Seq<u8>) -> Parsed<EntryModel> {
    match parse_bytes(s) {
        Err(e) => Err(e),
        Ok((name, rest)) => match parse_opt_value(rest) {
            Err(e) => Err(e),
            Ok((value, after)) => Ok(((name, value), after)),
        },
    }
}

/// Whether a value set can be written: the set and every entry fit.
pub open spec fn entries_fit(entries: Seq<EntryModel>) -> bool {
    &&& fits_len(entries.len())
    &&& forall|i: int| 0 <= i < entries.len() ==> entry_fits(#[trigger] entries[i])
}

/// The entries one after the other, first to last.
pub open spec fn entries_body(entries: Seq<EntryModel>) -> Seq<u8>
    decreases entries.len(),
{
    if entries.len() == 0 {
        Seq::empty()
    } else {
        entry_wire(entries[0]) + entries_body(entries.skip(1))
    }
}

/// A value set on the wire: how many entries there are, then the entries in
/// order.
pub open spec fn entries_wire(entries: Seq<EntryModel>) -> Seq<u8> {
    len_wire(entries.len() as u32) + entries_body(entries)
}

/// Reads `n` entries, first to last.
pub open spec fn parse_entries_body(n: nat, s: Seq<u8>) -> Parsed<Seq<EntryModel>>
    decreases n,
{
    if n == 0 {
        Ok((Seq::empty(), s))
    } else {
        match parse_entry(s) {
            Err(e) => Err(e),
            Ok((entry, rest)) => prepend(seq![entry], parse_entries_body((n - 1) as nat, rest)),
        }
    }
}

/// Reads how many entries follow, then the entries.
pub open spec fn parse_entries(s: Seq<u8>) -> Parsed<Seq<EntryModel>> {
    match parse_len(s) {
        Err(e) => Err(e),
        Ok((n, rest)) => parse_entries_body(n as nat, rest),
    }
}

// ---------------------------------------------------------------------------
// Laws
// ---------------------------------------------------------------------------

/// Moving one more item from the front of the rest to the end of what is
/// done changes nothing.
pub proof fn lemma_prepend_step<T>(done: Seq<T>, item: T, r: Parsed<Seq<T>>)
    ensures
        prepend(done, prepend(seq![item], r)) == prepend(done.push(item), r),
{
    match r {
        Ok((more, after)) => {
            assert(done + (seq![item] + more) =~= done.push(item) + more);
        },
        Err(e) => {},
    }
}

proof fn lemma_names_body_round_trip(names: Seq<Seq<u8>>, tail: Seq<u8>)
    requires
        forall|i: int| 0 <= i < names.len() ==> fits_len(#[trigger] names[i].len()),
    ensures
        parse_names_body(names.len(), names_body(names) + tail) == Ok::<
            (Seq<Seq<u8>>, Seq<u8>),
            DecodeError,
        >((names, tail)),
    decreases names.len(),
{
    if names.len() == 0 {
        assert(names_body(names) + tail =~= tail);
        assert(names =~= Seq::empty());
    } else {
        let rest = names.skip(1);
        let after = names_body(rest) + tail;
        assert(names_body(names) + tail =~= bytes_wire(names[0]) + after);
        lemma_bytes_round_trip(names[0], after);
        assert forall|i: int| 0 <= i < rest.len() implies fits_len(#[trigger] rest[i].len()) by {
            assert(rest[i] == names[i + 1]);
        }
        lemma_names_body_round_trip(rest, tail);
        assert(seq![names[0]] + rest =~= names);
    }
}

/// Reading a list of names written in front of `tail` gives the same names
/// in the same order, and `tail`.
pub proof fn lemma_names_round_trip(names: Seq<Seq<u8>>, tail: Seq<u8>)
    requires
        names_fit(names),
    ensures
        parse_names(names_wire(names) + tail) == Ok::<(Seq<Seq<u8>>, Seq<u8>), DecodeError>(
            (names, tail),
        ),
{
    let body = names_body(names) + tail;
    assert(names_wire(names) + tail =~= len_wire(names.len() as u32) + body);
    lemma_len_round_trip(names.len() as u32, body);
    lemma_names_body_round_trip(names, tail);
}

/// Reading an optional value written in front of `tail` gives it back:
/// present stays present, absent stays absent.
pub proof fn lemma_opt_value_round_trip(o: Option<ValueModel>, tail: Seq<u8>)
    requires
        o matches Some(v) ==> value_fits(v),
    ensures
        parse_opt_value(opt_value_wire(o) + tail) == Ok::<(Option<ValueModel>, Seq<u8>), DecodeError>(
            (o, tail),
        ),
{
    match o {
        None => {
            lemma_u8_round_trip(0, tail);
        },
        Some(v) => {
            let body = value_wire(v) + tail;
            assert(opt_value_wire(o) + tail =~= seq![1u8] + body);
            lemma_u8_round_trip(1, body);
            lemma_value_round_trip(v, tail);
        },
    }
}

/// Reading an entry written in front of `tail` gives it back.
pub proof fn lemma_entry_round_trip(e: EntryModel, tail: Seq<u8>)
    requires
        entry_fits(e),
    ensures
        parse_entry(entry_wire(e) + tail) == Ok::<(EntryModel, Seq<u8>), DecodeError>((e, tail)),
{
    let after = opt_value_wire(e.1) + tail;
    assert(entry_wire(e) + tail =~= bytes_wire(e.0) + after);
    lemma_bytes_round_trip(e.0, after);
    lemma_opt_value_round_trip(e.1, tail);
}

proof fn lemma_entries_body_round_trip(entries: Seq<EntryModel>, tail: Seq<u8>)
    requires
        forall|i: int| 0 <= i < entries.len() ==> entry_fits(#[trigger] entries[i]),
    ensures
        parse_entries_body(entries.len(), entries_body(entries) + tail) == Ok::<
            (Seq<EntryModel>, Seq<u8>),
            DecodeError,
        >((entries, tail)),
    decreases entries.len(),
{
    if entries.len() == 0 {
        assert(entries_body(entries) + tail =~= tail);
        assert(entries =~= Seq::empty());
    } else {
        let rest = entries.skip(1);
        let after = entries_body(rest) + tail;
        assert(entries_body(entries) + tail =~= entry_wire(entries[0]) + after);
        lemma_entry_round_trip(entries[0], after);
        assert forall|i: int| 0 <= i < rest.len() implies entry_fits(#[trigger] rest[i]) by {
            assert(rest[i] == entries[i + 1]);
        }
        lemma_entries_body_round_trip(rest, tail);
        assert(seq![entries[0]] + rest =~= entries);
    }
}

/// Reading a value set written in front of `tail` gives the same entries in
/// the same order, and `tail`.
pub proof fn lemma_entries_round_trip(entries: Seq<EntryModel>, tail: Seq<u8>)
    requires
        entries_fit(entries),
    ensures
        parse_entries(entries_wire(entries) + tail) == Ok::<(Seq<EntryModel>, Seq<u8>), DecodeError>(
            (entries, tail),
        ),
{
    let body = entries_body(entries) + tail;
    assert(entries_wire(entries) + tail =~= len_wire(entries.len() as u32) + body);
    lemma_len_round_trip(entries.len() as u32, body);
    lemma_entries_body_round_trip(entries, tail);
}

proof fn lemma_names_body_canonical(n: nat, s: Seq<u8>)
    ensures
        parse_names_body(n, s) matches Ok((names, rest)) ==> {
            &&& names.len() == n
            &&& forall|i: int| 0 <= i < names.len() ==> fits_len(#[trigger] names[i].len())
            &&& s == names_body(names) + rest
        },
    decreases n,
{
    if n == 0 {
        assert(s =~= names_body(Seq::empty()) + s);
    } else {
        lemma_bytes_canonical(s);
        match parse_bytes(s) {
            Err(_) => {},
            Ok((name, after)) => {
                lemma_names_body_canonical((n - 1) as nat, after);
                match parse_names_body((n - 1) as nat, after) {
                    Err(_) => {},
                    Ok((more, rest)) => {
                        let names = seq![name] + more;
                        assert(names[0] == name);
                        assert(names.skip(1) =~= more);
                        assert(s =~= names_body(names) + rest);
                        assert forall|i: int| 0 <= i < names.len() implies fits_len(
                            #[trigger] names[i].len(),
                        ) by {
                            if i > 0 {
                                assert(names[i] == more[i - 1]);
                            }
                        }
                    },
                }
            },
        }
    }
}

/// A list of names that is read can be written, and was written at the
/// front of the input.
pub proof fn lemma_names_canonical(s: Seq<u8>)
    ensures
        parse_names(s) matches Ok((names, rest)) ==> names_fit(names) && s == names_wire(names)
            + rest,
{
    lemma_len_canonical(s);
    match parse_len(s) {
        Err(_) => {},
        Ok((n, body)) => {
            lemma_names_body_canonical(n as nat, body);
            match parse_names_body(n as nat, body) {
                Err(_) => {},
                Ok((names, rest)) => {
                    assert(s =~= (len_wire(n) + names_body(names)) + rest);
                },
            }
        },
    }
}

/// An optional value that is read was written at the front of the input.
pub proof fn lemma_opt_value_canonical(s: Seq<u8>)
    ensures
        parse_opt_value(s) matches Ok((o, rest)) ==> (o matches Some(v) ==> value_fits(v)) && s
            == opt_value_wire(o) + rest,
{
    lemma_u8_canonical(s);
    match parse_u8(s) {
        Err(_) => {},
        Ok((flag, body)) => {
            if flag == 1 {
                lemma_value_canonical(body);
                match parse_value(body) {
                    Err(_) => {},
                    Ok((v, rest)) => {
                        assert(s =~= (seq![1u8] + value_wire(v)) + rest);
                    },
                }
            }
        },
    }
}

/// An entry that is read can be written, and was written at the front of
/// the input.
pub proof fn lemma_entry_canonical(s: Seq<u8>)
    ensures
        parse_entry(s) matches Ok((e, rest)) ==> entry_fits(e) && s == entry_wire(e) + rest,
{
    lemma_bytes_canonical(s);
    match parse_bytes(s) {
        Err(_) => {},
        Ok((name, after)) => {
            lemma_opt_value_canonical(after);
            match parse_opt_value(after) {
                Err(_) => {},
                Ok((value, rest)) => {
                    assert(s =~= (bytes_wire(name) + opt_value_wire(value)) + rest);
                },
            }
        },
    }
}

proof fn lemma_entries_body_canonical(n: nat, s: Seq<u8>)
    ensures
        parse_entries_body(n, s) matches Ok((entries, rest)) ==> {
            &&& entries.len() == n
            &&& forall|i: int| 0 <= i < entries.len() ==> entry_fits(#[trigger] entries[i])
            &&& s == entries_body(entries) + rest
        },
    decreases n,
{
    if n == 0 {
        assert(s =~= entries_body(Seq::empty()) + s);
    } else {
        lemma_entry_canonical(s);
        match parse_entry(s) {
            Err(_) => {},
            Ok((entry, after)) => {
                lemma_entries_body_canonical((n - 1) as nat, after);
                match parse_entries_body((n - 1) as nat, after) {
                    Err(_) => {},
                    Ok((more, rest)) => {
                        let entries = seq![entry] + more;
                        assert(entries[0] == entry);
                        assert(entries.skip(1) =~= more);
                        assert(s =~= entries_body(entries) + rest);
                        assert forall|i: int| 0 <= i < entries.len() implies entry_fits(
                            #[trigger] entries[i],
                        ) by {
                            if i > 0 {
                                assert(entries[i] == more[i - 1]);
                            }
                        }
                    },
                }
            },
        }
    }
}

/// A value set that is read can be written, and was written at the front of
/// the input.
pub proof fn lemma_entries_canonical(s: Seq<u8>)
    ensures
        parse_entries(s) matches Ok((entries, rest)) ==> entries_fit(entries) && s == entries_wire(
            entries,
        ) + rest,
{
    lemma_len_canonical(s);
    match parse_len(s) {
        Err(_) => {},
        Ok((n, body)) => {
            lemma_entries_body_canonical(n as nat, body);
            match parse_entries_body(n as nat, body) {
                Err(_) => {},
                Ok((entries, rest)) => {
                    assert(s =~= (len_wire(n) + entries_body(entries)) + rest);
                },
            }
        },
    }
}

// ---------------------------------------------------------------------------
// Field names
// ---------------------------------------------------------------------------

impl From<Vec<u8>> for WasmFieldName {
    fn from(v: Vec<u8>) -> (r: WasmFieldName)
        ensures
            r@ == v@,
    {
        WasmFieldName(v)
    }
}

// `from` describes its result by its view, so there is no `from_spec` to
// obey.
impl vstd::std_specs::convert::FromSpecImpl<Vec<u8>> for WasmFieldName {
    open spec fn obeys_from_spec() -> bool {
        false
    }

    open spec fn from_spec(v: Vec<u8>) -> WasmFieldName {
        arbitrary()
    }
}

impl From<&str> for WasmFieldName {
    fn from(v: &str) -> (r: WasmFieldName)
        ensures
            r@ == v.spec_bytes(),
    {
        WasmFieldName(vstd::slice::slice_to_vec(v.as_bytes()))
    }
}

// `from` describes its result by its view, so there is no `from_spec` to
// obey.
impl vstd::std_specs::convert::FromSpecImpl<&str> for WasmFieldName {
    open spec fn obeys_from_spec() -> bool {
        false
    }

    open spec fn from_spec(v: &str) -> WasmFieldName {
        arbitrary()
    }
}

impl WasmFieldName {
    /// The bytes of the name.
    pub fn as_bytes(&self) -> (b: &[u8])
        ensures
            b@ == self@,
    {
        self.0.as_slice()
    }

    fn duplicate(&self) -> (r: WasmFieldName)
        ensures
            r@ == self@,
    {
        WasmFieldName(vstd::slice::slice_to_vec(self.0.as_slice()))
    }

    /// Whether the name can be written: it fits the length prefix.
    pub fn can_encode(&self) -> (r: bool)
        ensures
            r == fits_len(self@.len()),
    {
        len_fits(self.0.len())
    }

    pub(crate) fn encode_to(&self, out: &mut Vec<u8>)
        requires
            fits_len(self@.len()),
        ensures
            final(out)@ == old(out)@ + bytes_wire(self@),
    {
        put_bytes(out, self.0.as_slice());
    }

    /// The bytes this name is written as, or `None` where it is too long for
    /// the length prefix.
    pub fn encode(&self) -> (r: Option<Vec<u8>>)
        ensures
            r is Some <==> fits_len(self@.len()),
            r matches Some(out) ==> out@ == bytes_wire(self@),
    {
        if self.can_encode() {
            let mut out: Vec<u8> = Vec::new();
            self.encode_to(&mut out);
            assert(out@ =~= bytes_wire(self@));
            Some(out)
        } else {
            None
        }
    }

    /// Reads a name off the front of `input` and returns it with the bytes
    /// that follow it.
    pub fn decode<'a>(input: &'a [u8]) -> (r: Result<(WasmFieldName, &'a [u8]), DecodeError>)
        ensures
            outcome(r) == parse_bytes(input@),
    {
        let (b, rest) = take_bytes(input)?;
        Ok((WasmFieldName(b), rest))
    }
}

// ---------------------------------------------------------------------------
// Lists of names
// ---------------------------------------------------------------------------

impl From<Vec<WasmFieldName>> for WasmFields {
    fn from(v: Vec<WasmFieldName>) -> (r: WasmFields)
        ensures
            r@ == names_of(v@),
    {
        WasmFields(v)
    }
}

// `from` describes its result by its view, so there is no `from_spec` to
// obey.
impl vstd::std_specs::convert::FromSpecImpl<Vec<WasmFieldName>> for WasmFields {
    open spec fn obeys_from_spec() -> bool {
        false
    }

    open spec fn from_spec(v: Vec<WasmFieldName>) -> WasmFields {
        arbitrary()
    }
}

impl From<Vec<&str>> for WasmFields {
    fn from(v: Vec<&str>) -> (r: WasmFields)
        ensures
            r@ == Seq::new(v@.len(), |i: int| v@[i].spec_bytes()),
    {
        let mut out: Vec<WasmFieldName> = Vec::new();
        let mut i: usize = 0;
        while i < v.len()
            invariant
                i <= v.len(),
                out@.len() == i,
                forall|j: int| 0 <= j < i ==> (#[trigger] out@[j])@ == v@[j].spec_bytes(),
            decreases v.len() - i,
        {
            out.push(WasmFieldName::from(v[i]));
            i = i + 1;
        }
        let r = WasmFields(out);
        assert(r@ =~= Seq::new(v@.len(), |i: int| v@[i].spec_bytes()));
        r
    }
}

// `from` describes its result by its view, so there is no `from_spec` to
// obey.
impl vstd::std_specs::convert::FromSpecImpl<Vec<&str>> for WasmFields {
    open spec fn obeys_from_spec() -> bool {
        false
    }

    open spec fn from_spec(v: Vec<&str>) -> WasmFields {
        arbitrary()
    }
}

impl WasmFields {
    /// Walks the names in the order they were provided.
    pub fn iter(&self) -> (it: core::slice::Iter<'_, WasmFieldName>)
        ensures
            it.remaining().len() == self@.len(),
            forall|i: int| 0 <= i < self@.len() ==> (#[trigger] it.remaining()[i])@ == self@[i],
    {
        broadcast use vstd::std_specs::slice::axiom_spec_slice_iter;

        self.0.as_slice().iter()
    }

    /// A list without names.
    pub fn empty() -> (r: WasmFields)
        ensures
            r@ == Seq::<Seq<u8>>::empty(),
    {
        let r = WasmFields(Vec::new());
        assert(r@ =~= Seq::<Seq<u8>>::empty());
        r
    }

    /// Whether the list can be written: it and every name fit the length
    /// prefix.
    pub fn can_encode(&self) -> (r: bool)
        ensures
            r == names_fit(self@),
    {
        if !len_fits(self.0.len()) {
            return false;
        }
        let mut i: usize = 0;
        while i < self.0.len()
            invariant
                i <= self.0@.len(),
                forall|j: int| 0 <= j < i ==> fits_len(#[trigger] self@[j].len()),
            decreases self.0.len() - i,
        {
            if !self.0[i].can_encode() {
                assert(!fits_len(self@[i as int].len()));
                return false;
            }
            i = i + 1;
        }
        true
    }

    pub(crate) fn encode_to(&self, out: &mut Vec<u8>)
        requires
            names_fit(self@),
        ensures
            final(out)@ == old(out)@ + names_wire(self@),
    {
        put_len(out, self.0.len() as u32);
        let ghost start = out@;
        let mut i: usize = 0;
        assert(self@.skip(0) =~= self@);
        while i < self.0.len()
            invariant
                i <= self.0@.len(),
                names_fit(self@),
                out@ + names_body(self@.skip(i as int)) == start + names_body(self@),
            decreases self.0.len() - i,
        {
            let ghost before = out@;
            let ghost left = self@.skip(i as int);
            assert(left[0] == self@[i as int]);
            assert(left.skip(1) =~= self@.skip(i + 1));
            self.0[i].encode_to(out);
            assert(out@ + names_body(self@.skip(i + 1)) =~= before + names_body(left));
            i = i + 1;
        }
        assert(names_body(self@.skip(i as int)) =~= Seq::<u8>::empty());
        assert(out@ =~= old(out)@ + names_wire(self@));
    }

    /// The bytes this list is written as, or `None` where it or one of its
    /// names is too long for the length prefix.
    pub fn encode(&self) -> (r: Option<Vec<u8>>)
        ensures
            r is Some <==> names_fit(self@),
            r matches Some(out) ==> out@ == names_wire(self@),
    {
        if self.can_encode() {
            let mut out: Vec<u8> = Vec::new();
            self.encode_to(&mut out);
            assert(out@ =~= names_wire(self@));
            Some(out)
        } else {
            None
        }
    }

    /// Reads a list of names off the front of `input` and returns it with
    /// the bytes that follow it.
    pub fn decode<'a>(input: &'a [u8]) -> (r: Result<(WasmFields, &'a [u8]), DecodeError>)
        ensures
            outcome(r) == parse_names(input@),
    {
        let (n, body) = take_len(input)?;
        let mut rest = body;
        let mut names: Vec<WasmFieldName> = Vec::new();
        let mut i: u32 = 0;
        assert(names_of(names@) + Seq::<Seq<u8>>::empty() =~= names_of(names@));
        while i < n
            invariant
                i <= n,
                parse_len(input@) == Ok::<(u32, Seq<u8>), DecodeError>((n, body@)),
                parse_names_body(n as nat, body@) == prepend(
                    names_of(names@),
                    parse_names_body((n - i) as nat, rest@),
                ),
            decreases n - i,
        {
            let ghost done = names_of(names@);
            match take_bytes(rest) {
                Err(e) => {
                    return Err(e);
                },
                Ok((b, after)) => {
                    proof {
                        lemma_prepend_step(done, b@, parse_names_body((n - i - 1) as nat, after@));
                    }
                    names.push(WasmFieldName(b));
                    assert(names_of(names@) =~= done.push(b@));
                    rest = after;
                    i = i + 1;
                },
            }
        }
        assert(names_of(names@) + Seq::<Seq<u8>>::empty() =~= names_of(names@));
        Ok((WasmFields(names), rest))
    }
}

// ---------------------------------------------------------------------------
// Value sets
// ---------------------------------------------------------------------------

impl From<Vec<(WasmFieldName, Option<WasmValue>)>> for WasmValuesSet {
    fn from(v: Vec<(WasmFieldName, Option<WasmValue>)>) -> (r: WasmValuesSet)
        ensures
            r@ == entries_of(v@),
    {
        WasmValuesSet(v)
    }
}

// `from` describes its result by its view, so there is no `from_spec` to
// obey.
impl vstd::std_specs::convert::FromSpecImpl<Vec<(WasmFieldName, Option<WasmValue>)>> for WasmValuesSet {
    open spec fn obeys_from_spec() -> bool {
        false
    }

    open spec fn from_spec(v: Vec<(WasmFieldName, Option<WasmValue>)>) -> WasmValuesSet {
        arbitrary()
    }
}

impl From<Vec<(&&WasmFieldName, Option<WasmValue>)>> for WasmValuesSet {
    fn from(v: Vec<(&&WasmFieldName, Option<WasmValue>)>) -> (r: WasmValuesSet)
        ensures
            r@ == Seq::new(v@.len(), |i: int| (v@[i].0@, opt_model(v@[i].1))),
    {
        let ghost src = v@;
        let mut out: Vec<(WasmFieldName, Option<WasmValue>)> = Vec::new();
        for pair in it: v.into_iter()
            invariant
                it.seq() == src,
                out@.len() == it.index(),
                forall|j: int|
                    0 <= j < out@.len() ==> (#[trigger] out@[j]).0@ == src[j].0@ && opt_model(
                        out@[j].1,
                    ) == opt_model(src[j].1),
        {
            let (k, val) = pair;
            out.push(((**k).duplicate(), val));
        }
        let r = WasmValuesSet(out);
        assert(r@ =~= Seq::new(src.len(), |i: int| (src[i].0@, opt_model(src[i].1))));
        r
    }
}

// `from` describes its result by its view, so there is no `from_spec` to
// obey.
impl vstd::std_specs::convert::FromSpecImpl<Vec<(&&WasmFieldName, Option<WasmValue>)>> for WasmValuesSet {
    open spec fn obeys_from_spec() -> bool {
        false
    }

    open spec fn from_spec(v: Vec<(&&WasmFieldName, Option<WasmValue>)>) -> WasmValuesSet {
        arbitrary()
    }
}

impl From<Vec<(&&str, Option<WasmValue>)>> for WasmValuesSet {
    fn from(v: Vec<(&&str, Option<WasmValue>)>) -> (r: WasmValuesSet)
        ensures
            r@ == Seq::new(v@.len(), |i: int| (v@[i].0.spec_bytes(), opt_model(v@[i].1))),
    {
        let ghost src = v@;
        let mut out: Vec<(WasmFieldName, Option<WasmValue>)> = Vec::new();
        for pair in it: v.into_iter()
            invariant
                it.seq() == src,
                out@.len() == it.index(),
                forall|j: int|
                    0 <= j < out@.len() ==> (#[trigger] out@[j]).0@ == src[j].0.spec_bytes()
                        && opt_model(out@[j].1) == opt_model(src[j].1),
        {
            let (k, val) = pair;
            out.push((WasmFieldName::from(*k), val));
        }
        let r = WasmValuesSet(out);
        assert(r@ =~= Seq::new(src.len(), |i: int| (src[i].0.spec_bytes(), opt_model(src[i].1))));
        r
    }
}

// `from` describes its result by its view, so there is no `from_spec` to
// obey.
impl vstd::std_specs::convert::FromSpecImpl<Vec<(&&str, Option<WasmValue>)>> for WasmValuesSet {
    open spec fn obeys_from_spec() -> bool {
        false
    }

    open spec fn from_spec(v: Vec<(&&str, Option<WasmValue>)>) -> WasmValuesSet {
        arbitrary()
    }
}

fn put_opt_value(out: &mut Vec<u8>, o: &Option<WasmValue>)
    requires
        opt_model(*o) matches Some(v) ==> value_fits(v),
    ensures
        final(out)@ == old(out)@ + opt_value_wire(opt_model(*o)),
{
    match o {
        None => {
            out.push(0);
        },
        Some(v) => {
            out.push(1);
            v.encode_to(out);
        },
    }
    assert(out@ =~= old(out)@ + opt_value_wire(opt_model(*o)));
}

fn take_opt_value<'a>(input: &'a [u8]) -> (r: Result<(Option<WasmValue>, &'a [u8]), DecodeError>)
    ensures
        match r {
            Ok((o, rest)) => parse_opt_value(input@) == Ok::<
                (Option<ValueModel>, Seq<u8>),
                DecodeError,
            >((opt_model(o), rest@)),
            Err(e) => parse_opt_value(input@) == Err::<(Option<ValueModel>, Seq<u8>), DecodeError>(e),
        },
{
    let (flag, rest) = take_u8(input)?;
    if flag == 0 {
        Ok((None, rest))
    } else if flag == 1 {
        let (v, after) = WasmValue::decode(rest)?;
        Ok((Some(v), after))
    } else {
        Err(DecodeError::InvalidOption)
    }
}

impl WasmValuesSet {
    /// Walks the entries in the order they were provided.
    pub fn iter(&self) -> (it: core::slice::Iter<'_, (WasmFieldName, Option<WasmValue>)>)
        ensures
            it.remaining().len() == self@.len(),
            forall|i: int|
                0 <= i < self@.len() ==> ((#[trigger] it.remaining()[i]).0@, opt_model(
                    it.remaining()[i].1,
                )) == self@[i],
    {
        broadcast use vstd::std_specs::slice::axiom_spec_slice_iter;

        self.0.as_slice().iter()
    }

    /// A set without entries.
    pub fn empty() -> (r: WasmValuesSet)
        ensures
            r@ == Seq::<EntryModel>::empty(),
    {
        let r = WasmValuesSet(Vec::new());
        assert(r@ =~= Seq::<EntryModel>::empty());
        r
    }

    /// Whether the set can be written: it and every name and byte payload in
    /// it fit the length prefix.
    pub fn can_encode(&self) -> (r: bool)
        ensures
            r == entries_fit(self@),
    {
        if !len_fits(self.0.len()) {
            return false;
        }
        let mut i: usize = 0;
        while i < self.0.len()
            invariant
                i <= self.0@.len(),
                forall|j: int| 0 <= j < i ==> entry_fits(#[trigger] self@[j]),
            decreases self.0.len() - i,
        {
            let fits = self.0[i].0.can_encode() && match &self.0[i].1 {
                Some(v) => v.can_encode(),
                None => true,
            };
            if !fits {
                assert(!entry_fits(self@[i as int]));
                return false;
            }
            i = i + 1;
        }
        true
    }

    pub(crate) fn encode_to(&self, out: &mut Vec<u8>)
        requires
            entries_fit(self@),
        ensures
            final(out)@ == old(out)@ + entries_wire(self@),
    {
        put_len(out, self.0.len() as u32);
        let ghost start = out@;
        let mut i: usize = 0;
        assert(self@.skip(0) =~= self@);
        while i < self.0.len()
            invariant
                i <= self.0@.len(),
                entries_fit(self@),
                out@ + entries_body(self@.skip(i as int)) == start + entries_body(self@),
            decreases self.0.len() - i,
        {
            let ghost before = out@;
            let ghost left = self@.skip(i as int);
            assert(left[0] == self@[i as int]);
            assert(left.skip(1) =~= self@.skip(i + 1));
            assert(entry_fits(self@[i as int]));
            self.0[i].0.encode_to(out);
            put_opt_value(out, &self.0[i].1);
            assert(out@ =~= before + entry_wire(left[0]));
            assert(out@ + entries_body(self@.skip(i + 1)) =~= before + entries_body(left));
            i = i + 1;
        }
        assert(entries_body(self@.skip(i as int)) =~= Seq::<u8>::empty());
        assert(out@ =~= old(out)@ + entries_wire(self@));
    }

    /// The bytes this set is written as, or `None` where it or something in
    /// it is too long for the length prefix.
    pub fn encode(&self) -> (r: Option<Vec<u8>>)
        ensures
            r is Some <==> entries_fit(self@),
            r matches Some(out) ==> out@ == entries_wire(self@),
    {
        if self.can_encode() {
            let mut out: Vec<u8> = Vec::new();
            self.encode_to(&mut out);
            assert(out@ =~= entries_wire(self@));
            Some(out)
        } else {
            None
        }
    }

    /// The set as one text, as the host shows it: the entries in order,
    /// each name as the text it stands for (empty where it is not UTF-8).
    pub fn render(&self) -> (r: String)
        ensures
            r@ == render_entries(self@),
    {
        let mut out = String::new();
        if self.0.len() == 0 {
            out.append("WasmValuesSet([])");
            assert(out@ =~= render_entries(self@));
            return out;
        }
        out.append("WasmValuesSet([");
        push_entry(&mut out, self.0[0].0.as_bytes(), &self.0[0].1);
        let ghost start = out@;
        let mut i: usize = 1;
        assert(render_entries_tail(self@.skip(1)) + Seq::<char>::empty() =~= render_entries_tail(
            self@.skip(1),
        ));
        while i < self.0.len()
            invariant
                1 <= i <= self.0@.len(),
                out@ + render_entries_tail(self@.skip(i as int)) == start + render_entries_tail(
                    self@.skip(1),
                ),
            decreases self.0.len() - i,
        {
            let ghost before = out@;
            let ghost left = self@.skip(i as int);
            assert(left[0] == self@[i as int]);
            assert(left.skip(1) =~= self@.skip(i + 1));
            out.append(", ");
            push_entry(&mut out, self.0[i].0.as_bytes(), &self.0[i].1);
            assert(out@ + render_entries_tail(self@.skip(i + 1)) =~= before + render_entries_tail(
                left,
            ));
            i = i + 1;
        }
        assert(render_entries_tail(self@.skip(i as int)) =~= Seq::<char>::empty());
        out.append("])");
        assert(out@ =~= render_entries(self@));
        out
    }

    /// Reads a value set off the front of `input` and returns it with the
    /// bytes that follow it.
    pub fn decode<'a>(input: &'a [u8]) -> (r: Result<(WasmValuesSet, &'a [u8]), DecodeError>)
        ensures
            outcome(r) == parse_entries(input@),
    {
        let (n, body) = take_len(input)?;
        let mut rest = body;
        let mut entries: Vec<(WasmFieldName, Option<WasmValue>)> = Vec::new();
        let mut i: u32 = 0;
        assert(entries_of(entries@) + Seq::<EntryModel>::empty() =~= entries_of(entries@));
        while i < n
            invariant
                i <= n,
                parse_len(input@) == Ok::<(u32, Seq<u8>), DecodeError>((n, body@)),
                parse_entries_body(n as nat, body@) == prepend(
                    entries_of(entries@),
                    parse_entries_body((n - i) as nat, rest@),
                ),
            decreases n - i,
        {
            let ghost done = entries_of(entries@);
            let (name, mid) = match take_bytes(rest) {
                Err(e) => {
                    return Err(e);
                },
                Ok(p) => p,
            };
            let (value, after) = match take_opt_value(mid) {
                Err(e) => {
                    return Err(e);
                },
                Ok(p) => p,
            };
            proof {
                lemma_prepend_step(
                    done,
                    (name@, opt_model(value)),
                    parse_entries_body((n - i - 1) as nat, after@),
                );
            }
            entries.push((WasmFieldName(name), value));
            assert(entries_of(entries@) =~= done.push((name@, opt_model(value))));
            rest = after;
            i = i + 1;
        }
        assert(entries_of(entries@) + Seq::<EntryModel>::empty() =~= entries_of(entries@));
        Ok((WasmValuesSet(entries), rest))
    }
}

} // verus!
