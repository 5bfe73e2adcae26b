//! The static description of a call site, and the full payload of one
//! captured span or event.
use crate::fields::{
    entries_fit, entries_wire, lemma_entries_round_trip, lemma_names_round_trip, names_fit,
    names_wire, parse_entries, parse_names, EntryModel, WasmFields, WasmValuesSet,
};
use crate::fields::{lemma_entries_canonical, lemma_names_canonical};
use crate::level::{
    lemma_level_canonical, lemma_level_round_trip, level_wire, parse_level, WasmLevel,
};
use crate::wire::{
    lemma_bool_canonical, lemma_bytes_canonical, lemma_concat_assoc, lemma_u32_canonical,
    lemma_u64_canonical, lemma_u8_canonical,
};
use crate::wire::{
    bool_byte, bytes_wire, fits_len, lemma_bool_round_trip, lemma_bytes_round_trip,
    lemma_u32_round_trip, lemma_u64_round_trip, lemma_u8_round_trip, len_fits, outcome, parse_bool,
    parse_bytes, parse_u32, parse_u64, parse_u8, put_bool, put_bytes, put_u32, put_u64, take_bool,
    take_bytes, take_u32, take_u64, take_u8, u32_wire, u64_wire, DecodeError, Parsed,
};
use vstd::prelude::*;

verus! {

/// Where a span or event was declared on the sandboxed side. The texts are
/// held as the bytes they came as and are not checked for being UTF-8.
#[derive(Clone, Debug, PartialEq, Eq)]
pub struct WasmMetadata {
    /// The name given to the span or event.
    pub name: Vec<u8>,
    /// The target given to the span or event, or the module's name.
    pub target: Vec<u8>,
    /// The level of this entry.
    pub level: WasmLevel,
    /// The file this was emitted from.
    pub file: Vec<u8>,
    /// The line in that file.
    pub line: u32,
    /// The module path.
    pub mod_path: Vec<u8>,
    /// Whether this is a span (`true`) or an event (`false`).
    pub is_span: bool,
    /// The fields declared at the call site.
    pub fields: WasmFields,
}

/// What a `WasmMetadata` stands for.
pub struct MetadataModel {
    pub name: Seq<u8>,
    pub target: Seq<u8>,
    pub level: WasmLevel,
    pub file: Seq<u8>,
    pub line: u32,
    pub mod_path: Seq<u8>,
    pub is_span: bool,
    pub fields: Seq<Seq<u8>>,
}

impl View for WasmMetadata {
    type V = MetadataModel;

    open spec fn view(&self) -> MetadataModel {
        MetadataModel {
            name: self.name@,
            target: self.target@,
            level: self.level,
            file: self.file@,
            line: self.line,
            mod_path: self.mod_path@,
            is_span: self.is_span,
            fields: self.fields@,
        }
    }
}

/// The attributes of one span or event: the unit that crosses the boundary.
#[derive(Clone, Debug, PartialEq, Eq)]
pub struct WasmEntryAttributes {
    /// The parent, if directly specified; otherwise the innermost span that
    /// is current on the host is meant.
    pub parent_id: Option<u64>,
    /// The description of the call site.
    pub metadata: WasmMetadata,
    /// The values provided.
    pub fields: WasmValuesSet,
}

/// What a `WasmEntryAttributes` stands for.
pub struct AttributesModel {
    pub parent_id: Option<u64>,
    pub metadata: MetadataModel,
    pub fields: Seq<EntryModel>,
}

impl View for WasmEntryAttributes {
    type V = AttributesModel;

    open spec fn view(&self) -> AttributesModel {
        AttributesModel {
            parent_id: self.parent_id,
            metadata: self.metadata@,
            fields: self.fields@,
        }
    }
}

// ---------------------------------------------------------------------------
// Byte format
// ---------------------------------------------------------------------------

/// Whether the record can be written: every text and the field list fit the
/// length prefix.
pub open spec fn metadata_fits(m: MetadataModel) -> bool {
    &&& fits_len(m.name.len())
    &&& fits_len(m.target.len())
    &&& fits_len(m.file.len())
    &&& fits_len(m.mod_path.len())
    &&& names_fit(m.fields)
}

/// The members in declaration order, each in its own form.
#[verifier::opaque]
pub open spec fn metadata_wire(m: MetadataModel) -> Seq<u8> {
    bytes_wire(m.name) + bytes_wire(m.target) + level_wire(m.level) + bytes_wire(m.file)
        + u32_wire(m.line) + bytes_wire(m.mod_path) + seq![bool_byte(m.is_span)] + names_wire(
        m.fields,
    )
}

/// Reads the members in declaration order; the first that cannot be read
/// decides the error.
#[verifier::opaque]
pub open spec fn parse_metadata(s: Seq<u8>) -> Parsed<MetadataModel> {
    match parse_bytes(s) {
        Err(e) => Err(e),
        Ok((name, s1)) => match parse_bytes(s1) {
            Err(e) => Err(e),
            Ok((target, s2)) => match parse_level(s2) {
                Err(e) => Err(e),
                Ok((level, s3)) => match parse_bytes(s3) {
                    Err(e) => Err(e),
                    Ok((file, s4)) => match parse_u32(s4) {
                        Err(e) => Err(e),
                        Ok((line, s5)) => match parse_bytes(s5) {
                            Err(e) => Err(e),
                            Ok((mod_path, s6)) => match parse_bool(s6) {
                                Err(e) => Err(e),
                                Ok((is_span, s7)) => match parse_names(s7) {
                                    Err(e) => Err(e),
                                    Ok((fields, rest)) => Ok(
                                        (
                                            MetadataModel {
                                                name,
                                                target,
                                                level,
                                                file,
                                                line,
                                                mod_path,
                                                is_span,
                                                fields,
                                            },
                                            rest,
                                        ),
                                    ),
                                },
                            },
                        },
                    },
                },
            },
        },
    }
}

/// An optional parent identifier: a presence byte, then eight bytes if
/// present.
pub open spec fn parent_wire(p: Option<u64>) -> Seq<u8> {
    match p {
        None => seq![0u8],
        Some(id) => seq![1u8] + u64_wire(id),
    }
}

/// Reads a presence byte and, where it says so, a parent identifier.
pub open spec fn parse_parent(s: Seq<u8>) -> Parsed<Option<u64>> {
    match parse_u8(s) {
        Err(e) => Err(e),
        Ok((flag, rest)) => if flag == 0 {
            Ok((None, rest))
        } else if flag == 1 {
            match parse_u64(rest) {
                Ok((id, after)) => Ok((Some(id), after)),
                Err(e) => Err(e),
            }
        } else {
            Err(DecodeError::InvalidOption)
        },
    }
}

/// Whether the entry can be written.
pub open spec fn attributes_fit(a: AttributesModel) -> bool {
    &&& metadata_fits(a.metadata)
    &&& entries_fit(a.fields)
}

/// An entry on the wire: the parent, the metadata, the values.
pub open spec fn attributes_wire(a: AttributesModel) -> Seq<u8> {
    parent_wire(a.parent_id) + metadata_wire(a.metadata) + entries_wire(a.fields)
}

/// Reads the parent, the metadata and the values, in this order; the first
/// that cannot be read decides the error.
pub open spec fn parse_attributes(s: Seq<u8>) -> Parsed<AttributesModel> {
    match parse_parent(s) {
        Err(e) => Err(e),
        Ok((parent_id, s1)) => match parse_metadata(s1) {
            Err(e) => Err(e),
            Ok((metadata, s2)) => match parse_entries(s2) {
                Err(e) => Err(e),
                Ok((fields, rest)) => Ok((AttributesModel { parent_id, metadata, fields }, rest)),
            },
        },
    }
}

// ---------------------------------------------------------------------------
// Laws
// ---------------------------------------------------------------------------

/// Reading a metadata record written in front of `tail` gives the record
/// back, member for member, and `tail`.
pub proof fn lemma_metadata_round_trip(m: MetadataModel, tail: Seq<u8>)
    requires
        metadata_fits(m),
    ensures
        parse_metadata(metadata_wire(m) + tail) == Ok::<(MetadataModel, Seq<u8>), DecodeError>(
            (m, tail),
        ),
{
    reveal(metadata_wire);
    reveal(parse_metadata);
    let t7 = names_wire(m.fields) + tail;
    let t6 = seq![bool_byte(m.is_span)] + t7;
    let t5 = bytes_wire(m.mod_path) + t6;
    let t4 = u32_wire(m.line) + t5;
    let t3 = bytes_wire(m.file) + t4;
    let t2 = level_wire(m.level) + t3;
    let t1 = bytes_wire(m.target) + t2;
    assert(metadata_wire(m) + tail =~= bytes_wire(m.name) + t1);
    lemma_bytes_round_trip(m.name, t1);
    lemma_bytes_round_trip(m.target, t2);
    lemma_level_round_trip(m.level, t3);
    lemma_bytes_round_trip(m.file, t4);
    lemma_u32_round_trip(m.line, t5);
    lemma_bytes_round_trip(m.mod_path, t6);
    lemma_bool_round_trip(m.is_span, t7);
    lemma_names_round_trip(m.fields, tail);
}

/// Reading an optional parent written in front of `tail` gives it back.
pub proof fn lemma_parent_round_trip(p: Option<u64>, tail: Seq<u8>)
    ensures
        parse_parent(parent_wire(p) + tail) == Ok::<(Option<u64>, Seq<u8>), DecodeError>((p, tail)),
{
    match p {
        None => {
            lemma_u8_round_trip(0, tail);
        },
        Some(id) => {
            let body = u64_wire(id) + tail;
            assert(parent_wire(p) + tail =~= seq![1u8] + body);
            lemma_u8_round_trip(1, body);
            lemma_u64_round_trip(id, tail);
        },
    }
}

/// Reading an entry written in front of `tail` gives the entry back: the
/// same parent, the same metadata, the same values in the same order, with
/// present values present and absent values absent.
pub proof fn lemma_attributes_round_trip(a: AttributesModel, tail: Seq<u8>)
    requires
        attributes_fit(a),
    ensures
        parse_attributes(attributes_wire(a) + tail) == Ok::<(AttributesModel, Seq<u8>), DecodeError>(
            (a, tail),
        ),
{
    let t2 = entries_wire(a.fields) + tail;
    let t1 = metadata_wire(a.metadata) + t2;
    assert(attributes_wire(a) + tail =~= parent_wire(a.parent_id) + t1);
    lemma_parent_round_trip(a.parent_id, t1);
    lemma_metadata_round_trip(a.metadata, t2);
    lemma_entries_round_trip(a.fields, tail);
}

/// A metadata record that is read can be written, and was written at the
/// front of the input.
pub proof fn lemma_metadata_canonical(s: Seq<u8>)
    ensures
        parse_metadata(s) matches Ok((m, rest)) ==> metadata_fits(m) && s == metadata_wire(m)
            + rest,
{
    reveal(parse_metadata);
    match parse_metadata(s) {
        Err(_) => {},
        Ok((m, rest)) => {
            lemma_bytes_canonical(s);
            let s1 = parse_bytes(s)->Ok_0.1;
            let by_name = bytes_wire(m.name);
            assert(s == by_name + s1);
            lemma_bytes_canonical(s1);
            let s2 = parse_bytes(s1)->Ok_0.1;
            let by_target = by_name + bytes_wire(m.target);
            lemma_concat_assoc(by_name, bytes_wire(m.target), s2);
            assert(s == by_target + s2);
            lemma_level_canonical(s2);
            let s3 = parse_level(s2)->Ok_0.1;
            let by_level = by_target + level_wire(m.level);
            lemma_concat_assoc(by_target, level_wire(m.level), s3);
            assert(s == by_level + s3);
            lemma_bytes_canonical(s3);
            let s4 = parse_bytes(s3)->Ok_0.1;
            let by_file = by_level + bytes_wire(m.file);
            lemma_concat_assoc(by_level, bytes_wire(m.file), s4);
            assert(s == by_file + s4);
            lemma_u32_canonical(s4);
            let s5 = parse_u32(s4)->Ok_0.1;
            let by_line = by_file + u32_wire(m.line);
            lemma_concat_assoc(by_file, u32_wire(m.line), s5);
            assert(s == by_line + s5);
            lemma_bytes_canonical(s5);
            let s6 = parse_bytes(s5)->Ok_0.1;
            let by_mod = by_line + bytes_wire(m.mod_path);
            lemma_concat_assoc(by_line, bytes_wire(m.mod_path), s6);
            assert(s == by_mod + s6);
            lemma_bool_canonical(s6);
            let s7 = parse_bool(s6)->Ok_0.1;
            let by_kind = by_mod + seq![bool_byte(m.is_span)];
            lemma_concat_assoc(by_mod, seq![bool_byte(m.is_span)], s7);
            assert(s == by_kind + s7);
            lemma_names_canonical(s7);
            lemma_concat_assoc(by_kind, names_wire(m.fields), rest);
            assert(metadata_wire(m) == by_kind + names_wire(m.fields)) by {
                reveal(metadata_wire);
            }
        },
    }
}

/// An optional parent that is read was written at the front of the input.
pub proof fn lemma_parent_canonical(s: Seq<u8>)
    ensures
        parse_parent(s) matches Ok((p, rest)) ==> s == parent_wire(p) + rest,
{
    lemma_u8_canonical(s);
    match parse_u8(s) {
        Err(_) => {},
        Ok((flag, body)) => {
            if flag == 1 {
                lemma_u64_canonical(body);
                match parse_u64(body) {
                    Err(_) => {},
                    Ok((id, rest)) => {
                        assert(s =~= (seq![1u8] + u64_wire(id)) + rest);
                    },
                }
            }
        },
    }
}

/// An entry that is read can be written, and was written at the front of
/// the input.
pub proof fn lemma_attributes_canonical(s: Seq<u8>)
    ensures
        parse_attributes(s) matches Ok((a, rest)) ==> attributes_fit(a) && s == attributes_wire(a)
            + rest,
{
    lemma_parent_canonical(s);
    match parse_parent(s) {
        Err(_) => {},
        Ok((parent_id, s1)) => {
            lemma_metadata_canonical(s1);
            match parse_metadata(s1) {
                Err(_) => {},
                Ok((metadata, s2)) => {
                    lemma_entries_canonical(s2);
                    match parse_entries(s2) {
                        Err(_) => {},
                        Ok((fields, rest)) => {
                            assert(s =~= (parent_wire(parent_id) + metadata_wire(metadata)
                                + entries_wire(fields)) + rest);
                        },
                    }
                },
            }
        },
    }
}

/// The two directions together: bytes are read as an entry, leaving `rest`,
/// exactly when the entry can be written and the bytes are what it is
/// written as, followed by `rest`.
pub proof fn lemma_attributes_read_iff_written(s: Seq<u8>, a: AttributesModel, rest: Seq<u8>)
    ensures
        parse_attributes(s) == Ok::<(AttributesModel, Seq<u8>), DecodeError>((a, rest)) <==> (
        attributes_fit(a) && s == attributes_wire(a) + rest),
{
    lemma_attributes_canonical(s);
    if attributes_fit(a) && s == attributes_wire(a) + rest {
        lemma_attributes_round_trip(a, rest);
    }
}

// ---------------------------------------------------------------------------
// Writers and readers
// ---------------------------------------------------------------------------

impl WasmMetadata {
    /// Whether the record can be written: every text and the field list fit
    /// the length prefix.
    pub fn can_encode(&self) -> (r: bool)
        ensures
            r == metadata_fits(self@),
    {
        len_fits(self.name.len()) && len_fits(self.target.len()) && len_fits(self.file.len())
            && len_fits(self.mod_path.len()) && self.fields.can_encode()
    }

    pub(crate) fn encode_to(&self, out: &mut Vec<u8>)
        requires
            metadata_fits(self@),
        ensures
            final(out)@ == old(out)@ + metadata_wire(self@),
    {
        put_bytes(out, self.name.as_slice());
        put_bytes(out, self.target.as_slice());
        self.level.encode_to(out);
        put_bytes(out, self.file.as_slice());
        put_u32(out, self.line);
        put_bytes(out, self.mod_path.as_slice());
        put_bool(out, self.is_span);
        self.fields.encode_to(out);
        proof {
            reveal(metadata_wire);
        }
        assert(out@ =~= old(out)@ + metadata_wire(self@));
    }

    /// The bytes this record is written as, or `None` where something in it
    /// is too long for the length prefix.
    pub fn encode(&self) -> (r: Option<Vec<u8>>)
        ensures
            r is Some <==> metadata_fits(self@),
            r matches Some(out) ==> out@ == metadata_wire(self@),
    {
        if self.can_encode() {
            let mut out: Vec<u8> = Vec::new();
            self.encode_to(&mut out);
            assert(out@ =~= metadata_wire(self@));
            Some(out)
        } else {
            None
        }
    }

    /// Reads a record off the front of `input` and returns it with the bytes
    /// that follow it.
    pub fn decode<'a>(input: &'a [u8]) -> (r: Result<(WasmMetadata, &'a [u8]), DecodeError>)
        ensures
            outcome(r) == parse_metadata(input@),
    {
        proof {
            reveal(parse_metadata);
        }
        let (name, s1) = take_bytes(input)?;
        let (target, s2) = take_bytes(s1)?;
        let (level, s3) = WasmLevel::decode(s2)?;
        let (file, s4) = take_bytes(s3)?;
        let (line, s5) = take_u32(s4)?;
        let (mod_path, s6) = take_bytes(s5)?;
        let (is_span, s7) = take_bool(s6)?;
        let (fields, rest) = WasmFields::decode(s7)?;
        Ok((WasmMetadata { name, target, level, file, line, mod_path, is_span, fields }, rest))
    }
}

fn put_parent(out: &mut Vec<u8>, p: Option<u64>)
    ensures
        final(out)@ == old(out)@ + parent_wire(p),
{
    match p {
        None => {
            out.push(0);
        },
        Some(id) => {
            out.push(1);
            put_u64(out, id);
        },
    }
    assert(out@ =~= old(out)@ + parent_wire(p));
}

fn take_parent<'a>(input: &'a [u8]) -> (r: Result<(Option<u64>, &'a [u8]), DecodeError>)
    ensures
        outcome(r) == parse_parent(input@),
{
    let (flag, rest) = take_u8(input)?;
    if flag == 0 {
        Ok((None, rest))
    } else if flag == 1 {
        let (id, after) = take_u64(rest)?;
        Ok((Some(id), after))
    } else {
        Err(DecodeError::InvalidOption)
    }
}

impl WasmEntryAttributes {
    /// Whether the entry can be written.
    pub fn can_encode(&self) -> (r: bool)
        ensures
            r == attributes_fit(self@),
    {
        self.metadata.can_encode() && self.fields.can_encode()
    }

    /// The bytes this entry crosses the boundary as, or `None` where
    /// something in it is too long for the length prefix.
    pub fn encode(&self) -> (r: Option<Vec<u8>>)
        ensures
            r is Some <==> attributes_fit(self@),
            r matches Some(out) ==> out@ == attributes_wire(self@),
    {
        if self.can_encode() {
            let mut out: Vec<u8> = Vec::new();
            put_parent(&mut out, self.parent_id);
            self.metadata.encode_to(&mut out);
            self.fields.encode_to(&mut out);
            assert(out@ =~= attributes_wire(self@));
            Some(out)
        } else {
            None
        }
    }

    /// Reads an entry off the front of `input` and returns it with the bytes
    /// that follow it.
    pub fn decode<'a>(input: &'a [u8]) -> (r: Result<(WasmEntryAttributes, &'a [u8]), DecodeError>)
        ensures
            outcome(r) == parse_attributes(input@),
    {
        let (parent_id, s1) = take_parent(input)?;
        let (metadata, s2) = WasmMetadata::decode(s1)?;
        let (fields, rest) = WasmValuesSet::decode(s2)?;
        Ok((WasmEntryAttributes { parent_id, metadata, fields }, rest))
    }
}

} // verus!
