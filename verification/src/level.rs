//! The severity of a trace entry.
use crate::wire::{outcome, parse_u8, take_u8, DecodeError, Parsed};
use vstd::prelude::*;

verus! {

/// The tracing level, from most to least severe. The host filters by it.
#[derive(Clone, Copy, Debug, PartialEq, Eq, Structural)]
pub enum WasmLevel {
    /// A fatal error.
    ERROR,
    /// A warning to be aware of.
    WARN,
    /// Information that is nice to know.
    INFO,
    /// Further information for debugging.
    DEBUG,
    /// The lowest level: minute detail.
    TRACE,
}

impl View for WasmLevel {
    type V = WasmLevel;

    open spec fn view(&self) -> WasmLevel {
        *self
    }
}

/// The discriminant a level is written as: its rank, most severe first.
pub open spec fn level_tag(l: WasmLevel) -> u8 {
    match l {
        WasmLevel::ERROR => 0,
        WasmLevel::WARN => 1,
        WasmLevel::INFO => 2,
        WasmLevel::DEBUG => 3,
        WasmLevel::TRACE => 4,
    }
}

/// A level on the wire: the one byte of its discriminant.
pub open spec fn level_wire(l: WasmLevel) -> Seq<u8> {
    seq![level_tag(l)]
}

/// Reads a level; a discriminant above 4 is refused, not defaulted.
pub open spec fn parse_level(s: Seq<u8>) -> Parsed<WasmLevel> {
    match parse_u8(s) {
        Err(e) => Err(e),
        Ok((tag, rest)) => if tag == 0 {
            Ok((WasmLevel::ERROR, rest))
        } else if tag == 1 {
            Ok((WasmLevel::WARN, rest))
        } else if tag == 2 {
            Ok((WasmLevel::INFO, rest))
        } else if tag == 3 {
            Ok((WasmLevel::DEBUG, rest))
        } else if tag == 4 {
            Ok((WasmLevel::TRACE, rest))
        } else {
            Err(DecodeError::UnknownLevel)
        },
    }
}

/// Distinct levels have distinct discriminants, all below five.
pub proof fn lemma_level_tag_distinct(a: WasmLevel, b: WasmLevel)
    ensures
        level_tag(a) < 5,
        level_tag(a) == level_tag(b) ==> a == b,
{
}

/// Reading a level written in front of `tail` gives the level and `tail`.
pub proof fn lemma_level_round_trip(l: WasmLevel, tail: Seq<u8>)
    ensures
        parse_level(level_wire(l) + tail) == Ok::<(WasmLevel, Seq<u8>), DecodeError>((l, tail)),
{
    assert((level_wire(l) + tail).skip(1) =~= tail);
}

/// A level that is read was written as the first byte of the input.
pub proof fn lemma_level_canonical(s: Seq<u8>)
    ensures
        parse_level(s) matches Ok((l, rest)) ==> s == level_wire(l) + rest,
{
    if s.len() >= 1 {
        assert(s =~= seq![s[0]] + s.skip(1));
    }
}

impl WasmLevel {
    /// The discriminant this level is written as.
    pub fn tag(&self) -> (t: u8)
        ensures
            t == level_tag(*self),
    {
        match self {
            WasmLevel::ERROR => 0,
            WasmLevel::WARN => 1,
            WasmLevel::INFO => 2,
            WasmLevel::DEBUG => 3,
            WasmLevel::TRACE => 4,
        }
    }

    pub(crate) fn encode_to(&self, out: &mut Vec<u8>)
        ensures
            final(out)@ == old(out)@ + level_wire(*self),
    {
        out.push(self.tag());
        assert(out@ =~= old(out)@ + level_wire(*self));
    }

    /// The bytes this level is written as.
    pub fn encode(&self) -> (out: Vec<u8>)
        ensures
            out@ == level_wire(*self),
    {
        let mut out: Vec<u8> = Vec::new();
        self.encode_to(&mut out);
        assert(out@ =~= level_wire(*self));
        out
    }

    /// Reads a level off the front of `input` and returns it with the bytes
    /// that follow it.
    pub fn decode<'a>(input: &'a [u8]) -> (r: Result<(WasmLevel, &'a [u8]), DecodeError>)
        ensures
            outcome(r) == parse_level(input@),
    {
        let (tag, rest) = take_u8(input)?;
        if tag == 0 {
            Ok((WasmLevel::ERROR, rest))
        } else if tag == 1 {
            Ok((WasmLevel::WARN, rest))
        } else if tag == 2 {
            Ok((WasmLevel::INFO, rest))
        } else if tag == 3 {
            Ok((WasmLevel::DEBUG, rest))
        } else if tag == 4 {
            Ok((WasmLevel::TRACE, rest))
        } else {
            Err(DecodeError::UnknownLevel)
        }
    }
}

} // verus!
