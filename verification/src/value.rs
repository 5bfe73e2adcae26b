//! The value of one captured parameter.
use crate::wire::{
    lemma_bool_canonical, lemma_bytes_canonical, lemma_i32_canonical, lemma_i64_canonical,
    lemma_i8_canonical, lemma_u32_canonical, lemma_u64_canonical, lemma_u8_canonical,
};
use crate::wire::{
    bool_byte, bytes_wire, fits_len, i32_bits, i64_bits, i8_bits, lemma_bool_round_trip,
    lemma_bytes_round_trip, lemma_i32_round_trip, lemma_i64_round_trip, lemma_i8_round_trip,
    lemma_u32_round_trip, lemma_u64_round_trip, lemma_u8_round_trip, len_fits, outcome, parse_bool,
    parse_bytes, parse_i32, parse_i64, parse_i8, parse_u32, parse_u64, parse_u8, put_bool,
    put_bytes, put_i32, put_i64, put_i8, put_u32, put_u64, take_bool, take_bytes, take_i32,
    take_i64, take_i8, take_u32, take_u64, take_u8, u32_wire, u64_wire, DecodeError, Parsed,
};
use vstd::prelude::*;
use vstd::string::StringSliceAdditionalSpecFns;

verus! {

/// A parameter value provided to a span or an event.
///
/// The tag says how the payload is laid out, never what it means: whether
/// bytes are text, rendered output or a pre-serialised object is a convention
/// between the two sides, carried by the variant they choose.
#[derive(Clone, Debug, PartialEq, Eq)]
pub enum WasmValue {
    U8(u8),
    I8(i8),
    U32(u32),
    I32(i32),
    I64(i64),
    U64(u64),
    Bool(bool),
    /// Text, most likely printable UTF-8.
    Str(Vec<u8>),
    /// The output of a debug or display rendering, most likely printable UTF-8.
    Formatted(Vec<u8>),
    /// A pre-serialised object; the field's name tells the receiver how to
    /// read it.
    Encoded(Vec<u8>),
}

/// What a `WasmValue` stands for: the same tagged union over plain sequences.
pub enum ValueModel {
    U8(u8),
    I8(i8),
    U32(u32),
    I32(i32),
    I64(i64),
    U64(u64),
    Bool(bool),
    Str(Seq<u8>),
    Formatted(Seq<u8>),
    Encoded(Seq<u8>),
}

impl View for WasmValue {
    type V = ValueModel;

    open spec fn view(&self) -> ValueModel {
        match self {
            WasmValue::U8(v) => ValueModel::U8(*v),
            WasmValue::I8(v) => ValueModel::I8(*v),
            WasmValue::U32(v) => ValueModel::U32(*v),
            WasmValue::I32(v) => ValueModel::I32(*v),
            WasmValue::I64(v) => ValueModel::I64(*v),
            WasmValue::U64(v) => ValueModel::U64(*v),
            WasmValue::Bool(v) => ValueModel::Bool(*v),
            WasmValue::Str(b) => ValueModel::Str(b@),
            WasmValue::Formatted(b) => ValueModel::Formatted(b@),
            WasmValue::Encoded(b) => ValueModel::Encoded(b@),
        }
    }
}

/// Rendering a formatted-arguments value failed, so nothing was captured.
#[derive(Clone, Copy, Debug, PartialEq, Eq, Structural)]
pub struct CaptureError;

// ---------------------------------------------------------------------------
// Byte format
// ---------------------------------------------------------------------------

/// Whether the value can be written: a byte payload must fit the length
/// prefix.
pub open spec fn value_fits(v: ValueModel) -> bool {
    match v {
        ValueModel::Str(b) => fits_len(b.len()),
        ValueModel::Formatted(b) => fits_len(b.len()),
        ValueModel::Encoded(b) => fits_len(b.len()),
        _ => true,
    }
}

/// The discriminant of each value form, in declaration order.
pub open spec fn value_tag(v: ValueModel) -> u8 {
    match v {
        ValueModel::U8(_) => 0,
        ValueModel::I8(_) => 1,
        ValueModel::U32(_) => 2,
        ValueModel::I32(_) => 3,
        ValueModel::I64(_) => 4,
        ValueModel::U64(_) => 5,
        ValueModel::Bool(_) => 6,
        ValueModel::Str(_) => 7,
        ValueModel::Formatted(_) => 8,
        ValueModel::Encoded(_) => 9,
    }
}

/// What follows the discriminant: integers at their native fixed width,
/// byte payloads behind a length prefix.
#[verifier::opaque]
pub open spec fn value_payload(v: ValueModel) -> Seq<u8> {
    match v {
        ValueModel::U8(x) => seq![x],
        ValueModel::I8(x) => seq![i8_bits(x)],
        ValueModel::U32(x) => u32_wire(x),
        ValueModel::I32(x) => u32_wire(i32_bits(x)),
        ValueModel::I64(x) => u64_wire(i64_bits(x)),
        ValueModel::U64(x) => u64_wire(x),
        ValueModel::Bool(x) => seq![bool_byte(x)],
        ValueModel::Str(b) => bytes_wire(b),
        ValueModel::Formatted(b) => bytes_wire(b),
        ValueModel::Encoded(b) => bytes_wire(b),
    }
}

/// A value on the wire: its discriminant, then its payload.
pub open spec fn value_wire(v: ValueModel) -> Seq<u8> {
    seq![value_tag(v)] + value_payload(v)
}

/// Reads a value; a discriminant above 9 is refused, not defaulted.
#[verifier::opaque]
pub open spec fn parse_value(s: Seq<u8>) -> Parsed<ValueModel> {
    match parse_u8(s) {
        Err(e) => Err(e),
        Ok((tag, body)) => if tag == 0 {
            match parse_u8(body) {
                Ok((x, rest)) => Ok((ValueModel::U8(x), rest)),
                Err(e) => Err(e),
            }
        } else if tag == 1 {
            match parse_i8(body) {
                Ok((x, rest)) => Ok((ValueModel::I8(x), rest)),
                Err(e) => Err(e),
            }
        } else if tag == 2 {
            match parse_u32(body) {
                Ok((x, rest)) => Ok((ValueModel::U32(x), rest)),
                Err(e) => Err(e),
            }
        } else if tag == 3 {
            match parse_i32(body) {
                Ok((x, rest)) => Ok((ValueModel::I32(x), rest)),
                Err(e) => Err(e),
            }
        } else if tag == 4 {
            match parse_i64(body) {
                Ok((x, rest)) => Ok((ValueModel::I64(x), rest)),
                Err(e) => Err(e),
            }
        } else if tag == 5 {
            match parse_u64(body) {
                Ok((x, rest)) => Ok((ValueModel::U64(x), rest)),
                Err(e) => Err(e),
            }
        } else if tag == 6 {
            match parse_bool(body) {
                Ok((x, rest)) => Ok((ValueModel::Bool(x), rest)),
                Err(e) => Err(e),
            }
        } else if tag == 7 {
            match parse_bytes(body) {
                Ok((b, rest)) => Ok((ValueModel::Str(b), rest)),
                Err(e) => Err(e),
            }
        } else if tag == 8 {
            match parse_bytes(body) {
                Ok((b, rest)) => Ok((ValueModel::Formatted(b), rest)),
                Err(e) => Err(e),
            }
        } else if tag == 9 {
            match parse_bytes(body) {
                Ok((b, rest)) => Ok((ValueModel::Encoded(b), rest)),
                Err(e) => Err(e),
            }
        } else {
            Err(DecodeError::UnknownValue)
        },
    }
}

/// Each value form has a discriminant of its own, fixed by the order in
/// which the forms are declared, and all lie below ten.
pub proof fn lemma_value_tags(v: ValueModel)
    ensures
        v is U8 <==> value_tag(v) == 0,
        v is I8 <==> value_tag(v) == 1,
        v is U32 <==> value_tag(v) == 2,
        v is I32 <==> value_tag(v) == 3,
        v is I64 <==> value_tag(v) == 4,
        v is U64 <==> value_tag(v) == 5,
        v is Bool <==> value_tag(v) == 6,
        v is Str <==> value_tag(v) == 7,
        v is Formatted <==> value_tag(v) == 8,
        v is Encoded <==> value_tag(v) == 9,
        value_tag(v) < 10,
        value_wire(v)[0] == value_tag(v),
{
}

/// How wide a number is on the wire depends on its type alone, never on its
/// value: one discriminant byte and one, four or eight bytes.
pub proof fn lemma_number_width(v: ValueModel)
    ensures
        v is U8 || v is I8 || v is Bool ==> value_wire(v).len() == 2,
        v is U32 || v is I32 ==> value_wire(v).len() == 5,
        v is U64 || v is I64 ==> value_wire(v).len() == 9,
{
    reveal(value_payload);
}

/// Reading a value written in front of `tail` gives the value and `tail`.
pub proof fn lemma_value_round_trip(v: ValueModel, tail: Seq<u8>)
    requires
        value_fits(v),
    ensures
        parse_value(value_wire(v) + tail) == Ok::<(ValueModel, Seq<u8>), DecodeError>((v, tail)),
{
    reveal(value_payload);
    reveal(parse_value);
    let body = value_payload(v) + tail;
    assert(value_wire(v) + tail =~= seq![value_tag(v)] + body);
    lemma_u8_round_trip(value_tag(v), body);
    match v {
        ValueModel::U8(x) => lemma_u8_round_trip(x, tail),
        ValueModel::I8(x) => lemma_i8_round_trip(x, tail),
        ValueModel::U32(x) => lemma_u32_round_trip(x, tail),
        ValueModel::I32(x) => lemma_i32_round_trip(x, tail),
        ValueModel::I64(x) => lemma_i64_round_trip(x, tail),
        ValueModel::U64(x) => lemma_u64_round_trip(x, tail),
        ValueModel::Bool(x) => lemma_bool_round_trip(x, tail),
        ValueModel::Str(b) => lemma_bytes_round_trip(b, tail),
        ValueModel::Formatted(b) => lemma_bytes_round_trip(b, tail),
        ValueModel::Encoded(b) => lemma_bytes_round_trip(b, tail),
    }
}

/// A value that is read can be written, and was written at the front of the
/// input.
pub proof fn lemma_value_canonical(s: Seq<u8>)
    ensures
        parse_value(s) matches Ok((v, rest)) ==> value_fits(v) && s == value_wire(v) + rest,
{
    reveal(value_payload);
    reveal(parse_value);
    match parse_value(s) {
        Err(_) => {},
        Ok((v, rest)) => {
            let body = s.skip(1);
            assert(s =~= seq![s[0]] + body);
            lemma_u8_canonical(body);
            lemma_i8_canonical(body);
            lemma_u32_canonical(body);
            lemma_i32_canonical(body);
            lemma_i64_canonical(body);
            lemma_u64_canonical(body);
            lemma_bool_canonical(body);
            lemma_bytes_canonical(body);
            assert(body == value_payload(v) + rest);
            assert(s =~= (seq![value_tag(v)] + value_payload(v)) + rest);
        },
    }
}

impl WasmValue {
    /// Whether this value can be written: its payload fits the length prefix.
    pub fn can_encode(&self) -> (r: bool)
        ensures
            r == value_fits(self@),
    {
        match self {
            WasmValue::Str(b) => len_fits(b.len()),
            WasmValue::Formatted(b) => len_fits(b.len()),
            WasmValue::Encoded(b) => len_fits(b.len()),
            _ => true,
        }
    }

    pub(crate) fn encode_to(&self, out: &mut Vec<u8>)
        requires
            value_fits(self@),
        ensures
            final(out)@ == old(out)@ + value_wire(self@),
    {
        proof {
            reveal(value_payload);
        }
        match self {
            WasmValue::U8(x) => {
                out.push(0);
                out.push(*x);
            },
            WasmValue::I8(x) => {
                out.push(1);
                put_i8(out, *x);
            },
            WasmValue::U32(x) => {
                out.push(2);
                put_u32(out, *x);
            },
            WasmValue::I32(x) => {
                out.push(3);
                put_i32(out, *x);
            },
            WasmValue::I64(x) => {
                out.push(4);
                put_i64(out, *x);
            },
            WasmValue::U64(x) => {
                out.push(5);
                put_u64(out, *x);
            },
            WasmValue::Bool(x) => {
                out.push(6);
                put_bool(out, *x);
            },
            WasmValue::Str(b) => {
                out.push(7);
                put_bytes(out, b.as_slice());
            },
            WasmValue::Formatted(b) => {
                out.push(8);
                put_bytes(out, b.as_slice());
            },
            WasmValue::Encoded(b) => {
                out.push(9);
                put_bytes(out, b.as_slice());
            },
        }
        assert(out@ =~= old(out)@ + value_wire(self@));
    }

    /// The bytes this value is written as, or `None` where a byte payload is
    /// too long for the length prefix.
    pub fn encode(&self) -> (r: Option<Vec<u8>>)
        ensures
            r is Some <==> value_fits(self@),
            r matches Some(out) ==> out@ == value_wire(self@),
    {
        if self.can_encode() {
            let mut out: Vec<u8> = Vec::new();
            self.encode_to(&mut out);
            assert(out@ =~= value_wire(self@));
            Some(out)
        } else {
            None
        }
    }

    /// Reads a value off the front of `input` and returns it with the bytes
    /// that follow it.
    pub fn decode<'a>(input: &'a [u8]) -> (r: Result<(WasmValue, &'a [u8]), DecodeError>)
        ensures
            outcome(r) == parse_value(input@),
    {
        proof {
            reveal(parse_value);
        }
        let (tag, body) = take_u8(input)?;
        if tag == 0 {
            let (x, rest) = take_u8(body)?;
            Ok((WasmValue::U8(x), rest))
        } else if tag == 1 {
            let (x, rest) = take_i8(body)?;
            Ok((WasmValue::I8(x), rest))
        } else if tag == 2 {
            let (x, rest) = take_u32(body)?;
            Ok((WasmValue::U32(x), rest))
        } else if tag == 3 {
            let (x, rest) = take_i32(body)?;
            Ok((WasmValue::I32(x), rest))
        } else if tag == 4 {
            let (x, rest) = take_i64(body)?;
            Ok((WasmValue::I64(x), rest))
        } else if tag == 5 {
            let (x, rest) = take_u64(body)?;
            Ok((WasmValue::U64(x), rest))
        } else if tag == 6 {
            let (x, rest) = take_bool(body)?;
            Ok((WasmValue::Bool(x), rest))
        } else if tag == 7 {
            let (b, rest) = take_bytes(body)?;
            Ok((WasmValue::Str(b), rest))
        } else if tag == 8 {
            let (b, rest) = take_bytes(body)?;
            Ok((WasmValue::Formatted(b), rest))
        } else if tag == 9 {
            let (b, rest) = take_bytes(body)?;
            Ok((WasmValue::Encoded(b), rest))
        } else {
            Err(DecodeError::UnknownValue)
        }
    }

    /// Stores what a rendering produced as a `Formatted` value; a rendering
    /// that failed is reported, and nothing is captured.
    pub fn from_rendered(rendered: Option<Vec<u8>>) -> (r: Result<WasmValue, CaptureError>)
        ensures
            rendered matches Some(b) ==> r is Ok && r->Ok_0@ == ValueModel::Formatted(b@),
            rendered is None ==> r == Err::<WasmValue, CaptureError>(CaptureError),
    {
        match rendered {
            Some(b) => Ok(WasmValue::Formatted(b)),
            None => Err(CaptureError),
        }
    }

    /// Renders `args` at once and stores the output as a `Formatted` value.
    /// Fails only where one of the rendered values reports an error itself.
    pub fn from_arguments(args: &core::fmt::Arguments<'_>) -> (r: Result<WasmValue, CaptureError>)
        ensures
            r matches Ok(v) ==> v@ is Formatted,
    {
        WasmValue::from_rendered(render_arguments(args))
    }
}

/// `core::fmt::Arguments`, carried through as it is: nothing is known of
/// what it will render.
#[verifier::external_type_specification]
#[verifier::external_body]
pub struct ExArguments<'a>(core::fmt::Arguments<'a>);

/// `core::fmt::write` into an `sp_std::Writer`, then `Writer::into_inner`.
/// The writer itself accepts every string, so the only failure is one that a
/// rendered value reports; it comes back as `None`. Nothing is claimed of the
/// bytes: they depend on the values behind `args`, whose own formatting code
/// runs here and is not guarded against.
#[verifier::external_body]
fn render_arguments(args: &core::fmt::Arguments<'_>) -> (r: Option<Vec<u8>>) {
    let mut buf = sp_std::Writer::default();
    match core::fmt::write(&mut buf, *args) {
        Ok(()) => Some(buf.into_inner()),
        Err(_) => None,
    }
}

// ---------------------------------------------------------------------------
// Conversions from native values: one variant per type and width
// ---------------------------------------------------------------------------

impl From<u8> for WasmValue {
    fn from(u: u8) -> (r: WasmValue)
        ensures
            r == WasmValue::U8(u),
    {
        WasmValue::U8(u)
    }
}

impl vstd::std_specs::convert::FromSpecImpl<u8> for WasmValue {
    open spec fn obeys_from_spec() -> bool {
        true
    }

    open spec fn from_spec(u: u8) -> WasmValue {
        WasmValue::U8(u)
    }
}

impl From<i8> for WasmValue {
    fn from(u: i8) -> (r: WasmValue)
        ensures
            r == WasmValue::I8(u),
    {
        WasmValue::I8(u)
    }
}

impl vstd::std_specs::convert::FromSpecImpl<i8> for WasmValue {
    open spec fn obeys_from_spec() -> bool {
        true
    }

    open spec fn from_spec(u: i8) -> WasmValue {
        WasmValue::I8(u)
    }
}

impl From<&i8> for WasmValue {
    fn from(inp: &i8) -> (r: WasmValue)
        ensures
            r == WasmValue::I8(*inp),
    {
        WasmValue::I8(*inp)
    }
}

impl vstd::std_specs::convert::FromSpecImpl<&i8> for WasmValue {
    open spec fn obeys_from_spec() -> bool {
        true
    }

    open spec fn from_spec(inp: &i8) -> WasmValue {
        WasmValue::I8(*inp)
    }
}

impl From<u32> for WasmValue {
    fn from(u: u32) -> (r: WasmValue)
        ensures
            r == WasmValue::U32(u),
    {
        WasmValue::U32(u)
    }
}

impl vstd::std_specs::convert::FromSpecImpl<u32> for WasmValue {
    open spec fn obeys_from_spec() -> bool {
        true
    }

    open spec fn from_spec(u: u32) -> WasmValue {
        WasmValue::U32(u)
    }
}

impl From<&u32> for WasmValue {
    fn from(u: &u32) -> (r: WasmValue)
        ensures
            r == WasmValue::U32(*u),
    {
        WasmValue::U32(*u)
    }
}

impl vstd::std_specs::convert::FromSpecImpl<&u32> for WasmValue {
    open spec fn obeys_from_spec() -> bool {
        true
    }

    open spec fn from_spec(u: &u32) -> WasmValue {
        WasmValue::U32(*u)
    }
}

impl From<i32> for WasmValue {
    fn from(u: i32) -> (r: WasmValue)
        ensures
            r == WasmValue::I32(u),
    {
        WasmValue::I32(u)
    }
}

impl vstd::std_specs::convert::FromSpecImpl<i32> for WasmValue {
    open spec fn obeys_from_spec() -> bool {
        true
    }

    open spec fn from_spec(u: i32) -> WasmValue {
        WasmValue::I32(u)
    }
}

impl From<&i32> for WasmValue {
    fn from(u: &i32) -> (r: WasmValue)
        ensures
            r == WasmValue::I32(*u),
    {
        WasmValue::I32(*u)
    }
}

impl vstd::std_specs::convert::FromSpecImpl<&i32> for WasmValue {
    open spec fn obeys_from_spec() -> bool {
        true
    }

    open spec fn from_spec(u: &i32) -> WasmValue {
        WasmValue::I32(*u)
    }
}

impl From<u64> for WasmValue {
    fn from(u: u64) -> (r: WasmValue)
        ensures
            r == WasmValue::U64(u),
    {
        WasmValue::U64(u)
    }
}

impl vstd::std_specs::convert::FromSpecImpl<u64> for WasmValue {
    open spec fn obeys_from_spec() -> bool {
        true
    }

    open spec fn from_spec(u: u64) -> WasmValue {
        WasmValue::U64(u)
    }
}

impl From<i64> for WasmValue {
    fn from(u: i64) -> (r: WasmValue)
        ensures
            r == WasmValue::I64(u),
    {
        WasmValue::I64(u)
    }
}

impl vstd::std_specs::convert::FromSpecImpl<i64> for WasmValue {
    open spec fn obeys_from_spec() -> bool {
        true
    }

    open spec fn from_spec(u: i64) -> WasmValue {
        WasmValue::I64(u)
    }
}

impl From<bool> for WasmValue {
    fn from(inp: bool) -> (r: WasmValue)
        ensures
            r == WasmValue::Bool(inp),
    {
        WasmValue::Bool(inp)
    }
}

impl vstd::std_specs::convert::FromSpecImpl<bool> for WasmValue {
    open spec fn obeys_from_spec() -> bool {
        true
    }

    open spec fn from_spec(inp: bool) -> WasmValue {
        WasmValue::Bool(inp)
    }
}

impl From<&str> for WasmValue {
    /// The text's UTF-8 bytes, as a `Str`.
    fn from(inp: &str) -> (r: WasmValue)
        ensures
            r@ == ValueModel::Str(inp.spec_bytes()),
    {
        WasmValue::Str(vstd::slice::slice_to_vec(inp.as_bytes()))
    }
}

// `from` describes its result by its view, so there is no `from_spec` to
// obey.
impl vstd::std_specs::convert::FromSpecImpl<&str> for WasmValue {
    open spec fn obeys_from_spec() -> bool {
        false
    }

    open spec fn from_spec(inp: &str) -> WasmValue {
        arbitrary()
    }
}

impl From<&&str> for WasmValue {
    /// The text's UTF-8 bytes, as a `Str`.
    fn from(inp: &&str) -> (r: WasmValue)
        ensures
            r@ == ValueModel::Str((*inp).spec_bytes()),
    {
        WasmValue::Str(vstd::slice::slice_to_vec((*inp).as_bytes()))
    }
}

// `from` describes its result by its view, so there is no `from_spec` to
// obey.
impl vstd::std_specs::convert::FromSpecImpl<&&str> for WasmValue {
    open spec fn obeys_from_spec() -> bool {
        false
    }

    open spec fn from_spec(inp: &&str) -> WasmValue {
        arbitrary()
    }
}

} // verus!
