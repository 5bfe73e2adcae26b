//! Bytes and values as text for the host: lossy decoding of byte strings,
//! and the rendering of a value set into the one `params` text.
use crate::fields::EntryModel;
use crate::value::{ValueModel, WasmValue};
use vstd::prelude::*;
use vstd::string::{StringExecFns, StringSliceAdditionalSpecFns};
use vstd::utf8::{decode_utf8, encode_utf8_decode_utf8, valid_utf8};

verus! {

/// `core::str::Utf8Error`, the error of `core::str::from_utf8`. Nothing is
/// read from it.
#[verifier::external_type_specification]
#[verifier::external_body]
pub struct ExUtf8Error(core::str::Utf8Error);

/// `core::str::from_utf8` succeeds exactly on well-formed UTF-8, and the
/// string slice it gives then consists of the bytes that went in.
pub assume_specification[ core::str::from_utf8 ](v: &[u8]) -> (r: Result<
    &str,
    core::str::Utf8Error,
>)
    ensures
        r is Ok <==> valid_utf8(v@),
        r matches Ok(s) ==> s.spec_bytes() == v@,
;

/// The text that bytes stand for: their decoding where they are well-formed
/// UTF-8, the empty text where they are not.
pub open spec fn text_of(bytes: Seq<u8>) -> Seq<char> {
    if valid_utf8(bytes) {
        decode_utf8(bytes)
    } else {
        Seq::empty()
    }
}

/// Decodes `bytes` as UTF-8; bytes that are not well-formed give the empty
/// string instead of an error.
pub fn lossy_text<'a>(bytes: &'a [u8]) -> (r: &'a str)
    ensures
        r@ == text_of(bytes@),
{
    match core::str::from_utf8(bytes) {
        Ok(s) => {
            proof {
                encode_utf8_decode_utf8(s@);
            }
            s
        },
        Err(_) => {
            proof {
                reveal_strlit("");
            }
            ""
        },
    }
}

// ---------------------------------------------------------------------------
// Numbers
// ---------------------------------------------------------------------------

/// The character of a decimal digit.
pub open spec fn digit_char(d: nat) -> char {
    if d == 0 {
        '0'
    } else if d == 1 {
        '1'
    } else if d == 2 {
        '2'
    } else if d == 3 {
        '3'
    } else if d == 4 {
        '4'
    } else if d == 5 {
        '5'
    } else if d == 6 {
        '6'
    } else if d == 7 {
        '7'
    } else if d == 8 {
        '8'
    } else {
        '9'
    }
}

/// A natural number in decimal, without leading zeros.
pub open spec fn decimal(n: nat) -> Seq<char>
    decreases n,
{
    if n < 10 {
        seq![digit_char(n)]
    } else {
        decimal(n / 10).push(digit_char(n % 10))
    }
}

/// An integer in decimal, with a minus sign in front where it is negative.
pub open spec fn signed_decimal(n: int) -> Seq<char> {
    if n < 0 {
        "-"@ + decimal((-n) as nat)
    } else {
        decimal(n as nat)
    }
}

fn digit_str(d: u8) -> (r: &'static str)
    requires
        d < 10,
    ensures
        r@ == seq![digit_char(d as nat)],
{
    proof {
        reveal_strlit("0");
        reveal_strlit("1");
        reveal_strlit("2");
        reveal_strlit("3");
        reveal_strlit("4");
        reveal_strlit("5");
        reveal_strlit("6");
        reveal_strlit("7");
        reveal_strlit("8");
        reveal_strlit("9");
    }
    let r = if d == 0 {
        "0"
    } else if d == 1 {
        "1"
    } else if d == 2 {
        "2"
    } else if d == 3 {
        "3"
    } else if d == 4 {
        "4"
    } else if d == 5 {
        "5"
    } else if d == 6 {
        "6"
    } else if d == 7 {
        "7"
    } else if d == 8 {
        "8"
    } else {
        "9"
    };
    assert(r@ =~= seq![digit_char(d as nat)]);
    r
}

pub(crate) fn push_decimal(out: &mut String, n: u64)
    ensures
        final(out)@ == old(out)@ + decimal(n as nat),
    decreases n,
{
    if n >= 10 {
        push_decimal(out, n / 10);
    }
    out.append(digit_str((n % 10) as u8));
    assert(out@ =~= old(out)@ + decimal(n as nat));
}

pub(crate) fn push_signed(out: &mut String, n: i64)
    ensures
        final(out)@ == old(out)@ + signed_decimal(n as int),
{
    if n < 0 {
        out.append("-");
        let m: u64 = (-(n + 1)) as u64 + 1;
        push_decimal(out, m);
        assert(out@ =~= old(out)@ + signed_decimal(n as int));
    } else {
        push_decimal(out, n as u64);
    }
}

// ---------------------------------------------------------------------------
// Values
// ---------------------------------------------------------------------------

/// The bytes after the first, each as `, ` and its decimal.
pub open spec fn byte_list_tail(b: Seq<u8>) -> Seq<char>
    decreases b.len(),
{
    if b.len() == 0 {
        Seq::empty()
    } else {
        ", "@ + decimal(b[0] as nat) + byte_list_tail(b.skip(1))
    }
}

/// Bytes as a bracketed list of decimals: `[1, 2, 3]`.
pub open spec fn byte_list(b: Seq<u8>) -> Seq<char> {
    if b.len() == 0 {
        "[]"@
    } else {
        "["@ + decimal(b[0] as nat) + byte_list_tail(b.skip(1)) + "]"@
    }
}

/// A boolean as `true` or `false`.
pub open spec fn bool_text(b: bool) -> Seq<char> {
    if b {
        "true"@
    } else {
        "false"@
    }
}

/// A value as text: the variant's name and, in brackets, integers in
/// decimal, booleans as `true` or `false`, the payload of `Str` and
/// `Formatted` as the text it stands for, and that of `Encoded` as a list of
/// its bytes.
pub open spec fn render_value(v: ValueModel) -> Seq<char> {
    match v {
        ValueModel::U8(x) => "U8("@ + decimal(x as nat) + ")"@,
        ValueModel::I8(x) => "I8("@ + signed_decimal(x as int) + ")"@,
        ValueModel::U32(x) => "U32("@ + decimal(x as nat) + ")"@,
        ValueModel::I32(x) => "I32("@ + signed_decimal(x as int) + ")"@,
        ValueModel::I64(x) => "I64("@ + signed_decimal(x as int) + ")"@,
        ValueModel::U64(x) => "U64("@ + decimal(x as nat) + ")"@,
        ValueModel::Bool(x) => "Bool("@ + bool_text(x) + ")"@,
        ValueModel::Str(b) => "Str("@ + text_of(b) + ")"@,
        ValueModel::Formatted(b) => "Formatted("@ + text_of(b) + ")"@,
        ValueModel::Encoded(b) => "Encoded("@ + byte_list(b) + ")"@,
    }
}

/// A value that may be missing: `Some(..)` around the value, or `None`.
pub open spec fn render_opt_value(o: Option<ValueModel>) -> Seq<char> {
    match o {
        Some(v) => "Some("@ + render_value(v) + ")"@,
        None => "None"@,
    }
}

/// One entry: the name as the text it stands for, then the value.
pub open spec fn render_entry(e: EntryModel) -> Seq<char> {
    "(WasmFieldName("@ + text_of(e.0) + "), "@ + render_opt_value(e.1) + ")"@
}

/// The entries after the first, each as `, ` and its rendering.
pub open spec fn render_entries_tail(entries: Seq<EntryModel>) -> Seq<char>
    decreases entries.len(),
{
    if entries.len() == 0 {
        Seq::empty()
    } else {
        ", "@ + render_entry(entries[0]) + render_entries_tail(entries.skip(1))
    }
}

/// A value set as one text: its entries in order, separated by `, `.
pub open spec fn render_entries(entries: Seq<EntryModel>) -> Seq<char> {
    if entries.len() == 0 {
        "WasmValuesSet([])"@
    } else {
        "WasmValuesSet(["@ + render_entry(entries[0]) + render_entries_tail(entries.skip(1))
            + "])"@
    }
}

fn push_byte_list(out: &mut String, b: &[u8])
    ensures
        final(out)@ == old(out)@ + byte_list(b@),
{
    if b.len() == 0 {
        out.append("[]");
        return ;
    }
    out.append("[");
    push_decimal(out, b[0] as u64);
    let ghost start = out@;
    let mut i: usize = 1;
    assert(byte_list_tail(b@.skip(1)) + Seq::<char>::empty() =~= byte_list_tail(b@.skip(1)));
    while i < b.len()
        invariant
            1 <= i <= b.len(),
            out@ + byte_list_tail(b@.skip(i as int)) == start + byte_list_tail(b@.skip(1)),
        decreases b.len() - i,
    {
        let ghost before = out@;
        let ghost left = b@.skip(i as int);
        assert(left[0] == b@[i as int]);
        assert(left.skip(1) =~= b@.skip(i + 1));
        out.append(", ");
        push_decimal(out, b[i] as u64);
        assert(out@ + byte_list_tail(b@.skip(i + 1)) =~= before + byte_list_tail(left));
        i = i + 1;
    }
    assert(byte_list_tail(b@.skip(i as int)) =~= Seq::<char>::empty());
    out.append("]");
    assert(out@ =~= old(out)@ + byte_list(b@));
}

pub(crate) fn push_value(out: &mut String, v: &WasmValue)
    ensures
        final(out)@ == old(out)@ + render_value(v@),
{
    match v {
        WasmValue::U8(x) => {
            out.append("U8(");
            push_decimal(out, *x as u64);
        },
        WasmValue::I8(x) => {
            out.append("I8(");
            push_signed(out, *x as i64);
        },
        WasmValue::U32(x) => {
            out.append("U32(");
            push_decimal(out, *x as u64);
        },
        WasmValue::I32(x) => {
            out.append("I32(");
            push_signed(out, *x as i64);
        },
        WasmValue::I64(x) => {
            out.append("I64(");
            push_signed(out, *x);
        },
        WasmValue::U64(x) => {
            out.append("U64(");
            push_decimal(out, *x);
        },
        WasmValue::Bool(x) => {
            out.append("Bool(");
            if *x {
                out.append("true");
            } else {
                out.append("false");
            }
        },
        WasmValue::Str(b) => {
            out.append("Str(");
            out.append(lossy_text(b.as_slice()));
        },
        WasmValue::Formatted(b) => {
            out.append("Formatted(");
            out.append(lossy_text(b.as_slice()));
        },
        WasmValue::Encoded(b) => {
            out.append("Encoded(");
            push_byte_list(out, b.as_slice());
        },
    }
    out.append(")");
    assert(out@ =~= old(out)@ + render_value(v@));
}

pub(crate) fn push_entry(out: &mut String, name: &[u8], value: &Option<WasmValue>)
    ensures
        final(out)@ == old(out)@ + render_entry((name@, crate::fields::opt_model(*value))),
{
    out.append("(WasmFieldName(");
    out.append(lossy_text(name));
    out.append("), ");
    match value {
        Some(v) => {
            out.append("Some(");
            push_value(out, v);
            out.append(")");
        },
        None => {
            out.append("None");
        },
    }
    out.append(")");
    assert(out@ =~= old(out)@ + render_entry((name@, crate::fields::opt_model(*value))));
}

} // verus!
