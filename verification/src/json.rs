//! A JSON value model and text codec for the V1 side of the translator.
//!
//! Values hold text as UTF-8 bytes and numbers as unsigned integers, which
//! covers the JSON-RPC traffic the bridge consumes. `json_text` is the
//! specification-level rendering; the serializer is proved to emit exactly
//! that text.

use vstd::prelude::*;

verus! {

/// A JSON value.
#[derive(Debug, PartialEq, Eq)]
pub enum JsonValue {
    /// `null`.
    Null,
    /// `true` or `false`.
    Bool(bool),
    /// An unsigned integer number.
    Number(u64),
    /// A string, held as its UTF-8 bytes.
    Str(Vec<u8>),
    /// An array of values.
    Array(Vec<JsonValue>),
    /// An object: ordered fields, each a name and a value.
    Object(Vec<(Vec<u8>, JsonValue)>),
}

/// The escaped form of one string byte: quote, backslash and the common
/// control characters take a two-byte escape, all else stands as it is.
pub open spec fn esc_byte(b: u8) -> Seq<u8> {
    if b == 0x22 {
        seq![0x5cu8, 0x22u8]
    } else if b == 0x5c {
        seq![0x5cu8, 0x5cu8]
    } else if b == 0x0a {
        seq![0x5cu8, 0x6eu8]
    } else if b == 0x0d {
        seq![0x5cu8, 0x72u8]
    } else if b == 0x09 {
        seq![0x5cu8, 0x74u8]
    } else {
        seq![b]
    }
}

/// The escaped form of a string's bytes.
pub open spec fn esc_bytes(s: Seq<u8>) -> Seq<u8>
    decreases s.len(),
{
    if s.len() == 0 {
        Seq::empty()
    } else {
        esc_byte(s.first()) + esc_bytes(s.drop_first())
    }
}

/// The shortest decimal form of a number.
pub open spec fn dec_digits(n: nat) -> Seq<u8>
    decreases n,
{
    if n < 10 {
        seq![(0x30 + n) as u8]
    } else {
        dec_digits(n / 10) + seq![(0x30 + n % 10) as u8]
    }
}

/// The JSON text of a value: no added whitespace, object fields in held
/// order.
pub open spec fn json_text(v: JsonValue) -> Seq<u8>
    decreases v, 1int, 0int,
{
    match v {
        JsonValue::Null => seq![0x6eu8, 0x75u8, 0x6cu8, 0x6cu8],
        JsonValue::Bool(b) => if b {
            seq![0x74u8, 0x72u8, 0x75u8, 0x65u8]
        } else {
            seq![0x66u8, 0x61u8, 0x6cu8, 0x73u8, 0x65u8]
        },
        JsonValue::Number(n) => dec_digits(n as nat),
        JsonValue::Str(s) => seq![0x22u8] + esc_bytes(s@) + seq![0x22u8],
        JsonValue::Array(_) => seq![0x5bu8] + arr_text_from(v, 0) + seq![0x5du8],
        JsonValue::Object(_) => seq![0x7bu8] + obj_text_from(v, 0) + seq![0x7du8],
    }
}

/// The comma-joined texts of an array's elements from index `i` on.
pub open spec fn arr_text_from(v: JsonValue, i: int) -> Seq<u8>
    recommends
        v is Array,
    decreases
            v,
            0int,
            (if v is Array && i <= v->Array_0@.len() {
                v->Array_0@.len() - i
            } else {
                0
            }),
    via arr_text_from_decreases
{
    if v is Array && 0 <= i < v->Array_0@.len() {
        let head = json_text(v->Array_0@[i]);
        if i + 1 == v->Array_0@.len() {
            head
        } else {
            head + seq![0x2cu8] + arr_text_from(v, i + 1)
        }
    } else {
        Seq::empty()
    }
}

#[via_fn]
proof fn arr_text_from_decreases(v: JsonValue, i: int) {
    if v is Array && 0 <= i < v->Array_0@.len() {
        assert(decreases_to!(v => v->Array_0));
        assert(decreases_to!(v->Array_0 => v->Array_0@));
        assert(decreases_to!(v->Array_0@ => v->Array_0@[i]));
        assert(decreases_to!(v => v->Array_0@[i]));
    }
}

/// The comma-joined `"name":value` texts of an object's fields from index
/// `i` on.
pub open spec fn obj_text_from(v: JsonValue, i: int) -> Seq<u8>
    recommends
        v is Object,
    decreases
            v,
            0int,
            (if v is Object && i <= v->Object_0@.len() {
                v->Object_0@.len() - i
            } else {
                0
            }),
    via obj_text_from_decreases
{
    if v is Object && 0 <= i < v->Object_0@.len() {
        let head = seq![0x22u8] + esc_bytes(v->Object_0@[i].0@) + seq![0x22u8, 0x3au8] + json_text(
            v->Object_0@[i].1,
        );
        if i + 1 == v->Object_0@.len() {
            head
        } else {
            head + seq![0x2cu8] + obj_text_from(v, i + 1)
        }
    } else {
        Seq::empty()
    }
}

#[via_fn]
proof fn obj_text_from_decreases(v: JsonValue, i: int) {
    if v is Object && 0 <= i < v->Object_0@.len() {
        assert(decreases_to!(v => v->Object_0));
        assert(decreases_to!(v->Object_0 => v->Object_0@));
        assert(decreases_to!(v->Object_0@ => v->Object_0@[i]));
        assert(decreases_to!(v->Object_0@[i] => v->Object_0@[i].1));
        assert(decreases_to!(v => v->Object_0@[i].1));
    }
}

/// The comma-joined texts of an array's first `i` elements.
pub open spec fn arr_text_upto(v: JsonValue, i: int) -> Seq<u8>
    decreases i,
{
    if !(v is Array) || i <= 0 || i > v->Array_0@.len() {
        Seq::empty()
    } else if i == 1 {
        json_text(v->Array_0@[0])
    } else {
        arr_text_upto(v, i - 1) + seq![0x2cu8] + json_text(v->Array_0@[i - 1])
    }
}

/// The comma-joined field texts of an object's first `i` fields.
pub open spec fn obj_text_upto(v: JsonValue, i: int) -> Seq<u8>
    decreases i,
{
    if !(v is Object) || i <= 0 || i > v->Object_0@.len() {
        Seq::empty()
    } else {
        let f = v->Object_0@[i - 1];
        let head = seq![0x22u8] + esc_bytes(f.0@) + seq![0x22u8, 0x3au8] + json_text(f.1);
        if i == 1 {
            head
        } else {
            obj_text_upto(v, i - 1) + seq![0x2cu8] + head
        }
    }
}

/// Splits the whole array body at `i`: the first `i` elements, then the
/// rest.
proof fn lemma_arr_text_whole(v: JsonValue, i: int)
    requires
        v is Array,
        0 <= i <= v->Array_0@.len(),
    ensures
        arr_text_from(v, 0) == (if i == 0 {
            arr_text_from(v, i)
        } else if i == v->Array_0@.len() {
            arr_text_upto(v, i)
        } else {
            arr_text_upto(v, i) + seq![0x2cu8] + arr_text_from(v, i)
        }),
    decreases i,
{
    if i > 0 {
        lemma_arr_text_whole(v, i - 1);
    }
}

/// Splits the whole object body at `i`: the first `i` fields, then the
/// rest.
proof fn lemma_obj_text_whole(v: JsonValue, i: int)
    requires
        v is Object,
        0 <= i <= v->Object_0@.len(),
    ensures
        obj_text_from(v, 0) == (if i == 0 {
            obj_text_from(v, i)
        } else if i == v->Object_0@.len() {
            obj_text_upto(v, i)
        } else {
            obj_text_upto(v, i) + seq![0x2cu8] + obj_text_from(v, i)
        }),
    decreases i,
{
    if i > 0 {
        lemma_obj_text_whole(v, i - 1);
    }
}

/// Appends the escaped form of a string's bytes.
fn write_escaped(s: &Vec<u8>, out: &mut Vec<u8>)
    ensures
        final(out)@ == old(out)@ + esc_bytes(s@),
{
    let mut i: usize = 0;
    while i < s.len()
        invariant
            i <= s@.len(),
            out@ == old(out)@ + esc_bytes(s@.take(i as int)),
        decreases s@.len() - i,
    {
        let b = s[i];
        proof {
            lemma_esc_bytes_push(s@.take(i as int), b);
            assert(s@.take(i + 1) =~= s@.take(i as int).push(b));
        }
        if b == 0x22 {
            out.push(0x5c);
            out.push(0x22);
        } else if b == 0x5c {
            out.push(0x5c);
            out.push(0x5c);
        } else if b == 0x0a {
            out.push(0x5c);
            out.push(0x6e);
        } else if b == 0x0d {
            out.push(0x5c);
            out.push(0x72);
        } else if b == 0x09 {
            out.push(0x5c);
            out.push(0x74);
        } else {
            out.push(b);
        }
        proof {
            assert(out@ =~= old(out)@ + esc_bytes(s@.take(i + 1)));
        }
        i = i + 1;
    }
    proof {
        assert(s@.take(s@.len() as int) =~= s@);
    }
}

/// Escaping one more byte appends its escape.
proof fn lemma_esc_bytes_push(s: Seq<u8>, b: u8)
    ensures
        esc_bytes(s.push(b)) == esc_bytes(s) + esc_byte(b),
    decreases s.len(),
{
    if s.len() == 0 {
        assert(s.push(b).drop_first() =~= s);
        assert(esc_bytes(s.push(b)) =~= esc_bytes(s) + esc_byte(b));
    } else {
        assert(s.push(b).drop_first() =~= s.drop_first().push(b));
        lemma_esc_bytes_push(s.drop_first(), b);
        assert(esc_bytes(s.push(b)) =~= esc_bytes(s) + esc_byte(b));
    }
}

/// Appends the shortest decimal form of `n`.
fn write_number(n: u64, out: &mut Vec<u8>)
    ensures
        final(out)@ == old(out)@ + dec_digits(n as nat),
    decreases n,
{
    if n < 10 {
        out.push(0x30 + (n as u8));
        proof {
            assert(final(out)@ =~= old(out)@ + dec_digits(n as nat));
        }
    } else {
        write_number(n / 10, out);
        out.push(0x30 + ((n % 10) as u8));
        proof {
            assert(final(out)@ =~= old(out)@ + dec_digits(n as nat));
        }
    }
}

/// Appends the JSON text of `v`.
pub fn write_json(v: &JsonValue, out: &mut Vec<u8>)
    ensures
        final(out)@ == old(out)@ + json_text(*v),
    decreases *v,
{
    match v {
        JsonValue::Null => {
            out.push(0x6e);
            out.push(0x75);
            out.push(0x6c);
            out.push(0x6c);
            proof {
                assert(final(out)@ =~= old(out)@ + json_text(*v));
            }
        },
        JsonValue::Bool(b) => {
            if *b {
                out.push(0x74);
                out.push(0x72);
                out.push(0x75);
                out.push(0x65);
            } else {
                out.push(0x66);
                out.push(0x61);
                out.push(0x6c);
                out.push(0x73);
                out.push(0x65);
            }
            proof {
                assert(final(out)@ =~= old(out)@ + json_text(*v));
            }
        },
        JsonValue::Number(n) => {
            write_number(*n, out);
        },
        JsonValue::Str(s) => {
            out.push(0x22);
            write_escaped(s, out);
            out.push(0x22);
            proof {
                assert(final(out)@ =~= old(out)@ + json_text(*v));
            }
        },
        JsonValue::Array(xs) => {
            out.push(0x5b);
            let mut i: usize = 0;
            while i < xs.len()
                invariant
                    i <= xs@.len(),
                    *v == JsonValue::Array(*xs),
                    out@ == old(out)@ + seq![0x5bu8] + arr_text_upto(*v, i as int),
                decreases xs@.len() - i,
            {
                if i > 0 {
                    out.push(0x2c);
                }
                proof {
                    let vv = *v;
                    assert(decreases_to!(vv => vv->Array_0@[i as int])) by {
                        assert(decreases_to!(vv => vv->Array_0));
                        assert(decreases_to!(vv->Array_0 => vv->Array_0@));
                        assert(decreases_to!(vv->Array_0@ => vv->Array_0@[i as int]));
                    }
                }
                write_json(&xs[i], out);
                proof {
                    assert(out@ =~= old(out)@ + seq![0x5bu8] + arr_text_upto(*v, i + 1));
                }
                i = i + 1;
            }
            out.push(0x5d);
            proof {
                lemma_arr_text_whole(*v, xs@.len() as int);
                assert(final(out)@ =~= old(out)@ + json_text(*v));
            }
        },
        JsonValue::Object(fs) => {
            out.push(0x7b);
            let mut i: usize = 0;
            while i < fs.len()
                invariant
                    i <= fs@.len(),
                    *v == JsonValue::Object(*fs),
                    out@ == old(out)@ + seq![0x7bu8] + obj_text_upto(*v, i as int),
                decreases fs@.len() - i,
            {
                if i > 0 {
                    out.push(0x2c);
                }
                out.push(0x22);
                write_escaped(&fs[i].0, out);
                out.push(0x22);
                out.push(0x3a);
                proof {
                    let vv = *v;
                    assert(decreases_to!(vv => vv->Object_0@[i as int].1)) by {
                        assert(decreases_to!(vv => vv->Object_0));
                        assert(decreases_to!(vv->Object_0 => vv->Object_0@));
                        assert(decreases_to!(vv->Object_0@ => vv->Object_0@[i as int]));
                        assert(decreases_to!(vv->Object_0@[i as int] => vv->Object_0@[
                            i as int
                        ].1));
                    }
                }
                write_json(&fs[i].1, out);
                proof {
                    assert(out@ =~= old(out)@ + seq![0x7bu8] + obj_text_upto(*v, i + 1));
                }
                i = i + 1;
            }
            out.push(0x7d);
            proof {
                lemma_obj_text_whole(*v, fs@.len() as int);
                assert(final(out)@ =~= old(out)@ + json_text(*v));
            }
        },
    }
}

/// The JSON text of a value as an owned byte vector.
pub fn to_json_bytes(v: &JsonValue) -> (r: Vec<u8>)
    ensures
        r@ == json_text(*v),
{
    let mut out: Vec<u8> = Vec::new();
    write_json(v, &mut out);
    out
}

/// Whether a byte is JSON whitespace.
pub open spec fn spec_is_ws(b: u8) -> bool {
    b == 0x20 || b == 0x09 || b == 0x0a || b == 0x0d
}

/// The first position at or after `pos` holding no whitespace.
pub open spec fn spec_ws_end(s: Seq<u8>, pos: int) -> int
    decreases s.len() - pos,
{
    if 0 <= pos && pos < s.len() && spec_is_ws(s[pos]) {
        spec_ws_end(s, pos + 1)
    } else {
        pos
    }
}

/// Whether a byte is a decimal digit.
pub open spec fn spec_is_digit(b: u8) -> bool {
    0x30 <= b && b <= 0x39
}

/// The first position at or after `pos` holding no decimal digit.
pub open spec fn digit_run_end(s: Seq<u8>, pos: int) -> int
    decreases s.len() - pos,
{
    if 0 <= pos && pos < s.len() && spec_is_digit(s[pos]) {
        digit_run_end(s, pos + 1)
    } else {
        pos
    }
}

/// The value of a big-endian run of decimal digits.
pub open spec fn dec_seq_val(t: Seq<u8>) -> nat
    decreases t.len(),
{
    if t.len() == 0 {
        0
    } else {
        dec_seq_val(t.drop_last()) * 10 + (t.last() - 0x30) as nat
    }
}

/// The first position at or after `pos` holding a quote or a backslash.
pub open spec fn plain_str_end(s: Seq<u8>, pos: int) -> int
    decreases s.len() - pos,
{
    if 0 <= pos && pos < s.len() && s[pos] != 0x22 && s[pos] != 0x5c {
        plain_str_end(s, pos + 1)
    } else {
        pos
    }
}

/// The scalar value a text names at `pos`, with the position after it:
/// the three keywords and unsigned numbers that fit; `None` for any other
/// shape, a number too large included.
pub open spec fn spec_scalar(s: Seq<u8>, pos: int) -> Option<(JsonValue, int)> {
    if pos + 4 <= s.len() && s.subrange(pos, pos + 4) == seq![0x6eu8, 0x75u8, 0x6cu8, 0x6cu8] {
        Some((JsonValue::Null, pos + 4))
    } else if pos + 4 <= s.len() && s.subrange(pos, pos + 4) == seq![
        0x74u8,
        0x72u8,
        0x75u8,
        0x65u8,
    ] {
        Some((JsonValue::Bool(true), pos + 4))
    } else if pos + 5 <= s.len() && s.subrange(pos, pos + 5) == seq![
        0x66u8,
        0x61u8,
        0x6cu8,
        0x73u8,
        0x65u8,
    ] {
        Some((JsonValue::Bool(false), pos + 5))
    } else if 0 <= pos && pos < s.len() && spec_is_digit(s[pos]) {
        let e = digit_run_end(s, pos);
        if dec_seq_val(s.subrange(pos, e)) <= u64::MAX {
            Some((JsonValue::Number(dec_seq_val(s.subrange(pos, e)) as u64), e))
        } else {
            None
        }
    } else {
        None
    }
}

/// A scan for the end of a digit run stays inside the buffer.
proof fn lemma_digit_run_end_bounds(s: Seq<u8>, pos: int)
    requires
        0 <= pos <= s.len(),
    ensures
        pos <= digit_run_end(s, pos) <= s.len(),
    decreases s.len() - pos,
{
    if pos < s.len() && spec_is_digit(s[pos]) {
        lemma_digit_run_end_bounds(s, pos + 1);
    }
}

/// A scan for the first quote or backslash stays inside the buffer.
proof fn lemma_plain_str_end_bounds(s: Seq<u8>, pos: int)
    requires
        0 <= pos <= s.len(),
    ensures
        pos <= plain_str_end(s, pos) <= s.len(),
    decreases s.len() - pos,
{
    if pos < s.len() && s[pos] != 0x22 && s[pos] != 0x5c {
        lemma_plain_str_end_bounds(s, pos + 1);
    }
}

/// A longer digit run names a number at least as large.
proof fn lemma_dec_prefix_le(s: Seq<u8>, pos: int, i: int, e: int)
    requires
        0 <= pos <= i <= e <= s.len(),
    ensures
        dec_seq_val(s.subrange(pos, i)) <= dec_seq_val(s.subrange(pos, e)),
    decreases e - i,
{
    if i < e {
        assert(s.subrange(pos, i + 1).drop_last() =~= s.subrange(pos, i));
        lemma_dec_prefix_le(s, pos, i + 1, e);
    }
}

/// Failure conditions of parsing JSON text.
#[derive(Debug, Clone, PartialEq, Eq)]
pub enum JsonParseError {
    /// The text ended inside a value.
    UnexpectedEnd,
    /// The byte at this position does not fit the grammar.
    UnexpectedByte(usize),
    /// A number at this position does not fit an unsigned 64-bit integer.
    NumberTooLarge(usize),
    /// An escape at this position is not supported.
    InvalidEscape(usize),
    /// Bytes follow the first value; the trailing text starts here.
    TrailingBytes(usize),
}

/// Whether a byte is JSON whitespace.
fn is_ws(b: u8) -> (r: bool)
    ensures
        r == (b == 0x20 || b == 0x09 || b == 0x0a || b == 0x0d),
{
    b == 0x20 || b == 0x09 || b == 0x0a || b == 0x0d
}

/// The position of the first byte at or after `pos` that is not whitespace.
fn skip_ws(s: &[u8], pos: usize) -> (r: usize)
    requires
        pos <= s@.len(),
    ensures
        pos <= r <= s@.len(),
        r == spec_ws_end(s@, pos as int),
{
    let mut i = pos;
    while i < s.len()
        invariant
            pos <= i <= s@.len(),
            spec_ws_end(s@, pos as int) == spec_ws_end(s@, i as int),
        decreases s@.len() - i,
    {
        if !is_ws(*vstd::slice::slice_index_get(s, i)) {
            return i;
        }
        i = i + 1;
    }
    i
}

/// Consumes the keyword `lit` at `pos`; succeeds exactly when the keyword
/// stands there.
fn expect_keyword(s: &[u8], pos: usize, lit: &[u8]) -> (r: Result<usize, JsonParseError>)
    requires
        pos <= s@.len(),
    ensures
        r matches Ok(q) ==> pos <= q <= s@.len() && q == pos + lit@.len(),
        r is Ok <==> (pos + lit@.len() <= s@.len() && s@.subrange(
            pos as int,
            pos + lit@.len(),
        ) == lit@),
{
    if s.len() - pos < lit.len() {
        return Err(JsonParseError::UnexpectedEnd);
    }
    let mut i: usize = 0;
    while i < lit.len()
        invariant
            i <= lit@.len(),
            pos + lit@.len() <= s@.len(),
            s@.len() <= usize::MAX,
            forall|j: int| 0 <= j < i ==> s@[pos + j] == lit@[j],
        decreases lit@.len() - i,
    {
        if *vstd::slice::slice_index_get(s, pos + i) != *vstd::slice::slice_index_get(lit, i) {
            proof {
                assert(s@.subrange(pos as int, pos + lit@.len())[i as int] != lit@[i as int]);
            }
            return Err(JsonParseError::UnexpectedByte(pos + i));
        }
        i = i + 1;
    }
    proof {
        assert(s@.subrange(pos as int, pos + lit@.len()) =~= lit@);
    }
    Ok(pos + lit.len())
}

/// Parses the string whose opening quote stands at `pos`, undoing the
/// simple escapes the serializer knows. A string of plain bytes, closed by
/// the first quote with no escape before it, parses to exactly those bytes.
fn parse_string(s: &[u8], pos: usize) -> (r: Result<(Vec<u8>, usize), JsonParseError>)
    requires
        pos < s@.len(),
    ensures
        r matches Ok(p) ==> pos < p.1 <= s@.len(),
        ({
            let e = plain_str_end(s@, pos + 1);
            (s@[pos as int] == 0x22 && e < s@.len() && s@[e] == 0x22) ==> (r matches Ok(p) && p.0@
                == s@.subrange(pos + 1, e) && p.1 == e + 1)
        }),
{
    let n = s.len();
    if *vstd::slice::slice_index_get(s, pos) != 0x22 {
        return Err(JsonParseError::UnexpectedByte(pos));
    }
    let mut out: Vec<u8> = Vec::new();
    let mut i = pos + 1;
    proof {
        lemma_plain_str_end_bounds(s@, pos + 1);
        assert(out@ =~= s@.subrange(pos + 1, pos + 1));
    }
    while i < s.len()
        invariant
            pos < i <= s@.len(),
            ({
                let e = plain_str_end(s@, pos + 1);
                (e < s@.len() && s@[e] == 0x22) ==> (i <= e && out@ == s@.subrange(pos + 1, i as int)
                    && plain_str_end(s@, i as int) == e)
            }),
        decreases s@.len() - i,
    {
        let b = *vstd::slice::slice_index_get(s, i);
        if b == 0x22 {
            proof {
                let e = plain_str_end(s@, pos + 1);
                if e < s@.len() && s@[e] == 0x22 {
                    assert(plain_str_end(s@, i as int) == i);
                }
            }
            return Ok((out, i + 1));
        }
        if b == 0x5c {
            if i + 1 >= s.len() {
                return Err(JsonParseError::UnexpectedEnd);
            }
            let e = *vstd::slice::slice_index_get(s, i + 1);
            if e == 0x22 {
                out.push(0x22);
            } else if e == 0x5c {
                out.push(0x5c);
            } else if e == 0x2f {
                out.push(0x2f);
            } else if e == 0x6e {
                out.push(0x0a);
            } else if e == 0x72 {
                out.push(0x0d);
            } else if e == 0x74 {
                out.push(0x09);
            } else if e == 0x62 {
                out.push(0x08);
            } else if e == 0x66 {
                out.push(0x0c);
            } else {
                return Err(JsonParseError::InvalidEscape(i + 1));
            }
            proof {
                let e = plain_str_end(s@, pos + 1);
                if e < s@.len() && s@[e] == 0x22 {
                    assert(plain_str_end(s@, i as int) == i);
                }
            }
            i = i + 2;
        } else {
            out.push(b);
            proof {
                let e = plain_str_end(s@, pos + 1);
                if e < s@.len() && s@[e] == 0x22 {
                    lemma_plain_str_end_bounds(s@, i + 1);
                    assert(plain_str_end(s@, i as int) == plain_str_end(s@, i + 1));
                    assert(out@ =~= s@.subrange(pos + 1, i + 1));
                }
            }
            i = i + 1;
        }
    }
    Err(JsonParseError::UnexpectedEnd)
}

/// Parses the unsigned decimal number that starts at `pos`: the whole
/// digit run, succeeding exactly on runs whose value fits.
fn parse_number(s: &[u8], pos: usize) -> (r: Result<(u64, usize), JsonParseError>)
    requires
        pos < s@.len(),
    ensures
        r matches Ok(p) ==> pos < p.1 <= s@.len(),
        ({
            let e = digit_run_end(s@, pos as int);
            spec_is_digit(s@[pos as int]) && dec_seq_val(s@.subrange(pos as int, e)) <= u64::MAX
                ==> r == Ok::<(u64, usize), JsonParseError>(
                (dec_seq_val(s@.subrange(pos as int, e)) as u64, e as usize),
            )
        }),
{
    let n = s.len();
    let first = *vstd::slice::slice_index_get(s, pos);
    if !(0x30 <= first && first <= 0x39) {
        return Err(JsonParseError::UnexpectedByte(pos));
    }
    let mut value: u64 = (first - 0x30) as u64;
    let mut i = pos + 1;
    proof {
        assert(s@.subrange(pos as int, pos + 1).drop_last() =~= Seq::<u8>::empty());
        assert(dec_seq_val(Seq::<u8>::empty()) == 0);
        assert(s@.subrange(pos as int, pos + 1).last() == s@[pos as int]);
        assert(value == dec_seq_val(s@.subrange(pos as int, pos + 1)));
    }
    while i < s.len()
        invariant
            pos < i <= s@.len(),
            value == dec_seq_val(s@.subrange(pos as int, i as int)),
            digit_run_end(s@, pos as int) == digit_run_end(s@, i as int),
            spec_is_digit(s@[pos as int]),
        decreases s@.len() - i,
    {
        let b = *vstd::slice::slice_index_get(s, i);
        if 0x30 <= b && b <= 0x39 {
            let d = (b - 0x30) as u64;
            if value > (u64::MAX - d) / 10 {
                proof {
                    let e = digit_run_end(s@, pos as int);
                    lemma_digit_run_end_bounds(s@, i + 1);
                    assert(digit_run_end(s@, i as int) == digit_run_end(s@, i + 1));
                    assert(s@.subrange(pos as int, i + 1).drop_last() =~= s@.subrange(
                        pos as int,
                        i as int,
                    ));
                    assert(s@.subrange(pos as int, i + 1).last() == s@[i as int]);
                    lemma_dec_prefix_le(s@, pos as int, i + 1, e);
                    assert((u64::MAX - d) / 10 * 10 + (u64::MAX - d) % 10 == u64::MAX - d);
                }
                return Err(JsonParseError::NumberTooLarge(i));
            }
            value = value * 10 + d;
            proof {
                assert(s@.subrange(pos as int, i + 1).drop_last() =~= s@.subrange(
                    pos as int,
                    i as int,
                ));
                assert(s@.subrange(pos as int, i + 1).last() == s@[i as int]);
            }
            i = i + 1;
        } else {
            proof {
                assert(digit_run_end(s@, i as int) == i);
            }
            return Ok((value, i));
        }
    }
    proof {
        assert(digit_run_end(s@, i as int) == i);
    }
    Ok((value, i))
}

/// Parses one JSON value that starts at `pos` (no leading whitespace).
///
/// Numbers are unsigned integers; fractions, exponents and signs are
/// rejected, as are `\u` escapes. The scalar keywords, numbers that fit,
/// and escape-free strings parse exactly as `spec_scalar` and the string
/// window say; arrays and objects are pinned by the round-trip tests.
pub fn parse_value(s: &[u8], pos: usize) -> (r: Result<(JsonValue, usize), JsonParseError>)
    requires
        pos <= s@.len(),
    ensures
        r matches Ok(p) ==> pos < p.1 <= s@.len(),
        spec_scalar(s@, pos as int) matches Some(p) ==> r == Ok::<
            (JsonValue, usize),
            JsonParseError,
        >((p.0, p.1 as usize)),
        ({
            let e = plain_str_end(s@, pos + 1);
            (pos < s@.len() && s@[pos as int] == 0x22 && e < s@.len() && s@[e] == 0x22) ==> (r
                matches Ok(q) && q.0 matches JsonValue::Str(x) && x@ == s@.subrange(pos + 1, e)
                && q.1 == e + 1)
        }),
    decreases s@.len() - pos,
{
    if pos >= s.len() {
        return Err(JsonParseError::UnexpectedEnd);
    }
    let b = *vstd::slice::slice_index_get(s, pos);
    if b == 0x6e {
        match expect_keyword(s, pos, &[0x6e, 0x75, 0x6c, 0x6c]) {
            Ok(q) => Ok((JsonValue::Null, q)),
            Err(e) => Err(e),
        }
    } else if b == 0x74 {
        match expect_keyword(s, pos, &[0x74, 0x72, 0x75, 0x65]) {
            Ok(q) => Ok((JsonValue::Bool(true), q)),
            Err(e) => Err(e),
        }
    } else if b == 0x66 {
        match expect_keyword(s, pos, &[0x66, 0x61, 0x6c, 0x73, 0x65]) {
            Ok(q) => Ok((JsonValue::Bool(false), q)),
            Err(e) => Err(e),
        }
    } else if b == 0x22 {
        match parse_string(s, pos) {
            Ok((v, q)) => Ok((JsonValue::Str(v), q)),
            Err(e) => Err(e),
        }
    } else if b == 0x5b {
        let mut elems: Vec<JsonValue> = Vec::new();
        let mut i = skip_ws(s, pos + 1);
        if i < s.len() && *vstd::slice::slice_index_get(s, i) == 0x5d {
            return Ok((JsonValue::Array(elems), i + 1));
        }
        loop
            invariant
                pos < i <= s@.len(),
                pos < s@.len(),
                s@[pos as int] == 0x5b,
            decreases s@.len() - i,
        {
            let (v, q) = match parse_value(s, i) {
                Ok(p) => p,
                Err(e) => {
                    return Err(e);
                },
            };
            elems.push(v);
            let q = skip_ws(s, q);
            if q >= s.len() {
                return Err(JsonParseError::UnexpectedEnd);
            }
            let c = *vstd::slice::slice_index_get(s, q);
            if c == 0x5d {
                return Ok((JsonValue::Array(elems), q + 1));
            }
            if c != 0x2c {
                return Err(JsonParseError::UnexpectedByte(q));
            }
            let next = skip_ws(s, q + 1);
            if next <= i {
                return Err(JsonParseError::UnexpectedByte(next));
            }
            i = next;
        }
    } else if b == 0x7b {
        let mut fields: Vec<(Vec<u8>, JsonValue)> = Vec::new();
        let mut i = skip_ws(s, pos + 1);
        if i < s.len() && *vstd::slice::slice_index_get(s, i) == 0x7d {
            return Ok((JsonValue::Object(fields), i + 1));
        }
        loop
            invariant
                pos < i <= s@.len(),
                pos < s@.len(),
                s@[pos as int] == 0x7b,
            decreases s@.len() - i,
        {
            if i >= s.len() {
                return Err(JsonParseError::UnexpectedEnd);
            }
            let (name, q) = match parse_string(s, i) {
                Ok(p) => p,
                Err(e) => {
                    return Err(e);
                },
            };
            let q = skip_ws(s, q);
            if q >= s.len() {
                return Err(JsonParseError::UnexpectedEnd);
            }
            if *vstd::slice::slice_index_get(s, q) != 0x3a {
                return Err(JsonParseError::UnexpectedByte(q));
            }
            let q = skip_ws(s, q + 1);
            let (v, q) = match parse_value(s, q) {
                Ok(p) => p,
                Err(e) => {
                    return Err(e);
                },
            };
            fields.push((name, v));
            let q = skip_ws(s, q);
            if q >= s.len() {
                return Err(JsonParseError::UnexpectedEnd);
            }
            let c = *vstd::slice::slice_index_get(s, q);
            if c == 0x7d {
                return Ok((JsonValue::Object(fields), q + 1));
            }
            if c != 0x2c {
                return Err(JsonParseError::UnexpectedByte(q));
            }
            let next = skip_ws(s, q + 1);
            if next <= i {
                return Err(JsonParseError::UnexpectedByte(next));
            }
            i = next;
        }
    } else {
        match parse_number(s, pos) {
            Ok((v, q)) => Ok((JsonValue::Number(v), q)),
            Err(e) => Err(e),
        }
    }
}

/// Whether two byte runs hold the same bytes.
pub fn bytes_eq(a: &[u8], b: &[u8]) -> (r: bool)
    ensures
        r == (a@ == b@),
{
    if a.len() != b.len() {
        proof {
            assert(a@.len() != b@.len());
        }
        return false;
    }
    let mut i: usize = 0;
    while i < a.len()
        invariant
            i <= a@.len(),
            a@.len() == b@.len(),
            forall|j: int| 0 <= j < i ==> a@[j] == b@[j],
        decreases a@.len() - i,
    {
        if *vstd::slice::slice_index_get(a, i) != *vstd::slice::slice_index_get(b, i) {
            return false;
        }
        i = i + 1;
    }
    proof {
        assert(a@ =~= b@);
    }
    true
}

/// The value of the first object field named `key`, if any.
pub open spec fn spec_obj_get(fs: Seq<(Vec<u8>, JsonValue)>, key: Seq<u8>) -> Option<JsonValue>
    decreases fs.len(),
{
    if fs.len() == 0 {
        Option::None
    } else if fs.first().0@ == key {
        Option::Some(fs.first().1)
    } else {
        spec_obj_get(fs.drop_first(), key)
    }
}

impl JsonValue {
    /// The held elements, when this is an array.
    pub fn as_array(&self) -> (r: Option<&Vec<JsonValue>>)
        ensures
            self is Array ==> (r matches Some(v) && *v == self->Array_0),
            !(self is Array) ==> r is None,
    {
        match self {
            JsonValue::Array(xs) => Some(xs),
            _ => None,
        }
    }

    /// The held bytes, when this is a string.
    pub fn as_str_bytes(&self) -> (r: Option<&Vec<u8>>)
        ensures
            self is Str ==> (r matches Some(v) && *v == self->Str_0),
            !(self is Str) ==> r is None,
    {
        match self {
            JsonValue::Str(s) => Some(s),
            _ => None,
        }
    }

    /// The held truth value, when this is a boolean.
    pub fn as_bool(&self) -> (r: Option<bool>)
        ensures
            self is Bool ==> r == Some(self->Bool_0),
            !(self is Bool) ==> r is None,
    {
        match self {
            JsonValue::Bool(b) => Some(*b),
            _ => None,
        }
    }

    /// The held number, when this is a number.
    pub fn as_u64(&self) -> (r: Option<u64>)
        ensures
            self is Number ==> r == Some(self->Number_0),
            !(self is Number) ==> r is None,
    {
        match self {
            JsonValue::Number(n) => Some(*n),
            _ => None,
        }
    }

    /// The value of the first field named `key`, when this is an object that
    /// has one.
    pub fn obj_get(&self, key: &[u8]) -> (r: Option<&JsonValue>)
        ensures
            self is Object ==> (match r {
                Some(v) => spec_obj_get(self->Object_0@, key@) == Some(*v),
                None => spec_obj_get(self->Object_0@, key@) is None,
            }),
            !(self is Object) ==> r is None,
    {
        match self {
            JsonValue::Object(fs) => {
                proof {
                    assert(fs@.skip(0) =~= fs@);
                }
                let mut i: usize = 0;
                while i < fs.len()
                    invariant
                        i <= fs@.len(),
                        self is Object,
                        *fs == self->Object_0,
                        spec_obj_get(fs@.skip(i as int), key@) == spec_obj_get(fs@, key@),
                    decreases fs@.len() - i,
                {
                    if bytes_eq(fs[i].0.as_slice(), key) {
                        proof {
                            assert(fs@.skip(i as int).first() == fs@[i as int]);
                        }
                        return Some(&fs[i].1);
                    }
                    proof {
                        assert(fs@.skip(i as int).first() == fs@[i as int]);
                        assert(fs@.skip(i as int).drop_first() =~= fs@.skip(i + 1));
                    }
                    i = i + 1;
                }
                proof {
                    assert(fs@.skip(fs@.len() as int).len() == 0);
                }
                None
            },
            _ => None,
        }
    }
}

/// Parses a byte run holding exactly one JSON value, with whitespace around
/// it allowed. A whitespace-wrapped scalar or escape-free string parses to
/// exactly that value.
pub fn parse_json(s: &[u8]) -> (r: Result<JsonValue, JsonParseError>)
    ensures
        ({
            let st = spec_ws_end(s@, 0);
            spec_scalar(s@, st) matches Some(p) ==> (spec_ws_end(s@, p.1) == s@.len() ==> r == Ok::<
                JsonValue,
                JsonParseError,
            >(p.0))
        }),
        ({
            let st = spec_ws_end(s@, 0);
            let e = plain_str_end(s@, st + 1);
            (st < s@.len() && s@[st] == 0x22 && e < s@.len() && s@[e] == 0x22 && spec_ws_end(
                s@,
                e + 1,
            ) == s@.len()) ==> (r matches Ok(v) && v matches JsonValue::Str(x) && x@
                == s@.subrange(st + 1, e))
        }),
{
    let start = skip_ws(s, 0);
    let (v, q) = match parse_value(s, start) {
        Ok(p) => p,
        Err(e) => {
            return Err(e);
        },
    };
    let q = skip_ws(s, q);
    if q < s.len() {
        return Err(JsonParseError::TrailingBytes(q));
    }
    Ok(v)
}

} // verus!
