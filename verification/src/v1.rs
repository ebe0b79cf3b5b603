//! Stratum V1 JSON-RPC methods the translator speaks: notifications and
//! responses between the bridge and legacy miners, together with the hex
//! text forms V1 uses for integers and byte runs.

use vstd::prelude::*;
use vstd::slice::slice_index_get;
use vstd::string::StrSliceExecFns;
use vstd::string::StringSliceAdditionalSpecFns;
use crate::json::JsonValue;
use crate::json_rpc::Message;
use crate::json_rpc::Notification;
use crate::json_rpc::Response;
use crate::datatypes::U256;

verus! {

/// Lowercase hex digit of a value below sixteen.
pub open spec fn hex_digit(n: nat) -> u8 {
    if n < 10 {
        (0x30 + n) as u8
    } else {
        (0x57 + n) as u8
    }
}

/// The eight-digit big-endian lowercase hex form of a `u32`.
pub open spec fn hex8(x: u32) -> Seq<u8> {
    seq![
        hex_digit(((x >> 28) & 0xf) as nat),
        hex_digit(((x >> 24) & 0xf) as nat),
        hex_digit(((x >> 20) & 0xf) as nat),
        hex_digit(((x >> 16) & 0xf) as nat),
        hex_digit(((x >> 12) & 0xf) as nat),
        hex_digit(((x >> 8) & 0xf) as nat),
        hex_digit(((x >> 4) & 0xf) as nat),
        hex_digit((x & 0xf) as nat),
    ]
}

/// The shortest lowercase hex form of a number.
pub open spec fn hex_min(n: nat) -> Seq<u8>
    decreases n,
{
    if n < 16 {
        seq![hex_digit(n)]
    } else {
        hex_min(n / 16) + seq![hex_digit(n % 16)]
    }
}

/// Whether a byte is a hex digit, lowercase, uppercase or decimal.
pub open spec fn is_hex_digit(b: u8) -> bool {
    (0x30 <= b && b <= 0x39) || (0x61 <= b && b <= 0x66) || (0x41 <= b && b <= 0x46)
}

/// One to eight hex digits: the texts `HexU32Be` accepts.
pub open spec fn hex_text_ok(s: Seq<u8>) -> bool {
    1 <= s.len() <= 8 && forall|i: int| 0 <= i < s.len() ==> is_hex_digit(#[trigger] s[i])
}

/// The value of one hex digit byte.
pub open spec fn hex_val(b: u8) -> nat {
    if 0x30 <= b && b <= 0x39 {
        (b - 0x30) as nat
    } else if 0x61 <= b && b <= 0x66 {
        (b - 0x57) as nat
    } else if 0x41 <= b && b <= 0x46 {
        (b - 0x37) as nat
    } else {
        0
    }
}

/// The value of a big-endian run of hex digits.
pub open spec fn hex_seq_val(s: Seq<u8>) -> nat
    decreases s.len(),
{
    if s.len() == 0 {
        0
    } else {
        hex_seq_val(s.drop_last()) * 16 + hex_val(s.last())
    }
}

/// The lowercase hex encoding of a byte run: two digits per byte.
pub open spec fn hex_of_bytes(s: Seq<u8>) -> Seq<u8>
    decreases s.len(),
{
    if s.len() == 0 {
        Seq::empty()
    } else {
        hex_of_bytes(s.drop_last()) + seq![
            hex_digit((s.last() >> 4) as nat),
            hex_digit((s.last() & 0xf) as nat),
        ]
    }
}

/// Appends the eight-digit hex form of `x`.
pub fn write_hex8(x: u32, out: &mut Vec<u8>)
    ensures
        final(out)@ == old(out)@ + hex8(x),
{
    proof {
        assert((x >> 28) & 0xf < 16 && (x >> 24) & 0xf < 16 && (x >> 20) & 0xf < 16 && (x >> 16)
            & 0xf < 16 && (x >> 12) & 0xf < 16 && (x >> 8) & 0xf < 16 && (x >> 4) & 0xf < 16 && x
            & 0xf < 16) by (bit_vector);
    }
    out.push(hex_digit_byte(((x >> 28) & 0xf) as u8));
    out.push(hex_digit_byte(((x >> 24) & 0xf) as u8));
    out.push(hex_digit_byte(((x >> 20) & 0xf) as u8));
    out.push(hex_digit_byte(((x >> 16) & 0xf) as u8));
    out.push(hex_digit_byte(((x >> 12) & 0xf) as u8));
    out.push(hex_digit_byte(((x >> 8) & 0xf) as u8));
    out.push(hex_digit_byte(((x >> 4) & 0xf) as u8));
    out.push(hex_digit_byte((x & 0xf) as u8));
    proof {
        assert(final(out)@ =~= old(out)@ + hex8(x));
    }
}

/// Lowercase hex digit byte of a value below sixteen.
fn hex_digit_byte(n: u8) -> (r: u8)
    requires
        n < 16,
    ensures
        r == hex_digit(n as nat),
{
    if n < 10 {
        0x30 + n
    } else {
        0x57 + n
    }
}

/// The shortest hex form of `x` as an owned byte vector.
pub fn u32_to_hex_min(x: u32) -> (r: Vec<u8>)
    ensures
        r@ == hex_min(x as nat),
{
    let mut out: Vec<u8> = Vec::new();
    write_hex_min(x, &mut out);
    out
}

/// Appends the shortest hex form of `x`.
fn write_hex_min(x: u32, out: &mut Vec<u8>)
    ensures
        final(out)@ == old(out)@ + hex_min(x as nat),
    decreases x,
{
    if x < 16 {
        out.push(hex_digit_byte(x as u8));
        proof {
            assert(final(out)@ =~= old(out)@ + hex_min(x as nat));
        }
    } else {
        write_hex_min(x / 16, out);
        out.push(hex_digit_byte((x % 16) as u8));
        proof {
            assert(final(out)@ =~= old(out)@ + hex_min(x as nat));
        }
    }
}

/// Parses a big-endian hex number of one to eight digits.
pub fn hex_u32_from_bytes(s: &[u8]) -> (r: Option<u32>)
    ensures
        (1 <= s@.len() <= 8 && (forall|i: int| 0 <= i < s@.len() ==> is_hex_digit(#[trigger] s@[i])))
            <==> (r is Some),
        r matches Some(v) ==> v == hex_seq_val(s@),
{
    if s.len() < 1 || s.len() > 8 {
        return None;
    }
    let mut value: u32 = 0;
    let mut i: usize = 0;
    while i < s.len()
        invariant
            i <= s@.len(),
            1 <= s@.len() <= 8,
            forall|j: int| 0 <= j < i ==> is_hex_digit(#[trigger] s@[j]),
            value == hex_seq_val(s@.take(i as int)),
        decreases s@.len() - i,
    {
        let b = *slice_index_get(s, i);
        let d: u8 = if 0x30 <= b && b <= 0x39 {
            b - 0x30
        } else if 0x61 <= b && b <= 0x66 {
            b - 0x57
        } else if 0x41 <= b && b <= 0x46 {
            b - 0x37
        } else {
            return None;
        };
        proof {
            lemma_hex_seq_val_bound(s@.take(i as int));
            assert(s@.take(i + 1).drop_last() =~= s@.take(i as int));
            assert(s@.take(i + 1).last() == s@[i as int]);
        }
        value = value * 16 + (d as u32);
        i = i + 1;
    }
    proof {
        assert(s@.take(s@.len() as int) =~= s@);
    }
    Some(value)
}

/// A run of `n` hex digits stays below `16^n`.
proof fn lemma_hex_seq_val_bound(s: Seq<u8>)
    ensures
        s.len() == 0 ==> hex_seq_val(s) == 0,
        s.len() == 1 ==> hex_seq_val(s) < 16,
        s.len() == 2 ==> hex_seq_val(s) < 0x100,
        s.len() == 3 ==> hex_seq_val(s) < 0x1000,
        s.len() == 4 ==> hex_seq_val(s) < 0x10000,
        s.len() == 5 ==> hex_seq_val(s) < 0x100000,
        s.len() == 6 ==> hex_seq_val(s) < 0x1000000,
        s.len() == 7 ==> hex_seq_val(s) < 0x10000000,
        s.len() == 8 ==> hex_seq_val(s) < 0x100000000,
    decreases s.len(),
{
    if s.len() > 0 {
        lemma_hex_seq_val_bound(s.drop_last());
    }
}

/// Hex encodes a byte run, two lowercase digits per byte.
pub fn hex_encode(v: &[u8]) -> (r: Vec<u8>)
    ensures
        r@ == hex_of_bytes(v@),
{
    let mut out: Vec<u8> = Vec::new();
    let mut i: usize = 0;
    while i < v.len()
        invariant
            i <= v@.len(),
            out@ == hex_of_bytes(v@.take(i as int)),
        decreases v@.len() - i,
    {
        let b = *slice_index_get(v, i);
        proof {
            assert(b >> 4 < 16 && b & 0xf < 16) by (bit_vector);
            assert(v@.take(i + 1).drop_last() =~= v@.take(i as int));
        }
        out.push(hex_digit_byte(b >> 4));
        out.push(hex_digit_byte(b & 0xf));
        proof {
            assert(out@ =~= hex_of_bytes(v@.take(i + 1)));
        }
        i = i + 1;
    }
    proof {
        assert(v@.take(v@.len() as int) =~= v@);
    }
    out
}

/// Hex decodes a byte run; fails on odd length or a byte that is no hex
/// digit.
pub fn hex_decode(s: &[u8]) -> (r: Option<Vec<u8>>)
    ensures
        r matches Some(v) ==> s@.len() == 2 * v@.len() && hex_of_bytes(v@)
            == lower_hex_normalized(s@),
        (s@.len() % 2 == 0 && (forall|i: int|
            0 <= i < s@.len() ==> is_hex_digit(#[trigger] s@[i]))) <==> r is Some,
{
    if s.len() % 2 != 0 {
        return None;
    }
    let mut out: Vec<u8> = Vec::new();
    let mut i: usize = 0;
    while i < s.len()
        invariant
            i <= s@.len(),
            i % 2 == 0,
            s@.len() % 2 == 0,
            out@.len() * 2 == i,
            hex_of_bytes(out@) == lower_hex_normalized(s@.take(i as int)),
            forall|j: int| 0 <= j < i ==> is_hex_digit(#[trigger] s@[j]),
        decreases s@.len() - i,
    {
        let hi = *slice_index_get(s, i);
        let lo = *slice_index_get(s, i + 1);
        let dh: u8 = if 0x30 <= hi && hi <= 0x39 {
            hi - 0x30
        } else if 0x61 <= hi && hi <= 0x66 {
            hi - 0x57
        } else if 0x41 <= hi && hi <= 0x46 {
            hi - 0x37
        } else {
            return None;
        };
        let dl: u8 = if 0x30 <= lo && lo <= 0x39 {
            lo - 0x30
        } else if 0x61 <= lo && lo <= 0x66 {
            lo - 0x57
        } else if 0x41 <= lo && lo <= 0x46 {
            lo - 0x37
        } else {
            return None;
        };
        let byte = dh * 16 + dl;
        let ghost prev = out@;
        out.push(byte);
        proof {
            assert(out@.drop_last() =~= prev);
            assert(byte >> 4 == dh && byte & 0xf == dl) by (bit_vector)
                requires
                    dh < 16,
                    dl < 16,
                    byte == dh * 16 + dl,
            ;
            assert(lower_hex_normalized(s@.take(i + 2)) =~= lower_hex_normalized(
                s@.take(i as int),
            ) + seq![hex_digit(dh as nat), hex_digit(dl as nat)]);
            assert(hex_of_bytes(out@) =~= lower_hex_normalized(s@.take(i + 2)));
        }
        i = i + 2;
    }
    proof {
        assert(s@.take(s@.len() as int) =~= s@);
    }
    Some(out)
}

/// The same digits with uppercase hex letters lowered.
pub open spec fn lower_hex_normalized(s: Seq<u8>) -> Seq<u8> {
    s.map_values(
        |b: u8|
            if 0x41 <= b && b <= 0x46 {
                (b + 0x20) as u8
            } else {
                b
            },
    )
}

/// A `u32` whose V1 text form is eight big-endian hex digits.
#[derive(Debug, Clone, Copy, PartialEq, Eq, Structural)]
pub struct HexU32Be(pub u32);

impl HexU32Be {
    /// The JSON string value of this number.
    pub fn to_json(&self) -> (r: JsonValue)
        ensures
            r matches JsonValue::Str(s) && s@ == hex8(self.0),
    {
        let mut out: Vec<u8> = Vec::new();
        write_hex8(self.0, &mut out);
        JsonValue::Str(out)
    }

    /// Parses the V1 hex text of a number: one to eight hex digits.
    pub fn from_bytes(s: &[u8]) -> (r: Option<HexU32Be>)
        ensures
            r matches Some(h) ==> h.0 == hex_seq_val(s@),
            (1 <= s@.len() <= 8 && (forall|i: int|
                0 <= i < s@.len() ==> is_hex_digit(#[trigger] s@[i]))) <==> r is Some,
    {
        match hex_u32_from_bytes(s) {
            Some(v) => Some(HexU32Be(v)),
            None => None,
        }
    }
}

/// A byte run whose V1 text form is the bytes themselves read as UTF-8.
#[derive(Debug, Clone, PartialEq, Eq)]
pub struct HexBytes(pub Vec<u8>);

impl HexBytes {
    /// The JSON string value: the held bytes as they are.
    pub fn to_json(&self) -> (r: JsonValue)
        ensures
            r matches JsonValue::Str(s) && s@ == self.0@,
    {
        JsonValue::Str(self.0.clone())
    }
}

/// A previous block hash carried in V1 text form.
#[derive(Debug, Clone, PartialEq, Eq)]
pub struct PrevHash(pub U256);

impl PrevHash {
    /// The hash holds exactly 32 bytes.
    pub open spec fn wf(self) -> bool {
        self.0.wf()
    }

    /// The JSON string value: the held bytes as they are.
    pub fn to_json(&self) -> (r: JsonValue)
        ensures
            r matches JsonValue::Str(s) && s@ == self.0@,
    {
        JsonValue::Str(self.0.to_vec())
    }
}

/// One merkle branch node carried in V1 text form.
#[derive(Debug, Clone, PartialEq, Eq)]
pub struct MerkleNode(pub U256);

impl MerkleNode {
    /// The node holds exactly 32 bytes.
    pub open spec fn wf(self) -> bool {
        self.0.wf()
    }

    /// The JSON string value: the held bytes as they are.
    pub fn to_json(&self) -> (r: JsonValue)
        ensures
            r matches JsonValue::Str(s) && s@ == self.0@,
    {
        JsonValue::Str(self.0.to_vec())
    }
}

/// An extranonce; its V1 text form is hex encoded.
#[derive(Debug, Clone, PartialEq, Eq)]
pub struct Extranonce(pub Vec<u8>);

impl Extranonce {
    /// The JSON string value: the held bytes hex encoded.
    pub fn to_json(&self) -> (r: JsonValue)
        ensures
            r matches JsonValue::Str(s) && s@ == hex_of_bytes(self.0@),
    {
        JsonValue::Str(hex_encode(self.0.as_slice()))
    }
}

/// Failure conditions of reading a V1 method out of a JSON-RPC message.
#[derive(Debug, Clone, PartialEq, Eq)]
pub enum ParsingMethodError {
    /// The parameters were not the expected array.
    NotArray,
    /// The parameters had the wrong number or shapes of entries.
    WrongArgs,
    /// A string was expected.
    NotString,
    /// An unsigned number was expected.
    NotUnsigned,
    /// The result field could not be read.
    ImpossibleToParseResultField,
    /// A 64-bit unsigned number was expected.
    ImpossibleToParseAsU64,
    /// The result array had the wrong entries.
    UnexpectedArrayParams,
    /// The result object had the wrong fields.
    UnexpectedObjectParams,
    /// A hex text field did not parse.
    InvalidHex,
    /// A byte-run field had the wrong length.
    WrongLength,
}

/// Failure conditions of the V1 method layer.
#[derive(Debug, Clone, PartialEq, Eq)]
pub enum V1Error {
    Method(ParsingMethodError),
    InvalidJsonRpcMessageKind,
    InvalidSubmission,
    InvalidState,
    UnknownID,
    InvalidVersionMask(u32),
}

/// The `mining.notify` notification: everything a V1 miner needs to build
/// block headers for a new job.
#[derive(Debug, Clone, PartialEq, Eq)]
pub struct Notify {
    /// Job identifier, as the hex text the wire carries.
    pub job_id: Vec<u8>,
    /// Hash of the previous block.
    pub prev_hash: PrevHash,
    /// Coinbase transaction part before the extranonces.
    pub coin_base1: HexBytes,
    /// Coinbase transaction part after the extranonces.
    pub coin_base2: HexBytes,
    /// Merkle branches the coinbase is hashed against.
    pub merkle_branch: Vec<MerkleNode>,
    /// Block version, eight hex digits on the wire.
    pub version: HexU32Be,
    /// Encoded network difficulty, eight hex digits on the wire.
    pub bits: HexU32Be,
    /// Current time, eight hex digits on the wire.
    pub time: HexU32Be,
    /// Whether miners must abort current work at once.
    pub clean_jobs: bool,
}

impl Notify {
    /// The hashes hold exactly 32 bytes each.
    pub open spec fn wf(self) -> bool {
        self.prev_hash.wf() && forall|i: int|
            0 <= i < self.merkle_branch@.len() ==> (#[trigger] self.merkle_branch@[i]).wf()
    }

    /// The notification as a JSON object, fields in wire order.
    pub fn to_json(&self) -> (r: JsonValue)
        ensures
            ({
                let fs = r->Object_0@;
                &&& r is Object
                &&& fs.len() == 9
                &&& fs[0].0@ == ("job_id").spec_bytes()
                &&& (fs[0].1 matches JsonValue::Str(x) && x@ == self.job_id@)
                &&& fs[1].0@ == ("prev_hash").spec_bytes()
                &&& (fs[1].1 matches JsonValue::Str(x) && x@ == self.prev_hash.0@)
                &&& fs[2].0@ == ("coin_base1").spec_bytes()
                &&& (fs[2].1 matches JsonValue::Str(x) && x@ == self.coin_base1.0@)
                &&& fs[3].0@ == ("coin_base2").spec_bytes()
                &&& (fs[3].1 matches JsonValue::Str(x) && x@ == self.coin_base2.0@)
                &&& fs[4].0@ == ("merkle_branch").spec_bytes()
                &&& fs[4].1 is Array
                &&& fs[4].1->Array_0@.len() == self.merkle_branch@.len()
                &&& (forall|i: int|
                    0 <= i < self.merkle_branch@.len() ==> ((#[trigger] fs[4].1->Array_0@[i])
                        matches JsonValue::Str(x) && x@ == self.merkle_branch@[i].0@))
                &&& fs[5].0@ == ("version").spec_bytes()
                &&& (fs[5].1 matches JsonValue::Str(x) && x@ == hex8(self.version.0))
                &&& fs[6].0@ == ("bits").spec_bytes()
                &&& (fs[6].1 matches JsonValue::Str(x) && x@ == hex8(self.bits.0))
                &&& fs[7].0@ == ("time").spec_bytes()
                &&& (fs[7].1 matches JsonValue::Str(x) && x@ == hex8(self.time.0))
                &&& fs[8].0@ == ("clean_jobs").spec_bytes()
                &&& fs[8].1 == JsonValue::Bool(self.clean_jobs)
            }),
    {
        let mut branch: Vec<JsonValue> = Vec::new();
        let mut i: usize = 0;
        while i < self.merkle_branch.len()
            invariant
                i <= self.merkle_branch@.len(),
                branch@.len() == i,
                forall|j: int|
                    0 <= j < i ==> ((#[trigger] branch@[j]) matches JsonValue::Str(x) && x@
                        == self.merkle_branch@[j].0@),
            decreases self.merkle_branch@.len() - i,
        {
            branch.push(self.merkle_branch[i].to_json());
            i = i + 1;
        }
        let mut fields: Vec<(Vec<u8>, JsonValue)> = Vec::new();
        fields.push(("job_id".as_bytes_vec(), JsonValue::Str(self.job_id.clone())));
        fields.push(("prev_hash".as_bytes_vec(), self.prev_hash.to_json()));
        fields.push(("coin_base1".as_bytes_vec(), self.coin_base1.to_json()));
        fields.push(("coin_base2".as_bytes_vec(), self.coin_base2.to_json()));
        fields.push(("merkle_branch".as_bytes_vec(), JsonValue::Array(branch)));
        fields.push(("version".as_bytes_vec(), self.version.to_json()));
        fields.push(("bits".as_bytes_vec(), self.bits.to_json()));
        fields.push(("time".as_bytes_vec(), self.time.to_json()));
        fields.push(("clean_jobs".as_bytes_vec(), JsonValue::Bool(self.clean_jobs)));
        JsonValue::Object(fields)
    }

    /// The notification as a JSON-RPC message: method `mining.notify`,
    /// parameters in wire order.
    pub fn into_message(self) -> (r: Message)
        ensures
            ({
                &&& r matches Message::Notification(n)
                &&& n.method@ == ("mining.notify").spec_bytes()
                &&& n.params is Array
                &&& ({
                    let ps = n.params->Array_0@;
                    &&& ps.len() == 9
                    &&& (ps[0] matches JsonValue::Str(x) && x@ == self.job_id@)
                    &&& (ps[1] matches JsonValue::Str(x) && x@ == self.prev_hash.0@)
                    &&& (ps[2] matches JsonValue::Str(x) && x@ == self.coin_base1.0@)
                    &&& (ps[3] matches JsonValue::Str(x) && x@ == self.coin_base2.0@)
                    &&& ps[4] is Array
                    &&& ps[4]->Array_0@.len() == self.merkle_branch@.len()
                    &&& (forall|i: int|
                        0 <= i < self.merkle_branch@.len() ==> ((#[trigger] ps[4]->Array_0@[i])
                            matches JsonValue::Str(x) && x@ == self.merkle_branch@[i].0@))
                    &&& (ps[5] matches JsonValue::Str(x) && x@ == hex8(self.version.0))
                    &&& (ps[6] matches JsonValue::Str(x) && x@ == hex8(self.bits.0))
                    &&& (ps[7] matches JsonValue::Str(x) && x@ == hex8(self.time.0))
                    &&& ps[8] == JsonValue::Bool(self.clean_jobs)
                })
            }),
    {
        let mut branch: Vec<JsonValue> = Vec::new();
        let mut i: usize = 0;
        while i < self.merkle_branch.len()
            invariant
                i <= self.merkle_branch@.len(),
                branch@.len() == i,
                forall|j: int|
                    0 <= j < i ==> ((#[trigger] branch@[j]) matches JsonValue::Str(x) && x@
                        == self.merkle_branch@[j].0@),
            decreases self.merkle_branch@.len() - i,
        {
            branch.push(self.merkle_branch[i].to_json());
            i = i + 1;
        }
        let mut params: Vec<JsonValue> = Vec::new();
        params.push(JsonValue::Str(self.job_id));
        params.push(self.prev_hash.to_json());
        params.push(self.coin_base1.to_json());
        params.push(self.coin_base2.to_json());
        params.push(JsonValue::Array(branch));
        params.push(self.version.to_json());
        params.push(self.bits.to_json());
        params.push(self.time.to_json());
        params.push(JsonValue::Bool(self.clean_jobs));
        Message::Notification(
            Notification {
                method: "mining.notify".as_bytes_vec(),
                params: JsonValue::Array(params),
            },
        )
    }

    /// The parameters carry the nine wire shapes of a `mining.notify`.
    pub open spec fn params_ok(params: JsonValue) -> bool {
        let ps = params->Array_0@;
        &&& params is Array
        &&& ps.len() == 9
        &&& ps[0] is Str
        &&& ps[1] is Str && ps[1]->Str_0@.len() == 32
        &&& ps[2] is Str
        &&& ps[3] is Str
        &&& ps[4] is Array
        &&& (forall|i: int|
            0 <= i < ps[4]->Array_0@.len() ==> ((#[trigger] ps[4]->Array_0@[i]) is Str
                && ps[4]->Array_0@[i]->Str_0@.len() == 32))
        &&& ps[5] is Str && hex_text_ok(ps[5]->Str_0@)
        &&& ps[6] is Str && hex_text_ok(ps[6]->Str_0@)
        &&& ps[7] is Str && hex_text_ok(ps[7]->Str_0@)
        &&& ps[8] is Bool
    }

    /// Reads a `mining.notify` out of a notification: the parameters must be
    /// an array of nine entries of the wire shapes, and succeed exactly then.
    pub fn from_notification(msg: &Notification) -> (r: Result<Notify, ParsingMethodError>)
        ensures
            Self::params_ok(msg.params) ==> r is Ok,
            r is Ok ==> Self::params_ok(msg.params),
            r matches Ok(n) ==> ({
                let ps = msg.params->Array_0@;
                &&& msg.params is Array
                &&& ps.len() == 9
                &&& n.wf()
                &&& (ps[0] matches JsonValue::Str(x) && n.job_id@ == x@)
                &&& (ps[1] matches JsonValue::Str(x) && n.prev_hash.0@ == x@)
                &&& (ps[2] matches JsonValue::Str(x) && n.coin_base1.0@ == x@)
                &&& (ps[3] matches JsonValue::Str(x) && n.coin_base2.0@ == x@)
                &&& ps[4] is Array
                &&& n.merkle_branch@.len() == ps[4]->Array_0@.len()
                &&& (forall|i: int|
                    0 <= i < n.merkle_branch@.len() ==> ((#[trigger] ps[4]->Array_0@[i])
                        matches JsonValue::Str(x) && n.merkle_branch@[i].0@ == x@))
                &&& (ps[5] matches JsonValue::Str(x) && n.version.0 == hex_seq_val(x@))
                &&& (ps[6] matches JsonValue::Str(x) && n.bits.0 == hex_seq_val(x@))
                &&& (ps[7] matches JsonValue::Str(x) && n.time.0 == hex_seq_val(x@))
                &&& (ps[8] matches JsonValue::Bool(b) && n.clean_jobs == b)
            }),
    {
        let params = match msg.params.as_array() {
            Some(p) => p,
            None => {
                return Err(ParsingMethodError::NotArray);
            },
        };
        if params.len() != 9 {
            return Err(ParsingMethodError::WrongArgs);
        }
        let job_id = match params[0].as_str_bytes() {
            Some(x) => x.clone(),
            None => {
                return Err(ParsingMethodError::WrongArgs);
            },
        };
        let prev_hash_bytes = match params[1].as_str_bytes() {
            Some(x) => x.clone(),
            None => {
                return Err(ParsingMethodError::WrongArgs);
            },
        };
        let prev_hash = match U256::from_vec(prev_hash_bytes) {
            Ok(h) => PrevHash(h),
            Err(_) => {
                return Err(ParsingMethodError::WrongLength);
            },
        };
        let coin_base1 = match params[2].as_str_bytes() {
            Some(x) => HexBytes(x.clone()),
            None => {
                return Err(ParsingMethodError::WrongArgs);
            },
        };
        let coin_base2 = match params[3].as_str_bytes() {
            Some(x) => HexBytes(x.clone()),
            None => {
                return Err(ParsingMethodError::WrongArgs);
            },
        };
        let branch_vals = match params[4].as_array() {
            Some(x) => x,
            None => {
                return Err(ParsingMethodError::WrongArgs);
            },
        };
        let mut merkle_branch: Vec<MerkleNode> = Vec::new();
        let mut i: usize = 0;
        while i < branch_vals.len()
            invariant
                i <= branch_vals@.len(),
                merkle_branch@.len() == i,
                Self::params_ok(msg.params) ==> (forall|j: int|
                    0 <= j < branch_vals@.len() ==> ((#[trigger] branch_vals@[j]) is Str
                        && branch_vals@[j]->Str_0@.len() == 32)),
                forall|j: int|
                    0 <= j < i ==> ((#[trigger] branch_vals@[j]) matches JsonValue::Str(x)
                        && merkle_branch@[j].0@ == x@ && merkle_branch@[j].wf()),
            decreases branch_vals@.len() - i,
        {
            let node_bytes = match branch_vals[i].as_str_bytes() {
                Some(x) => x.clone(),
                None => {
                    return Err(ParsingMethodError::NotString);
                },
            };
            let node = match U256::from_vec(node_bytes) {
                Ok(h) => MerkleNode(h),
                Err(_) => {
                    return Err(ParsingMethodError::WrongLength);
                },
            };
            merkle_branch.push(node);
            i = i + 1;
        }
        let version = match params[5].as_str_bytes() {
            Some(x) => match HexU32Be::from_bytes(x.as_slice()) {
                Some(h) => h,
                None => {
                    return Err(ParsingMethodError::InvalidHex);
                },
            },
            None => {
                return Err(ParsingMethodError::WrongArgs);
            },
        };
        let bits = match params[6].as_str_bytes() {
            Some(x) => match HexU32Be::from_bytes(x.as_slice()) {
                Some(h) => h,
                None => {
                    return Err(ParsingMethodError::InvalidHex);
                },
            },
            None => {
                return Err(ParsingMethodError::WrongArgs);
            },
        };
        let time = match params[7].as_str_bytes() {
            Some(x) => match HexU32Be::from_bytes(x.as_slice()) {
                Some(h) => h,
                None => {
                    return Err(ParsingMethodError::InvalidHex);
                },
            },
            None => {
                return Err(ParsingMethodError::WrongArgs);
            },
        };
        let clean_jobs = match params[8].as_bool() {
            Some(b) => b,
            None => {
                return Err(ParsingMethodError::WrongArgs);
            },
        };
        proof {
            assert forall|k: int|
                0 <= k < merkle_branch@.len() implies (#[trigger] merkle_branch@[k]).wf() by {
                assert(branch_vals@[k] is Str);
            }
            let ps = msg.params->Array_0@;
            assert forall|k: int|
                0 <= k < ps[4]->Array_0@.len() implies ((#[trigger] ps[4]->Array_0@[k]) is Str
                && ps[4]->Array_0@[k]->Str_0@.len() == 32) by {
                assert(branch_vals@[k] is Str);
                assert(merkle_branch@[k].wf());
            }
            assert(Self::params_ok(msg.params));
        }
        Ok(
            Notify {
                job_id,
                prev_hash,
                coin_base1,
                coin_base2,
                merkle_branch,
                version,
                bits,
                time,
                clean_jobs,
            },
        )
    }
}

/// The `mining.set_extranonce` notification: replaces the subscription's
/// extranonce values from the next job on.
#[derive(Debug, Clone, PartialEq, Eq)]
pub struct SetExtranonce {
    /// The new extranonce prefix.
    pub extra_nonce1: Extranonce,
    /// Number of bytes the miner uses for its extranonce counter.
    pub extra_nonce2_size: usize,
}

impl SetExtranonce {
    /// The notification as a JSON-RPC message: the hex extranonce and the
    /// counter size.
    pub fn into_message(self) -> (r: Message)
        ensures
            ({
                &&& r matches Message::Notification(n)
                &&& n.method@ == ("mining.set_extranonce").spec_bytes()
                &&& n.params is Array
                &&& n.params->Array_0@.len() == 2
                &&& (n.params->Array_0@[0] matches JsonValue::Str(x) && x@ == hex_of_bytes(
                    self.extra_nonce1.0@,
                ))
                &&& n.params->Array_0@[1] == JsonValue::Number(self.extra_nonce2_size as u64)
            }),
    {
        let mut params: Vec<JsonValue> = Vec::new();
        params.push(self.extra_nonce1.to_json());
        params.push(JsonValue::Number(self.extra_nonce2_size as u64));
        Message::Notification(
            Notification {
                method: "mining.set_extranonce".as_bytes_vec(),
                params: JsonValue::Array(params),
            },
        )
    }

    /// The parameters carry a hex string and a size that fits the machine.
    pub open spec fn params_ok(params: JsonValue) -> bool {
        let ps = params->Array_0@;
        &&& params is Array
        &&& ps.len() == 2
        &&& ps[0] is Str
        &&& ps[0]->Str_0@.len() % 2 == 0
        &&& (forall|i: int| 0 <= i < ps[0]->Str_0@.len() ==> is_hex_digit(#[trigger] ps[0]->Str_0@[i]))
        &&& ps[1] is Number
        &&& ps[1]->Number_0 <= usize::MAX
    }

    /// Reads a `mining.set_extranonce` out of a notification: a hex string
    /// and an unsigned size, succeeding exactly on those shapes.
    pub fn from_notification(msg: &Notification) -> (r: Result<SetExtranonce, ParsingMethodError>)
        ensures
            Self::params_ok(msg.params) ==> r is Ok,
            r matches Ok(m) ==> ({
                let ps = msg.params->Array_0@;
                &&& msg.params is Array
                &&& ps.len() == 2
                &&& (ps[0] matches JsonValue::Str(x) && hex_of_bytes(m.extra_nonce1.0@)
                    == lower_hex_normalized(x@))
                &&& (ps[1] matches JsonValue::Number(k) && m.extra_nonce2_size == k)
            }),
    {
        let params = match msg.params.as_array() {
            Some(p) => p,
            None => {
                return Err(ParsingMethodError::NotArray);
            },
        };
        if params.len() != 2 {
            return Err(ParsingMethodError::WrongArgs);
        }
        let en1_hex = match params[0].as_str_bytes() {
            Some(x) => x,
            None => {
                return Err(ParsingMethodError::WrongArgs);
            },
        };
        let extra_nonce1 = match hex_decode(en1_hex.as_slice()) {
            Some(v) => Extranonce(v),
            None => {
                return Err(ParsingMethodError::InvalidHex);
            },
        };
        let n = match params[1].as_u64() {
            Some(n) => n,
            None => {
                return Err(ParsingMethodError::NotUnsigned);
            },
        };
        if n > usize::MAX as u64 {
            return Err(ParsingMethodError::ImpossibleToParseAsU64);
        }
        Ok(SetExtranonce { extra_nonce1, extra_nonce2_size: n as usize })
    }
}

/// The `mining.set_version` notification: the server adjusts the version
/// rolling mask.
#[derive(Debug, Clone, PartialEq, Eq)]
pub struct SetVersionMask {
    /// The new version rolling mask.
    pub version_mask: HexU32Be,
}

impl SetVersionMask {
    /// The notification as a JSON-RPC message: the mask as eight hex digits.
    pub fn into_message(self) -> (r: Message)
        ensures
            ({
                &&& r matches Message::Notification(n)
                &&& n.method@ == ("mining.set_version").spec_bytes()
                &&& n.params is Array
                &&& n.params->Array_0@.len() == 1
                &&& (n.params->Array_0@[0] matches JsonValue::Str(x) && x@ == hex8(
                    self.version_mask.0,
                ))
            }),
    {
        let mut params: Vec<JsonValue> = Vec::new();
        params.push(self.version_mask.to_json());
        Message::Notification(
            Notification {
                method: "mining.set_version".as_bytes_vec(),
                params: JsonValue::Array(params),
            },
        )
    }

    /// The parameters carry one hex text of at most eight digits.
    pub open spec fn params_ok(params: JsonValue) -> bool {
        let ps = params->Array_0@;
        &&& params is Array
        &&& ps.len() == 1
        &&& ps[0] is Str
        &&& hex_text_ok(ps[0]->Str_0@)
    }

    /// Reads a `mining.set_version` out of a notification: one hex string,
    /// succeeding exactly on that shape.
    pub fn from_notification(msg: &Notification) -> (r: Result<SetVersionMask, ParsingMethodError>)
        ensures
            Self::params_ok(msg.params) ==> r is Ok,
            r matches Ok(m) ==> ({
                let ps = msg.params->Array_0@;
                &&& msg.params is Array
                &&& ps.len() == 1
                &&& (ps[0] matches JsonValue::Str(x) && m.version_mask.0 == hex_seq_val(x@))
            }),
    {
        let params = match msg.params.as_array() {
            Some(p) => p,
            None => {
                return Err(ParsingMethodError::NotArray);
            },
        };
        if params.len() != 1 {
            return Err(ParsingMethodError::WrongArgs);
        }
        let mask = match params[0].as_str_bytes() {
            Some(x) => match HexU32Be::from_bytes(x.as_slice()) {
                Some(h) => h,
                None => {
                    return Err(ParsingMethodError::InvalidHex);
                },
            },
            None => {
                return Err(ParsingMethodError::WrongArgs);
            },
        };
        Ok(SetVersionMask { version_mask: mask })
    }
}

/// A response whose result is a plain truth value; `mining.authorize` and
/// `mining.submit` answers share this shape.
#[derive(Debug, Clone, PartialEq, Eq, Structural)]
pub struct GeneralResponse {
    /// Id of the request answered.
    pub id: u64,
    /// Whether the request was accepted.
    pub result: bool,
}

impl GeneralResponse {
    /// Reads the shared boolean-result shape out of a response.
    pub fn from_response(msg: &Response) -> (r: Result<GeneralResponse, ParsingMethodError>)
        ensures
            msg.result is Bool ==> r == Ok::<GeneralResponse, ParsingMethodError>(
                GeneralResponse { id: msg.id, result: msg.result->Bool_0 },
            ),
            !(msg.result is Bool) ==> r == Err::<GeneralResponse, ParsingMethodError>(
                ParsingMethodError::ImpossibleToParseResultField,
            ),
    {
        match msg.result.as_bool() {
            Some(b) => Ok(GeneralResponse { id: msg.id, result: b }),
            None => Err(ParsingMethodError::ImpossibleToParseResultField),
        }
    }

    /// Reads this answer as a `mining.authorize` response, remembering the
    /// user name of the request it answers.
    pub fn into_authorize(self, prev_request_name: String) -> (r: Authorize)
        ensures
            r.id == self.id,
            r.authorized == self.result,
            r.prev_request_name == prev_request_name,
    {
        Authorize { id: self.id, authorized: self.result, prev_request_name }
    }

    /// Reads this answer as a `mining.submit` response.
    pub fn into_submit(self) -> (r: Submit)
        ensures
            r.id == self.id,
            r.is_ok == self.result,
    {
        Submit { id: self.id, is_ok: self.result }
    }
}

/// Answer to `mining.authorize`.
#[derive(Debug, Clone, PartialEq, Eq)]
pub struct Authorize {
    /// Id of the request answered.
    pub id: u64,
    /// Whether the worker was authorized.
    pub authorized: bool,
    /// User name of the request this answers.
    pub prev_request_name: String,
}

impl Authorize {
    /// Whether the worker was authorized.
    pub fn is_ok(&self) -> (r: bool)
        ensures
            r == self.authorized,
    {
        self.authorized
    }

    /// The user name of the request this answers.
    pub fn user_name(self) -> (r: String)
        ensures
            r == self.prev_request_name,
    {
        self.prev_request_name
    }
}

/// Answer to `mining.submit`.
#[derive(Debug, Clone, PartialEq, Eq)]
pub struct Submit {
    /// Id of the request answered.
    pub id: u64,
    /// Whether the share was accepted.
    pub is_ok: bool,
}

impl Submit {
    /// Whether the share was accepted.
    pub fn is_ok(&self) -> (r: bool)
        ensures
            r == self.is_ok,
    {
        self.is_ok
    }
}

/// Answer to `mining.subscribe`: the subscriptions granted, the connection's
/// extranonce prefix, and the extranonce counter size.
#[derive(Debug, Clone, PartialEq, Eq)]
pub struct Subscribe {
    /// Id of the request answered.
    pub id: u64,
    /// Per-connection extranonce prefix.
    pub extra_nonce1: Extranonce,
    /// Number of bytes the miner uses for its extranonce counter.
    pub extra_nonce2_size: usize,
    /// Granted subscriptions: pairs of type and id, as UTF-8 bytes.
    pub subscriptions: Vec<(Vec<u8>, Vec<u8>)>,
}

impl Subscribe {
    /// The answer as a JSON-RPC response: the subscription pairs, the hex
    /// extranonce, and the counter size.
    pub fn into_message(self) -> (r: Message)
        ensures
            ({
                &&& r matches Message::OkResponse(p)
                &&& p.id == self.id
                &&& p.error is None
                &&& p.result is Array
                &&& ({
                    let ps = p.result->Array_0@;
                    &&& ps.len() == 3
                    &&& ps[0] is Array
                    &&& ps[0]->Array_0@.len() == self.subscriptions@.len()
                    &&& (forall|i: int|
                        0 <= i < self.subscriptions@.len() ==> ((#[trigger] ps[0]->Array_0@[i])
                            is Array && ps[0]->Array_0@[i]->Array_0@.len() == 2 && (
                        ps[0]->Array_0@[i]->Array_0@[0] matches JsonValue::Str(a) && a@
                            == self.subscriptions@[i].0@) && (ps[0]->Array_0@[i]->Array_0@[1]
                            matches JsonValue::Str(b) && b@ == self.subscriptions@[i].1@)))
                    &&& (ps[1] matches JsonValue::Str(x) && x@ == hex_of_bytes(
                        self.extra_nonce1.0@,
                    ))
                    &&& ps[2] == JsonValue::Number(self.extra_nonce2_size as u64)
                })
            }),
    {
        let mut subs: Vec<JsonValue> = Vec::new();
        let mut i: usize = 0;
        while i < self.subscriptions.len()
            invariant
                i <= self.subscriptions@.len(),
                subs@.len() == i,
                forall|j: int|
                    0 <= j < i ==> ((#[trigger] subs@[j]) is Array && subs@[j]->Array_0@.len() == 2
                        && (subs@[j]->Array_0@[0] matches JsonValue::Str(a) && a@
                        == self.subscriptions@[j].0@) && (subs@[j]->Array_0@[1]
                        matches JsonValue::Str(b) && b@ == self.subscriptions@[j].1@)),
            decreases self.subscriptions@.len() - i,
        {
            let mut pair: Vec<JsonValue> = Vec::new();
            pair.push(JsonValue::Str(self.subscriptions[i].0.clone()));
            pair.push(JsonValue::Str(self.subscriptions[i].1.clone()));
            subs.push(JsonValue::Array(pair));
            i = i + 1;
        }
        let mut result: Vec<JsonValue> = Vec::new();
        result.push(JsonValue::Array(subs));
        result.push(self.extra_nonce1.to_json());
        result.push(JsonValue::Number(self.extra_nonce2_size as u64));
        Message::OkResponse(
            Response { id: self.id, error: None, result: JsonValue::Array(result) },
        )
    }

    /// The result carries the subscription pairs, a hex extranonce, and a
    /// size that fits the machine.
    pub open spec fn result_ok(result: JsonValue) -> bool {
        let ps = result->Array_0@;
        &&& result is Array
        &&& ps.len() == 3
        &&& ps[0] is Array
        &&& (forall|i: int|
            0 <= i < ps[0]->Array_0@.len() ==> ((#[trigger] ps[0]->Array_0@[i]) is Array
                && ps[0]->Array_0@[i]->Array_0@.len() == 2 && ps[0]->Array_0@[i]->Array_0@[0]
                is Str && ps[0]->Array_0@[i]->Array_0@[1] is Str))
        &&& ps[1] is Str
        &&& ps[1]->Str_0@.len() % 2 == 0
        &&& (forall|i: int| 0 <= i < ps[1]->Str_0@.len() ==> is_hex_digit(#[trigger] ps[1]->Str_0@[i]))
        &&& ps[2] is Number
        &&& ps[2]->Number_0 <= usize::MAX
    }

    /// Reads a `mining.subscribe` answer out of a response: an array of
    /// two-entry string pairs, a hex extranonce, and an unsigned size,
    /// succeeding exactly on those shapes.
    pub fn from_response(msg: &Response) -> (r: Result<Subscribe, ParsingMethodError>)
        ensures
            Self::result_ok(msg.result) ==> r is Ok,
            r matches Ok(m) ==> ({
                let ps = msg.result->Array_0@;
                &&& msg.result is Array
                &&& ps.len() == 3
                &&& m.id == msg.id
                &&& ps[0] is Array
                &&& m.subscriptions@.len() == ps[0]->Array_0@.len()
                &&& (forall|i: int|
                    0 <= i < m.subscriptions@.len() ==> ((#[trigger] ps[0]->Array_0@[i]) is Array
                        && ps[0]->Array_0@[i]->Array_0@.len() == 2
                        && ps[0]->Array_0@[i]->Array_0@[0] is Str
                        && ps[0]->Array_0@[i]->Array_0@[1] is Str && m.subscriptions@[i].0@
                        == ps[0]->Array_0@[i]->Array_0@[0]->Str_0@ && m.subscriptions@[i].1@
                        == ps[0]->Array_0@[i]->Array_0@[1]->Str_0@))
                &&& (ps[1] matches JsonValue::Str(x) && hex_of_bytes(m.extra_nonce1.0@)
                    == lower_hex_normalized(x@))
                &&& (ps[2] matches JsonValue::Number(k) && m.extra_nonce2_size == k)
            }),
    {
        let params = match msg.result.as_array() {
            Some(p) => p,
            None => {
                return Err(ParsingMethodError::ImpossibleToParseResultField);
            },
        };
        if params.len() != 3 {
            return Err(ParsingMethodError::UnexpectedArrayParams);
        }
        let subs_vals = match params[0].as_array() {
            Some(x) => x,
            None => {
                return Err(ParsingMethodError::UnexpectedArrayParams);
            },
        };
        let mut subscriptions: Vec<(Vec<u8>, Vec<u8>)> = Vec::new();
        let mut i: usize = 0;
        while i < subs_vals.len()
            invariant
                i <= subs_vals@.len(),
                subscriptions@.len() == i,
                Self::result_ok(msg.result) ==> (forall|j: int|
                    0 <= j < subs_vals@.len() ==> ((#[trigger] subs_vals@[j]) is Array
                        && subs_vals@[j]->Array_0@.len() == 2 && subs_vals@[j]->Array_0@[0] is Str
                        && subs_vals@[j]->Array_0@[1] is Str)),
                forall|j: int|
                    0 <= j < i ==> ((#[trigger] subs_vals@[j]) is Array
                        && subs_vals@[j]->Array_0@.len() == 2 && subs_vals@[j]->Array_0@[0] is Str
                        && subs_vals@[j]->Array_0@[1] is Str && subscriptions@[j].0@
                        == subs_vals@[j]->Array_0@[0]->Str_0@ && subscriptions@[j].1@
                        == subs_vals@[j]->Array_0@[1]->Str_0@),
            decreases subs_vals@.len() - i,
        {
            let pair = match subs_vals[i].as_array() {
                Some(x) => x,
                None => {
                    return Err(ParsingMethodError::UnexpectedArrayParams);
                },
            };
            if pair.len() != 2 {
                return Err(ParsingMethodError::UnexpectedArrayParams);
            }
            let a = match pair[0].as_str_bytes() {
                Some(x) => x.clone(),
                None => {
                    return Err(ParsingMethodError::UnexpectedArrayParams);
                },
            };
            let b = match pair[1].as_str_bytes() {
                Some(x) => x.clone(),
                None => {
                    return Err(ParsingMethodError::UnexpectedArrayParams);
                },
            };
            subscriptions.push((a, b));
            i = i + 1;
        }
        let en1_hex = match params[1].as_str_bytes() {
            Some(x) => x,
            None => {
                return Err(ParsingMethodError::UnexpectedArrayParams);
            },
        };
        let extra_nonce1 = match hex_decode(en1_hex.as_slice()) {
            Some(v) => Extranonce(v),
            None => {
                return Err(ParsingMethodError::InvalidHex);
            },
        };
        let n = match params[2].as_u64() {
            Some(n) => n,
            None => {
                return Err(ParsingMethodError::ImpossibleToParseAsU64);
            },
        };
        if n > usize::MAX as u64 {
            return Err(ParsingMethodError::ImpossibleToParseAsU64);
        }
        Ok(Subscribe { id: msg.id, extra_nonce1, extra_nonce2_size: n as usize, subscriptions })
    }
}

/// The version rolling terms granted by a `mining.configure` answer.
#[derive(Debug, Clone, PartialEq, Eq, Structural)]
pub struct VersionRollingParams {
    /// Whether version rolling was granted.
    pub version_rolling: bool,
    /// The granted mask.
    pub version_rolling_mask: HexU32Be,
    /// Least number of mask bits granted.
    pub version_rolling_min_bit_count: HexU32Be,
}

impl VersionRollingParams {
    /// Grants version rolling with the requested mask narrowed to the
    /// protocol's rollable bits.
    pub fn new(version_rolling_mask: HexU32Be, version_rolling_min_bit_count: HexU32Be) -> (r:
        Result<VersionRollingParams, V1Error>)
        ensures
            r matches Ok(p) && p.version_rolling == true && p.version_rolling_mask.0 == (
            version_rolling_mask.0 & 0x1FFFE000) && p.version_rolling_min_bit_count
                == version_rolling_min_bit_count,
    {
        let negotiated_mask = HexU32Be(version_rolling_mask.0 & 0x1FFFE000);
        let version_head_ok = negotiated_mask.0 >> 29 == 0;
        let version_tail_ok = negotiated_mask.0 << 19 == 0;
        proof {
            let m = version_rolling_mask.0;
            assert((m & 0x1FFFE000) >> 29 == 0 && (m & 0x1FFFE000) << 19 == 0) by (bit_vector);
        }
        if version_head_ok && version_tail_ok {
            Ok(
                VersionRollingParams {
                    version_rolling: true,
                    version_rolling_mask: negotiated_mask,
                    version_rolling_min_bit_count,
                },
            )
        } else {
            Err(V1Error::InvalidVersionMask(version_rolling_mask.0))
        }
    }
}

/// Answer to `mining.configure`: the granted version rolling terms and the
/// minimum-difficulty setting.
#[derive(Debug, Clone, PartialEq, Eq, Structural)]
pub struct Configure {
    /// Id of the request answered.
    pub id: u64,
    /// Version rolling terms; absent when not negotiated.
    pub version_rolling: Option<VersionRollingParams>,
    /// Minimum-difficulty setting; absent when not negotiated.
    pub minimum_difficulty: Option<bool>,
}

impl Configure {
    /// The granted mask, when version rolling was granted.
    pub fn version_rolling_mask(&self) -> (r: Option<HexU32Be>)
        ensures
            ({
                match self.version_rolling {
                    Some(a) => r == (if a.version_rolling {
                        Some(a.version_rolling_mask)
                    } else {
                        Option::<HexU32Be>::None
                    }),
                    None => r is None,
                }
            }),
    {
        match &self.version_rolling {
            None => None,
            Some(a) => {
                if a.version_rolling {
                    Some(a.version_rolling_mask)
                } else {
                    None
                }
            },
        }
    }

    /// The granted least bit count, when version rolling was granted.
    pub fn version_rolling_min_bit(&self) -> (r: Option<HexU32Be>)
        ensures
            ({
                match self.version_rolling {
                    Some(a) => r == (if a.version_rolling {
                        Some(a.version_rolling_min_bit_count)
                    } else {
                        Option::<HexU32Be>::None
                    }),
                    None => r is None,
                }
            }),
    {
        match &self.version_rolling {
            None => None,
            Some(a) => {
                if a.version_rolling {
                    Some(a.version_rolling_min_bit_count)
                } else {
                    None
                }
            },
        }
    }

    /// The answer as a JSON-RPC response: an object holding the granted
    /// version rolling fields and the minimum-difficulty flag, as present.
    pub fn into_message(self) -> (r: Message)
        ensures
            ({
                &&& r matches Message::OkResponse(p)
                &&& p.id == self.id
                &&& p.error is None
                &&& p.result is Object
                &&& (self.version_rolling matches Some(vr) ==> ({
                    let fs = p.result->Object_0@;
                    &&& fs.len() >= 3
                    &&& fs[0].0@ == ("version-rolling").spec_bytes()
                    &&& fs[0].1 == JsonValue::Bool(vr.version_rolling)
                    &&& fs[1].0@ == ("version-rolling.mask").spec_bytes()
                    &&& (fs[1].1 matches JsonValue::Str(x) && x@ == hex8(vr.version_rolling_mask.0))
                    &&& fs[2].0@ == ("version-rolling.min-bit-count").spec_bytes()
                    &&& (fs[2].1 matches JsonValue::Str(x) && x@ == hex8(
                        vr.version_rolling_min_bit_count.0,
                    ))
                }))
                &&& (self.minimum_difficulty matches Some(md) ==> ({
                    let fs = p.result->Object_0@;
                    fs.len() >= 1 && fs.last().0@ == ("minimum-difficulty").spec_bytes()
                        && fs.last().1 == JsonValue::Bool(md)
                }))
            }),
    {
        let mut fields: Vec<(Vec<u8>, JsonValue)> = Vec::new();
        match self.version_rolling {
            Some(vr) => {
                fields.push(
                    ("version-rolling".as_bytes_vec(), JsonValue::Bool(vr.version_rolling)),
                );
                fields.push(
                    ("version-rolling.mask".as_bytes_vec(), vr.version_rolling_mask.to_json()),
                );
                fields.push(
                    (
                        "version-rolling.min-bit-count".as_bytes_vec(),
                        vr.version_rolling_min_bit_count.to_json(),
                    ),
                );
            },
            None => {},
        }
        match self.minimum_difficulty {
            Some(md) => {
                fields.push(("minimum-difficulty".as_bytes_vec(), JsonValue::Bool(md)));
            },
            None => {},
        }
        Message::OkResponse(
            Response { id: self.id, error: None, result: JsonValue::Object(fields) },
        )
    }

    /// The result object carries the `mining.configure` answer shapes:
    /// `version-rolling` and its mask come together or not at all, the
    /// optional fields have their wire types.
    pub open spec fn result_ok(result: JsonValue) -> bool {
        let fs = result->Object_0@;
        let vr = crate::json::spec_obj_get(fs, ("version-rolling").spec_bytes());
        let mask = crate::json::spec_obj_get(fs, ("version-rolling.mask").spec_bytes());
        let min = crate::json::spec_obj_get(fs, ("version-rolling.min-bit-count").spec_bytes());
        let md = crate::json::spec_obj_get(fs, ("minimum-difficulty").spec_bytes());
        &&& result is Object
        &&& ((vr matches Some(v) && v is Bool && (mask matches Some(m) && m is Str && hex_text_ok(
            m->Str_0@,
        )) && (min is None || (min matches Some(x) && x is Str && hex_text_ok(x->Str_0@)))) || (vr
            is None && mask is None && min is None))
        &&& (md is None || (md matches Some(v) && v is Bool))
    }

    /// Reads a `mining.configure` answer out of a response object.
    ///
    /// `version-rolling` and `version-rolling.mask` come together or not at
    /// all; a missing `version-rolling.min-bit-count` is read as zero, as
    /// many servers leave it out. Reading succeeds exactly on the wire
    /// shapes.
    pub fn from_response(msg: &Response) -> (r: Result<Configure, ParsingMethodError>)
        ensures
            Self::result_ok(msg.result) ==> r is Ok,
            !(msg.result is Object) ==> r == Err::<Configure, ParsingMethodError>(
                ParsingMethodError::ImpossibleToParseResultField,
            ),
            msg.result is Object ==> ({
                let fs = msg.result->Object_0@;
                let vr = crate::json::spec_obj_get(fs, ("version-rolling").spec_bytes());
                let mask = crate::json::spec_obj_get(fs, ("version-rolling.mask").spec_bytes());
                let min = crate::json::spec_obj_get(
                    fs,
                    ("version-rolling.min-bit-count").spec_bytes(),
                );
                &&& ((vr is Some && mask is None) || (vr is None && mask is Some)) ==> r == Err::<
                    Configure,
                    ParsingMethodError,
                >(ParsingMethodError::UnexpectedObjectParams)
                &&& (vr is None && mask is None && min is Some) ==> r == Err::<
                    Configure,
                    ParsingMethodError,
                >(ParsingMethodError::UnexpectedObjectParams)
            }),
            r matches Ok(c) && c.version_rolling is None ==> ({
                let fs = msg.result->Object_0@;
                &&& crate::json::spec_obj_get(fs, ("version-rolling.mask").spec_bytes()) is None
                &&& crate::json::spec_obj_get(
                    fs,
                    ("version-rolling.min-bit-count").spec_bytes(),
                ) is None
            }),
            r matches Ok(c) ==> ({
                let fs = msg.result->Object_0@;
                &&& msg.result is Object
                &&& c.id == msg.id
                &&& (c.version_rolling matches Some(vr) ==> ({
                    &&& (crate::json::spec_obj_get(fs, ("version-rolling").spec_bytes())
                        matches Some(v) && v is Bool && vr.version_rolling == v->Bool_0)
                    &&& (crate::json::spec_obj_get(fs, ("version-rolling.mask").spec_bytes())
                        matches Some(v) && v is Str && vr.version_rolling_mask.0 == hex_seq_val(
                        v->Str_0@,
                    ))
                    &&& (crate::json::spec_obj_get(
                        fs,
                        ("version-rolling.min-bit-count").spec_bytes(),
                    ) matches Some(v) ==> v is Str && vr.version_rolling_min_bit_count.0
                        == hex_seq_val(v->Str_0@))
                    &&& (crate::json::spec_obj_get(
                        fs,
                        ("version-rolling.min-bit-count").spec_bytes(),
                    ) is None ==> vr.version_rolling_min_bit_count.0 == 0)
                }))
                &&& (c.version_rolling is None ==> crate::json::spec_obj_get(
                    fs,
                    ("version-rolling").spec_bytes(),
                ) is None)
                &&& (c.minimum_difficulty matches Some(md) ==> (crate::json::spec_obj_get(
                    fs,
                    ("minimum-difficulty").spec_bytes(),
                ) matches Some(v) && v is Bool && md == v->Bool_0))
                &&& (c.minimum_difficulty is None ==> crate::json::spec_obj_get(
                    fs,
                    ("minimum-difficulty").spec_bytes(),
                ) is None)
            }),
    {
        if !(match &msg.result {
            JsonValue::Object(_) => true,
            _ => false,
        }) {
            return Err(ParsingMethodError::ImpossibleToParseResultField);
        }
        let vr_flag = msg.result.obj_get("version-rolling".as_bytes_vec().as_slice());
        let vr_mask = msg.result.obj_get("version-rolling.mask".as_bytes_vec().as_slice());
        let vr_min = msg.result.obj_get(
            "version-rolling.min-bit-count".as_bytes_vec().as_slice(),
        );
        let version_rolling: Option<VersionRollingParams> = match (vr_flag, vr_mask) {
            (Some(flag_val), Some(mask_val)) => {
                let flag = match flag_val.as_bool() {
                    Some(b) => b,
                    None => {
                        return Err(ParsingMethodError::UnexpectedObjectParams);
                    },
                };
                let mask = match mask_val.as_str_bytes() {
                    Some(x) => match HexU32Be::from_bytes(x.as_slice()) {
                        Some(h) => h,
                        None => {
                            return Err(ParsingMethodError::InvalidHex);
                        },
                    },
                    None => {
                        return Err(ParsingMethodError::UnexpectedObjectParams);
                    },
                };
                let min_bits = match vr_min {
                    Some(min_val) => match min_val.as_str_bytes() {
                        Some(x) => match HexU32Be::from_bytes(x.as_slice()) {
                            Some(h) => h,
                            None => {
                                return Err(ParsingMethodError::InvalidHex);
                            },
                        },
                        None => {
                            return Err(ParsingMethodError::UnexpectedObjectParams);
                        },
                    },
                    None => HexU32Be(0),
                };
                Some(
                    VersionRollingParams {
                        version_rolling: flag,
                        version_rolling_mask: mask,
                        version_rolling_min_bit_count: min_bits,
                    },
                )
            },
            (None, None) => {
                match vr_min {
                    Some(_) => {
                        return Err(ParsingMethodError::UnexpectedObjectParams);
                    },
                    None => None,
                }
            },
            _ => {
                return Err(ParsingMethodError::UnexpectedObjectParams);
            },
        };
        let minimum_difficulty = match msg.result.obj_get(
            "minimum-difficulty".as_bytes_vec().as_slice(),
        ) {
            Some(v) => match v.as_bool() {
                Some(b) => Some(b),
                None => {
                    return Err(ParsingMethodError::UnexpectedObjectParams);
                },
            },
            None => None,
        };
        Ok(Configure { id: msg.id, version_rolling, minimum_difficulty })
    }
}

} // verus!
