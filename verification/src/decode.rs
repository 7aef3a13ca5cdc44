//! The binary decoder: turns the raw bytes of an XFDR file into a header, a
//! dataref schema and an ordered frame sequence.
//!
//! Layout, little-endian throughout: a 4-byte magic tag `XFDR`; version
//! (u16), level (u8), interval (f32 bits), start timestamp (u64), dataref
//! count (u16); then per dataref a u16 name length, the name bytes, a type
//! code byte and an array-size byte; then frames, each a 4-byte `DATA`
//! marker, an f32-bits timestamp and one encoded value per value-producing
//! dataref; then an optional footer: `ENDR`, a u32 total-record count and a
//! u64 end timestamp.
//!
//! Only a bad magic tag or a truncated header/schema is fatal.  Anything
//! unexpected in the frame stream or footer ends decoding gracefully with
//! what was read before it: a marker other than `DATA` stops the stream at
//! the marker, and a read that would run past the end of the input discards
//! the partial frame and consumes the rest of the input (as a failed exact
//! read from a buffered reader does).

use vstd::prelude::*;
use vstd::bytes::{
    spec_u16_from_le_bytes, spec_u32_from_le_bytes, spec_u64_from_le_bytes, u16_from_le_bytes,
    u32_from_le_bytes, u64_from_le_bytes,
};
use vstd::slice::slice_subrange;
use crate::model::{DataFrame, DataFrameV, DataValue, DataValueV, DatarefDef, XDRData, XDRHeader};
use crate::text::{level_name_of, spec_level_name, spec_type_name, type_name_of};
use crate::trusted::{datetime_string_of, lossy_of, timestamp_in_range, utf8_lossy};

verus! {

// ---------------------------------------------------------------------------
// Errors.
// ---------------------------------------------------------------------------

/// Why a load failed outright.  Truncation inside the frame stream or footer
/// is not an error; these three are.
#[derive(Debug)]
pub enum XdrError {
    /// The first four bytes were not `XFDR`; carries the bytes actually read.
    BadMagic(Vec<u8>),
    /// Fewer bytes than the fixed 21-byte header needs.
    TruncatedHeader,
    /// The input ended inside the dataref schema.
    TruncatedSchema,
}

/// Ghost counterpart of `XdrError`.
pub enum XdrErrorV {
    BadMagic(Seq<u8>),
    TruncatedHeader,
    TruncatedSchema,
}

impl View for XdrError {
    type V = XdrErrorV;

    open spec fn view(&self) -> XdrErrorV {
        match self {
            XdrError::BadMagic(b) => XdrErrorV::BadMagic(b@),
            XdrError::TruncatedHeader => XdrErrorV::TruncatedHeader,
            XdrError::TruncatedSchema => XdrErrorV::TruncatedSchema,
        }
    }
}

// ---------------------------------------------------------------------------
// The wire-level spec model.
// ---------------------------------------------------------------------------

/// "XFDR"
pub open spec fn magic_bytes() -> Seq<u8> {
    seq![0x58u8, 0x46u8, 0x44u8, 0x52u8]
}

/// "DATA"
pub open spec fn data_marker() -> Seq<u8> {
    seq![0x44u8, 0x41u8, 0x54u8, 0x41u8]
}

/// "ENDR"
pub open spec fn endr_marker() -> Seq<u8> {
    seq![0x45u8, 0x4eu8, 0x44u8, 0x52u8]
}

/// The fixed header size: magic and five fields.
pub open spec fn header_size() -> int {
    21
}

/// A schema entry as it stands on the wire: decoded name characters, raw
/// type code, raw array size.
pub struct DrefRaw {
    pub name: Seq<char>,
    pub code: u8,
    pub array_size: u8,
}

/// Reinterpretation of 32 stored bits as a two's-complement signed integer.
pub open spec fn i32_of_bits(u: u32) -> i32 {
    if u < 0x8000_0000 {
        u as i32
    } else {
        (u - 0x1_0000_0000) as i32
    }
}

/// Parses `n` schema entries at `pos`; `None` when the input ends inside
/// them.  Returns the entries and the number of bytes consumed.
pub open spec fn parse_datarefs(s: Seq<u8>, pos: int, n: nat) -> Option<(Seq<DrefRaw>, nat)>
    decreases n,
{
    if n == 0 {
        Some((Seq::empty(), 0nat))
    } else if pos + 2 > s.len() {
        None
    } else {
        let nl = spec_u16_from_le_bytes(s.subrange(pos, pos + 2)) as int;
        if pos + 2 + nl + 2 > s.len() {
            None
        } else {
            let item = DrefRaw {
                name: lossy_of(s.subrange(pos + 2, pos + 2 + nl)),
                code: s[pos + 2 + nl],
                array_size: s[pos + 2 + nl + 1],
            };
            match parse_datarefs(s, pos + 2 + nl + 2, (n - 1) as nat) {
                None => None,
                Some((rest, c)) => Some((seq![item] + rest, (2 + nl + 2 + c) as nat)),
            }
        }
    }
}

/// Parses the one value (or, for an unrepresentable type/size combination,
/// no value) that the schema entry prescribes.  `None` when the input ends
/// inside it.
pub open spec fn parse_value(s: Seq<u8>, pos: int, d: DrefRaw) -> Option<(Seq<DataValueV>, nat)> {
    if d.array_size > 0 {
        if d.code == 0 {
            if pos + 4 * d.array_size <= s.len() {
                Some(
                    (
                        seq![
                            DataValueV::FloatArray(
                                Seq::new(
                                    d.array_size as nat,
                                    |j: int|
                                        spec_u32_from_le_bytes(
                                            s.subrange(pos + 4 * j, pos + 4 * j + 4),
                                        ),
                                ),
                            ),
                        ],
                        (4 * d.array_size) as nat,
                    ),
                )
            } else {
                None
            }
        } else if d.code == 1 {
            if pos + 4 * d.array_size <= s.len() {
                Some(
                    (
                        seq![
                            DataValueV::IntArray(
                                Seq::new(
                                    d.array_size as nat,
                                    |j: int|
                                        i32_of_bits(
                                            spec_u32_from_le_bytes(
                                                s.subrange(pos + 4 * j, pos + 4 * j + 4),
                                            ),
                                        ),
                                ),
                            ),
                        ],
                        (4 * d.array_size) as nat,
                    ),
                )
            } else {
                None
            }
        } else {
            // A string or unknown type with an array size consumes nothing
            // and produces nothing.
            Some((Seq::empty(), 0nat))
        }
    } else {
        if d.code == 0 {
            if pos + 4 <= s.len() {
                Some(
                    (
                        seq![DataValueV::Float(spec_u32_from_le_bytes(s.subrange(pos, pos + 4)))],
                        4nat,
                    ),
                )
            } else {
                None
            }
        } else if d.code == 1 {
            if pos + 4 <= s.len() {
                Some(
                    (
                        seq![
                            DataValueV::Int(
                                i32_of_bits(spec_u32_from_le_bytes(s.subrange(pos, pos + 4))),
                            ),
                        ],
                        4nat,
                    ),
                )
            } else {
                None
            }
        } else if d.code == 2 {
            if pos + 1 > s.len() {
                None
            } else {
                let l = s[pos] as int;
                if pos + 1 + l <= s.len() {
                    Some(
                        (seq![DataValueV::Str(lossy_of(s.subrange(pos + 1, pos + 1 + l)))], (1
                            + l) as nat),
                    )
                } else {
                    None
                }
            }
        } else {
            // Unknown scalar type: consumes nothing, produces nothing.
            Some((Seq::empty(), 0nat))
        }
    }
}

/// Parses one value per schema entry from `k` on, in schema order.
pub open spec fn parse_values(s: Seq<u8>, pos: int, schema: Seq<DrefRaw>, k: int) -> Option<
    (Seq<DataValueV>, nat),
>
    decreases schema.len() - k,
{
    if k < 0 || k >= schema.len() {
        Some((Seq::empty(), 0nat))
    } else {
        match parse_value(s, pos, schema[k]) {
            None => None,
            Some((v, c)) => match parse_values(s, pos + c, schema, k + 1) {
                None => None,
                Some((rest, c2)) => Some((v + rest, (c + c2) as nat)),
            },
        }
    }
}

/// Parses the frame stream at `pos`.  Returns the frames and the position at
/// which decoding stopped: the position of the first marker that is not
/// `DATA` (or the clean end of input), or the end of the input when a frame
/// was cut short, since the failed read consumes what remains.
pub open spec fn parse_frames(s: Seq<u8>, pos: int, schema: Seq<DrefRaw>) -> (
    Seq<DataFrameV>,
    int,
)
    decreases s.len() - pos,
        when 0 <= pos <= s.len()
{
    if pos + 4 > s.len() {
        (Seq::empty(), pos)
    } else if s.subrange(pos, pos + 4) == endr_marker() {
        (Seq::empty(), pos)
    } else if s.subrange(pos, pos + 4) != data_marker() {
        (Seq::empty(), pos)
    } else if pos + 8 > s.len() {
        (Seq::empty(), s.len() as int)
    } else {
        let ts = spec_u32_from_le_bytes(s.subrange(pos + 4, pos + 8));
        match parse_values(s, pos + 8, schema, 0) {
            None => (Seq::empty(), s.len() as int),
            Some((vals, c)) => {
                if pos + 8 + c > s.len() {
                    // Unreachable: a successful value parse stays in bounds.
                    (Seq::empty(), s.len() as int)
                } else {
                    let (rest, end) = parse_frames(s, pos + 8 + c, schema);
                    (seq![DataFrameV { timestamp: ts, values: vals }] + rest, end)
                }
            },
        }
    }
}

/// The fatal outcome of a load attempt, if any: decoding proper begins only
/// when this is `None`.
pub open spec fn spec_decode_error(s: Seq<u8>) -> Option<XdrErrorV> {
    if s.len() < 4 {
        Some(XdrErrorV::TruncatedHeader)
    } else if s.subrange(0, 4) != magic_bytes() {
        Some(XdrErrorV::BadMagic(s.subrange(0, 4)))
    } else if s.len() < header_size() {
        Some(XdrErrorV::TruncatedHeader)
    } else {
        let count = spec_u16_from_le_bytes(s.subrange(19, 21));
        if parse_datarefs(s, header_size(), count as nat) is None {
            Some(XdrErrorV::TruncatedSchema)
        } else {
            None
        }
    }
}

/// The datetime string stored for a timestamp: the formatted UTC datetime,
/// or the documented fallback when chrono cannot represent it.
pub open spec fn spec_datetime_text(ts: u64) -> Seq<char> {
    if timestamp_in_range(ts) {
        datetime_string_of(ts)
    } else {
        "Invalid timestamp"@
    }
}

/// How the stored header relates to the input bytes (footer fields aside).
pub open spec fn header_matches(h: XDRHeader, s: Seq<u8>) -> bool {
    &&& h.magic@ == "XFDR"@
    &&& h.version == spec_u16_from_le_bytes(s.subrange(4, 6))
    &&& h.level == s[6]
    &&& h.level_name@ == spec_level_name(s[6])
    &&& h.interval == spec_u32_from_le_bytes(s.subrange(7, 11))
    &&& h.start_timestamp == spec_u64_from_le_bytes(s.subrange(11, 19))
    &&& h.start_datetime@ == spec_datetime_text(h.start_timestamp)
    &&& h.dataref_count == spec_u16_from_le_bytes(s.subrange(19, 21))
}

/// How one stored schema entry relates to its wire-level form.
pub open spec fn dataref_matches_raw(d: DatarefDef, r: DrefRaw) -> bool {
    &&& d.name@ == r.name
    &&& d.data_type@ == spec_type_name(r.code)
    &&& d.array_size == r.array_size
}

/// Whether a well-formed footer marker stands at `pos`.
pub open spec fn has_footer(s: Seq<u8>, pos: int) -> bool {
    pos + 4 <= s.len() && s.subrange(pos, pos + 4) == endr_marker()
}

/// Whether the footer's two fields are present in full after the marker.
pub open spec fn footer_fields_present(s: Seq<u8>, pos: int) -> bool {
    has_footer(s, pos) && pos + 16 <= s.len()
}

/// The duration derived from the footer: end minus start, clamped at zero
/// for a corrupt footer whose end precedes the start.
pub open spec fn spec_duration(start: u64, end: u64) -> u64 {
    if end >= start {
        (end - start) as u64
    } else {
        0u64
    }
}

/// How the stored footer fields relate to the input at the stream's end.
pub open spec fn footer_matches(d: XDRData, s: Seq<u8>, pos: int) -> bool {
    &&& d.is_complete == has_footer(s, pos)
    &&& if footer_fields_present(s, pos) {
        let end_ts = spec_u64_from_le_bytes(s.subrange(pos + 8, pos + 16));
        &&& d.header.total_records == Some(spec_u32_from_le_bytes(s.subrange(pos + 4, pos + 8)))
        &&& d.header.end_timestamp == Some(end_ts)
        &&& d.header.end_datetime matches Some(dt) && dt@ == spec_datetime_text(end_ts)
        &&& d.header.duration == Some(spec_duration(d.header.start_timestamp, end_ts))
    } else {
        &&& d.header.total_records is None
        &&& d.header.end_timestamp is None
        &&& d.header.end_datetime is None
        &&& d.header.duration is None
    }
}

/// Everything `decode` promises of a successfully decoded dataset.
pub open spec fn decode_ok(d: XDRData, s: Seq<u8>) -> bool {
    let count = spec_u16_from_le_bytes(s.subrange(19, 21));
    let schema = parse_datarefs(s, header_size(), count as nat)->Some_0;
    let fstart = header_size() + schema.1;
    let frames = parse_frames(s, fstart, schema.0);
    &&& header_matches(d.header, s)
    &&& d.datarefs@.len() == schema.0.len() == count
    &&& forall|i: int|
        0 <= i < schema.0.len() ==> dataref_matches_raw(#[trigger] d.datarefs@[i], schema.0[i])
    &&& d.frames_view() == frames.0
    &&& footer_matches(d, s, frames.1)
    &&& d.filepath@ == Seq::<char>::empty()
}

// ---------------------------------------------------------------------------
// Bounded little-endian readers over the input vector.
// ---------------------------------------------------------------------------

fn rd_u16(b: &Vec<u8>, pos: usize) -> (r: u16)
    requires
        pos + 2 <= b@.len(),
    ensures
        r == spec_u16_from_le_bytes(b@.subrange(pos as int, pos as int + 2)),
{
    // Binding the length as a machine integer bounds the index arithmetic.
    let _n: usize = b.len();
    u16_from_le_bytes(slice_subrange(b.as_slice(), pos, pos + 2))
}

fn rd_u32(b: &Vec<u8>, pos: usize) -> (r: u32)
    requires
        pos + 4 <= b@.len(),
    ensures
        r == spec_u32_from_le_bytes(b@.subrange(pos as int, pos as int + 4)),
{
    let _n: usize = b.len();
    u32_from_le_bytes(slice_subrange(b.as_slice(), pos, pos + 4))
}

fn rd_u64(b: &Vec<u8>, pos: usize) -> (r: u64)
    requires
        pos + 8 <= b@.len(),
    ensures
        r == spec_u64_from_le_bytes(b@.subrange(pos as int, pos as int + 8)),
{
    let _n: usize = b.len();
    u64_from_le_bytes(slice_subrange(b.as_slice(), pos, pos + 8))
}

fn rd_i32(b: &Vec<u8>, pos: usize) -> (r: i32)
    requires
        pos + 4 <= b@.len(),
    ensures
        r == i32_of_bits(spec_u32_from_le_bytes(b@.subrange(pos as int, pos as int + 4))),
{
    let u = rd_u32(b, pos);
    if u < 0x8000_0000 {
        u as i32
    } else {
        ((u as i64) - 0x1_0000_0000) as i32
    }
}

/// Compares the four bytes at `pos` with the given marker bytes.
fn marker_at(b: &Vec<u8>, pos: usize, m: [u8; 4]) -> (r: bool)
    requires
        pos + 4 <= b@.len(),
    ensures
        r == (b@.subrange(pos as int, pos as int + 4) == seq![m@[0], m@[1], m@[2], m@[3]]),
{
    let _n: usize = b.len();
    let r = b[pos] == m[0] && b[pos + 1] == m[1] && b[pos + 2] == m[2] && b[pos + 3] == m[3];
    proof {
        let sr = b@.subrange(pos as int, pos as int + 4);
        assert(sr.len() == 4);
        assert(sr[0] == b@[pos as int] && sr[1] == b@[pos as int + 1] && sr[2] == b@[pos as int
            + 2] && sr[3] == b@[pos as int + 3]);
        if r {
            assert(sr =~= seq![m@[0], m@[1], m@[2], m@[3]]);
        } else {
            assert(sr != seq![m@[0], m@[1], m@[2], m@[3]]);
        }
    }
    r
}

// ---------------------------------------------------------------------------
// Composition helpers for the executable decoder's loop invariants.
// ---------------------------------------------------------------------------

/// Prefixes already-parsed schema entries (and the bytes they consumed) onto
/// the outcome of parsing the remainder.
spec fn prepend_schema(a: Seq<DrefRaw>, base: int, rest: Option<(Seq<DrefRaw>, nat)>) -> Option<
    (Seq<DrefRaw>, nat),
> {
    match rest {
        None => None,
        Some((r, c)) => Some((a + r, (base + c) as nat)),
    }
}

/// Prefixes already-parsed values (and the bytes they consumed) onto the
/// outcome of parsing the remainder.
spec fn prepend_values(
    a: Seq<DataValueV>,
    base: int,
    rest: Option<(Seq<DataValueV>, nat)>,
) -> Option<(Seq<DataValueV>, nat)> {
    match rest {
        None => None,
        Some((r, c)) => Some((a + r, (base + c) as nat)),
    }
}

/// A successful value parse never runs past the end of the input.
proof fn lemma_parse_values_in_bounds(s: Seq<u8>, pos: int, schema: Seq<DrefRaw>, k: int)
    requires
        0 <= pos <= s.len(),
    ensures
        match parse_values(s, pos, schema, k) {
            None => true,
            Some((v, c)) => pos + c <= s.len(),
        },
    decreases schema.len() - k,
{
    if 0 <= k < schema.len() {
        match parse_value(s, pos, schema[k]) {
            None => {},
            Some((v, c)) => {
                assert(pos + c <= s.len());
                lemma_parse_values_in_bounds(s, pos + c, schema, k + 1);
            },
        }
    }
}

// ---------------------------------------------------------------------------
// The executable decoder.
// ---------------------------------------------------------------------------

/// Reads the `count` schema entries that follow the header.  On success
/// returns the stored schema, the raw (type code, array size) layout the
/// frame reader needs, and the position just past the schema.
fn decode_schema(bytes: &Vec<u8>, count: u16) -> (r: Result<
    (Vec<DatarefDef>, Vec<(u8, u8)>, usize),
    XdrError,
>)
    requires
        header_size() <= bytes@.len(),
    ensures
        match r {
            Err(e) => parse_datarefs(bytes@, header_size(), count as nat) is None && e@
                == XdrErrorV::TruncatedSchema,
            Ok(t) => {
                match parse_datarefs(bytes@, header_size(), count as nat) {
                    None => false,
                    Some((raw, c)) => {
                        &&& t.0@.len() == raw.len() == count
                        &&& forall|i: int|
                            0 <= i < raw.len() ==> dataref_matches_raw(
                                #[trigger] t.0@[i],
                                raw[i],
                            )
                        &&& t.1@.len() == raw.len()
                        &&& forall|i: int|
                            0 <= i < raw.len() ==> (#[trigger] t.1@[i]).0 == raw[i].code
                                && t.1@[i].1 == raw[i].array_size
                        &&& t.2 == header_size() + c
                        &&& t.2 <= bytes@.len()
                    },
                }
            },
        },
{
    let n: usize = bytes.len();
    let mut defs: Vec<DatarefDef> = Vec::new();
    let mut layout: Vec<(u8, u8)> = Vec::new();
    let mut pos: usize = 21;
    let ghost s = bytes@;
    let ghost mut raw_done: Seq<DrefRaw> = Seq::empty();
    let mut i: u16 = 0;
    proof {
        assert(raw_done + parse_datarefs(s, 21, count as nat)->Some_0.0 =~= parse_datarefs(
            s,
            21,
            count as nat,
        )->Some_0.0);
        assert(parse_datarefs(s, 21, count as nat) == prepend_schema(
            raw_done,
            0,
            parse_datarefs(s, 21, count as nat),
        ));
    }
    while i < count
        invariant
            n == s.len(),
            s == bytes@,
            i <= count,
            21 <= pos <= n,
            parse_datarefs(s, header_size(), count as nat) == prepend_schema(
                raw_done,
                pos - 21,
                parse_datarefs(s, pos as int, (count - i) as nat),
            ),
            raw_done.len() == i,
            defs@.len() == i,
            layout@.len() == i,
            forall|k: int|
                0 <= k < i ==> dataref_matches_raw(#[trigger] defs@[k], raw_done[k]),
            forall|k: int|
                0 <= k < i ==> (#[trigger] layout@[k]).0 == raw_done[k].code && layout@[k].1
                    == raw_done[k].array_size,
        decreases count - i,
    {
        let ghost pos0 = pos as int;
        let ghost rem0 = (count - i) as nat;
        if n - pos < 2 {
            proof {
                assert(parse_datarefs(s, pos0, rem0) is None);
            }
            return Err(XdrError::TruncatedSchema);
        }
        let nl = rd_u16(bytes, pos) as usize;
        if n - (pos + 2) < nl + 2 {
            proof {
                assert(parse_datarefs(s, pos0, rem0) is None);
            }
            return Err(XdrError::TruncatedSchema);
        }
        let name = utf8_lossy(slice_subrange(bytes.as_slice(), pos + 2, pos + 2 + nl));
        let code: u8 = bytes[pos + 2 + nl];
        let asz: u8 = bytes[pos + 2 + nl + 1];
        let ghost item = DrefRaw {
            name: lossy_of(s.subrange(pos0 + 2, pos0 + 2 + nl as int)),
            code: s[pos0 + 2 + nl as int],
            array_size: s[pos0 + 2 + nl as int + 1],
        };
        defs.push(DatarefDef { name, data_type: type_name_of(code), array_size: asz });
        layout.push((code, asz));
        proof {
            raw_done = raw_done.push(item);
        }
        pos = pos + 2 + nl + 2;
        i = i + 1;
        proof {
            let rest = parse_datarefs(s, pos as int, (count - i) as nat);
            assert(parse_datarefs(s, pos0, rem0) == match rest {
                None => None::<(Seq<DrefRaw>, nat)>,
                Some((r2, c2)) => Some((seq![item] + r2, (2 + nl + 2 + c2) as nat)),
            });
            match rest {
                None => {},
                Some((r2, c2)) => {
                    assert(raw_done.drop_last() + (seq![item] + r2) =~= raw_done + r2);
                },
            }
        }
    }
    proof {
        assert(parse_datarefs(s, pos as int, 0) == Some((Seq::<DrefRaw>::empty(), 0nat)));
        assert(raw_done + Seq::<DrefRaw>::empty() =~= raw_done);
    }
    Ok((defs, layout, pos))
}

/// Reads the values of one frame at `start`, one per schema entry, in schema
/// order.  `None` when the input ends inside a value: the partial frame is
/// discarded by the caller.
fn read_frame_values(
    bytes: &Vec<u8>,
    start: usize,
    layout: &Vec<(u8, u8)>,
    Ghost(raw): Ghost<Seq<DrefRaw>>,
) -> (r: Option<(Vec<DataValue>, usize)>)
    requires
        start <= bytes@.len(),
        layout@.len() == raw.len(),
        forall|k: int|
            0 <= k < raw.len() ==> (#[trigger] layout@[k]).0 == raw[k].code && layout@[k].1
                == raw[k].array_size,
    ensures
        match parse_values(bytes@, start as int, raw, 0) {
            None => r is None,
            Some((vals, c)) => r matches Some(p) && p.0@.map(|i: int, v: DataValue| v@) == vals
                && p.1 == start + c,
        },
{
    let n: usize = bytes.len();
    let mut vals: Vec<DataValue> = Vec::new();
    let mut pos: usize = start;
    let mut k: usize = 0;
    let ghost s = bytes@;
    proof {
        assert(vals@.map(|i: int, v: DataValue| v@) =~= Seq::<DataValueV>::empty());
        assert(Seq::<DataValueV>::empty() + parse_values(s, start as int, raw, 0)->Some_0.0
            =~= parse_values(s, start as int, raw, 0)->Some_0.0);
    }
    while k < layout.len()
        invariant
            n == s.len(),
            s == bytes@,
            start <= pos <= n,
            k <= layout@.len(),
            layout@.len() == raw.len(),
            forall|t: int|
                0 <= t < raw.len() ==> (#[trigger] layout@[t]).0 == raw[t].code && layout@[t].1
                    == raw[t].array_size,
            parse_values(s, start as int, raw, 0) == prepend_values(
                vals@.map(|i: int, v: DataValue| v@),
                pos - start,
                parse_values(s, pos as int, raw, k as int),
            ),
        decreases layout@.len() - k,
    {
        let ghost pos0 = pos as int;
        let ghost vals0 = vals@.map(|i: int, v: DataValue| v@);
        let (code, asz) = layout[k];
        let ghost d = raw[k as int];
        if asz > 0 {
            if code == 0 {
                if n - pos < 4 * (asz as usize) {
                    proof {
                        assert(parse_value(s, pos0, d) is None);
                    }
                    return None;
                }
                let mut arr: Vec<u32> = Vec::new();
                let mut j: usize = 0;
                while j < asz as usize
                    invariant
                        n == s.len(),
                        s == bytes@,
                        j <= asz,
                        pos + 4 * (asz as int) <= n,
                        arr@.len() == j,
                        forall|t: int|
                            0 <= t < j ==> arr@[t] == spec_u32_from_le_bytes(
                                s.subrange(pos + 4 * t, pos + 4 * t + 4),
                            ),
                    decreases asz - j,
                {
                    let v = rd_u32(bytes, pos + 4 * j);
                    arr.push(v);
                    j = j + 1;
                }
                proof {
                    assert(arr@ =~= Seq::new(
                        d.array_size as nat,
                        |t: int| spec_u32_from_le_bytes(s.subrange(pos0 + 4 * t, pos0 + 4 * t + 4)),
                    ));
                }
                vals.push(DataValue::FloatArray(arr));
                pos = pos + 4 * (asz as usize);
            } else if code == 1 {
                if n - pos < 4 * (asz as usize) {
                    proof {
                        assert(parse_value(s, pos0, d) is None);
                    }
                    return None;
                }
                let mut arr: Vec<i32> = Vec::new();
                let mut j: usize = 0;
                while j < asz as usize
                    invariant
                        n == s.len(),
                        s == bytes@,
                        j <= asz,
                        pos + 4 * (asz as int) <= n,
                        arr@.len() == j,
                        forall|t: int|
                            0 <= t < j ==> arr@[t] == i32_of_bits(
                                spec_u32_from_le_bytes(s.subrange(pos + 4 * t, pos + 4 * t + 4)),
                            ),
                    decreases asz - j,
                {
                    let v = rd_i32(bytes, pos + 4 * j);
                    arr.push(v);
                    j = j + 1;
                }
                proof {
                    assert(arr@ =~= Seq::new(
                        d.array_size as nat,
                        |t: int|
                            i32_of_bits(
                                spec_u32_from_le_bytes(s.subrange(pos0 + 4 * t, pos0 + 4 * t + 4)),
                            ),
                    ));
                }
                vals.push(DataValue::IntArray(arr));
                pos = pos + 4 * (asz as usize);
            }
        } else {
            if code == 0 {
                if n - pos < 4 {
                    proof {
                        assert(parse_value(s, pos0, d) is None);
                    }
                    return None;
                }
                let v = rd_u32(bytes, pos);
                vals.push(DataValue::Float(v));
                pos = pos + 4;
            } else if code == 1 {
                if n - pos < 4 {
                    proof {
                        assert(parse_value(s, pos0, d) is None);
                    }
                    return None;
                }
                let v = rd_i32(bytes, pos);
                vals.push(DataValue::Int(v));
                pos = pos + 4;
            } else if code == 2 {
                if n - pos < 1 {
                    proof {
                        assert(parse_value(s, pos0, d) is None);
                    }
                    return None;
                }
                let l = bytes[pos] as usize;
                if n - (pos + 1) < l {
                    proof {
                        assert(parse_value(s, pos0, d) is None);
                    }
                    return None;
                }
                let txt = utf8_lossy(slice_subrange(bytes.as_slice(), pos + 1, pos + 1 + l));
                vals.push(DataValue::Str(txt));
                pos = pos + 1 + l;
            }
        }
        k = k + 1;
        proof {
            let stepped = parse_value(s, pos0, d);
            let rest = parse_values(s, pos as int, raw, k as int);
            assert(parse_values(s, pos0, raw, k as int - 1) == match stepped {
                None => None::<(Seq<DataValueV>, nat)>,
                Some((v1, c1)) => match rest {
                    None => None::<(Seq<DataValueV>, nat)>,
                    Some((r2, c2)) => Some((v1 + r2, (c1 + c2) as nat)),
                },
            });
            match stepped {
                None => {
                    assert(false);
                },
                Some((v1, c1)) => {
                    assert(vals@.map(|i: int, v: DataValue| v@) =~= vals0 + v1);
                    match rest {
                        None => {},
                        Some((r2, c2)) => {
                            assert(vals0 + (v1 + r2) =~= (vals0 + v1) + r2);
                        },
                    }
                },
            }
        }
    }
    proof {
        assert(parse_values(s, pos as int, raw, raw.len() as int) == Some(
            (Seq::<DataValueV>::empty(), 0nat),
        ));
        assert(vals@.map(|i: int, v: DataValue| v@) + Seq::<DataValueV>::empty() =~= vals@.map(
            |i: int, v: DataValue| v@,
        ));
    }
    Some((vals, pos))
}

impl XDRData {
    /// Decodes a whole XFDR file held in memory.
    ///
    /// Fails only on a bad magic tag or an input that ends inside the header
    /// or schema; the frame stream and footer degrade gracefully, so a
    /// truncated recording yields every frame that was read in full.
    pub fn decode(bytes: &Vec<u8>) -> (r: Result<XDRData, XdrError>)
        ensures
            match r {
                Err(e) => spec_decode_error(bytes@) == Some(e@),
                Ok(d) => spec_decode_error(bytes@) is None && decode_ok(d, bytes@),
            },
    {
        let n: usize = bytes.len();
        let ghost s = bytes@;
        if n < 4 {
            return Err(XdrError::TruncatedHeader);
        }
        if !marker_at(bytes, 0, [0x58, 0x46, 0x44, 0x52]) {
            let found = vstd::slice::slice_to_vec(slice_subrange(bytes.as_slice(), 0, 4));
            proof {
                assert(s.subrange(0, 4) != magic_bytes());
            }
            return Err(XdrError::BadMagic(found));
        }
        if n < 21 {
            return Err(XdrError::TruncatedHeader);
        }
        let version = rd_u16(bytes, 4);
        let level = bytes[6];
        let interval = rd_u32(bytes, 7);
        let start_timestamp = rd_u64(bytes, 11);
        let dataref_count = rd_u16(bytes, 19);
        let start_datetime = match crate::trusted::format_utc_datetime(start_timestamp) {
            Some(dt) => dt,
            None => String::from_str("Invalid timestamp"),
        };
        let (datarefs, layout, schema_end) = match decode_schema(bytes, dataref_count) {
            Ok(t) => t,
            Err(e) => {
                return Err(e);
            },
        };
        let ghost raw = parse_datarefs(s, header_size(), dataref_count as nat)->Some_0.0;
        let ghost fstart = schema_end as int;

        // Frame stream: read `DATA` frames until another marker, the end of
        // the input, or a frame cut short.
        let mut frames: Vec<DataFrame> = Vec::new();
        let mut pos: usize = schema_end;
        proof {
            assert(frames@.map(|i: int, f: DataFrame| f@) + parse_frames(s, fstart, raw).0
                =~= parse_frames(s, fstart, raw).0);
        }
        loop
            invariant
                n == s.len(),
                s == bytes@,
                fstart <= pos <= n,
                layout@.len() == raw.len(),
                forall|t: int|
                    0 <= t < raw.len() ==> (#[trigger] layout@[t]).0 == raw[t].code
                        && layout@[t].1 == raw[t].array_size,
                parse_frames(s, fstart, raw).0 == frames@.map(|i: int, f: DataFrame| f@)
                    + parse_frames(s, pos as int, raw).0,
                parse_frames(s, fstart, raw).1 == parse_frames(s, pos as int, raw).1,
            ensures
                n == s.len(),
                s == bytes@,
                fstart <= pos <= n,
                parse_frames(s, fstart, raw).0 == frames@.map(|i: int, f: DataFrame| f@),
                parse_frames(s, fstart, raw).1 == pos,
            decreases n - pos,
        {
            let ghost pos0 = pos as int;
            if n - pos < 4 {
                proof {
                    assert(parse_frames(s, pos0, raw) == (Seq::<DataFrameV>::empty(), pos0));
                    assert(frames@.map(|i: int, f: DataFrame| f@) + Seq::<DataFrameV>::empty()
                        =~= frames@.map(|i: int, f: DataFrame| f@));
                }
                break;
            }
            if marker_at(bytes, pos, [0x45, 0x4e, 0x44, 0x52]) {
                proof {
                    assert(parse_frames(s, pos0, raw) == (Seq::<DataFrameV>::empty(), pos0));
                    assert(frames@.map(|i: int, f: DataFrame| f@) + Seq::<DataFrameV>::empty()
                        =~= frames@.map(|i: int, f: DataFrame| f@));
                }
                break;
            }
            if !marker_at(bytes, pos, [0x44, 0x41, 0x54, 0x41]) {
                proof {
                    assert(parse_frames(s, pos0, raw) == (Seq::<DataFrameV>::empty(), pos0));
                    assert(frames@.map(|i: int, f: DataFrame| f@) + Seq::<DataFrameV>::empty()
                        =~= frames@.map(|i: int, f: DataFrame| f@));
                }
                break;
            }
            if n - pos < 8 {
                proof {
                    assert(parse_frames(s, pos0, raw) == (Seq::<DataFrameV>::empty(), n as int));
                    assert(frames@.map(|i: int, f: DataFrame| f@) + Seq::<DataFrameV>::empty()
                        =~= frames@.map(|i: int, f: DataFrame| f@));
                }
                pos = n;
                break;
            }
            let ts = rd_u32(bytes, pos + 4);
            match read_frame_values(bytes, pos + 8, &layout, Ghost(raw)) {
                None => {
                    proof {
                        assert(parse_values(s, pos0 + 8, raw, 0) is None);
                        assert(parse_frames(s, pos0, raw) == (
                            Seq::<DataFrameV>::empty(),
                            n as int,
                        ));
                        assert(frames@.map(|i: int, f: DataFrame| f@)
                            + Seq::<DataFrameV>::empty() =~= frames@.map(
                            |i: int, f: DataFrame| f@,
                        ));
                    }
                    pos = n;
                    break;
                },
                Some((vals, np)) => {
                    let ghost frames0 = frames@.map(|i: int, f: DataFrame| f@);
                    let frame = DataFrame { timestamp: ts, values: vals };
                    let ghost frame_v = frame@;
                    frames.push(frame);
                    proof {
                        lemma_parse_values_in_bounds(s, pos0 + 8, raw, 0);
                        let parsed = parse_values(s, pos0 + 8, raw, 0)->Some_0;
                        assert(np == pos0 + 8 + parsed.1);
                        assert(np <= n);
                        let rest = parse_frames(s, np as int, raw);
                        assert(parse_frames(s, pos0, raw) == (
                            seq![DataFrameV { timestamp: ts, values: parsed.0 }] + rest.0,
                            rest.1,
                        ));
                        assert(frame_v == DataFrameV { timestamp: ts, values: parsed.0 });
                        assert(frames@.map(|i: int, f: DataFrame| f@) =~= frames0 + seq![
                            frame_v,
                        ]);
                        assert(frames0 + (seq![frame_v] + rest.0) =~= (frames0 + seq![frame_v])
                            + rest.0);
                    }
                    pos = np;
                },
            }
        }

        // Footer: an `ENDR` marker with both fields yields the four derived
        // header fields; anything else is swallowed.
        let mut is_complete = false;
        let mut total_records: Option<u32> = None;
        let mut end_timestamp: Option<u64> = None;
        let mut end_datetime: Option<String> = None;
        let mut duration: Option<u64> = None;
        if n - pos >= 4 && marker_at(bytes, pos, [0x45, 0x4e, 0x44, 0x52]) {
            is_complete = true;
            if n - pos >= 16 {
                let tr = rd_u32(bytes, pos + 4);
                let ets = rd_u64(bytes, pos + 8);
                let edt = match crate::trusted::format_utc_datetime(ets) {
                    Some(dt) => dt,
                    None => String::from_str("Invalid timestamp"),
                };
                total_records = Some(tr);
                end_timestamp = Some(ets);
                end_datetime = Some(edt);
                duration = Some(
                    if ets >= start_timestamp {
                        ets - start_timestamp
                    } else {
                        0
                    },
                );
            }
        }

        let header = XDRHeader {
            magic: String::from_str("XFDR"),
            version,
            level,
            level_name: level_name_of(level),
            interval,
            start_timestamp,
            start_datetime,
            dataref_count,
            total_records,
            end_timestamp,
            end_datetime,
            duration,
        };
        let d = XDRData {
            filepath: String::new(),
            header,
            datarefs,
            frames,
            is_complete,
        };
        Ok(d)
    }
}

// ---------------------------------------------------------------------------
// Alignment of frames with the schema.
// ---------------------------------------------------------------------------

/// Whether a wire-level schema entry produces a value in every frame:
/// floats and ints always do, strings only as scalars; unknown type codes
/// never do.
pub open spec fn produces_value(d: DrefRaw) -> bool {
    d.code == 0 || d.code == 1 || (d.code == 2 && d.array_size == 0)
}

/// The same, read off a stored schema entry.
pub open spec fn dataref_produces_value(dd: DatarefDef) -> bool {
    dd.data_type@ == "float"@ || dd.data_type@ == "int"@ || (dd.data_type@ == "string"@
        && dd.array_size == 0)
}

/// How many values one frame holds: one per producing entry from `k` on.
pub open spec fn spec_value_count(schema: Seq<DrefRaw>, k: int) -> int
    decreases schema.len() - k,
{
    if k < 0 || k >= schema.len() {
        0
    } else {
        (if produces_value(schema[k]) {
            1int
        } else {
            0int
        }) + spec_value_count(schema, k + 1)
    }
}

proof fn lemma_parse_values_len(s: Seq<u8>, pos: int, schema: Seq<DrefRaw>, k: int)
    ensures
        match parse_values(s, pos, schema, k) {
            None => true,
            Some((vals, c)) => vals.len() == spec_value_count(schema, k),
        },
    decreases schema.len() - k,
{
    if 0 <= k < schema.len() {
        match parse_value(s, pos, schema[k]) {
            None => {},
            Some((v, c)) => {
                lemma_parse_values_len(s, pos + c, schema, k + 1);
            },
        }
    }
}

proof fn lemma_parse_frames_value_counts(s: Seq<u8>, pos: int, schema: Seq<DrefRaw>)
    requires
        0 <= pos <= s.len(),
    ensures
        forall|fi: int|
            0 <= fi < parse_frames(s, pos, schema).0.len() ==> (#[trigger] parse_frames(
                s,
                pos,
                schema,
            ).0[fi]).values.len() == spec_value_count(schema, 0),
    decreases s.len() - pos,
{
    if pos + 4 > s.len() {
    } else if s.subrange(pos, pos + 4) == endr_marker() {
    } else if s.subrange(pos, pos + 4) != data_marker() {
    } else if pos + 8 > s.len() {
    } else {
        match parse_values(s, pos + 8, schema, 0) {
            None => {},
            Some((vals, c)) => {
                if pos + 8 + c <= s.len() {
                    lemma_parse_values_len(s, pos + 8, schema, 0);
                    lemma_parse_frames_value_counts(s, pos + 8 + c, schema);
                    let whole = parse_frames(s, pos, schema).0;
                    let rest = parse_frames(s, pos + 8 + c, schema).0;
                    assert forall|fi: int| 0 <= fi < whole.len() implies (#[trigger] whole[fi]).values.len()
                        == spec_value_count(schema, 0) by {
                        if fi > 0 {
                            assert(whole[fi] == rest[fi - 1]);
                        }
                    }
                }
            },
        }
    }
}

proof fn lemma_all_produce_count(schema: Seq<DrefRaw>, k: int)
    requires
        0 <= k <= schema.len(),
        forall|i: int| 0 <= i < schema.len() ==> produces_value(#[trigger] schema[i]),
    ensures
        spec_value_count(schema, k) == schema.len() - k,
    decreases schema.len() - k,
{
    if k < schema.len() {
        lemma_all_produce_count(schema, k + 1);
    }
}

proof fn lemma_type_names_distinct()
    ensures
        "float"@ != "int"@,
        "float"@ != "string"@,
        "float"@ != "unknown"@,
        "int"@ != "string"@,
        "int"@ != "unknown"@,
        "string"@ != "unknown"@,
{
    reveal_strlit("float");
    reveal_strlit("int");
    reveal_strlit("string");
    reveal_strlit("unknown");
    assert("float"@.len() == 5 && "int"@.len() == 3 && "string"@.len() == 6 && "unknown"@.len()
        == 7);
}

/// Every retained frame of a decoded dataset carries exactly one value per
/// dataref, provided every schema entry produces a value (floats, ints and
/// scalar strings do; an entry with an unknown type code or a string array
/// contributes no value to any frame).
pub proof fn lemma_decoded_frame_values_align(d: XDRData, s: Seq<u8>)
    requires
        spec_decode_error(s) is None,
        decode_ok(d, s),
        forall|i: int|
            0 <= i < d.datarefs@.len() ==> dataref_produces_value(#[trigger] d.datarefs@[i]),
    ensures
        forall|fi: int|
            0 <= fi < d.frames_view().len() ==> (#[trigger] d.frames_view()[fi]).values.len()
                == d.datarefs@.len(),
{
    let count = spec_u16_from_le_bytes(s.subrange(19, 21));
    let schema = parse_datarefs(s, header_size(), count as nat)->Some_0;
    let fstart = header_size() + schema.1;
    lemma_type_names_distinct();
    assert forall|i: int| 0 <= i < schema.0.len() implies produces_value(
        #[trigger] schema.0[i],
    ) by {
        assert(dataref_matches_raw(d.datarefs@[i], schema.0[i]));
        assert(dataref_produces_value(d.datarefs@[i]));
        assert(d.datarefs@[i].data_type@ == crate::text::spec_type_name(schema.0[i].code));
    }
    lemma_all_produce_count(schema.0, 0);
    lemma_parse_datarefs_consumed_bound(s, header_size(), count as nat);
    lemma_parse_frames_value_counts(s, fstart, schema.0);
}

/// A successful schema parse stays within the input.
proof fn lemma_parse_datarefs_consumed_bound(s: Seq<u8>, pos: int, n: nat)
    requires
        0 <= pos <= s.len(),
    ensures
        match parse_datarefs(s, pos, n) {
            None => true,
            Some((raw, c)) => pos + c <= s.len(),
        },
    decreases n,
{
    if n > 0 {
        if pos + 2 <= s.len() {
            let nl = spec_u16_from_le_bytes(s.subrange(pos, pos + 2)) as int;
            if pos + 2 + nl + 2 <= s.len() {
                lemma_parse_datarefs_consumed_bound(s, pos + 2 + nl + 2, (n - 1) as nat);
            }
        }
    }
}


/// The footer-derived header fields are all-or-nothing: a decoded dataset
/// either carries all four or none.
pub proof fn lemma_footer_all_or_nothing(d: XDRData, s: Seq<u8>)
    requires
        decode_ok(d, s),
    ensures
        d.header.footer_all_or_nothing(),
{
}

} // verus!
