//! A reference writer for the format, and the round-trip law: decoding what
//! the writer produced reproduces the header fields, the schema and every
//! frame value bit for bit.
//!
//! The writer exists for the law and for building synthetic recordings in
//! tests; the library's decoding side never calls it.  Names and string
//! values are given as raw bytes, which the decoder hands back through its
//! lossy UTF-8 decoding.

use vstd::prelude::*;
use vstd::bytes::{
    lemma_auto_spec_u16_to_from_le_bytes, lemma_auto_spec_u32_to_from_le_bytes,
    lemma_auto_spec_u64_to_from_le_bytes, spec_u16_to_le_bytes, spec_u32_to_le_bytes,
    spec_u64_to_le_bytes, u16_to_le_bytes, u32_to_le_bytes, u64_to_le_bytes,
};
use crate::decode::{
    data_marker, dataref_matches_raw, decode_ok, endr_marker, header_size, i32_of_bits,
    magic_bytes, parse_datarefs, parse_frames, parse_value, parse_values, spec_decode_error,
    DrefRaw, has_footer, footer_fields_present, spec_duration, header_matches,
};
use crate::model::{DataFrameV, DataValueV, XDRData};
use crate::trusted::lossy_of;

verus! {

// ---------------------------------------------------------------------------
// What the writer writes.
// ---------------------------------------------------------------------------

/// One schema entry to write: raw name bytes, type code, array size.
pub struct EncDataref {
    pub name_bytes: Vec<u8>,
    pub type_code: u8,
    pub array_size: u8,
}

/// One value to write; float payloads are binary32 bit patterns, string
/// payloads raw bytes.
pub enum EncValue {
    Float(u32),
    Int(i32),
    Text(Vec<u8>),
    FloatArray(Vec<u32>),
    IntArray(Vec<i32>),
}

/// One frame to write.
pub struct EncFrame {
    pub timestamp: u32,
    pub values: Vec<EncValue>,
}

/// The optional footer to write.
pub struct EncFooter {
    pub total_records: u32,
    pub end_timestamp: u64,
}

/// A whole synthetic recording.
pub struct EncFile {
    pub version: u16,
    pub level: u8,
    pub interval: u32,
    pub start_timestamp: u64,
    pub datarefs: Vec<EncDataref>,
    pub frames: Vec<EncFrame>,
    pub footer: Option<EncFooter>,
}

// ---------------------------------------------------------------------------
// The encoding, at the spec level.
// ---------------------------------------------------------------------------

/// The unsigned pattern whose two's-complement reading is `x`.
pub open spec fn u32_of_i32(x: i32) -> u32 {
    if x >= 0 {
        x as u32
    } else {
        (x + 0x1_0000_0000) as u32
    }
}

pub open spec fn spec_encode_dataref(d: EncDataref) -> Seq<u8> {
    spec_u16_to_le_bytes(d.name_bytes@.len() as u16) + d.name_bytes@ + seq![
        d.type_code,
        d.array_size,
    ]
}

pub open spec fn spec_encode_datarefs(ds: Seq<EncDataref>, i: int) -> Seq<u8>
    decreases ds.len() - i,
{
    if i < 0 || i >= ds.len() {
        Seq::empty()
    } else {
        spec_encode_dataref(ds[i]) + spec_encode_datarefs(ds, i + 1)
    }
}

pub open spec fn spec_encode_u32s(a: Seq<u32>, j: int) -> Seq<u8>
    decreases a.len() - j,
{
    if j < 0 || j >= a.len() {
        Seq::empty()
    } else {
        spec_u32_to_le_bytes(a[j]) + spec_encode_u32s(a, j + 1)
    }
}

pub open spec fn spec_encode_i32s(a: Seq<i32>, j: int) -> Seq<u8>
    decreases a.len() - j,
{
    if j < 0 || j >= a.len() {
        Seq::empty()
    } else {
        spec_u32_to_le_bytes(u32_of_i32(a[j])) + spec_encode_i32s(a, j + 1)
    }
}

pub open spec fn spec_encode_value(v: EncValue) -> Seq<u8> {
    match v {
        EncValue::Float(b) => spec_u32_to_le_bytes(b),
        EncValue::Int(x) => spec_u32_to_le_bytes(u32_of_i32(x)),
        EncValue::Text(t) => seq![t@.len() as u8] + t@,
        EncValue::FloatArray(a) => spec_encode_u32s(a@, 0),
        EncValue::IntArray(a) => spec_encode_i32s(a@, 0),
    }
}

pub open spec fn spec_encode_values(vs: Seq<EncValue>, k: int) -> Seq<u8>
    decreases vs.len() - k,
{
    if k < 0 || k >= vs.len() {
        Seq::empty()
    } else {
        spec_encode_value(vs[k]) + spec_encode_values(vs, k + 1)
    }
}

pub open spec fn spec_encode_frame(f: EncFrame) -> Seq<u8> {
    data_marker() + spec_u32_to_le_bytes(f.timestamp) + spec_encode_values(f.values@, 0)
}

pub open spec fn spec_encode_frames(fs: Seq<EncFrame>, i: int) -> Seq<u8>
    decreases fs.len() - i,
{
    if i < 0 || i >= fs.len() {
        Seq::empty()
    } else {
        spec_encode_frame(fs[i]) + spec_encode_frames(fs, i + 1)
    }
}

pub open spec fn spec_encode_footer(f: Option<EncFooter>) -> Seq<u8> {
    match f {
        None => Seq::empty(),
        Some(ft) => endr_marker() + spec_u32_to_le_bytes(ft.total_records) + spec_u64_to_le_bytes(
            ft.end_timestamp,
        ),
    }
}

pub open spec fn spec_encode_header(f: EncFile) -> Seq<u8> {
    magic_bytes() + spec_u16_to_le_bytes(f.version) + seq![f.level] + spec_u32_to_le_bytes(
        f.interval,
    ) + spec_u64_to_le_bytes(f.start_timestamp) + spec_u16_to_le_bytes(f.datarefs@.len() as u16)
}

pub open spec fn spec_encode_file(f: EncFile) -> Seq<u8> {
    spec_encode_header(f) + spec_encode_datarefs(f.datarefs@, 0) + spec_encode_frames(f.frames@, 0)
        + spec_encode_footer(f.footer)
}

// ---------------------------------------------------------------------------
// Well-formedness: what a writer can express.
// ---------------------------------------------------------------------------

/// A writable schema entry: the name length fits its prefix, and the
/// type/size combination produces a value (a writer has no way to put
/// payload bytes behind an entry the decoder would skip).
pub open spec fn enc_dataref_wf(d: EncDataref) -> bool {
    &&& d.name_bytes@.len() <= 0xffff
    &&& (d.type_code == 0 || d.type_code == 1 || (d.type_code == 2 && d.array_size == 0))
}

/// A value of the shape the schema entry prescribes.
pub open spec fn enc_value_matches(v: EncValue, d: EncDataref) -> bool {
    if d.array_size > 0 {
        if d.type_code == 0 {
            v matches EncValue::FloatArray(a) && a@.len() == d.array_size
        } else {
            v matches EncValue::IntArray(a) && a@.len() == d.array_size
        }
    } else {
        if d.type_code == 0 {
            v is Float
        } else if d.type_code == 1 {
            v is Int
        } else {
            v matches EncValue::Text(t) && t@.len() <= 0xff
        }
    }
}

/// A writable recording: every schema entry writable, every frame carrying
/// exactly one value of the right shape per entry.
pub open spec fn enc_wf(f: EncFile) -> bool {
    &&& f.datarefs@.len() <= 0xffff
    &&& forall|i: int| 0 <= i < f.datarefs@.len() ==> enc_dataref_wf(#[trigger] f.datarefs@[i])
    &&& forall|fi: int|
        0 <= fi < f.frames@.len() ==> (#[trigger] f.frames@[fi]).values@.len()
            == f.datarefs@.len()
    &&& forall|fi: int, k: int|
        0 <= fi < f.frames@.len() && 0 <= k < f.datarefs@.len() ==> enc_value_matches(
            #[trigger] f.frames@[fi].values@[k],
            f.datarefs@[k],
        )
}

// ---------------------------------------------------------------------------
// The wire-level image of what the writer wrote.
// ---------------------------------------------------------------------------

/// The schema entry the decoder yields for a written one.
pub open spec fn raw_of(d: EncDataref) -> DrefRaw {
    DrefRaw { name: lossy_of(d.name_bytes@), code: d.type_code, array_size: d.array_size }
}

/// The value the decoder yields for a written one.
pub open spec fn value_v_of(v: EncValue) -> DataValueV {
    match v {
        EncValue::Float(b) => DataValueV::Float(b),
        EncValue::Int(x) => DataValueV::Int(x),
        EncValue::Text(t) => DataValueV::Str(lossy_of(t@)),
        EncValue::FloatArray(a) => DataValueV::FloatArray(a@),
        EncValue::IntArray(a) => DataValueV::IntArray(a@),
    }
}

/// The frame the decoder yields for a written one.
pub open spec fn frame_v_of(f: EncFrame) -> DataFrameV {
    DataFrameV {
        timestamp: f.timestamp,
        values: f.values@.map(|k: int, v: EncValue| value_v_of(v)),
    }
}

// ---------------------------------------------------------------------------
// The round trip: parsing what the writer wrote.
// ---------------------------------------------------------------------------

/// The wire-level schema of a written one.
pub open spec fn spec_raws(ds: Seq<EncDataref>) -> Seq<DrefRaw> {
    ds.map(|i: int, d: EncDataref| raw_of(d))
}

/// The decoded values of written ones.
pub open spec fn spec_values_v(vs: Seq<EncValue>) -> Seq<DataValueV> {
    vs.map(|i: int, v: EncValue| value_v_of(v))
}

/// The decoded frames of written ones.
pub open spec fn spec_frames_v(fs: Seq<EncFrame>) -> Seq<DataFrameV> {
    fs.map(|i: int, f: EncFrame| frame_v_of(f))
}

proof fn lemma_encode_u32s_len(a: Seq<u32>, j: int)
    requires
        0 <= j <= a.len(),
    ensures
        spec_encode_u32s(a, j).len() == 4 * (a.len() - j),
    decreases a.len() - j,
{
    lemma_auto_spec_u32_to_from_le_bytes();
    if j < a.len() {
        lemma_encode_u32s_len(a, j + 1);
    }
}

proof fn lemma_encode_i32s_len(a: Seq<i32>, j: int)
    requires
        0 <= j <= a.len(),
    ensures
        spec_encode_i32s(a, j).len() == 4 * (a.len() - j),
    decreases a.len() - j,
{
    lemma_auto_spec_u32_to_from_le_bytes();
    if j < a.len() {
        lemma_encode_i32s_len(a, j + 1);
    }
}

proof fn lemma_encode_u32s_block(a: Seq<u32>, t: int, j: int)
    requires
        0 <= t <= j < a.len(),
    ensures
        spec_encode_u32s(a, t).subrange(4 * (j - t), 4 * (j - t) + 4) == spec_u32_to_le_bytes(
            a[j],
        ),
    decreases j - t,
{
    lemma_auto_spec_u32_to_from_le_bytes();
    lemma_encode_u32s_len(a, t);
    lemma_encode_u32s_len(a, t + 1);
    if t == j {
        assert(spec_encode_u32s(a, t).subrange(0, 4) =~= spec_u32_to_le_bytes(a[t]));
    } else {
        lemma_encode_u32s_block(a, t + 1, j);
        assert(spec_encode_u32s(a, t).subrange(4 * (j - t), 4 * (j - t) + 4)
            =~= spec_encode_u32s(a, t + 1).subrange(4 * (j - t - 1), 4 * (j - t - 1) + 4));
    }
}

proof fn lemma_encode_i32s_block(a: Seq<i32>, t: int, j: int)
    requires
        0 <= t <= j < a.len(),
    ensures
        spec_encode_i32s(a, t).subrange(4 * (j - t), 4 * (j - t) + 4) == spec_u32_to_le_bytes(
            u32_of_i32(a[j]),
        ),
    decreases j - t,
{
    lemma_auto_spec_u32_to_from_le_bytes();
    lemma_encode_i32s_len(a, t);
    lemma_encode_i32s_len(a, t + 1);
    if t == j {
        assert(spec_encode_i32s(a, t).subrange(0, 4) =~= spec_u32_to_le_bytes(u32_of_i32(a[t])));
    } else {
        lemma_encode_i32s_block(a, t + 1, j);
        assert(spec_encode_i32s(a, t).subrange(4 * (j - t), 4 * (j - t) + 4)
            =~= spec_encode_i32s(a, t + 1).subrange(4 * (j - t - 1), 4 * (j - t - 1) + 4));
    }
}

/// Spreads a subrange equality into per-byte facts, triggered on plain
/// indexing.
proof fn lemma_subrange_index(s: Seq<u8>, pos: int, e: Seq<u8>)
    requires
        0 <= pos,
        pos + e.len() <= s.len(),
        s.subrange(pos, pos + e.len() as int) == e,
    ensures
        forall|u: int| pos <= u < pos + e.len() ==> #[trigger] s[u] == e[u - pos],
{
    assert forall|u: int| pos <= u < pos + e.len() implies #[trigger] s[u] == e[u - pos] by {
        assert(s.subrange(pos, pos + e.len() as int)[u - pos] == e[u - pos]);
    }
}

/// One written value parses back to itself.
proof fn lemma_parse_encoded_value(s: Seq<u8>, pos: int, v: EncValue, d: EncDataref)
    requires
        0 <= pos,
        enc_dataref_wf(d),
        enc_value_matches(v, d),
        pos + spec_encode_value(v).len() <= s.len(),
        s.subrange(pos, pos + spec_encode_value(v).len() as int) == spec_encode_value(v),
    ensures
        parse_value(s, pos, raw_of(d)) == Some(
            (seq![value_v_of(v)], spec_encode_value(v).len() as nat),
        ),
{
    lemma_auto_spec_u16_to_from_le_bytes();
    lemma_auto_spec_u32_to_from_le_bytes();
    let e = spec_encode_value(v);
    lemma_subrange_index(s, pos, e);
    match v {
        EncValue::Float(b) => {
            assert(s.subrange(pos, pos + 4) == spec_u32_to_le_bytes(b));
        },
        EncValue::Int(x) => {
            assert(s.subrange(pos, pos + 4) == spec_u32_to_le_bytes(u32_of_i32(x)));
            assert(i32_of_bits(u32_of_i32(x)) == x);
        },
        EncValue::Text(t) => {
            assert(e.len() == 1 + t@.len());
            assert(s[pos] == e[0]);
            assert(e[0] == t@.len() as u8);
            assert(s.subrange(pos + 1, pos + 1 + t@.len() as int) =~= t@);
        },
        EncValue::FloatArray(a) => {
            lemma_encode_u32s_len(a@, 0);
            assert(d.array_size == a@.len());
            let parsed = Seq::new(
                d.array_size as nat,
                |j: int| vstd::bytes::spec_u32_from_le_bytes(s.subrange(pos + 4 * j, pos + 4 * j + 4)),
            );
            assert forall|j: int| 0 <= j < a@.len() implies parsed[j] == a@[j] by {
                lemma_encode_u32s_block(a@, 0, j);
                assert(s.subrange(pos + 4 * j, pos + 4 * j + 4) =~= e.subrange(4 * j, 4 * j + 4));
            }
            assert(parsed =~= a@);
        },
        EncValue::IntArray(a) => {
            lemma_encode_i32s_len(a@, 0);
            assert(d.array_size == a@.len());
            let parsed = Seq::new(
                d.array_size as nat,
                |j: int|
                    i32_of_bits(
                        vstd::bytes::spec_u32_from_le_bytes(s.subrange(pos + 4 * j, pos + 4 * j + 4)),
                    ),
            );
            assert forall|j: int| 0 <= j < a@.len() implies parsed[j] == a@[j] by {
                lemma_encode_i32s_block(a@, 0, j);
                assert(s.subrange(pos + 4 * j, pos + 4 * j + 4) =~= e.subrange(4 * j, 4 * j + 4));
                assert(i32_of_bits(u32_of_i32(a@[j])) == a@[j]);
            }
            assert(parsed =~= a@);
        },
    }
}

/// One written frame's values parse back to themselves.
proof fn lemma_parse_encoded_values(
    s: Seq<u8>,
    pos: int,
    vs: Seq<EncValue>,
    ds: Seq<EncDataref>,
    k: int,
)
    requires
        0 <= pos,
        0 <= k <= vs.len(),
        vs.len() == ds.len(),
        forall|t: int| 0 <= t < ds.len() ==> enc_dataref_wf(#[trigger] ds[t]),
        forall|t: int| 0 <= t < ds.len() ==> enc_value_matches(#[trigger] vs[t], ds[t]),
        pos + spec_encode_values(vs, k).len() <= s.len(),
        s.subrange(pos, pos + spec_encode_values(vs, k).len() as int) == spec_encode_values(
            vs,
            k,
        ),
    ensures
        parse_values(s, pos, spec_raws(ds), k) == Some(
            (spec_values_v(vs.skip(k)), spec_encode_values(vs, k).len() as nat),
        ),
    decreases vs.len() - k,
{
    if k == vs.len() {
        assert(spec_values_v(vs.skip(k)) =~= Seq::<DataValueV>::empty());
    } else {
        let e1 = spec_encode_value(vs[k]);
        let erest = spec_encode_values(vs, k + 1);
        assert(spec_encode_values(vs, k) == e1 + erest);
        lemma_subrange_index(s, pos, e1 + erest);
        assert(s.subrange(pos, pos + e1.len() as int) =~= e1);
        assert(spec_raws(ds)[k] == raw_of(ds[k]));
        lemma_parse_encoded_value(s, pos, vs[k], ds[k]);
        assert(s.subrange(pos + e1.len() as int, pos + e1.len() + erest.len() as int) =~= erest);
        lemma_parse_encoded_values(s, pos + e1.len() as int, vs, ds, k + 1);
        assert(seq![value_v_of(vs[k])] + spec_values_v(vs.skip(k + 1)) =~= spec_values_v(
            vs.skip(k),
        ));
    }
}

/// The written schema parses back to itself.
proof fn lemma_parse_encoded_datarefs(s: Seq<u8>, pos: int, ds: Seq<EncDataref>, i: int)
    requires
        0 <= pos,
        0 <= i <= ds.len(),
        forall|t: int| 0 <= t < ds.len() ==> enc_dataref_wf(#[trigger] ds[t]),
        pos + spec_encode_datarefs(ds, i).len() <= s.len(),
        s.subrange(pos, pos + spec_encode_datarefs(ds, i).len() as int) == spec_encode_datarefs(
            ds,
            i,
        ),
    ensures
        parse_datarefs(s, pos, (ds.len() - i) as nat) == Some(
            (spec_raws(ds.skip(i)), spec_encode_datarefs(ds, i).len() as nat),
        ),
    decreases ds.len() - i,
{
    lemma_auto_spec_u16_to_from_le_bytes();
    if i == ds.len() {
        assert(spec_raws(ds.skip(i)) =~= Seq::<DrefRaw>::empty());
    } else {
        let d = ds[i];
        let e1 = spec_encode_dataref(d);
        let erest = spec_encode_datarefs(ds, i + 1);
        let nl = d.name_bytes@.len() as int;
        assert(e1.len() == 2 + nl + 2);
        assert(spec_encode_datarefs(ds, i) == e1 + erest);
        lemma_subrange_index(s, pos, e1 + erest);
        assert(s.subrange(pos, pos + 2) =~= spec_u16_to_le_bytes(d.name_bytes@.len() as u16));
        assert(vstd::bytes::spec_u16_from_le_bytes(s.subrange(pos, pos + 2)) == nl);
        assert(s.subrange(pos + 2, pos + 2 + nl) =~= d.name_bytes@);
        assert(s[pos + 2 + nl] == e1[2 + nl]);
        assert(e1[2 + nl] == d.type_code);
        assert(s[pos + 2 + nl + 1] == e1[2 + nl + 1]);
        assert(e1[2 + nl + 1] == d.array_size);
        assert(s.subrange(pos + e1.len() as int, pos + e1.len() + erest.len() as int) =~= erest);
        lemma_parse_encoded_datarefs(s, pos + e1.len() as int, ds, i + 1);
        assert(seq![raw_of(d)] + spec_raws(ds.skip(i + 1)) =~= spec_raws(ds.skip(i)));
    }
}

/// The written frame stream parses back to itself and stops exactly where
/// the writer stopped.
proof fn lemma_parse_encoded_frames(
    s: Seq<u8>,
    pos: int,
    fs: Seq<EncFrame>,
    ds: Seq<EncDataref>,
    i: int,
)
    requires
        0 <= pos,
        0 <= i <= fs.len(),
        forall|t: int| 0 <= t < ds.len() ==> enc_dataref_wf(#[trigger] ds[t]),
        forall|fi: int| 0 <= fi < fs.len() ==> (#[trigger] fs[fi]).values@.len() == ds.len(),
        forall|fi: int, k: int|
            0 <= fi < fs.len() && 0 <= k < ds.len() ==> enc_value_matches(
                #[trigger] fs[fi].values@[k],
                ds[k],
            ),
        pos + spec_encode_frames(fs, i).len() <= s.len(),
        s.subrange(pos, pos + spec_encode_frames(fs, i).len() as int) == spec_encode_frames(
            fs,
            i,
        ),
    ensures
        ({
            let after = pos + spec_encode_frames(fs, i).len() as int;
            parse_frames(s, pos, spec_raws(ds)) == (
                spec_frames_v(fs.skip(i)) + parse_frames(s, after, spec_raws(ds)).0,
                parse_frames(s, after, spec_raws(ds)).1,
            )
        }),
    decreases fs.len() - i,
{
    lemma_auto_spec_u32_to_from_le_bytes();
    if i == fs.len() {
        assert(spec_frames_v(fs.skip(i)) =~= Seq::<DataFrameV>::empty());
        let after = pos + spec_encode_frames(fs, i).len() as int;
        assert(after == pos);
        assert(spec_frames_v(fs.skip(i)) + parse_frames(s, pos, spec_raws(ds)).0
            =~= parse_frames(s, pos, spec_raws(ds)).0);
    } else {
        let fr = fs[i];
        let e1 = spec_encode_frame(fr);
        let ev = spec_encode_values(fr.values@, 0);
        let erest = spec_encode_frames(fs, i + 1);
        assert(spec_encode_frames(fs, i) == e1 + erest);
        assert(e1 == data_marker() + spec_u32_to_le_bytes(fr.timestamp) + ev);
        assert(e1.len() == 8 + ev.len());
        lemma_subrange_index(s, pos, e1 + erest);
        assert(s.subrange(pos, pos + 4) =~= data_marker());
        assert(data_marker() != endr_marker()) by {
            assert(data_marker()[0] != endr_marker()[0]);
        }
        assert(s.subrange(pos + 4, pos + 8) =~= spec_u32_to_le_bytes(fr.timestamp));
        assert(s.subrange(pos + 8, pos + 8 + ev.len() as int) =~= ev);
        lemma_parse_encoded_values(s, pos + 8, fr.values@, ds, 0);
        assert(fr.values@.skip(0) =~= fr.values@);
        let after1 = pos + e1.len() as int;
        assert(s.subrange(after1, after1 + erest.len() as int) =~= erest);
        lemma_parse_encoded_frames(s, after1, fs, ds, i + 1);
        let after = pos + spec_encode_frames(fs, i).len() as int;
        assert(after == after1 + erest.len());
        let cont = parse_frames(s, after, spec_raws(ds));
        assert(parse_frames(s, pos, spec_raws(ds)) == (
            seq![DataFrameV { timestamp: fr.timestamp, values: spec_values_v(fr.values@) }]
                + (spec_frames_v(fs.skip(i + 1)) + cont.0),
            cont.1,
        ));
        assert(DataFrameV { timestamp: fr.timestamp, values: spec_values_v(fr.values@) }
            == frame_v_of(fr));
        assert(seq![frame_v_of(fr)] + (spec_frames_v(fs.skip(i + 1)) + cont.0)
            =~= spec_frames_v(fs.skip(i)) + cont.0);
    }
}

/// The written frame stream parses back to itself and stops exactly at its
/// end when an `ENDR` marker (or nothing) follows it.
proof fn lemma_parse_encoded_frames_stopped(
    s: Seq<u8>,
    pos: int,
    fs: Seq<EncFrame>,
    ds: Seq<EncDataref>,
)
    requires
        0 <= pos,
        forall|t: int| 0 <= t < ds.len() ==> enc_dataref_wf(#[trigger] ds[t]),
        forall|fi: int| 0 <= fi < fs.len() ==> (#[trigger] fs[fi]).values@.len() == ds.len(),
        forall|fi: int, k: int|
            0 <= fi < fs.len() && 0 <= k < ds.len() ==> enc_value_matches(
                #[trigger] fs[fi].values@[k],
                ds[k],
            ),
        pos + spec_encode_frames(fs, 0).len() <= s.len(),
        s.subrange(pos, pos + spec_encode_frames(fs, 0).len() as int) == spec_encode_frames(
            fs,
            0,
        ),
        ({
            let after = pos + spec_encode_frames(fs, 0).len() as int;
            after == s.len() || (after + 4 <= s.len() && s.subrange(after, after + 4)
                == endr_marker())
        }),
    ensures
        parse_frames(s, pos, spec_raws(ds)) == (
            spec_frames_v(fs),
            pos + spec_encode_frames(fs, 0).len() as int,
        ),
{
    lemma_parse_encoded_frames(s, pos, fs, ds, 0);
    let after = pos + spec_encode_frames(fs, 0).len() as int;
    assert(parse_frames(s, after, spec_raws(ds)) == (Seq::<DataFrameV>::empty(), after));
    assert(fs.skip(0) =~= fs);
    assert(spec_frames_v(fs) + Seq::<DataFrameV>::empty() =~= spec_frames_v(fs));
}

/// What a decode of the written bytes reproduces: every header field, the
/// schema entry by entry, every frame value bit for bit, and the footer.
pub open spec fn round_trip_matches(d: XDRData, f: EncFile) -> bool {
    &&& d.header.magic@ == "XFDR"@
    &&& d.header.version == f.version
    &&& d.header.level == f.level
    &&& d.header.interval == f.interval
    &&& d.header.start_timestamp == f.start_timestamp
    &&& d.header.start_datetime@ == crate::decode::spec_datetime_text(f.start_timestamp)
    &&& d.header.dataref_count == f.datarefs@.len()
    &&& d.datarefs@.len() == f.datarefs@.len()
    &&& forall|i: int|
        0 <= i < f.datarefs@.len() ==> dataref_matches_raw(
            #[trigger] d.datarefs@[i],
            raw_of(f.datarefs@[i]),
        )
    &&& d.frames_view() == spec_frames_v(f.frames@)
    &&& d.is_complete == (f.footer is Some)
    &&& (f.footer matches Some(ft) ==> d.header.total_records == Some(ft.total_records)
        && d.header.end_timestamp == Some(ft.end_timestamp) && d.header.duration == Some(
        spec_duration(f.start_timestamp, ft.end_timestamp),
    ) && (d.header.end_datetime matches Some(dt) && dt@ == crate::decode::spec_datetime_text(
        ft.end_timestamp,
    )))
    &&& (f.footer is None ==> d.header.total_records is None && d.header.end_timestamp is None
        && d.header.end_datetime is None && d.header.duration is None)
}

/// The round trip: the writer's output decodes without error, and anything
/// the decoder's contract admits for those bytes reproduces the written
/// recording exactly.
#[verifier::rlimit(50)]
pub proof fn lemma_round_trip(f: EncFile)
    requires
        enc_wf(f),
    ensures
        spec_decode_error(spec_encode_file(f)) is None,
        forall|d: XDRData|
            #[trigger] decode_ok(d, spec_encode_file(f)) ==> round_trip_matches(d, f),
{
    lemma_auto_spec_u16_to_from_le_bytes();
    lemma_auto_spec_u32_to_from_le_bytes();
    lemma_auto_spec_u64_to_from_le_bytes();
    let s = spec_encode_file(f);
    let hd = spec_encode_header(f);
    let de = spec_encode_datarefs(f.datarefs@, 0);
    let fe = spec_encode_frames(f.frames@, 0);
    let fte = spec_encode_footer(f.footer);
    assert(hd.len() == 21);
    assert(s == hd + de + fe + fte);
    assert(s.len() == 21 + de.len() + fe.len() + fte.len());
    assert(s.subrange(0, s.len() as int) =~= s);
    lemma_subrange_index(s, 0, s);
    assert(forall|u: int| 0 <= u < 21 ==> #[trigger] s[u] == hd[u]);
    assert(forall|u: int| 21 <= u < 21 + de.len() ==> #[trigger] s[u] == de[u - 21]);
    assert(forall|u: int|
        21 + de.len() <= u < 21 + de.len() + fe.len() ==> #[trigger] s[u] == fe[u - 21
            - de.len()]);
    assert(forall|u: int|
        21 + de.len() + fe.len() <= u < s.len() ==> #[trigger] s[u] == fte[u - 21 - de.len()
            - fe.len()]);

    // Header fields sit at their fixed offsets.
    assert(s.subrange(0, 4) =~= magic_bytes());
    assert(s.subrange(4, 6) =~= spec_u16_to_le_bytes(f.version));
    assert(s[6] == f.level);
    assert(s.subrange(7, 11) =~= spec_u32_to_le_bytes(f.interval));
    assert(s.subrange(11, 19) =~= spec_u64_to_le_bytes(f.start_timestamp));
    assert(s.subrange(19, 21) =~= spec_u16_to_le_bytes(f.datarefs@.len() as u16));

    // The schema parses.
    assert(s.subrange(21, 21 + de.len() as int) =~= de);
    lemma_parse_encoded_datarefs(s, 21, f.datarefs@, 0);
    assert(f.datarefs@.skip(0) =~= f.datarefs@);
    let count = vstd::bytes::spec_u16_from_le_bytes(s.subrange(19, 21));
    assert(count == f.datarefs@.len());
    assert(parse_datarefs(s, header_size(), count as nat) == Some(
        (spec_raws(f.datarefs@), de.len() as nat),
    ));
    assert(spec_decode_error(s) is None);

    // The frame stream parses and stops at the footer (or the end).
    let fstart = 21 + de.len() as int;
    assert(s.subrange(fstart, fstart + fe.len() as int) =~= fe);
    let after = fstart + fe.len() as int;
    if f.footer is Some {
        assert(fte.len() == 16);
        assert(s.subrange(after, after + 4) =~= endr_marker());
    } else {
        assert(fte.len() == 0);
        assert(after == s.len());
    }
    lemma_parse_encoded_frames_stopped(s, fstart, f.frames@, f.datarefs@);
    assert(parse_frames(s, fstart, spec_raws(f.datarefs@)) == (
        spec_frames_v(f.frames@),
        after,
    ));

    // The footer fields sit right after the stream.
    match f.footer {
        Some(ft) => {
            assert(s.subrange(after + 4, after + 8) =~= spec_u32_to_le_bytes(ft.total_records));
            assert(s.subrange(after + 8, after + 16) =~= spec_u64_to_le_bytes(ft.end_timestamp));
        },
        None => {},
    }

    assert forall|d: XDRData| #[trigger] decode_ok(d, s) implies round_trip_matches(d, f) by {
        assert(header_matches(d.header, s));
        assert forall|i: int| 0 <= i < f.datarefs@.len() implies dataref_matches_raw(
            #[trigger] d.datarefs@[i],
            raw_of(f.datarefs@[i]),
        ) by {
            assert(spec_raws(f.datarefs@)[i] == raw_of(f.datarefs@[i]));
        }
        match f.footer {
            Some(ft) => {
                assert(has_footer(s, after));
                assert(footer_fields_present(s, after));
            },
            None => {
                assert(after == s.len());
                assert(!has_footer(s, after));
            },
        }
    }
}

/// A frame stream cut short mid-frame keeps every prior complete frame:
/// after a written recording without a footer, a trailing `DATA` marker
/// whose frame cannot be read in full (the input ends inside the timestamp
/// or inside a value) leaves the decoded frames exactly the written ones,
/// with no footer fields and no error.
#[verifier::rlimit(50)]
pub proof fn lemma_truncated_frame_keeps_prior(f: EncFile, extra: Seq<u8>)
    requires
        enc_wf(f),
        f.footer is None,
        extra.len() >= 4,
        extra.subrange(0, 4) == data_marker(),
        ({
            let s = spec_encode_file(f) + extra;
            let after = spec_encode_file(f).len() as int;
            extra.len() < 8 || parse_values(s, after + 8, spec_raws(f.datarefs@), 0) is None
        }),
    ensures
        ({
            let s = spec_encode_file(f) + extra;
            &&& spec_decode_error(s) is None
            &&& forall|d: XDRData|
                #[trigger] decode_ok(d, s) ==> d.frames_view() == spec_frames_v(f.frames@)
                    && !d.is_complete && d.header.total_records is None
                    && d.header.end_timestamp is None && d.header.end_datetime is None
                    && d.header.duration is None
        }),
{
    lemma_auto_spec_u16_to_from_le_bytes();
    lemma_auto_spec_u32_to_from_le_bytes();
    lemma_auto_spec_u64_to_from_le_bytes();
    let enc = spec_encode_file(f);
    let s = enc + extra;
    let hd = spec_encode_header(f);
    let de = spec_encode_datarefs(f.datarefs@, 0);
    let fe = spec_encode_frames(f.frames@, 0);
    assert(hd.len() == 21);
    assert(spec_encode_footer(f.footer) =~= Seq::<u8>::empty());
    assert(enc =~= hd + de + fe);
    assert(enc.len() == 21 + de.len() + fe.len());
    assert(s.len() == enc.len() + extra.len());
    assert(s.subrange(0, enc.len() as int) =~= enc);
    lemma_subrange_index(s, 0, enc);
    assert(s.subrange(enc.len() as int, s.len() as int) =~= extra);
    lemma_subrange_index(s, enc.len() as int, extra);
    assert(forall|u: int| 0 <= u < 21 ==> #[trigger] s[u] == hd[u]);
    assert(forall|u: int| 21 <= u < 21 + de.len() ==> #[trigger] s[u] == de[u - 21]);
    assert(forall|u: int|
        21 + de.len() <= u < enc.len() ==> #[trigger] s[u] == fe[u - 21 - de.len()]);

    // Header and schema parse as in the round trip.
    assert(s.subrange(0, 4) =~= magic_bytes());
    assert(s.subrange(19, 21) =~= spec_u16_to_le_bytes(f.datarefs@.len() as u16));
    assert(s.subrange(21, 21 + de.len() as int) =~= de);
    lemma_parse_encoded_datarefs(s, 21, f.datarefs@, 0);
    assert(f.datarefs@.skip(0) =~= f.datarefs@);
    let count = vstd::bytes::spec_u16_from_le_bytes(s.subrange(19, 21));
    assert(count == f.datarefs@.len());
    assert(parse_datarefs(s, header_size(), count as nat) == Some(
        (spec_raws(f.datarefs@), de.len() as nat),
    ));
    assert(spec_decode_error(s) is None);

    // The written frames parse; the cut-short trailer consumes the rest.
    let fstart = 21 + de.len() as int;
    assert(s.subrange(fstart, fstart + fe.len() as int) =~= fe);
    lemma_parse_encoded_frames(s, fstart, f.frames@, f.datarefs@, 0);
    let after = fstart + fe.len() as int;
    assert(after == enc.len());
    assert(s.subrange(after, after + 4) =~= extra.subrange(0, 4));
    assert(s.subrange(after, after + 4) == data_marker());
    assert(data_marker() != endr_marker()) by {
        assert(data_marker()[0] != endr_marker()[0]);
    }
    if extra.len() < 8 {
        assert(after + 8 > s.len());
        assert(parse_frames(s, after, spec_raws(f.datarefs@)) == (
            Seq::<DataFrameV>::empty(),
            s.len() as int,
        ));
    } else {
        assert(parse_values(s, after + 8, spec_raws(f.datarefs@), 0) is None);
        assert(parse_frames(s, after, spec_raws(f.datarefs@)) == (
            Seq::<DataFrameV>::empty(),
            s.len() as int,
        ));
    }
    assert(f.frames@.skip(0) =~= f.frames@);
    assert(spec_frames_v(f.frames@) + Seq::<DataFrameV>::empty() =~= spec_frames_v(f.frames@));
    assert(parse_frames(s, fstart, spec_raws(f.datarefs@)) == (
        spec_frames_v(f.frames@),
        s.len() as int,
    ));

    // Nothing follows the stream, so there is no footer.
    assert(!has_footer(s, s.len() as int));
}

// ---------------------------------------------------------------------------
// The executable writer.
// ---------------------------------------------------------------------------

/// Appends a byte sequence.
fn push_bytes(out: &mut Vec<u8>, piece: &Vec<u8>)
    ensures
        final(out)@ == old(out)@ + piece@,
{
    let mut i: usize = 0;
    while i < piece.len()
        invariant
            i <= piece@.len(),
            out@ == old(out)@ + piece@.take(i as int),
        decreases piece@.len() - i,
    {
        out.push(piece[i]);
        proof {
            assert(old(out)@ + piece@.take(i as int) + seq![piece@[i as int]] =~= old(out)@
                + piece@.take(i as int + 1));
        }
        i = i + 1;
    }
    proof {
        assert(piece@.take(piece@.len() as int) =~= piece@);
    }
}

fn push_u16(out: &mut Vec<u8>, x: u16)
    ensures
        final(out)@ == old(out)@ + spec_u16_to_le_bytes(x),
{
    let piece = u16_to_le_bytes(x);
    push_bytes(out, &piece);
}

fn push_u32(out: &mut Vec<u8>, x: u32)
    ensures
        final(out)@ == old(out)@ + spec_u32_to_le_bytes(x),
{
    let piece = u32_to_le_bytes(x);
    push_bytes(out, &piece);
}

fn push_u64(out: &mut Vec<u8>, x: u64)
    ensures
        final(out)@ == old(out)@ + spec_u64_to_le_bytes(x),
{
    let piece = u64_to_le_bytes(x);
    push_bytes(out, &piece);
}

fn push_i32(out: &mut Vec<u8>, x: i32)
    ensures
        final(out)@ == old(out)@ + spec_u32_to_le_bytes(u32_of_i32(x)),
{
    let u: u32 = if x >= 0 {
        x as u32
    } else {
        ((x as i64) + 0x1_0000_0000) as u32
    };
    push_u32(out, u);
}

/// Writes one value.
fn push_value(out: &mut Vec<u8>, v: &EncValue)
    requires
        v matches EncValue::Text(t) ==> t@.len() <= 0xff,
    ensures
        final(out)@ == old(out)@ + spec_encode_value(*v),
{
    match v {
        EncValue::Float(b) => {
            push_u32(out, *b);
        },
        EncValue::Int(x) => {
            push_i32(out, *x);
        },
        EncValue::Text(t) => {
            let len8: u8 = t.len() as u8;
            out.push(len8);
            push_bytes(out, t);
            proof {
                assert(old(out)@ + spec_encode_value(EncValue::Text(*t)) =~= out@);
            }
        },
        EncValue::FloatArray(a) => {
            proof {
                lemma_encode_u32s_len(a@, 0);
                assert(spec_encode_u32s(a@, 0).take(0) =~= Seq::<u8>::empty());
                assert(out@ + Seq::<u8>::empty() =~= out@);
            }
            let mut j: usize = 0;
            while j < a.len()
                invariant
                    j <= a@.len(),
                    out@ == old(out)@ + spec_encode_u32s(a@, 0).take(4 * j as int),
                    spec_encode_u32s(a@, 0).len() == 4 * a@.len(),
                decreases a@.len() - j,
            {
                proof {
                    lemma_encode_u32s_len(a@, 0);
                    lemma_encode_u32s_block(a@, 0, j as int);
                }
                push_u32(out, a[j]);
                proof {
                    assert(spec_encode_u32s(a@, 0).take(4 * (j + 1) as int)
                        =~= spec_encode_u32s(a@, 0).take(4 * j as int) + spec_encode_u32s(
                        a@,
                        0,
                    ).subrange(4 * j as int, 4 * j as int + 4));
                    assert(old(out)@ + spec_encode_u32s(a@, 0).take(4 * j as int)
                        + spec_u32_to_le_bytes(a@[j as int]) =~= old(out)@ + spec_encode_u32s(
                        a@,
                        0,
                    ).take(4 * (j + 1) as int));
                }
                j = j + 1;
            }
            proof {
                lemma_encode_u32s_len(a@, 0);
                assert(spec_encode_u32s(a@, 0).take(4 * a@.len() as int) =~= spec_encode_u32s(
                    a@,
                    0,
                ));
            }
        },
        EncValue::IntArray(a) => {
            proof {
                lemma_encode_i32s_len(a@, 0);
                assert(spec_encode_i32s(a@, 0).take(0) =~= Seq::<u8>::empty());
                assert(out@ + Seq::<u8>::empty() =~= out@);
            }
            let mut j: usize = 0;
            while j < a.len()
                invariant
                    j <= a@.len(),
                    out@ == old(out)@ + spec_encode_i32s(a@, 0).take(4 * j as int),
                    spec_encode_i32s(a@, 0).len() == 4 * a@.len(),
                decreases a@.len() - j,
            {
                proof {
                    lemma_encode_i32s_len(a@, 0);
                    lemma_encode_i32s_block(a@, 0, j as int);
                }
                push_i32(out, a[j]);
                proof {
                    assert(spec_encode_i32s(a@, 0).take(4 * (j + 1) as int)
                        =~= spec_encode_i32s(a@, 0).take(4 * j as int) + spec_encode_i32s(
                        a@,
                        0,
                    ).subrange(4 * j as int, 4 * j as int + 4));
                    assert(old(out)@ + spec_encode_i32s(a@, 0).take(4 * j as int)
                        + spec_u32_to_le_bytes(u32_of_i32(a@[j as int])) =~= old(out)@
                        + spec_encode_i32s(a@, 0).take(4 * (j + 1) as int));
                }
                j = j + 1;
            }
            proof {
                lemma_encode_i32s_len(a@, 0);
                assert(spec_encode_i32s(a@, 0).take(4 * a@.len() as int) =~= spec_encode_i32s(
                    a@,
                    0,
                ));
            }
        },
    }
}

/// Writes a whole synthetic recording.  The one requirement a caller must
/// mind for fidelity is well-formedness: string values no longer than their
/// one-byte length prefix can carry, names and the schema no longer than
/// their two-byte prefixes.
pub fn encode_file(f: &EncFile) -> (r: Vec<u8>)
    requires
        enc_wf(*f),
    ensures
        r@ == spec_encode_file(*f),
{
    let mut out: Vec<u8> = Vec::new();
    out.push(0x58);
    out.push(0x46);
    out.push(0x44);
    out.push(0x52);
    proof {
        assert(out@ =~= magic_bytes());
    }
    push_u16(&mut out, f.version);
    out.push(f.level);
    proof {
        assert(out@ =~= magic_bytes() + spec_u16_to_le_bytes(f.version) + seq![f.level]);
    }
    push_u32(&mut out, f.interval);
    push_u64(&mut out, f.start_timestamp);
    push_u16(&mut out, f.datarefs.len() as u16);
    proof {
        assert(out@ =~= spec_encode_header(*f));
    }
    let ghost hd = out@;
    let n: usize = f.datarefs.len();
    let mut i: usize = 0;
    proof {
        assert(out@ =~= hd + spec_encode_datarefs(f.datarefs@, 0).take(0));
    }
    while i < n
        invariant
            n == f.datarefs@.len(),
            i <= n,
            enc_wf(*f),
            out@ == hd + encoded_dataref_prefix(f.datarefs@, i as int),
        decreases n - i,
    {
        let ghost before = out@;
        let d = &f.datarefs[i];
        push_u16(&mut out, d.name_bytes.len() as u16);
        push_bytes(&mut out, &d.name_bytes);
        out.push(d.type_code);
        out.push(d.array_size);
        proof {
            assert(out@ =~= before + spec_encode_dataref(f.datarefs@[i as int]));
            lemma_encoded_dataref_prefix_step(f.datarefs@, i as int);
            assert(out@ =~= hd + encoded_dataref_prefix(f.datarefs@, i as int + 1));
        }
        i = i + 1;
    }
    proof {
        lemma_encoded_dataref_prefix_all(f.datarefs@);
    }
    let ghost hs = out@;
    let fn_: usize = f.frames.len();
    let mut fi: usize = 0;
    proof {
        assert(out@ =~= hs + encoded_frame_prefix(f.frames@, 0));
    }
    while fi < fn_
        invariant
            fn_ == f.frames@.len(),
            fi <= fn_,
            enc_wf(*f),
            out@ == hs + encoded_frame_prefix(f.frames@, fi as int),
        decreases fn_ - fi,
    {
        let ghost before = out@;
        let fr = &f.frames[fi];
        out.push(0x44);
        out.push(0x41);
        out.push(0x54);
        out.push(0x41);
        push_u32(&mut out, fr.timestamp);
        proof {
            assert(out@ =~= before + data_marker() + spec_u32_to_le_bytes(fr.timestamp));
        }
        let ghost mid = out@;
        let vn: usize = fr.values.len();
        let mut k: usize = 0;
        proof {
            assert(out@ =~= mid + encoded_value_prefix(fr.values@, 0));
        }
        while k < vn
            invariant
                vn == fr.values@.len(),
                k <= vn,
                fr == f.frames@[fi as int],
                fi < f.frames@.len(),
                enc_wf(*f),
                out@ == mid + encoded_value_prefix(fr.values@, k as int),
            decreases vn - k,
        {
            proof {
                assert(fr.values@.len() == f.datarefs@.len());
                assert(enc_value_matches(fr.values@[k as int], f.datarefs@[k as int]));
                assert(enc_dataref_wf(f.datarefs@[k as int]));
            }
            push_value(&mut out, &fr.values[k]);
            proof {
                lemma_encoded_value_prefix_step(fr.values@, k as int);
                assert(out@ =~= mid + encoded_value_prefix(fr.values@, k as int + 1));
            }
            k = k + 1;
        }
        proof {
            lemma_encoded_value_prefix_all(fr.values@);
            assert(out@ =~= before + spec_encode_frame(f.frames@[fi as int]));
            lemma_encoded_frame_prefix_step(f.frames@, fi as int);
        }
        fi = fi + 1;
    }
    proof {
        lemma_encoded_frame_prefix_all(f.frames@);
    }
    match &f.footer {
        Some(ft) => {
            let ghost before = out@;
            out.push(0x45);
            out.push(0x4e);
            out.push(0x44);
            out.push(0x52);
            push_u32(&mut out, ft.total_records);
            push_u64(&mut out, ft.end_timestamp);
            proof {
                assert(out@ =~= before + spec_encode_footer(f.footer));
                assert(out@ =~= spec_encode_file(*f));
            }
        },
        None => {
            proof {
                assert(out@ + Seq::<u8>::empty() =~= out@);
                assert(out@ =~= spec_encode_file(*f));
            }
        },
    }
    out
}

/// The bytes of the first `i` schema entries.
spec fn encoded_dataref_prefix(ds: Seq<EncDataref>, i: int) -> Seq<u8>
    decreases i,
{
    if i <= 0 {
        Seq::empty()
    } else {
        encoded_dataref_prefix(ds, i - 1) + spec_encode_dataref(ds[i - 1])
    }
}

proof fn lemma_encoded_dataref_prefix_step(ds: Seq<EncDataref>, i: int)
    requires
        0 <= i,
    ensures
        encoded_dataref_prefix(ds, i + 1) == encoded_dataref_prefix(ds, i)
            + spec_encode_dataref(ds[i]),
{
}

proof fn lemma_encoded_dataref_prefix_all(ds: Seq<EncDataref>)
    ensures
        encoded_dataref_prefix(ds, ds.len() as int) == spec_encode_datarefs(ds, 0),
{
    lemma_encoded_dataref_prefix_suffix(ds, 0);
    assert(encoded_dataref_prefix(ds, 0) + spec_encode_datarefs(ds, 0) =~= spec_encode_datarefs(
        ds,
        0,
    ));
    assert(encoded_dataref_prefix(ds, ds.len() as int) + spec_encode_datarefs(
        ds,
        ds.len() as int,
    ) =~= encoded_dataref_prefix(ds, ds.len() as int));
}

proof fn lemma_encoded_dataref_prefix_suffix(ds: Seq<EncDataref>, i: int)
    requires
        0 <= i <= ds.len(),
    ensures
        encoded_dataref_prefix(ds, i) + spec_encode_datarefs(ds, i) == encoded_dataref_prefix(
            ds,
            ds.len() as int,
        ) + spec_encode_datarefs(ds, ds.len() as int),
    decreases ds.len() - i,
{
    if i < ds.len() {
        lemma_encoded_dataref_prefix_suffix(ds, i + 1);
        lemma_encoded_dataref_prefix_step(ds, i);
        assert(encoded_dataref_prefix(ds, i) + (spec_encode_dataref(ds[i])
            + spec_encode_datarefs(ds, i + 1)) =~= (encoded_dataref_prefix(ds, i)
            + spec_encode_dataref(ds[i])) + spec_encode_datarefs(ds, i + 1));
    }
}

/// The bytes of the first `i` frames.
spec fn encoded_frame_prefix(fs: Seq<EncFrame>, i: int) -> Seq<u8>
    decreases i,
{
    if i <= 0 {
        Seq::empty()
    } else {
        encoded_frame_prefix(fs, i - 1) + spec_encode_frame(fs[i - 1])
    }
}

proof fn lemma_encoded_frame_prefix_step(fs: Seq<EncFrame>, i: int)
    requires
        0 <= i,
    ensures
        encoded_frame_prefix(fs, i + 1) == encoded_frame_prefix(fs, i) + spec_encode_frame(fs[i]),
{
}

proof fn lemma_encoded_frame_prefix_all(fs: Seq<EncFrame>)
    ensures
        encoded_frame_prefix(fs, fs.len() as int) == spec_encode_frames(fs, 0),
{
    lemma_encoded_frame_prefix_suffix(fs, 0);
    assert(encoded_frame_prefix(fs, 0) + spec_encode_frames(fs, 0) =~= spec_encode_frames(fs, 0));
    assert(encoded_frame_prefix(fs, fs.len() as int) + spec_encode_frames(fs, fs.len() as int)
        =~= encoded_frame_prefix(fs, fs.len() as int));
}

proof fn lemma_encoded_frame_prefix_suffix(fs: Seq<EncFrame>, i: int)
    requires
        0 <= i <= fs.len(),
    ensures
        encoded_frame_prefix(fs, i) + spec_encode_frames(fs, i) == encoded_frame_prefix(
            fs,
            fs.len() as int,
        ) + spec_encode_frames(fs, fs.len() as int),
    decreases fs.len() - i,
{
    if i < fs.len() {
        lemma_encoded_frame_prefix_suffix(fs, i + 1);
        lemma_encoded_frame_prefix_step(fs, i);
        assert(encoded_frame_prefix(fs, i) + (spec_encode_frame(fs[i]) + spec_encode_frames(
            fs,
            i + 1,
        )) =~= (encoded_frame_prefix(fs, i) + spec_encode_frame(fs[i])) + spec_encode_frames(
            fs,
            i + 1,
        ));
    }
}

/// The bytes of the first `k` values of a frame.
spec fn encoded_value_prefix(vs: Seq<EncValue>, k: int) -> Seq<u8>
    decreases k,
{
    if k <= 0 {
        Seq::empty()
    } else {
        encoded_value_prefix(vs, k - 1) + spec_encode_value(vs[k - 1])
    }
}

proof fn lemma_encoded_value_prefix_step(vs: Seq<EncValue>, k: int)
    requires
        0 <= k,
    ensures
        encoded_value_prefix(vs, k + 1) == encoded_value_prefix(vs, k) + spec_encode_value(vs[k]),
{
}

proof fn lemma_encoded_value_prefix_all(vs: Seq<EncValue>)
    ensures
        encoded_value_prefix(vs, vs.len() as int) == spec_encode_values(vs, 0),
{
    lemma_encoded_value_prefix_suffix(vs, 0);
    assert(encoded_value_prefix(vs, 0) + spec_encode_values(vs, 0) =~= spec_encode_values(vs, 0));
    assert(encoded_value_prefix(vs, vs.len() as int) + spec_encode_values(vs, vs.len() as int)
        =~= encoded_value_prefix(vs, vs.len() as int));
}

proof fn lemma_encoded_value_prefix_suffix(vs: Seq<EncValue>, k: int)
    requires
        0 <= k <= vs.len(),
    ensures
        encoded_value_prefix(vs, k) + spec_encode_values(vs, k) == encoded_value_prefix(
            vs,
            vs.len() as int,
        ) + spec_encode_values(vs, vs.len() as int),
    decreases vs.len() - k,
{
    if k < vs.len() {
        lemma_encoded_value_prefix_suffix(vs, k + 1);
        lemma_encoded_value_prefix_step(vs, k);
        assert(encoded_value_prefix(vs, k) + (spec_encode_value(vs[k]) + spec_encode_values(
            vs,
            k + 1,
        )) =~= (encoded_value_prefix(vs, k) + spec_encode_value(vs[k])) + spec_encode_values(
            vs,
            k + 1,
        ));
    }
}

} // verus!
