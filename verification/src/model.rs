//! The decoded data model: header, dataref schema, frames and values.
//!
//! Single-precision payloads are held as their raw bit patterns (`u32`), so
//! the whole model is exact integer data; see `fbits` for the semantics of
//! those patterns.

use vstd::prelude::*;

verus! {

/// File header.  `interval` holds the raw bits of the stored 32-bit float.
/// The four footer-derived fields are all-or-nothing: either a valid footer
/// was found and all four are present, or all four are absent.
#[derive(Debug, Clone)]
pub struct XDRHeader {
    pub magic: String,
    pub version: u16,
    pub level: u8,
    pub level_name: String,
    pub interval: u32,
    pub start_timestamp: u64,
    pub start_datetime: String,
    pub dataref_count: u16,
    pub total_records: Option<u32>,
    pub end_timestamp: Option<u64>,
    pub end_datetime: Option<String>,
    pub duration: Option<u64>,
}

impl XDRHeader {
    /// The footer fields stand or fall together.
    pub open spec fn footer_all_or_nothing(&self) -> bool {
        (self.total_records is Some <==> self.end_timestamp is Some)
        && (self.total_records is Some <==> self.end_datetime is Some)
        && (self.total_records is Some <==> self.duration is Some)
    }
}

/// One channel schema entry.  `data_type` is one of "float", "int", "string"
/// or "unknown"; `array_size` 0 means scalar.
#[derive(Debug, Clone)]
pub struct DatarefDef {
    pub name: String,
    pub data_type: String,
    pub array_size: u8,
}

/// Ghost counterpart of `DatarefDef`.
pub struct DatarefDefV {
    pub name: Seq<char>,
    pub data_type: Seq<char>,
    pub array_size: u8,
}

impl View for DatarefDef {
    type V = DatarefDefV;

    open spec fn view(&self) -> DatarefDefV {
        DatarefDefV { name: self.name@, data_type: self.data_type@, array_size: self.array_size }
    }
}

/// One decoded value; float payloads are bit patterns.
#[derive(Debug, Clone)]
pub enum DataValue {
    Float(u32),
    Int(i32),
    Str(String),
    FloatArray(Vec<u32>),
    IntArray(Vec<i32>),
}

/// Ghost counterpart of `DataValue`.
pub enum DataValueV {
    Float(u32),
    Int(i32),
    Str(Seq<char>),
    FloatArray(Seq<u32>),
    IntArray(Seq<i32>),
}

impl View for DataValue {
    type V = DataValueV;

    open spec fn view(&self) -> DataValueV {
        match self {
            DataValue::Float(b) => DataValueV::Float(*b),
            DataValue::Int(v) => DataValueV::Int(*v),
            DataValue::Str(s) => DataValueV::Str(s@),
            DataValue::FloatArray(a) => DataValueV::FloatArray(a@),
            DataValue::IntArray(a) => DataValueV::IntArray(a@),
        }
    }
}

/// One sample: a timestamp (bits of the stored 32-bit float, seconds since
/// the recording start) and one value per value-producing dataref.
#[derive(Debug, Clone)]
pub struct DataFrame {
    pub timestamp: u32,
    pub values: Vec<DataValue>,
}

/// Ghost counterpart of `DataFrame`.
pub struct DataFrameV {
    pub timestamp: u32,
    pub values: Seq<DataValueV>,
}

impl View for DataFrame {
    type V = DataFrameV;

    open spec fn view(&self) -> DataFrameV {
        DataFrameV {
            timestamp: self.timestamp,
            values: self.values@.map(|i: int, v: DataValue| v@),
        }
    }
}

/// A flattened, plottable reference to one scalar channel.
#[derive(Debug, Clone)]
pub struct Parameter {
    pub index: usize,
    pub array_index: usize,
    pub name: String,
    pub data_type: String,
}

/// Ghost counterpart of `Parameter`.
pub struct ParameterV {
    pub index: usize,
    pub array_index: usize,
    pub name: Seq<char>,
    pub data_type: Seq<char>,
}

impl View for Parameter {
    type V = ParameterV;

    open spec fn view(&self) -> ParameterV {
        ParameterV {
            index: self.index,
            array_index: self.array_index,
            name: self.name@,
            data_type: self.data_type@,
        }
    }
}

/// Exact descriptive statistics over a projected channel.  `min`, `max`,
/// `median_low` and `median_high` are binary64 bit patterns; the median of
/// the channel is `median_low` averaged with `median_high` (they coincide for
/// an odd sample count).  Mean and standard deviation are floating-point
/// arithmetic over the projected values and are left to the caller.
#[derive(Debug, Clone)]
pub struct Statistics {
    pub name: String,
    pub count: usize,
    pub min: u64,
    pub max: u64,
    pub median_low: u64,
    pub median_high: u64,
}

/// A decoded dataset: header, schema and frames, immutable after decode.
pub struct XDRData {
    pub filepath: String,
    pub header: XDRHeader,
    pub datarefs: Vec<DatarefDef>,
    pub frames: Vec<DataFrame>,
    pub is_complete: bool,
}

impl XDRData {
    /// An empty dataset: zeroed header, no schema, no frames.
    pub fn new() -> (r: XDRData)
        ensures
            r.filepath@ == Seq::<char>::empty(),
            r.header.magic@ == Seq::<char>::empty(),
            r.header.version == 0,
            r.header.level == 0,
            r.header.level_name@ == Seq::<char>::empty(),
            r.header.interval == 0,
            r.header.start_timestamp == 0,
            r.header.start_datetime@ == Seq::<char>::empty(),
            r.header.dataref_count == 0,
            r.header.total_records is None,
            r.header.end_timestamp is None,
            r.header.end_datetime is None,
            r.header.duration is None,
            r.datarefs@ == Seq::<DatarefDef>::empty(),
            r.frames@ == Seq::<DataFrame>::empty(),
            !r.is_complete,
    {
        XDRData {
            filepath: String::new(),
            header: XDRHeader {
                magic: String::new(),
                version: 0,
                level: 0,
                level_name: String::new(),
                interval: 0,
                start_timestamp: 0,
                start_datetime: String::new(),
                dataref_count: 0,
                total_records: None,
                end_timestamp: None,
                end_datetime: None,
                duration: None,
            },
            datarefs: Vec::new(),
            frames: Vec::new(),
            is_complete: false,
        }
    }

    /// Ghost view of the frame sequence.
    pub open spec fn frames_view(&self) -> Seq<DataFrameV> {
        self.frames@.map(|i: int, f: DataFrame| f@)
    }

    /// Ghost view of the schema.
    pub open spec fn datarefs_view(&self) -> Seq<DatarefDefV> {
        self.datarefs@.map(|i: int, d: DatarefDef| d@)
    }
}

} // verus!
