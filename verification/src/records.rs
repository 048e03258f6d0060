//! Record framing for the zip-packaged binary event log.
//!
//! Every record is an 8-byte fixed header (separator byte, record-type byte,
//! 4-byte little-endian Unix timestamp, 2-byte little-endian payload length)
//! followed by `payload_length + 1` payload bytes; the trailing byte is a
//! checksum/terminator that is carried along but not validated.

use vstd::prelude::*;

verus! {

/// The closed set of record types of the event log, with a catch-all for
/// codes the device family does not document.
#[derive(Clone, Copy, Debug, PartialEq, Eq, Structural)]
pub enum LogRecordType {
    Unknown,
    Activity,
    Battery,
    Event,
    HeartRateBPM,
    Lux,
    Metadata,
    Tag,
    Epoch,
    HeartRateAnt,
    Epoch2,
    Capsense,
    HeartRateBle,
    Epoch3,
    Epoch4,
    FifoError,
    FifoDump,
    Parameters,
    SensorSchema,
    SensorData,
    Activity2,
}

/// The record type a type byte denotes.
pub open spec fn record_type_of(val: u8) -> LogRecordType {
    if val == 0x00 {
        LogRecordType::Activity
    } else if val == 0x02 {
        LogRecordType::Battery
    } else if val == 0x03 {
        LogRecordType::Event
    } else if val == 0x04 {
        LogRecordType::HeartRateBPM
    } else if val == 0x05 {
        LogRecordType::Lux
    } else if val == 0x06 {
        LogRecordType::Metadata
    } else if val == 0x07 {
        LogRecordType::Tag
    } else if val == 0x09 {
        LogRecordType::Epoch
    } else if val == 0x0B {
        LogRecordType::HeartRateAnt
    } else if val == 0x0C {
        LogRecordType::Epoch2
    } else if val == 0x0D {
        LogRecordType::Capsense
    } else if val == 0x0E {
        LogRecordType::HeartRateBle
    } else if val == 0x0F {
        LogRecordType::Epoch3
    } else if val == 0x10 {
        LogRecordType::Epoch4
    } else if val == 0x13 {
        LogRecordType::FifoError
    } else if val == 0x14 {
        LogRecordType::FifoDump
    } else if val == 0x15 {
        LogRecordType::Parameters
    } else if val == 0x18 {
        LogRecordType::SensorSchema
    } else if val == 0x19 {
        LogRecordType::SensorData
    } else if val == 0x1A {
        LogRecordType::Activity2
    } else {
        LogRecordType::Unknown
    }
}

impl LogRecordType {
    /// Map a record-type byte to its record type.
    pub fn from_u8(val: u8) -> (r: LogRecordType)
        ensures
            r == record_type_of(val),
    {
        match val {
            0x00 => LogRecordType::Activity,
            0x02 => LogRecordType::Battery,
            0x03 => LogRecordType::Event,
            0x04 => LogRecordType::HeartRateBPM,
            0x05 => LogRecordType::Lux,
            0x06 => LogRecordType::Metadata,
            0x07 => LogRecordType::Tag,
            0x09 => LogRecordType::Epoch,
            0x0B => LogRecordType::HeartRateAnt,
            0x0C => LogRecordType::Epoch2,
            0x0D => LogRecordType::Capsense,
            0x0E => LogRecordType::HeartRateBle,
            0x0F => LogRecordType::Epoch3,
            0x10 => LogRecordType::Epoch4,
            0x13 => LogRecordType::FifoError,
            0x14 => LogRecordType::FifoDump,
            0x15 => LogRecordType::Parameters,
            0x18 => LogRecordType::SensorSchema,
            0x19 => LogRecordType::SensorData,
            0x1A => LogRecordType::Activity2,
            _ => LogRecordType::Unknown,
        }
    }
}

/// The unsigned value of two bytes in little-endian order.
pub open spec fn le_u16(b0: u8, b1: u8) -> u16 {
    (b0 + 0x100 * b1) as u16
}

/// The unsigned value of four bytes in little-endian order.
pub open spec fn le_u32(b0: u8, b1: u8, b2: u8, b3: u8) -> u32 {
    (b0 + 0x100 * b1 + 0x1_0000 * b2 + 0x100_0000 * b3) as u32
}

/// Combine two bytes little-endian into a u16.
pub fn le_u16_exec(b0: u8, b1: u8) -> (r: u16)
    ensures
        r == le_u16(b0, b1),
{
    b0 as u16 + 0x100 * b1 as u16
}

/// Combine four bytes little-endian into a u32.
pub fn le_u32_exec(b0: u8, b1: u8, b2: u8, b3: u8) -> (r: u32)
    ensures
        r == le_u32(b0, b1, b2, b3),
{
    b0 as u32 + 0x100 * b1 as u32 + 0x1_0000 * b2 as u32 + 0x100_0000 * b3 as u32
}

/// The separator byte every well-formed record header starts with.
pub open spec fn separator_byte() -> u8 {
    0x1E
}

/// The fixed 8-byte header prefixing every record.
#[derive(Clone, Copy, Debug, PartialEq, Eq, Structural)]
pub struct LogRecordHeader {
    pub separator: u8,
    pub record_type: u8,
    pub timestamp: u32,
    pub record_size: u16,
}

/// The header the first 8 bytes at `pos` decode to.
pub open spec fn header_at(bytes: Seq<u8>, pos: int) -> LogRecordHeader
    recommends
        0 <= pos,
        pos + 8 <= bytes.len(),
{
    LogRecordHeader {
        separator: bytes[pos],
        record_type: bytes[pos + 1],
        timestamp: le_u32(bytes[pos + 2], bytes[pos + 3], bytes[pos + 4], bytes[pos + 5]),
        record_size: le_u16(bytes[pos + 6], bytes[pos + 7]),
    }
}

impl LogRecordHeader {
    /// Decode the 8 fixed header bytes.
    pub fn from_bytes(bytes: &[u8]) -> (r: LogRecordHeader)
        requires
            bytes@.len() >= 8,
        ensures
            r == header_at(bytes@, 0),
    {
        LogRecordHeader {
            separator: *vstd::slice::slice_index_get(bytes, 0),
            record_type: *vstd::slice::slice_index_get(bytes, 1),
            timestamp: le_u32_exec(
                *vstd::slice::slice_index_get(bytes, 2),
                *vstd::slice::slice_index_get(bytes, 3),
                *vstd::slice::slice_index_get(bytes, 4),
                *vstd::slice::slice_index_get(bytes, 5),
            ),
            record_size: le_u16_exec(
                *vstd::slice::slice_index_get(bytes, 6),
                *vstd::slice::slice_index_get(bytes, 7),
            ),
        }
    }

    /// Whether the separator byte has its one well-formed value.
    pub fn valid_seperator(&self) -> (r: bool)
        ensures
            r == (self.separator == separator_byte()),
    {
        self.separator == 0x1E
    }

    /// The record's base time as nanoseconds since the Unix epoch,
    /// at whole-second resolution.
    pub fn timestamp_ns(&self) -> (r: i64)
        ensures
            r == self.timestamp as int * 1_000_000_000,
    {
        self.timestamp as i64 * 1_000_000_000
    }
}

/// One framed record: its header and its owned payload, the trailing
/// checksum byte included.
pub struct LogRecord {
    pub header: LogRecordHeader,
    pub data: Vec<u8>,
}

/// What the framing layer yields at one step.
pub enum RecordStep {
    /// A complete record; the cursor has moved past it.
    Record(LogRecord),
    /// The stream ended exactly at a record boundary: normal end of data.
    End,
    /// The stream ended inside a header or payload: fatal corruption.
    Truncated,
}

/// Whether a whole record (8-byte header plus `record_size + 1` payload
/// bytes) lies at `pos`.
pub open spec fn record_fits(bytes: Seq<u8>, pos: int) -> bool {
    &&& pos + 8 <= bytes.len()
    &&& pos + 8 + header_at(bytes, pos).record_size + 1 <= bytes.len()
}

/// The bit offset just past the record at `pos`.
pub open spec fn record_end(bytes: Seq<u8>, pos: int) -> int
    recommends
        pos + 8 <= bytes.len(),
{
    pos + 8 + header_at(bytes, pos).record_size + 1
}

/// The payload of the record at `pos`, trailing checksum byte included.
pub open spec fn record_payload(bytes: Seq<u8>, pos: int) -> Seq<u8>
    recommends
        record_fits(bytes, pos),
{
    bytes.subrange(pos + 8, record_end(bytes, pos))
}

/// Sequential reader of header-prefixed records from an in-memory byte
/// stream. It enforces framing only: it knows header and payload
/// boundaries, nothing of record semantics.
pub struct LogRecordIterator<'a> {
    buffer: &'a [u8],
    pos: usize,
}

impl<'a> LogRecordIterator<'a> {
    /// The byte stream being read.
    pub closed spec fn buffer_spec(&self) -> Seq<u8> {
        self.buffer@
    }

    /// The offset of the next unread byte.
    pub closed spec fn pos_spec(&self) -> int {
        self.pos as int
    }

    /// The cursor is within the stream.
    pub open spec fn wf(&self) -> bool {
        self.pos_spec() <= self.buffer_spec().len()
    }

    pub fn new(buffer: &'a [u8]) -> (r: LogRecordIterator<'a>)
        ensures
            r.wf(),
            r.buffer_spec() == buffer@,
            r.pos_spec() == 0,
    {
        LogRecordIterator { buffer, pos: 0 }
    }

    /// Read the next record. Ends the sequence cleanly when the stream is
    /// exhausted exactly at a record boundary; reports truncation when it
    /// ends inside a header or payload.
    pub fn next(&mut self) -> (r: RecordStep)
        requires
            old(self).wf(),
        ensures
            final(self).wf(),
            final(self).buffer_spec() == old(self).buffer_spec(),
            old(self).pos_spec() == old(self).buffer_spec().len() ==> (
                r is End && final(self).pos_spec() == old(self).pos_spec()
            ),
            old(self).pos_spec() < old(self).buffer_spec().len()
                && !record_fits(old(self).buffer_spec(), old(self).pos_spec()) ==> (
                r is Truncated && final(self).pos_spec() == old(self).pos_spec()
            ),
            record_fits(old(self).buffer_spec(), old(self).pos_spec())
                && old(self).pos_spec() < old(self).buffer_spec().len() ==> {
                &&& r matches RecordStep::Record(rec)
                &&& rec.header == header_at(old(self).buffer_spec(), old(self).pos_spec())
                &&& rec.data@ == record_payload(old(self).buffer_spec(), old(self).pos_spec())
                &&& final(self).pos_spec() == record_end(
                    old(self).buffer_spec(), old(self).pos_spec())
            },
    {
        if self.pos == self.buffer.len() {
            return RecordStep::End;
        }
        if self.buffer.len() - self.pos < 8 {
            return RecordStep::Truncated;
        }
        let header_slice: &[u8] = vstd::slice::slice_subrange(self.buffer, self.pos, self.pos + 8);
        let header = LogRecordHeader::from_bytes(header_slice);
        assert(header == header_at(self.buffer_spec(), self.pos_spec()));
        let payload_len: usize = header.record_size as usize + 1;
        if self.buffer.len() - (self.pos + 8) < payload_len {
            return RecordStep::Truncated;
        }
        let payload_slice: &[u8] = vstd::slice::slice_subrange(
            self.buffer,
            self.pos + 8,
            self.pos + 8 + payload_len,
        );
        let mut data: Vec<u8> = Vec::new();
        let mut i: usize = 0;
        while i < payload_len
            invariant
                i <= payload_len,
                payload_slice@.len() == payload_len,
                data@ == payload_slice@.subrange(0, i as int),
            decreases payload_len - i,
        {
            data.push(*vstd::slice::slice_index_get(payload_slice, i));
            i = i + 1;
        }
        assert(data@ == payload_slice@);
        self.pos = self.pos + 8 + payload_len;
        RecordStep::Record(LogRecord { header, data })
    }
}

} // verus!
