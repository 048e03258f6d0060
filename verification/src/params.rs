//! The parameter table of the zip-packaged event log.
//!
//! A Parameters record's payload (trailing checksum byte excluded) is a run
//! of 8-byte entries: a 4-byte little-endian key whose low 16 bits are an
//! address space and high 16 bits an identifier, then a 4-byte little-endian
//! value. An entry that declares the sample rate overwrites the decode
//! configuration for every later record; independently, every entry that
//! resolves to a known parameter is recorded as metadata.

use vstd::prelude::*;
use crate::records::{le_u16, le_u32, le_u16_exec, le_u32_exec};

verus! {

/// The closed set of named device parameters, with a catch-all for
/// address/identifier pairs the table does not list.
#[derive(Clone, Copy, Debug, PartialEq, Eq, Structural)]
pub enum ParameterType {
    Unknown,
    BatteryState,
    BatteryVoltage,
    BoardRevision,
    CalibrationTime,
    FirmwareVersion,
    MemorySize,
    FeatureCapabilities,
    DisplayCapabilities,
    WirelessFirmwareVersion,
    IMUAccelScale,
    IMUGyroScale,
    IMUMagScale,
    AccelScale,
    IMUTempScale,
    IMUTempOffset,
    WirelessMode,
    WirelessSerialNumber,
    FeatureEnable,
    DisplayConfiguration,
    NegativeGOffsetX,
    NegativeGOffsetY,
    NegativeGOffsetZ,
    PositiveGOffsetX,
    PositiveGOffsetY,
    PositiveGOffsetZ,
    SampleRate,
    TargetStartTime,
    TargetStopTime,
    TimeOfDay,
    ZeroGOffsetX,
    ZeroGOffsetY,
    ZeroGOffsetZ,
    HRMSerialNumberH,
    HRMSerialNumberL,
    ProximityInterval,
    IMUNegativeGOffsetX,
    IMUNegativeGOffsetY,
    IMUNegativeGOffsetZ,
    IMUPositiveGOffsetX,
    IMUPositiveGOffsetY,
    IMUPositiveGOffsetZ,
    UTCOffset,
    IMUZeroGOffsetX,
    IMUZeroGOffsetY,
    IMUZeroGOffsetZ,
    SensorConfiguration,
}

/// The parameter an (address space, identifier) pair resolves to.
pub open spec fn param_type_of(address_space: u16, identifier: u16) -> ParameterType {
    if address_space == 0 {
        if identifier == 6 {
            ParameterType::BatteryState
        } else if identifier == 7 {
            ParameterType::BatteryVoltage
        } else if identifier == 8 {
            ParameterType::BoardRevision
        } else if identifier == 9 {
            ParameterType::CalibrationTime
        } else if identifier == 13 {
            ParameterType::FirmwareVersion
        } else if identifier == 16 {
            ParameterType::MemorySize
        } else if identifier == 28 {
            ParameterType::FeatureCapabilities
        } else if identifier == 29 {
            ParameterType::DisplayCapabilities
        } else if identifier == 32 {
            ParameterType::WirelessFirmwareVersion
        } else if identifier == 49 {
            ParameterType::IMUAccelScale
        } else if identifier == 50 {
            ParameterType::IMUGyroScale
        } else if identifier == 51 {
            ParameterType::IMUMagScale
        } else if identifier == 55 {
            ParameterType::AccelScale
        } else if identifier == 57 {
            ParameterType::IMUTempScale
        } else if identifier == 58 {
            ParameterType::IMUTempOffset
        } else {
            ParameterType::Unknown
        }
    } else if address_space == 1 {
        if identifier == 0 {
            ParameterType::WirelessMode
        } else if identifier == 1 {
            ParameterType::WirelessSerialNumber
        } else if identifier == 2 {
            ParameterType::FeatureEnable
        } else if identifier == 3 {
            ParameterType::DisplayConfiguration
        } else if identifier == 4 {
            ParameterType::NegativeGOffsetX
        } else if identifier == 5 {
            ParameterType::NegativeGOffsetY
        } else if identifier == 6 {
            ParameterType::NegativeGOffsetZ
        } else if identifier == 7 {
            ParameterType::PositiveGOffsetX
        } else if identifier == 8 {
            ParameterType::PositiveGOffsetY
        } else if identifier == 9 {
            ParameterType::PositiveGOffsetZ
        } else if identifier == 10 {
            ParameterType::SampleRate
        } else if identifier == 12 {
            ParameterType::TargetStartTime
        } else if identifier == 13 {
            ParameterType::TargetStopTime
        } else if identifier == 14 {
            ParameterType::TimeOfDay
        } else if identifier == 15 {
            ParameterType::ZeroGOffsetX
        } else if identifier == 16 {
            ParameterType::ZeroGOffsetY
        } else if identifier == 17 {
            ParameterType::ZeroGOffsetZ
        } else if identifier == 20 {
            ParameterType::HRMSerialNumberH
        } else if identifier == 21 {
            ParameterType::HRMSerialNumberL
        } else if identifier == 33 {
            ParameterType::ProximityInterval
        } else if identifier == 34 {
            ParameterType::IMUNegativeGOffsetX
        } else if identifier == 35 {
            ParameterType::IMUNegativeGOffsetY
        } else if identifier == 36 {
            ParameterType::IMUNegativeGOffsetZ
        } else if identifier == 37 {
            ParameterType::IMUPositiveGOffsetX
        } else if identifier == 38 {
            ParameterType::IMUPositiveGOffsetY
        } else if identifier == 39 {
            ParameterType::IMUPositiveGOffsetZ
        } else if identifier == 40 {
            ParameterType::UTCOffset
        } else if identifier == 41 {
            ParameterType::IMUZeroGOffsetX
        } else if identifier == 42 {
            ParameterType::IMUZeroGOffsetY
        } else if identifier == 43 {
            ParameterType::IMUZeroGOffsetZ
        } else if identifier == 44 {
            ParameterType::SensorConfiguration
        } else {
            ParameterType::Unknown
        }
    } else {
        ParameterType::Unknown
    }
}

impl ParameterType {
    /// Resolve an (address space, identifier) pair against the parameter
    /// code table.
    pub fn from_u16(address_space: u16, identifier: u16) -> (r: ParameterType)
        ensures
            r == param_type_of(address_space, identifier),
    {
        match address_space {
            0 => match identifier {
                6 => ParameterType::BatteryState,
                7 => ParameterType::BatteryVoltage,
                8 => ParameterType::BoardRevision,
                9 => ParameterType::CalibrationTime,
                13 => ParameterType::FirmwareVersion,
                16 => ParameterType::MemorySize,
                28 => ParameterType::FeatureCapabilities,
                29 => ParameterType::DisplayCapabilities,
                32 => ParameterType::WirelessFirmwareVersion,
                49 => ParameterType::IMUAccelScale,
                50 => ParameterType::IMUGyroScale,
                51 => ParameterType::IMUMagScale,
                55 => ParameterType::AccelScale,
                57 => ParameterType::IMUTempScale,
                58 => ParameterType::IMUTempOffset,
                _ => ParameterType::Unknown,
            },
            1 => match identifier {
                0 => ParameterType::WirelessMode,
                1 => ParameterType::WirelessSerialNumber,
                2 => ParameterType::FeatureEnable,
                3 => ParameterType::DisplayConfiguration,
                4 => ParameterType::NegativeGOffsetX,
                5 => ParameterType::NegativeGOffsetY,
                6 => ParameterType::NegativeGOffsetZ,
                7 => ParameterType::PositiveGOffsetX,
                8 => ParameterType::PositiveGOffsetY,
                9 => ParameterType::PositiveGOffsetZ,
                10 => ParameterType::SampleRate,
                12 => ParameterType::TargetStartTime,
                13 => ParameterType::TargetStopTime,
                14 => ParameterType::TimeOfDay,
                15 => ParameterType::ZeroGOffsetX,
                16 => ParameterType::ZeroGOffsetY,
                17 => ParameterType::ZeroGOffsetZ,
                20 => ParameterType::HRMSerialNumberH,
                21 => ParameterType::HRMSerialNumberL,
                33 => ParameterType::ProximityInterval,
                34 => ParameterType::IMUNegativeGOffsetX,
                35 => ParameterType::IMUNegativeGOffsetY,
                36 => ParameterType::IMUNegativeGOffsetZ,
                37 => ParameterType::IMUPositiveGOffsetX,
                38 => ParameterType::IMUPositiveGOffsetY,
                39 => ParameterType::IMUPositiveGOffsetZ,
                40 => ParameterType::UTCOffset,
                41 => ParameterType::IMUZeroGOffsetX,
                42 => ParameterType::IMUZeroGOffsetY,
                43 => ParameterType::IMUZeroGOffsetZ,
                44 => ParameterType::SensorConfiguration,
                _ => ParameterType::Unknown,
            },
            _ => ParameterType::Unknown,
        }
    }
}

/// One resolved metadata entry: a known parameter and its raw value.
#[derive(Clone, Copy, Debug, PartialEq, Eq, Structural)]
pub struct MetadataEntry {
    pub param: ParameterType,
    pub value: u32,
}

/// Whether a Parameters payload (trailing checksum byte included) frames
/// a whole number of 8-byte entries.
pub open spec fn params_well_framed(payload: Seq<u8>) -> bool {
    &&& payload.len() >= 1
    &&& (payload.len() - 1) % 8 == 0
}

/// How many 8-byte entries the payload holds.
pub open spec fn param_entry_count(payload: Seq<u8>) -> int
    recommends
        params_well_framed(payload),
{
    (payload.len() - 1) / 8
}

/// The address space of entry `e`.
pub open spec fn entry_address(payload: Seq<u8>, e: int) -> u16 {
    le_u16(payload[8 * e], payload[8 * e + 1])
}

/// The identifier of entry `e`.
pub open spec fn entry_identifier(payload: Seq<u8>, e: int) -> u16 {
    le_u16(payload[8 * e + 2], payload[8 * e + 3])
}

/// The parameter entry `e` resolves to.
pub open spec fn entry_param(payload: Seq<u8>, e: int) -> ParameterType {
    param_type_of(entry_address(payload, e), entry_identifier(payload, e))
}

/// The raw value of entry `e`.
pub open spec fn entry_value(payload: Seq<u8>, e: int) -> u32 {
    le_u32(payload[8 * e + 4], payload[8 * e + 5], payload[8 * e + 6], payload[8 * e + 7])
}

/// The metadata entries the first `n` entries contribute, in entry order:
/// every entry whose parameter is known.
pub open spec fn meta_of_entries(payload: Seq<u8>, n: int) -> Seq<MetadataEntry>
    decreases n,
{
    if n <= 0 {
        Seq::empty()
    } else {
        let rest = meta_of_entries(payload, n - 1);
        if entry_param(payload, n - 1) is Unknown {
            rest
        } else {
            rest.push(
                MetadataEntry { param: entry_param(payload, n - 1), value: entry_value(payload, n - 1) },
            )
        }
    }
}

/// The sample rate after the first `n` entries have been applied to a
/// configuration whose rate was `rate0`: the value of the last
/// sample-rate entry, or `rate0` when there is none.
pub open spec fn rate_of_entries(payload: Seq<u8>, n: int, rate0: u32) -> u32
    decreases n,
{
    if n <= 0 {
        rate0
    } else {
        if entry_param(payload, n - 1) is SampleRate {
            entry_value(payload, n - 1)
        } else {
            rate_of_entries(payload, n - 1, rate0)
        }
    }
}

/// Interpret a Parameters payload (trailing checksum byte included):
/// return the sample rate after all entries and the metadata entries
/// the payload contributes, in entry order.
pub fn interpret_parameters(payload: &[u8], rate0: u32) -> (r: (u32, Vec<MetadataEntry>))
    requires
        params_well_framed(payload@),
    ensures
        r.0 == rate_of_entries(payload@, param_entry_count(payload@), rate0),
        r.1@ == meta_of_entries(payload@, param_entry_count(payload@)),
{
    let n: usize = (payload.len() - 1) / 8;
    proof {
        vstd::arithmetic::div_mod::lemma_fundamental_div_mod(payload@.len() - 1, 8);
        assert(8 * n < payload@.len());
    }
    let mut rate: u32 = rate0;
    let mut meta: Vec<MetadataEntry> = Vec::new();
    let mut e: usize = 0;
    while e < n
        invariant
            n == param_entry_count(payload@),
            8 * n < payload@.len() <= usize::MAX,
            e <= n,
            rate == rate_of_entries(payload@, e as int, rate0),
            meta@ == meta_of_entries(payload@, e as int),
        decreases n - e,
    {
        let base: usize = 8 * e;
        let address = le_u16_exec(
            *vstd::slice::slice_index_get(payload, base),
            *vstd::slice::slice_index_get(payload, base + 1),
        );
        let identifier = le_u16_exec(
            *vstd::slice::slice_index_get(payload, base + 2),
            *vstd::slice::slice_index_get(payload, base + 3),
        );
        let value = le_u32_exec(
            *vstd::slice::slice_index_get(payload, base + 4),
            *vstd::slice::slice_index_get(payload, base + 5),
            *vstd::slice::slice_index_get(payload, base + 6),
            *vstd::slice::slice_index_get(payload, base + 7),
        );
        let param = ParameterType::from_u16(address, identifier);
        if matches!(param, ParameterType::SampleRate) {
            rate = value;
        }
        if !matches!(param, ParameterType::Unknown) {
            meta.push(MetadataEntry { param, value });
        }
        e = e + 1;
    }
    (rate, meta)
}

} // verus!
