//! The ZC-Q1401 C14 sampler (device type `0x04`): the requests it accepts and
//! how its replies are read.
//!
//! Floating-point readings are carried as the bit patterns of the IEEE-754
//! single-precision values the device sends (big-endian on the wire).
use vstd::prelude::*;

use crate::types::{
    spec_datetime_from_bytes, spec_mode_code, spec_status_from_byte, DeviceDateTime,
    DeviceStatus, SampleMode,
};

verus! {

const DEVICE_TYPE: u8 = 0x04;

/// Instant-data mask bit: ambient temperature (4 bytes).
pub const BIT_ENV_TEMP: u16 = 0x0002;

/// Instant-data mask bit: instantaneous standard flow (4 bytes).
pub const BIT_INSTANT_FLOW: u16 = 0x0008;

/// Instant-data mask bit: ambient humidity (4 bytes).
pub const BIT_ENV_HUMIDITY: u16 = 0x0020;

/// Instant-data mask bit: pressure (4 bytes).
pub const BIT_PRESSURE: u16 = 0x0040;

/// Instant-data mask bit: standard volume (4 bytes).
pub const BIT_STANDARD_VOLUME: u16 = 0x0080;

/// Instant-data mask bit: standard-condition temperature (2 bytes, signed).
pub const BIT_STANDARD_MODE: u16 = 0x0100;

/// Instant-data mask bit: working volume (4 bytes).
pub const BIT_WORKING_VOLUME: u16 = 0x0200;

/// The mask used when none is given: every field that is read.
pub const INSTANT_MASK_DEFAULT: u16 = 0x03EA;

/// The instantaneous readings; a field is `Some` exactly when its mask bit was
/// set. Readings other than `standard_mode_c` are IEEE-754 single-precision bit
/// patterns.
#[derive(Debug, Clone, Copy, PartialEq, Eq, Structural)]
pub struct C14InstantData {
    pub env_temperature_c: Option<u32>,
    pub instant_flow_standard_lpm: Option<u32>,
    pub env_humidity_pct: Option<u32>,
    pub pressure_kpa: Option<u32>,
    pub standard_volume_l: Option<u32>,
    pub standard_mode_c: Option<i16>,
    pub working_volume_l: Option<u32>,
}

/// One stored sampling record. Readings other than `standard_mode_c` are
/// IEEE-754 single-precision bit patterns.
#[derive(Debug, Clone, Copy, PartialEq, Eq, Structural)]
pub struct C14HistoryRecord {
    pub index: u16,
    pub start_time: DeviceDateTime,
    pub end_time: DeviceDateTime,
    pub avg_flow_lpm: u32,
    pub standard_volume_l: u32,
    pub pressure_kpa: u32,
    pub standard_mode_c: i16,
    pub set_flow_lpm: u32,
    pub working_volume_l: u32,
    pub env_temperature_c: u32,
}

/// Why a request was not made or a reply was refused. `op` names the operation.
#[derive(Debug, Clone)]
pub enum C14Error {
    /// The reply payload is shorter than the operation needs; its length.
    ShortResponse { op: String, len: usize },
    /// A history record shorter than 57 bytes; its length.
    HistoryTooShort(usize),
    /// The instant-data reply ends before a field its mask asks for.
    InstantTruncated,
    /// The reply payload is empty.
    EmptyResponse { op: String },
    /// The reply carries another function code than the one expected.
    UnexpectedDf { op: String, got: u8, expected: u8 },
    /// The device reports that it failed (the reply ends with `0xFF`).
    DeviceFailure { op: String },
    /// A cycle time beyond 9 h 59 min.
    InvalidCycleTime { hours: u8, minutes: u8 },
    /// A sample duration beyond 999 h 59 min.
    InvalidSampleDuration { duration_hours: u16, duration_minutes: u8 },
    /// The link test was not answered with `0xFB`; the first reply byte, if any.
    LinkTestFailed(Option<u8>),
}

// ---------------------------------------------------------------------------
// Big-endian fields

/// A big-endian unsigned 16-bit value.
pub open spec fn be_u16(hi: u8, lo: u8) -> u16 {
    (hi * 256 + lo) as u16
}

/// A big-endian two's-complement 16-bit value.
pub open spec fn be_i16(hi: u8, lo: u8) -> i16 {
    let u = hi * 256 + lo;
    if u < 32768 {
        u as i16
    } else {
        (u - 65536) as i16
    }
}

/// The big-endian unsigned 32-bit value in the four bytes at `off`.
pub open spec fn be_u32_at(s: Seq<u8>, off: int) -> u32 {
    (s[off] * 16777216 + s[off + 1] * 65536 + s[off + 2] * 256 + s[off + 3]) as u32
}

/// The big-endian bytes of a 16-bit value.
pub open spec fn u16_be_bytes(v: u16) -> Seq<u8> {
    seq![(v / 256) as u8, (v % 256) as u8]
}

/// The big-endian bytes of a 32-bit value.
pub open spec fn u32_be_bytes(v: u32) -> Seq<u8> {
    seq![
        (v / 16777216) as u8,
        ((v / 65536) % 256) as u8,
        ((v / 256) % 256) as u8,
        (v % 256) as u8,
    ]
}

fn read_be_u16(hi: u8, lo: u8) -> (v: u16)
    ensures
        v == be_u16(hi, lo),
{
    hi as u16 * 256 + lo as u16
}

fn read_be_i16(hi: u8, lo: u8) -> (v: i16)
    ensures
        v == be_i16(hi, lo),
{
    let u: u16 = hi as u16 * 256 + lo as u16;
    if u < 32768 {
        u as i16
    } else {
        (u as i32 - 65536) as i16
    }
}

fn read_be_u32(s: &[u8], off: usize) -> (v: u32)
    requires
        off + 4 <= s.len(),
    ensures
        v == be_u32_at(s@, off as int),
{
    let a = s[off] as u32;
    let b = s[off + 1] as u32;
    let c = s[off + 2] as u32;
    let d = s[off + 3] as u32;
    assert(a * 16777216 + b * 65536 + c * 256 + d <= 0xFFFF_FFFF) by (nonlinear_arith)
        requires
            a < 256,
            b < 256,
            c < 256,
            d < 256,
    ;
    a * 16777216 + b * 65536 + c * 256 + d
}

fn u16_to_be(v: u16) -> (bytes: Vec<u8>)
    ensures
        bytes@ == u16_be_bytes(v),
{
    let bytes = vec![(v / 256) as u8, (v % 256) as u8];
    assert(bytes@ =~= u16_be_bytes(v));
    bytes
}

fn u32_to_be(v: u32) -> (bytes: Vec<u8>)
    ensures
        bytes@ == u32_be_bytes(v),
{
    let bytes = vec![
        (v / 16777216) as u8,
        ((v / 65536) % 256) as u8,
        ((v / 256) % 256) as u8,
        (v % 256) as u8,
    ];
    assert(bytes@ =~= u32_be_bytes(v));
    bytes
}

// ---------------------------------------------------------------------------
// Instant data
//
// The reply lists, in this order, the fields whose mask bit is set: bit 0 (2
// bytes, skipped), ambient temperature (bit 1, 4 bytes), instantaneous flow
// (bit 3, 4 bytes), bit 4 (2 bytes, skipped), humidity (bit 5, 4 bytes),
// pressure (bit 6, 4 bytes), standard volume (bit 7, 4 bytes),
// standard-condition temperature (bit 8, 2 bytes) and working volume (bit 9,
// 4 bytes). Other bits are ignored.

/// The mask bit of slot `k` of the instant-data layout.
pub open spec fn slot_bit(k: nat) -> u16 {
    if k == 0 {
        0x0001
    } else if k == 1 {
        0x0002
    } else if k == 2 {
        0x0008
    } else if k == 3 {
        0x0010
    } else if k == 4 {
        0x0020
    } else if k == 5 {
        0x0040
    } else if k == 6 {
        0x0080
    } else if k == 7 {
        0x0100
    } else {
        0x0200
    }
}

/// The size in bytes of slot `k`.
pub open spec fn slot_size(k: nat) -> nat {
    if k == 0 || k == 3 || k == 7 {
        2
    } else {
        4
    }
}

/// Whether `mask` asks for slot `k`: whether the bit `slot_bit(k)` (a power of
/// two) is set in `mask`.
pub open spec fn slot_present(mask: u16, k: nat) -> bool {
    (mask / slot_bit(k)) % 2 == 1
}

/// Testing the bit of slot `k` with `&` is testing it by division.
proof fn lemma_slot_bit_test(mask: u16, k: nat)
    requires
        k <= 8,
    ensures
        (mask & slot_bit(k) != 0) == slot_present(mask, k),
{
    if k == 0 {
        assert((mask & 0x0001u16 != 0) == ((mask / 0x0001u16) % 2 == 1)) by (bit_vector);
    } else if k == 1 {
        assert((mask & 0x0002u16 != 0) == ((mask / 0x0002u16) % 2 == 1)) by (bit_vector);
    } else if k == 2 {
        assert((mask & 0x0008u16 != 0) == ((mask / 0x0008u16) % 2 == 1)) by (bit_vector);
    } else if k == 3 {
        assert((mask & 0x0010u16 != 0) == ((mask / 0x0010u16) % 2 == 1)) by (bit_vector);
    } else if k == 4 {
        assert((mask & 0x0020u16 != 0) == ((mask / 0x0020u16) % 2 == 1)) by (bit_vector);
    } else if k == 5 {
        assert((mask & 0x0040u16 != 0) == ((mask / 0x0040u16) % 2 == 1)) by (bit_vector);
    } else if k == 6 {
        assert((mask & 0x0080u16 != 0) == ((mask / 0x0080u16) % 2 == 1)) by (bit_vector);
    } else if k == 7 {
        assert((mask & 0x0100u16 != 0) == ((mask / 0x0100u16) % 2 == 1)) by (bit_vector);
    } else {
        assert((mask & 0x0200u16 != 0) == ((mask / 0x0200u16) % 2 == 1)) by (bit_vector);
    }
}

/// Where slot `k` starts: after every earlier slot that `mask` asks for.
pub open spec fn slot_start(mask: u16, k: nat) -> nat
    decreases k,
{
    if k == 0 {
        0
    } else {
        slot_start(mask, (k - 1) as nat) + if slot_present(mask, (k - 1) as nat) {
            slot_size((k - 1) as nat)
        } else {
            0
        }
    }
}

/// Whether slot `k` is absent or lies within `len` bytes.
pub open spec fn slot_fits(mask: u16, len: nat, k: nat) -> bool {
    slot_present(mask, k) ==> slot_start(mask, k) + slot_size(k) <= len
}

/// The 32-bit field of slot `k`, when `mask` asks for it.
pub open spec fn slot_u32(mask: u16, data: Seq<u8>, k: nat) -> Option<u32> {
    if slot_present(mask, k) {
        Some(be_u32_at(data, slot_start(mask, k) as int))
    } else {
        None
    }
}

/// The instant readings in `data` for `mask`, or `None` when `data` ends before
/// a field the mask asks for.
pub open spec fn spec_instant_data(mask: u16, data: Seq<u8>) -> Option<C14InstantData> {
    let len = data.len();
    if slot_fits(mask, len, 1) && slot_fits(mask, len, 2) && slot_fits(mask, len, 4) && slot_fits(
        mask,
        len,
        5,
    ) && slot_fits(mask, len, 6) && slot_fits(mask, len, 7) && slot_fits(mask, len, 8) {
        Some(
            C14InstantData {
                env_temperature_c: slot_u32(mask, data, 1),
                instant_flow_standard_lpm: slot_u32(mask, data, 2),
                env_humidity_pct: slot_u32(mask, data, 4),
                pressure_kpa: slot_u32(mask, data, 5),
                standard_volume_l: slot_u32(mask, data, 6),
                standard_mode_c: if slot_present(mask, 7) {
                    Some(
                        be_i16(
                            data[slot_start(mask, 7) as int],
                            data[slot_start(mask, 7) as int + 1],
                        ),
                    )
                } else {
                    None
                },
                working_volume_l: slot_u32(mask, data, 8),
            },
        )
    } else {
        None
    }
}

/// One more slot: where slot `k + 1` starts.
proof fn lemma_slot_start_next(mask: u16, k: nat)
    ensures
        slot_start(mask, k + 1) == slot_start(mask, k) + if slot_present(mask, k) {
            slot_size(k)
        } else {
            0
        },
{
}

/// Slots start within the first `4 k` bytes.
proof fn lemma_slot_start_bound(mask: u16, k: nat)
    ensures
        slot_start(mask, k) <= 4 * k,
    decreases k,
{
    if k > 0 {
        lemma_slot_start_bound(mask, (k - 1) as nat);
    }
}

/// Passes over a 2-byte slot that is not read.
fn skip_slot(mask: u16, bit: u16, pos: usize, Ghost(k): Ghost<nat>) -> (next: usize)
    requires
        slot_bit(k) == bit,
        slot_size(k) == 2,
        pos == slot_start(mask, k),
        k <= 8,
    ensures
        next == slot_start(mask, k + 1),
{
    proof {
        lemma_slot_start_next(mask, k);
        lemma_slot_start_bound(mask, k);
        lemma_slot_bit_test(mask, k);
    }
    if (mask & bit) != 0 {
        pos + 2
    } else {
        pos
    }
}

/// Reads the 32-bit field of slot `k` when `mask` asks for it; also gives where
/// the next slot starts.
fn field_u32(mask: u16, bit: u16, data: &[u8], pos: usize, Ghost(k): Ghost<nat>) -> (res: Result<
    (Option<u32>, usize),
    C14Error,
>)
    requires
        slot_bit(k) == bit,
        slot_size(k) == 4,
        pos == slot_start(mask, k),
        k <= 8,
    ensures
        match res {
            Ok((v, next)) => {
                &&& slot_fits(mask, data@.len(), k)
                &&& v == slot_u32(mask, data@, k)
                &&& next == slot_start(mask, k + 1)
            },
            Err(e) => !slot_fits(mask, data@.len(), k) && e is InstantTruncated,
        },
{
    proof {
        lemma_slot_start_next(mask, k);
        lemma_slot_start_bound(mask, k);
        lemma_slot_bit_test(mask, k);
    }
    if (mask & bit) != 0 {
        if pos + 4 > data.len() {
            return Err(C14Error::InstantTruncated);
        }
        Ok((Some(read_be_u32(data, pos)), pos + 4))
    } else {
        Ok((None, pos))
    }
}

/// Reads the signed 16-bit standard-condition temperature (slot 7) when `mask`
/// asks for it; also gives where the next slot starts.
fn field_mode(mask: u16, data: &[u8], pos: usize) -> (res: Result<(Option<i16>, usize), C14Error>)
    requires
        pos == slot_start(mask, 7),
    ensures
        match res {
            Ok((v, next)) => {
                &&& slot_fits(mask, data@.len(), 7)
                &&& v == (if slot_present(mask, 7) {
                    Some(be_i16(data@[pos as int], data@[pos + 1]))
                } else {
                    None
                })
                &&& next == slot_start(mask, 8)
            },
            Err(e) => !slot_fits(mask, data@.len(), 7) && e is InstantTruncated,
        },
{
    proof {
        lemma_slot_start_next(mask, 7);
        lemma_slot_start_bound(mask, 7);
        lemma_slot_bit_test(mask, 7);
    }
    if (mask & BIT_STANDARD_MODE) != 0 {
        if pos + 2 > data.len() {
            return Err(C14Error::InstantTruncated);
        }
        Ok((Some(read_be_i16(data[pos], data[pos + 1])), pos + 2))
    } else {
        Ok((None, pos))
    }
}

/// Reads the instant-data fields that `mask` asks for from `data`.
pub fn parse_instant_data(mask: u16, data: &[u8]) -> (res: Result<C14InstantData, C14Error>)
    ensures
        match res {
            Ok(out) => spec_instant_data(mask, data@) == Some(out),
            Err(e) => spec_instant_data(mask, data@) is None && e is InstantTruncated,
        },
{
    let pos = skip_slot(mask, 0x0001, 0, Ghost(0));
    let (env_temperature_c, pos) = match field_u32(mask, BIT_ENV_TEMP, data, pos, Ghost(1)) {
        Ok(r) => r,
        Err(e) => return Err(e),
    };
    let (instant_flow_standard_lpm, pos) = match field_u32(
        mask,
        BIT_INSTANT_FLOW,
        data,
        pos,
        Ghost(2),
    ) {
        Ok(r) => r,
        Err(e) => return Err(e),
    };
    let pos = skip_slot(mask, 0x0010, pos, Ghost(3));
    let (env_humidity_pct, pos) = match field_u32(mask, BIT_ENV_HUMIDITY, data, pos, Ghost(4)) {
        Ok(r) => r,
        Err(e) => return Err(e),
    };
    let (pressure_kpa, pos) = match field_u32(mask, BIT_PRESSURE, data, pos, Ghost(5)) {
        Ok(r) => r,
        Err(e) => return Err(e),
    };
    let (standard_volume_l, pos) = match field_u32(mask, BIT_STANDARD_VOLUME, data, pos, Ghost(6)) {
        Ok(r) => r,
        Err(e) => return Err(e),
    };
    let (standard_mode_c, pos) = match field_mode(mask, data, pos) {
        Ok(r) => r,
        Err(e) => return Err(e),
    };
    let (working_volume_l, _) = match field_u32(mask, BIT_WORKING_VOLUME, data, pos, Ghost(8)) {
        Ok(r) => r,
        Err(e) => return Err(e),
    };
    Ok(
        C14InstantData {
            env_temperature_c,
            instant_flow_standard_lpm,
            env_humidity_pct,
            pressure_kpa,
            standard_volume_l,
            standard_mode_c,
            working_volume_l,
        },
    )
}

/// A reading is present exactly when its bit is set in the mask; a mask that
/// asks for no reading is answered by any reply.
pub proof fn lemma_instant_fields_follow_mask(mask: u16, data: Seq<u8>)
    ensures
        spec_instant_data(mask, data) matches Some(d) ==> {
            &&& (d.env_temperature_c is Some <==> mask & BIT_ENV_TEMP != 0)
            &&& (d.instant_flow_standard_lpm is Some <==> mask & BIT_INSTANT_FLOW != 0)
            &&& (d.env_humidity_pct is Some <==> mask & BIT_ENV_HUMIDITY != 0)
            &&& (d.pressure_kpa is Some <==> mask & BIT_PRESSURE != 0)
            &&& (d.standard_volume_l is Some <==> mask & BIT_STANDARD_VOLUME != 0)
            &&& (d.standard_mode_c is Some <==> mask & BIT_STANDARD_MODE != 0)
            &&& (d.working_volume_l is Some <==> mask & BIT_WORKING_VOLUME != 0)
        },
        mask & INSTANT_MASK_DEFAULT == 0 ==> spec_instant_data(mask, data) is Some,
{
    lemma_slot_bit_test(mask, 1);
    lemma_slot_bit_test(mask, 2);
    lemma_slot_bit_test(mask, 4);
    lemma_slot_bit_test(mask, 5);
    lemma_slot_bit_test(mask, 6);
    lemma_slot_bit_test(mask, 7);
    lemma_slot_bit_test(mask, 8);
    assert(mask & 0x03EAu16 == 0 ==> {
        &&& mask & 0x0002u16 == 0
        &&& mask & 0x0008u16 == 0
        &&& mask & 0x0020u16 == 0
        &&& mask & 0x0040u16 == 0
        &&& mask & 0x0080u16 == 0
        &&& mask & 0x0100u16 == 0
        &&& mask & 0x0200u16 == 0
    }) by (bit_vector);
}

// ---------------------------------------------------------------------------
// History records

/// The history record with number `index` in the 57 or more record bytes `d`.
pub open spec fn spec_history_record(index: u16, d: Seq<u8>) -> C14HistoryRecord {
    C14HistoryRecord {
        index,
        start_time: spec_datetime_from_bytes(d.subrange(19, 24)),
        end_time: spec_datetime_from_bytes(d.subrange(24, 29)),
        avg_flow_lpm: be_u32_at(d, 29),
        standard_volume_l: be_u32_at(d, 33),
        pressure_kpa: be_u32_at(d, 39),
        standard_mode_c: be_i16(d[43], d[44]),
        set_flow_lpm: be_u32_at(d, 45),
        working_volume_l: be_u32_at(d, 49),
        env_temperature_c: be_u32_at(d, 53),
    }
}

/// Reads history record number `index` from its bytes `d`; refused when `d`
/// holds fewer than 57 bytes.
pub fn parse_history_record(index: u16, d: &[u8]) -> (res: Result<C14HistoryRecord, C14Error>)
    ensures
        d.len() < 57 ==> (res matches Err(C14Error::HistoryTooShort(n)) && n == d.len()),
        d.len() >= 57 ==> (res matches Ok(rec) && rec == spec_history_record(index, d@)),
{
    if d.len() < 57 {
        return Err(C14Error::HistoryTooShort(d.len()));
    }
    let start_time = DeviceDateTime::from_bytes(vstd::slice::slice_subrange(d, 19, 24));
    let end_time = DeviceDateTime::from_bytes(vstd::slice::slice_subrange(d, 24, 29));
    Ok(
        C14HistoryRecord {
            index,
            start_time,
            end_time,
            avg_flow_lpm: read_be_u32(d, 29),
            standard_volume_l: read_be_u32(d, 33),
            pressure_kpa: read_be_u32(d, 39),
            standard_mode_c: read_be_i16(d[43], d[44]),
            set_flow_lpm: read_be_u32(d, 45),
            working_volume_l: read_be_u32(d, 49),
            env_temperature_c: read_be_u32(d, 53),
        },
    )
}

// ---------------------------------------------------------------------------
// Acknowledgements

/// Whether a reply acknowledges a command: it is not empty, it carries the
/// expected function code first, and its last byte is not `0xFF`.
pub open spec fn acknowledged(payload: Seq<u8>, expected_df: u8) -> bool {
    payload.len() > 0 && payload[0] == expected_df && payload.last() != 0xFF
}

/// What checking the reply `payload` to operation `op` against `expected_df`
/// gives: `Ok` exactly when the reply acknowledges, otherwise the first fault
/// found, in this order: empty reply, other function code, device failure.
pub open spec fn acknowledgement(
    payload: Seq<u8>,
    expected_df: u8,
    op: Seq<char>,
    res: Result<(), C14Error>,
) -> bool {
    &&& res is Ok <==> acknowledged(payload, expected_df)
    &&& payload.len() == 0 ==> (res matches Err(C14Error::EmptyResponse { op: o }) && o@ == op)
    &&& (payload.len() > 0 && payload[0] != expected_df) ==> (res matches Err(
        C14Error::UnexpectedDf { op: o, got, expected },
    ) && o@ == op && got == payload[0] && expected == expected_df)
    &&& (payload.len() > 0 && payload[0] == expected_df && payload.last() == 0xFF) ==> (
    res matches Err(C14Error::DeviceFailure { op: o }) && o@ == op)
}

/// Checks that `payload` acknowledges operation `op`, whose reply carries the
/// function code `expected_df`.
pub fn check_response_ok(payload: &[u8], expected_df: u8, op: &str) -> (res: Result<(), C14Error>)
    ensures
        acknowledgement(payload@, expected_df, op@, res),
{
    if payload.len() == 0 {
        return Err(C14Error::EmptyResponse { op: op.to_owned() });
    }
    if payload[0] != expected_df {
        return Err(C14Error::UnexpectedDf { op: op.to_owned(), got: payload[0], expected: expected_df });
    }
    if payload[payload.len() - 1] == 0xFF {
        return Err(C14Error::DeviceFailure { op: op.to_owned() });
    }
    Ok(())
}

// ---------------------------------------------------------------------------
// Requests and replies

/// A request to the sampler: its function code and its data field. It is sent
/// as the frame `build_frame(func, C14Sampler::device_type(), data)`.
#[derive(Debug, Clone)]
pub struct Request {
    pub func: u8,
    pub data: Vec<u8>,
}

/// Whether `r` asks for function `func` with data field `data`.
pub open spec fn is_request(r: Request, func: u8, data: Seq<u8>) -> bool {
    r.func == func && r.data@ == data
}

/// Whether `res` refuses the reply to operation `op` as too short, naming its
/// length `len`.
pub open spec fn short_response<T>(res: Result<T, C14Error>, op: Seq<char>, len: nat) -> bool {
    res matches Err(C14Error::ShortResponse { op: o, len: n }) && o@ == op && n == len
}

/// The year byte sent for `year`: years after 2000 (none before it), modulo 256.
pub open spec fn year_byte(year: u16) -> u8 {
    ((if year >= 2000 {
        year - 2000
    } else {
        0
    }) % 256) as u8
}

/// The data field that sets the device clock.
pub open spec fn device_time_data(
    year: u16,
    month: u8,
    day: u8,
    hour: u8,
    minute: u8,
    second: u8,
) -> Seq<u8> {
    seq![year_byte(year), month, day, hour, minute, second]
}

/// The data field that schedules the start of sampling.
pub open spec fn scheduled_start_data(year: u16, month: u8, day: u8, hour: u8, minute: u8) -> Seq<
    u8,
> {
    seq![year_byte(year), month, day, hour, minute]
}

fn year_to_byte(year: u16) -> (b: u8)
    ensures
        b == year_byte(year),
{
    let years: u16 = if year >= 2000 {
        year - 2000
    } else {
        0
    };
    (years % 256) as u8
}

impl Request {
    /// A plain query for function `func`: its data field is the single byte `00`.
    pub fn query(func: u8) -> (r: Request)
        ensures
            is_request(r, func, seq![0u8]),
    {
        let r = Request { func, data: vec![0x00] };
        assert(r.data@ =~= seq![0u8]);
        r
    }
}

/// The C14 sampler protocol. Each operation is a request to send and a reading
/// of the reply payload that comes back.
pub struct C14Sampler;

impl C14Sampler {
    /// The device type byte of the C14 sampler.
    pub fn device_type() -> (t: u8)
        ensures
            t == 0x04,
    {
        DEVICE_TYPE
    }

    /// Asks for the number of stored history records (function `A0`).
    pub fn query_history_count_request() -> (r: Request)
        ensures
            is_request(r, 0xA0, seq![0u8]),
    {
        Request::query(0xA0)
    }

    /// The number of stored history records: the big-endian value in bytes 3
    /// and 4 of the reply.
    pub fn query_history_count_reply(payload: &[u8]) -> (res: Result<u16, C14Error>)
        ensures
            payload.len() < 5 ==> short_response(res, "query_history_count"@, payload.len() as nat),
            payload.len() >= 5 ==> (res matches Ok(n) && n == be_u16(payload[3], payload[4])),
    {
        if payload.len() < 5 {
            return Err(C14Error::ShortResponse { op: "query_history_count".to_owned(), len: payload.len() });
        }
        Ok(read_be_u16(payload[3], payload[4]))
    }

    /// Asks for history record number `index` (function `B0`, index big-endian).
    pub fn read_history_request(index: u16) -> (r: Request)
        ensures
            is_request(r, 0xB0, u16_be_bytes(index)),
    {
        Request { func: 0xB0, data: u16_to_be(index) }
    }

    /// History record number `index`, read from the reply bytes after the
    /// fourth; the reply must hold at least 61 bytes.
    pub fn read_history_reply(index: u16, payload: &[u8]) -> (res: Result<C14HistoryRecord, C14Error>)
        ensures
            payload.len() < 61 ==> short_response(res, "read_history"@, payload.len() as nat),
            payload.len() >= 61 ==> (res matches Ok(rec) && rec == spec_history_record(
                index,
                payload@.subrange(4, payload.len() as int),
            )),
    {
        if payload.len() < 61 {
            return Err(C14Error::ShortResponse { op: "read_history".to_owned(), len: payload.len() });
        }
        parse_history_record(index, vstd::slice::slice_subrange(payload, 4, payload.len()))
    }

    /// Asks for the device status (function `C0`).
    pub fn query_status_request() -> (r: Request)
        ensures
            is_request(r, 0xC0, seq![0u8]),
    {
        Request::query(0xC0)
    }

    /// The device status reported by byte 3 of the reply.
    pub fn query_status_reply(payload: &[u8]) -> (res: Result<DeviceStatus, C14Error>)
        ensures
            payload.len() < 4 ==> short_response(res, "query_status"@, payload.len() as nat),
            payload.len() >= 4 ==> (res matches Ok(st) && st == spec_status_from_byte(payload[3])),
    {
        if payload.len() < 4 {
            return Err(C14Error::ShortResponse { op: "query_status".to_owned(), len: payload.len() });
        }
        Ok(DeviceStatus::from_byte(payload[3]))
    }

    /// Asks for the device clock (function `C2`).
    pub fn query_device_time_request() -> (r: Request)
        ensures
            is_request(r, 0xC2, seq![0u8]),
    {
        Request::query(0xC2)
    }

    /// The device clock, in bytes 3 to 8 of the reply.
    pub fn query_device_time_reply(payload: &[u8]) -> (res: Result<DeviceDateTime, C14Error>)
        ensures
            payload.len() < 9 ==> short_response(res, "query_device_time"@, payload.len() as nat),
            payload.len() >= 9 ==> (res matches Ok(t) && t == spec_datetime_from_bytes(
                payload@.subrange(3, 9),
            )),
    {
        if payload.len() < 9 {
            return Err(C14Error::ShortResponse { op: "query_device_time".to_owned(), len: payload.len() });
        }
        Ok(DeviceDateTime::from_bytes(vstd::slice::slice_subrange(payload, 3, 9)))
    }

    /// Asks for the instant readings that `mask` selects (function `D0`, mask
    /// big-endian).
    pub fn query_instant_request(mask: u16) -> (r: Request)
        ensures
            is_request(r, 0xD0, u16_be_bytes(mask)),
    {
        Request { func: 0xD0, data: u16_to_be(mask) }
    }

    /// The instant readings that `mask` selects, read from the reply bytes after
    /// the fourth.
    pub fn query_instant_reply(mask: u16, payload: &[u8]) -> (res: Result<C14InstantData, C14Error>)
        ensures
            payload.len() < 4 ==> short_response(res, "query_instant"@, payload.len() as nat),
            payload.len() >= 4 ==> match res {
                Ok(d) => spec_instant_data(mask, payload@.subrange(4, payload.len() as int))
                    == Some(d),
                Err(e) => spec_instant_data(mask, payload@.subrange(4, payload.len() as int))
                    is None && e is InstantTruncated,
            },
    {
        if payload.len() < 4 {
            return Err(C14Error::ShortResponse { op: "query_instant".to_owned(), len: payload.len() });
        }
        parse_instant_data(mask, vstd::slice::slice_subrange(payload, 4, payload.len()))
    }

    /// Starts sampling in `mode` (function `F0`, data: the mode's code).
    pub fn start_sampling_request(mode: SampleMode) -> (r: Request)
        ensures
            is_request(r, 0xF0, seq![spec_mode_code(mode)]),
    {
        let r = Request { func: 0xF0, data: vec![mode.code()] };
        assert(r.data@ =~= seq![spec_mode_code(mode)]);
        r
    }

    /// Whether sampling started: the reply must acknowledge with `F1`.
    pub fn start_sampling_reply(payload: &[u8]) -> (res: Result<(), C14Error>)
        ensures
            acknowledgement(payload@, 0xF1, "start_sampling"@, res),
    {
        check_response_ok(payload, 0xF1, "start_sampling")
    }

    /// Stops sampling (function `20`).
    pub fn stop_sampling_request() -> (r: Request)
        ensures
            is_request(r, 0x20, seq![0u8]),
    {
        Request::query(0x20)
    }

    /// Whether sampling stopped: the reply must acknowledge with `21`.
    pub fn stop_sampling_reply(payload: &[u8]) -> (res: Result<(), C14Error>)
        ensures
            acknowledgement(payload@, 0x21, "stop_sampling"@, res),
    {
        check_response_ok(payload, 0x21, "stop_sampling")
    }

    /// Sets the cycle time (function `26`, data: hours and minutes); refused
    /// beyond 9 h 59 min, before anything is sent.
    pub fn set_cycle_time_request(hours: u8, minutes: u8) -> (res: Result<Request, C14Error>)
        ensures
            (hours > 9 || minutes > 59) ==> (res matches Err(
                C14Error::InvalidCycleTime { hours: h, minutes: m },
            ) && h == hours && m == minutes),
            (hours <= 9 && minutes <= 59) ==> (res matches Ok(r) && is_request(
                r,
                0x26,
                seq![hours, minutes],
            )),
    {
        if hours > 9 || minutes > 59 {
            return Err(C14Error::InvalidCycleTime { hours, minutes });
        }
        let r = Request { func: 0x26, data: vec![hours, minutes] };
        assert(r.data@ =~= seq![hours, minutes]);
        Ok(r)
    }

    /// Whether the cycle time was set: the reply must acknowledge with `27`.
    pub fn set_cycle_time_reply(payload: &[u8]) -> (res: Result<(), C14Error>)
        ensures
            acknowledgement(payload@, 0x27, "set_cycle_time"@, res),
    {
        check_response_ok(payload, 0x27, "set_cycle_time")
    }

    /// Schedules the start of sampling (function `28`, data: year byte, month,
    /// day, hour, minute).
    pub fn set_scheduled_start_request(year: u16, month: u8, day: u8, hour: u8, minute: u8) -> (r:
        Request)
        ensures
            is_request(r, 0x28, scheduled_start_data(year, month, day, hour, minute)),
    {
        let r = Request { func: 0x28, data: vec![year_to_byte(year), month, day, hour, minute] };
        assert(r.data@ =~= scheduled_start_data(year, month, day, hour, minute));
        r
    }

    /// Whether the start was scheduled: the reply must acknowledge with `28`.
    pub fn set_scheduled_start_reply(payload: &[u8]) -> (res: Result<(), C14Error>)
        ensures
            acknowledgement(payload@, 0x28, "set_scheduled_start"@, res),
    {
        check_response_ok(payload, 0x28, "set_scheduled_start")
    }

    /// Sets the sample flow (function `30`, data: the big-endian bytes of the
    /// flow's IEEE-754 single-precision bit pattern, in L/min).
    pub fn set_sample_flow_request(flow_lpm_bits: u32) -> (r: Request)
        ensures
            is_request(r, 0x30, u32_be_bytes(flow_lpm_bits)),
    {
        Request { func: 0x30, data: u32_to_be(flow_lpm_bits) }
    }

    /// Whether the sample flow was set: the reply must acknowledge with `31`.
    pub fn set_sample_flow_reply(payload: &[u8]) -> (res: Result<(), C14Error>)
        ensures
            acknowledgement(payload@, 0x31, "set_sample_flow"@, res),
    {
        check_response_ok(payload, 0x31, "set_sample_flow")
    }

    /// Sets the sample duration (function `40`, data: hours big-endian, then
    /// minutes); refused beyond 999 h 59 min, before anything is sent.
    pub fn set_sample_duration_request(hours: u16, minutes: u8) -> (res: Result<Request, C14Error>)
        ensures
            (hours > 999 || minutes > 59) ==> (res matches Err(
                C14Error::InvalidSampleDuration { duration_hours: h, duration_minutes: m },
            ) && h == hours && m == minutes),
            (hours <= 999 && minutes <= 59) ==> (res matches Ok(r) && is_request(
                r,
                0x40,
                u16_be_bytes(hours).push(minutes),
            )),
    {
        if hours > 999 || minutes > 59 {
            return Err(
                C14Error::InvalidSampleDuration { duration_hours: hours, duration_minutes: minutes },
            );
        }
        let mut data = u16_to_be(hours);
        data.push(minutes);
        Ok(Request { func: 0x40, data })
    }

    /// Whether the sample duration was set: the reply must acknowledge with `41`.
    pub fn set_sample_duration_reply(payload: &[u8]) -> (res: Result<(), C14Error>)
        ensures
            acknowledgement(payload@, 0x41, "set_sample_duration"@, res),
    {
        check_response_ok(payload, 0x41, "set_sample_duration")
    }

    /// Sets the device clock (function `60`, data: year byte, month, day, hour,
    /// minute, second).
    pub fn set_device_time_request(
        year: u16,
        month: u8,
        day: u8,
        hour: u8,
        minute: u8,
        second: u8,
    ) -> (r: Request)
        ensures
            is_request(r, 0x60, device_time_data(year, month, day, hour, minute, second)),
    {
        let r = Request {
            func: 0x60,
            data: vec![year_to_byte(year), month, day, hour, minute, second],
        };
        assert(r.data@ =~= device_time_data(year, month, day, hour, minute, second));
        r
    }

    /// Whether the clock was set: the reply must acknowledge with `61`.
    pub fn set_device_time_reply(payload: &[u8]) -> (res: Result<(), C14Error>)
        ensures
            acknowledgement(payload@, 0x61, "set_device_time"@, res),
    {
        check_response_ok(payload, 0x61, "set_device_time")
    }

    /// Tests the link (function `FA`).
    pub fn link_test_request() -> (r: Request)
        ensures
            is_request(r, 0xFA, seq![0u8]),
    {
        Request::query(0xFA)
    }

    /// Whether the link works: the reply must start with `FB`.
    pub fn link_test_reply(payload: &[u8]) -> (res: Result<(), C14Error>)
        ensures
            res is Ok <==> (payload.len() > 0 && payload[0] == 0xFB),
            (payload.len() == 0) ==> (res matches Err(C14Error::LinkTestFailed(f)) && f is None),
            (payload.len() > 0 && payload[0] != 0xFB) ==> (res matches Err(
                C14Error::LinkTestFailed(f),
            ) && f == Some(payload[0])),
    {
        if payload.len() == 0 {
            return Err(C14Error::LinkTestFailed(None));
        }
        if payload[0] != 0xFB {
            return Err(C14Error::LinkTestFailed(Some(payload[0])));
        }
        Ok(())
    }
}

/// What the clock is set to is what it reads back: for the years 2000 to 2255,
/// the date and time read from the data field that sets the clock are the ones
/// that were set.
pub proof fn lemma_device_time_roundtrip(
    year: u16,
    month: u8,
    day: u8,
    hour: u8,
    minute: u8,
    second: u8,
)
    requires
        2000 <= year <= 2255,
    ensures
        spec_datetime_from_bytes(device_time_data(year, month, day, hour, minute, second))
            == (DeviceDateTime { year, month, day, hour, minute, second }),
{
}

// ---------------------------------------------------------------------------
// Laws of the field encodings and layouts

/// Big-endian 16-bit fields: the first byte is the high byte, for every pair of
/// bytes; and the two bytes a value is sent as read back as that value.
pub proof fn lemma_be_u16(hi: u8, lo: u8, v: u16)
    ensures
        be_u16(hi, lo) as int == hi * 256 + lo,
        u16_be_bytes(v).len() == 2,
        u16_be_bytes(v)[0] * 256 + u16_be_bytes(v)[1] == v,
        be_u16(u16_be_bytes(v)[0], u16_be_bytes(v)[1]) == v,
{
}

/// Big-endian two's-complement 16-bit fields: `256 hi + lo` when below 32768,
/// that minus 65536 otherwise; so a set high bit, and only that, gives a
/// negative value.
pub proof fn lemma_be_i16(hi: u8, lo: u8)
    ensures
        be_i16(hi, lo) as int == if hi * 256 + lo < 32768 {
            hi * 256 + lo
        } else {
            hi * 256 + lo - 65536
        },
        be_i16(hi, lo) < 0 <==> hi >= 128,
        be_i16(0, lo) as int == lo,
{
}

/// Big-endian 32-bit fields: the four bytes at `off` weighted 2^24, 2^16, 2^8,
/// 1; and the four bytes a value is sent as read back as that value.
pub proof fn lemma_be_u32(s: Seq<u8>, off: int, v: u32)
    requires
        0 <= off,
        off + 4 <= s.len(),
    ensures
        be_u32_at(s, off) as int == s[off] * 16777216 + s[off + 1] * 65536 + s[off + 2] * 256
            + s[off + 3],
        u32_be_bytes(v).len() == 4,
        be_u32_at(u32_be_bytes(v), 0) == v,
{
    assert(s[off] * 16777216 + s[off + 1] * 65536 + s[off + 2] * 256 + s[off + 3] <= 0xFFFF_FFFF)
        by (nonlinear_arith)
        requires
            s[off] < 256,
            s[off + 1] < 256,
            s[off + 2] < 256,
            s[off + 3] < 256,
    ;
    let b = u32_be_bytes(v);
    assert(b[0] * 16777216 + b[1] * 65536 + b[2] * 256 + b[3] == v) by (nonlinear_arith)
        requires
            b[0] == v / 16777216,
            b[1] == (v / 65536) % 256,
            b[2] == (v / 256) % 256,
            b[3] == v % 256,
            v <= 0xFFFF_FFFF,
    ;
}

/// The fields of a history record sit at fixed offsets of its 57 bytes: start
/// time in bytes 19-23 and end time in 24-28 (`yy mm dd hh mi`, second 0),
/// average flow at 29, standard volume at 33, pressure at 39, the signed
/// standard-condition temperature in 43-44, set flow at 45, working volume at
/// 49 and ambient temperature at 53 (32-bit fields big-endian).
pub proof fn lemma_history_layout(index: u16, d: Seq<u8>)
    requires
        d.len() >= 57,
    ensures
        ({
            let r = spec_history_record(index, d);
            let be32 = |o: int|
                (d[o] * 16777216 + d[o + 1] * 65536 + d[o + 2] * 256 + d[o + 3]) as u32;
            let mode = d[43] * 256 + d[44];
            &&& r.index == index
            &&& r.start_time == (DeviceDateTime {
                year: (2000 + d[19]) as u16,
                month: d[20],
                day: d[21],
                hour: d[22],
                minute: d[23],
                second: 0,
            })
            &&& r.end_time == (DeviceDateTime {
                year: (2000 + d[24]) as u16,
                month: d[25],
                day: d[26],
                hour: d[27],
                minute: d[28],
                second: 0,
            })
            &&& r.avg_flow_lpm == be32(29)
            &&& r.standard_volume_l == be32(33)
            &&& r.pressure_kpa == be32(39)
            &&& r.standard_mode_c as int == (if mode < 32768 {
                mode
            } else {
                mode - 65536
            })
            &&& r.set_flow_lpm == be32(45)
            &&& r.working_volume_l == be32(49)
            &&& r.env_temperature_c == be32(53)
        }),
{
    let r = spec_history_record(index, d);
    assert(r.start_time.second == 0);
    assert(r.end_time.second == 0);
}

/// Where each instant-data slot starts and which bit asks for it.
proof fn lemma_instant_offsets(mask: u16)
    ensures
        ({
            let o_temp: int = if mask & 0x0001u16 != 0 {
                2
            } else {
                0
            };
            let o_flow: int = o_temp + if mask & 0x0002u16 != 0 {
                4int
            } else {
                0int
            };
            let o_hum: int = o_flow + (if mask & 0x0008u16 != 0 {
                4int
            } else {
                0int
            }) + (if mask & 0x0010u16 != 0 {
                2int
            } else {
                0int
            });
            let o_press: int = o_hum + if mask & 0x0020u16 != 0 {
                4int
            } else {
                0int
            };
            let o_vol: int = o_press + if mask & 0x0040u16 != 0 {
                4int
            } else {
                0int
            };
            let o_mode: int = o_vol + if mask & 0x0080u16 != 0 {
                4int
            } else {
                0int
            };
            let o_work: int = o_mode + if mask & 0x0100u16 != 0 {
                2int
            } else {
                0int
            };
            &&& slot_start(mask, 1) == o_temp
            &&& slot_start(mask, 2) == o_flow
            &&& slot_start(mask, 4) == o_hum
            &&& slot_start(mask, 5) == o_press
            &&& slot_start(mask, 6) == o_vol
            &&& slot_start(mask, 7) == o_mode
            &&& slot_start(mask, 8) == o_work
            &&& slot_present(mask, 1) == (mask & 0x0002u16 != 0)
            &&& slot_present(mask, 2) == (mask & 0x0008u16 != 0)
            &&& slot_present(mask, 4) == (mask & 0x0020u16 != 0)
            &&& slot_present(mask, 5) == (mask & 0x0040u16 != 0)
            &&& slot_present(mask, 6) == (mask & 0x0080u16 != 0)
            &&& slot_present(mask, 7) == (mask & 0x0100u16 != 0)
            &&& slot_present(mask, 8) == (mask & 0x0200u16 != 0)
            &&& slot_size(1) == 4 && slot_size(2) == 4 && slot_size(4) == 4
            &&& slot_size(5) == 4 && slot_size(6) == 4 && slot_size(7) == 2 && slot_size(8) == 4
        }),
{
    lemma_slot_bit_test(mask, 0);
    lemma_slot_bit_test(mask, 1);
    lemma_slot_bit_test(mask, 2);
    lemma_slot_bit_test(mask, 3);
    lemma_slot_bit_test(mask, 4);
    lemma_slot_bit_test(mask, 5);
    lemma_slot_bit_test(mask, 6);
    lemma_slot_bit_test(mask, 7);
    lemma_slot_bit_test(mask, 8);
    assert(slot_start(mask, 0) == 0);
    lemma_slot_start_next(mask, 0);
    lemma_slot_start_next(mask, 1);
    lemma_slot_start_next(mask, 2);
    lemma_slot_start_next(mask, 3);
    lemma_slot_start_next(mask, 4);
    lemma_slot_start_next(mask, 5);
    lemma_slot_start_next(mask, 6);
    lemma_slot_start_next(mask, 7);
}

/// The instant-data layout: the fields a mask asks for follow one another in
/// the order bit 0 (2 bytes, not read), ambient temperature (bit 1), flow
/// (bit 3), bit 4 (2 bytes, not read), humidity (bit 5), pressure (bit 6),
/// standard volume (bit 7), standard-condition temperature (bit 8, 2 bytes,
/// signed) and working volume (bit 9), all big-endian and the others 4 bytes
/// long (read as `lemma_be_u32` and `lemma_be_i16` state). The reply is read
/// exactly when every field asked for lies within it.
pub proof fn lemma_instant_layout(mask: u16, data: Seq<u8>)
    ensures
        ({
            let len = data.len() as int;
            let has_temp = mask & 0x0002u16 != 0;
            let has_flow = mask & 0x0008u16 != 0;
            let has_hum = mask & 0x0020u16 != 0;
            let has_press = mask & 0x0040u16 != 0;
            let has_vol = mask & 0x0080u16 != 0;
            let has_mode = mask & 0x0100u16 != 0;
            let has_work = mask & 0x0200u16 != 0;
            let o_temp: int = if mask & 0x0001u16 != 0 {
                2
            } else {
                0
            };
            let o_flow: int = o_temp + if has_temp {
                4int
            } else {
                0int
            };
            let o_hum: int = o_flow + (if has_flow {
                4int
            } else {
                0int
            }) + (if mask & 0x0010u16 != 0 {
                2int
            } else {
                0int
            });
            let o_press: int = o_hum + if has_hum {
                4int
            } else {
                0int
            };
            let o_vol: int = o_press + if has_press {
                4int
            } else {
                0int
            };
            let o_mode: int = o_vol + if has_vol {
                4int
            } else {
                0int
            };
            let o_work: int = o_mode + if has_mode {
                2int
            } else {
                0int
            };
            &&& spec_instant_data(mask, data) is Some <==> {
                &&& has_temp ==> o_temp + 4 <= len
                &&& has_flow ==> o_flow + 4 <= len
                &&& has_hum ==> o_hum + 4 <= len
                &&& has_press ==> o_press + 4 <= len
                &&& has_vol ==> o_vol + 4 <= len
                &&& has_mode ==> o_mode + 2 <= len
                &&& has_work ==> o_work + 4 <= len
            }
            &&& spec_instant_data(mask, data) matches Some(d) ==> {
                &&& d.env_temperature_c == if has_temp {
                    Some(be_u32_at(data, o_temp))
                } else {
                    None
                }
                &&& d.instant_flow_standard_lpm == if has_flow {
                    Some(be_u32_at(data, o_flow))
                } else {
                    None
                }
                &&& d.env_humidity_pct == if has_hum {
                    Some(be_u32_at(data, o_hum))
                } else {
                    None
                }
                &&& d.pressure_kpa == if has_press {
                    Some(be_u32_at(data, o_press))
                } else {
                    None
                }
                &&& d.standard_volume_l == if has_vol {
                    Some(be_u32_at(data, o_vol))
                } else {
                    None
                }
                &&& d.standard_mode_c == if has_mode {
                    Some(be_i16(data[o_mode], data[o_mode + 1]))
                } else {
                    None
                }
                &&& d.working_volume_l == if has_work {
                    Some(be_u32_at(data, o_work))
                } else {
                    None
                }
            }
        }),
{
    lemma_instant_offsets(mask);
}

/// For mask 0x03FA (the default mask and bit 4), the flow is read from the
/// bytes right after the ambient temperature, before the 2 bytes of bit 4.
pub proof fn lemma_instant_flow_before_bit4(data: Seq<u8>)
    requires
        spec_instant_data(0x03FA, data) is Some,
    ensures
        spec_instant_data(0x03FA, data)->Some_0.instant_flow_standard_lpm == Some(
            be_u32_at(data, 4),
        ),
        spec_instant_data(0x03FA, data)->Some_0.env_humidity_pct == Some(be_u32_at(data, 10)),
{
    lemma_instant_layout(0x03FA, data);
    assert(0x03FAu16 & 0x0001u16 == 0) by (bit_vector);
    assert(0x03FAu16 & 0x0002u16 != 0) by (bit_vector);
    assert(0x03FAu16 & 0x0008u16 != 0) by (bit_vector);
    assert(0x03FAu16 & 0x0010u16 != 0) by (bit_vector);
    assert(0x03FAu16 & 0x0020u16 != 0) by (bit_vector);
}

/// A command is acknowledged exactly when the reply is not empty, starts with
/// the expected function code and does not end with `FF`.
pub proof fn lemma_acknowledged(payload: Seq<u8>, expected_df: u8)
    ensures
        acknowledged(payload, expected_df) <==> (payload.len() >= 1 && payload[0] == expected_df
            && payload[payload.len() - 1] != 0xFF),
{
}

/// The year byte counts the years after 2000, none for earlier years, modulo
/// 256; so years 2000 to 2255 are sent as 0 to 255.
pub proof fn lemma_year_byte(year: u16)
    ensures
        year < 2000 ==> year_byte(year) == 0,
        2000 <= year <= 2255 ==> year_byte(year) as int == year - 2000,
        year >= 2000 ==> year_byte(year) as int == (year - 2000) % 256,
        device_time_data(year, 1, 2, 3, 4, 5)[0] == year_byte(year),
{
}

/// The data fields that set the clock and schedule a start carry the year byte,
/// then the other fields in order.
pub proof fn lemma_time_data_layout(year: u16, month: u8, day: u8, hour: u8, minute: u8, second: u8)
    ensures
        device_time_data(year, month, day, hour, minute, second) == seq![
            year_byte(year),
            month,
            day,
            hour,
            minute,
            second,
        ],
        scheduled_start_data(year, month, day, hour, minute) == seq![
            year_byte(year),
            month,
            day,
            hour,
            minute,
        ],
{
}

} // verus!
