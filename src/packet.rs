use vstd::prelude::*;
use vstd::slice::{slice_subrange, slice_to_vec};

use crate::cortex_m::{vect_active_of, VectActive};

verus! {

/// How closely a local timestamp reflects the event it is attached to.
/// In order of decreasing quality.
#[derive(Debug, Clone, Copy, PartialEq, Eq, Structural)]
pub enum TimestampDataRelation {
    /// The timestamp is synchronous to the trace data.
    Sync,
    /// The timestamp was delayed relative to the trace data.
    UnknownDelay,
    /// The trace data was delayed relative to the event it reports.
    AssocEventDelay,
    /// Both the timestamp and the trace data were delayed.
    UnknownAssocEventDelay,
}

/// What a core did with an exception.
#[derive(Debug, Clone, Copy, PartialEq, Eq, Structural)]
pub enum ExceptionAction {
    /// The exception was entered.
    Entered,
    /// The exception was exited.
    Exited,
    /// The core returned to the exception.
    Returned,
}

/// The kind of memory access that a data trace comparator matched.
#[derive(Debug, Clone, Copy, PartialEq, Eq, Structural)]
pub enum MemoryAccessType {
    /// A read access.
    Read,
    /// A write access.
    Write,
}

/// A packet of the ITM/DWT protocol.
#[derive(Debug, Clone, PartialEq)]
pub enum TracePacket {
    /// Synchronization marker.
    Sync,
    /// The trace FIFO overflowed and packets were lost.
    Overflow,
    /// A local timestamp of up to 28 bits with its quality.
    LocalTimestamp1 { ts: u32, data_relation: TimestampDataRelation },
    /// A compressed local timestamp of three bits, synchronous to the data.
    LocalTimestamp2 { ts: u8 },
    /// The lower 26 bits of the global timestamp and two status flags.
    GlobalTimestamp1 { ts: u64, wrap: bool, clkch: bool },
    /// The upper bits of the global timestamp, from bit 26 on.
    GlobalTimestamp2 { ts: u64 },
    /// A one-byte extension: for software (`hardware` clear) it selects
    /// the page of stimulus ports.
    Extension { page: u8, hardware: bool },
    /// Data that software wrote to a stimulus port.
    ItmData { port: u8, payload: Vec<u8> },
    /// Wrap flags of the DWT event counters.
    EventCounterWrap { cyc: bool, fold: bool, lsu: bool, sleep: bool, exc: bool, cpi: bool },
    /// An exception was entered, exited or returned to.
    ExceptionTrace { exception: VectActive, action: ExceptionAction },
    /// A periodic sample of the program counter; `None` while the core sleeps.
    PCSample { pc: Option<u32> },
    /// The program counter when a data trace comparator matched.
    DataTracePC { comparator: u8, pc: u32 },
    /// The low half of the address that a data trace comparator matched.
    DataTraceAddress { comparator: u8, address: u16 },
    /// The value that a data trace comparator saw accessed.
    DataTraceValue { comparator: u8, access_type: MemoryAccessType, value: Vec<u8> },
}

/// A header was recognized but what followed it broke the protocol.
/// Carries the header and what was read of the packet.
#[derive(Debug, Clone, PartialEq)]
pub enum MalformedPacket {
    /// The header matches no packet of the protocol.
    InvalidHeader(u8),
    /// A run of zero bytes ended in another byte than `0b1000_0000`.
    InvalidSync { zeros: usize, last: u8 },
    /// A multi-byte payload was too long, or of a length that the
    /// packet does not have.
    InvalidPayload { header: u8, payload: Vec<u8> },
    /// A hardware source packet whose payload does not fit its kind.
    InvalidHardwarePacket { disc_id: u8, payload: Vec<u8> },
    /// A hardware source packet of an unknown kind.
    InvalidHardwareDisc { disc_id: u8, size: usize },
    /// An exception trace with an unknown exception or action.
    InvalidExceptionTrace { exception: u16, function: u8 },
}

/// What the first packet of a run of bytes is.
#[derive(Debug, Clone, PartialEq)]
pub enum Decoded {
    /// A packet, and the number of bytes it took.
    Packet(TracePacket, usize),
    /// A malformed packet, and the number of bytes it took.
    Malformed(MalformedPacket, usize),
    /// The bytes end inside a packet.
    Truncated,
    /// There are no bytes.
    Empty,
}

/// The bytes of `b` from `start` on.
pub open spec fn rest(b: Seq<u8>, start: int) -> Seq<u8> {
    b.subrange(start, b.len() as int)
}

/// The index at which a payload that runs from `k` on stops: the first
/// byte with a cleared continuation bit, the last byte there is, or
/// `max`, whichever comes first.
pub open spec fn stop(s: Seq<u8>, k: int, max: int) -> int
    decreases max - k,
{
    if k >= max || k >= s.len() || s[k] < 0x80 {
        k
    } else {
        stop(s, k + 1, max)
    }
}

pub open spec fn pow128(k: int) -> int
    decreases k,
{
    if k <= 0 {
        1
    } else {
        128 * pow128(k - 1)
    }
}

/// The value of the first `n` payload bytes, seven bits each, least
/// significant first.
pub open spec fn val7(s: Seq<u8>, n: int) -> int
    decreases n,
{
    if n <= 0 {
        0
    } else {
        val7(s, n - 1) + (s[n] % 128) * pow128(n - 1)
    }
}

/// The value of the `n` payload bytes where only `m` values of the last
/// byte count.
pub open spec fn payload_value(s: Seq<u8>, n: int, m: int) -> int {
    val7(s, n - 1) + (s[n] as int % m) * pow128(n - 1)
}

/// A little-endian integer of two or four bytes.
pub open spec fn le_value(p: Seq<u8>) -> int {
    if p.len() == 2 {
        p[0] + 256 * p[1]
    } else {
        p[0] + 256 * p[1] + 65536 * p[2] + 16777216 * p[3]
    }
}

pub open spec fn relation_of(h: u8) -> TimestampDataRelation {
    let tc = (h / 16) % 4;
    if tc == 0 {
        TimestampDataRelation::Sync
    } else if tc == 1 {
        TimestampDataRelation::AssocEventDelay
    } else if tc == 2 {
        TimestampDataRelation::UnknownDelay
    } else {
        TimestampDataRelation::UnknownAssocEventDelay
    }
}

/// A payload with continuation bits of at most `max` bytes: `Truncated`
/// where the bytes end inside it, malformed where its last byte still
/// has the bit set, and otherwise as `complete` says of its length.
pub open spec fn cont_decodes(s: Seq<u8>, max: int, d: Decoded, complete: spec_fn(int) -> bool) -> bool {
    let j = stop(s, 1, max);
    if j >= s.len() {
        d is Truncated
    } else if s[j] >= 0x80 {
        d matches Decoded::Malformed(MalformedPacket::InvalidPayload { header, payload }, len)
            && header == s[0] && payload@ == s.subrange(1, j + 1) && len == j + 1
    } else {
        complete(j)
    }
}

pub open spec fn lts1_decodes(s: Seq<u8>, d: Decoded) -> bool {
    cont_decodes(
        s,
        4,
        d,
        |n: int|
            d == Decoded::Packet(
                TracePacket::LocalTimestamp1 {
                    ts: val7(s, n) as u32,
                    data_relation: relation_of(s[0]),
                },
                (n + 1) as usize,
            ),
    )
}

pub open spec fn gts1_decodes(s: Seq<u8>, d: Decoded) -> bool {
    cont_decodes(
        s,
        4,
        d,
        |n: int|
            if n == 4 {
                d == Decoded::Packet(
                    TracePacket::GlobalTimestamp1 {
                        ts: payload_value(s, 4, 32) as u64,
                        wrap: s[4] & 0x40 != 0,
                        clkch: s[4] & 0x20 != 0,
                    },
                    5,
                )
            } else {
                d == Decoded::Packet(
                    TracePacket::GlobalTimestamp1 { ts: val7(s, n) as u64, wrap: false, clkch: false },
                    (n + 1) as usize,
                )
            },
    )
}

pub open spec fn gts2_decodes(s: Seq<u8>, d: Decoded) -> bool {
    cont_decodes(
        s,
        6,
        d,
        |n: int|
            if n == 4 {
                d == Decoded::Packet(
                    TracePacket::GlobalTimestamp2 { ts: payload_value(s, 4, 2) as u64 },
                    5,
                )
            } else if n == 6 {
                d == Decoded::Packet(
                    TracePacket::GlobalTimestamp2 { ts: payload_value(s, 6, 8) as u64 },
                    7,
                )
            } else {
                d matches Decoded::Malformed(MalformedPacket::InvalidPayload { header, payload }, len)
                    && header == s[0] && payload@ == s.subrange(1, n + 1) && len == n + 1
            },
    )
}

pub open spec fn sync_stop(s: Seq<u8>, k: int) -> int
    decreases s.len() - k,
{
    if k >= s.len() || s[k] != 0 {
        k
    } else {
        sync_stop(s, k + 1)
    }
}

pub open spec fn sync_decodes(s: Seq<u8>, d: Decoded) -> bool {
    let j = sync_stop(s, 1);
    if j >= s.len() {
        d is Truncated
    } else if s[j] == 0x80 {
        d == Decoded::Packet(TracePacket::Sync, (j + 1) as usize)
    } else {
        d == Decoded::Malformed(MalformedPacket::InvalidSync { zeros: j as usize, last: s[j] }, (j + 1) as usize)
    }
}

pub open spec fn extension_decodes(s: Seq<u8>, d: Decoded) -> bool {
    let h = s[0];
    if h & 0x80 != 0 {
        cont_decodes(s, 4, d, |n: int| d matches Decoded::Malformed(MalformedPacket::InvalidPayload { header, payload }, len)
            && header == h && payload@ == s.subrange(1, n + 1) && len == n + 1)
    } else {
        d == Decoded::Packet(TracePacket::Extension { page: h / 16, hardware: h & 0x04 != 0 }, 1)
    }
}

/// Payload size of a source packet, from the low two bits of its header.
pub open spec fn source_size(h: u8) -> int {
    if h & 0x03 == 1 {
        1
    } else if h & 0x03 == 2 {
        2
    } else {
        4
    }
}

pub open spec fn action_of(f: int) -> ExceptionAction {
    if f == 1 {
        ExceptionAction::Entered
    } else if f == 2 {
        ExceptionAction::Exited
    } else {
        ExceptionAction::Returned
    }
}

pub open spec fn invalid_hardware(d: Decoded, disc: u8, p: Seq<u8>) -> bool {
    d matches Decoded::Malformed(MalformedPacket::InvalidHardwarePacket { disc_id, payload }, len)
        && disc_id == disc && payload@ == p && len == p.len() + 1
}

/// A hardware source packet of kind `disc` with payload `p`.
pub open spec fn hardware_decodes(disc: u8, p: Seq<u8>, d: Decoded) -> bool {
    let len = (p.len() + 1) as usize;
    if disc == 0 {
        if p.len() == 1 {
            d == Decoded::Packet(
                TracePacket::EventCounterWrap {
                    cyc: p[0] & 0x20 != 0,
                    fold: p[0] & 0x10 != 0,
                    lsu: p[0] & 0x08 != 0,
                    sleep: p[0] & 0x04 != 0,
                    exc: p[0] & 0x02 != 0,
                    cpi: p[0] & 0x01 != 0,
                },
                len,
            )
        } else {
            invalid_hardware(d, disc, p)
        }
    } else if disc == 1 {
        if p.len() == 2 {
            let num = p[0] as int + (p[1] as int % 2) * 256;
            let f = (p[1] as int / 16) % 4;
            if vect_active_of(num as u16) is Some && f != 0 {
                d == Decoded::Packet(
                    TracePacket::ExceptionTrace {
                        exception: vect_active_of(num as u16).unwrap(),
                        action: action_of(f as int),
                    },
                    len,
                )
            } else {
                d == Decoded::Malformed(
                    MalformedPacket::InvalidExceptionTrace { exception: num as u16, function: f as u8 },
                    len,
                )
            }
        } else {
            invalid_hardware(d, disc, p)
        }
    } else if disc == 2 {
        if p.len() == 4 {
            d == Decoded::Packet(TracePacket::PCSample { pc: Some(le_value(p) as u32) }, len)
        } else if p.len() == 1 && p[0] == 0 {
            d == Decoded::Packet(TracePacket::PCSample { pc: None }, len)
        } else {
            invalid_hardware(d, disc, p)
        }
    } else if 8 <= disc < 16 {
        let c = ((disc / 2) % 4) as u8;
        if disc % 2 == 0 {
            if p.len() == 4 {
                d == Decoded::Packet(TracePacket::DataTracePC { comparator: c, pc: le_value(p) as u32 }, len)
            } else {
                invalid_hardware(d, disc, p)
            }
        } else {
            if p.len() == 2 {
                d == Decoded::Packet(
                    TracePacket::DataTraceAddress { comparator: c, address: le_value(p) as u16 },
                    len,
                )
            } else {
                invalid_hardware(d, disc, p)
            }
        }
    } else if 16 <= disc < 24 {
        d matches Decoded::Packet(TracePacket::DataTraceValue { comparator, access_type, value }, l)
            && comparator == (disc / 2) % 4
            && access_type == (if disc % 2 == 1 { MemoryAccessType::Write } else { MemoryAccessType::Read })
            && value@ == p && l == len
    } else {
        d == Decoded::Malformed(MalformedPacket::InvalidHardwareDisc { disc_id: disc, size: p.len() as usize }, len)
    }
}

/// A source packet: software data of a stimulus port, or a hardware packet.
pub open spec fn source_decodes(s: Seq<u8>, d: Decoded) -> bool {
    let h = s[0];
    let size = source_size(h);
    if s.len() < size + 1 {
        d is Truncated
    } else if h & 0x04 == 0 {
        d matches Decoded::Packet(TracePacket::ItmData { port, payload }, len)
            && port == h / 8 && payload@ == s.subrange(1, size + 1) && len == size + 1
    } else {
        hardware_decodes(h / 8, s.subrange(1, size + 1), d)
    }
}

/// What the first packet of `s` is, by its header:
/// - `0000_0000`: synchronization, a run of zero bytes ended by `1000_0000`;
/// - `0111_0000`: overflow;
/// - `0ttt_0000`: local timestamp 2, with `ttt` as the timestamp;
/// - `11rr_0000`: local timestamp 1 of quality `rr`, payload with
///   continuation bits;
/// - `1001_0100` and `1011_0100`: global timestamps 1 and 2, likewise;
/// - `0ppp_1S00`: extension with the three bits `ppp`, for software or,
///   where `S` is set, hardware; with a continuation bit (`1ppp_1S00`)
///   the longer extensions are not taken apart and are malformed;
/// - `aaaa_aHss` with `ss` not zero: a source packet with a payload of
///   1, 2 or 4 (`ss == 11`) bytes, from hardware where `H` is set;
/// - anything else: an invalid header.
pub open spec fn decodes(s: Seq<u8>, d: Decoded) -> bool {
    if s.len() == 0 {
        d is Empty
    } else {
        let h = s[0];
        if h == 0 {
            sync_decodes(s, d)
        } else if h == 0x70 {
            d == Decoded::Packet(TracePacket::Overflow, 1)
        } else if h & 0x8f == 0 {
            d == Decoded::Packet(TracePacket::LocalTimestamp2 { ts: h / 16 }, 1)
        } else if h & 0xcf == 0xc0 {
            lts1_decodes(s, d)
        } else if h & 0x0f == 0 {
            d == Decoded::Malformed(MalformedPacket::InvalidHeader(h), 1)
        } else if h == 0x94 {
            gts1_decodes(s, d)
        } else if h == 0xb4 {
            gts2_decodes(s, d)
        } else if h & 0x0b == 0x08 {
            extension_decodes(s, d)
        } else if h & 0x03 == 0 {
            d == Decoded::Malformed(MalformedPacket::InvalidHeader(h), 1)
        } else {
            source_decodes(s, d)
        }
    }
}

/// How many bytes a decoded packet took, where it took any.
pub open spec fn decoded_len(d: Decoded) -> int {
    match d {
        Decoded::Packet(_, n) => n as int,
        Decoded::Malformed(_, n) => n as int,
        _ => 0,
    }
}


/// A packet or marker takes at least its header and no more bytes than there are.
pub open spec fn decoded_len_ok(d: Decoded, n: int) -> bool {
    (d is Packet || d is Malformed) ==> 1 <= decoded_len(d) <= n
}

proof fn lemma_pow128_bound(k: int)
    requires
        0 <= k <= 6,
    ensures
        1 <= pow128(k) <= 4398046511104,
        k >= 1 ==> pow128(k) == 128 * pow128(k - 1),
{
    reveal_with_fuel(pow128, 7);
}

proof fn lemma_digit(v: int, d: int, mult: int, m: int)
    requires
        0 <= v < mult,
        0 <= d < m,
        m <= 128,
    ensures
        v + d * mult < m * mult,
        m * mult <= 128 * mult,
{
    assert(d * mult <= (m - 1) * mult) by (nonlinear_arith)
        requires
            0 <= d < m,
            mult > 0,
    ;
    assert(m * mult <= 128 * mult) by (nonlinear_arith)
        requires
            m <= 128,
            mult > 0,
    ;
    assert((m - 1) * mult + mult == m * mult) by (nonlinear_arith);
}

/// Where a payload with continuation bits, of at most `max` bytes,
/// that follows the header at `start` stops.
fn scan_cont(bytes: &[u8], start: usize, max: usize) -> (j: usize)
    requires
        start < bytes@.len(),
        1 <= max <= 6,
    ensures
        j as int == stop(rest(bytes@, start as int), 1, max as int),
        1 <= j <= max,
{
    let ghost s = rest(bytes@, start as int);
    let mut k: usize = 1;
    while k < max && k < bytes.len() - start && bytes[start + k] >= 0x80
        invariant
            1 <= k <= max,
            max <= 6,
            start < bytes@.len(),
            s == rest(bytes@, start as int),
            stop(s, 1, max as int) == stop(s, k as int, max as int),
        decreases max - k,
    {
        k = k + 1;
    }
    k
}

/// The payload bytes, up to index `end`, of the packet at `start`.
fn copy_payload(bytes: &[u8], start: usize, end: usize) -> (r: Vec<u8>)
    requires
        1 <= end <= bytes@.len() - start,
    ensures
        r@ == rest(bytes@, start as int).subrange(1, end as int),
{
    let len = bytes.len();
    assert(start + end <= len);
    let r = slice_to_vec(slice_subrange(bytes, start + 1, start + end));
    assert(r@ =~= rest(bytes@, start as int).subrange(1, end as int));
    r
}

/// The value of the `n` payload bytes after the header at `start`,
/// where only `m` values of the last byte count.
fn cont_value(bytes: &[u8], start: usize, n: usize, m: u8) -> (r: u64)
    requires
        start < bytes@.len(),
        1 <= n <= 6,
        n < bytes@.len() - start,
        1 <= m <= 128,
    ensures
        r as int == payload_value(rest(bytes@, start as int), n as int, m as int),
        (r as int) < pow128(n as int),
{
    let ghost s = rest(bytes@, start as int);
    let len = bytes.len();
    let mut v: u64 = 0;
    let mut mult: u64 = 1;
    let mut i: usize = 1;
    while i < n
        invariant
            1 <= i <= n,
            n <= 6,
            start < bytes@.len(),
            n < bytes@.len() - start,
            start + n < len,
            len == bytes@.len(),
            s == rest(bytes@, start as int),
            v as int == val7(s, i - 1),
            mult as int == pow128(i - 1),
            v < mult,
        decreases n - i,
    {
        let b = bytes[start + i];
        proof {
            lemma_pow128_bound(i - 1);
            lemma_pow128_bound(i as int);
            lemma_digit(v as int, (b % 128) as int, mult as int, 128);
        }
        v = v + ((b % 128) as u64) * mult;
        mult = mult * 128;
        i = i + 1;
    }
    let b = bytes[start + n];
    proof {
        lemma_pow128_bound(n - 1);
        lemma_pow128_bound(n as int);
        lemma_digit(v as int, (b % m) as int, mult as int, m as int);
    }
    v + ((b % m) as u64) * mult
}

/// A payload with continuation bits of at most `max` bytes, for a
/// packet that this decoder does not take apart: it is marked malformed.
fn cont_invalid(bytes: &[u8], start: usize, max: usize) -> (d: Decoded)
    requires
        start < bytes@.len(),
        1 <= max <= 6,
    ensures
        cont_decodes(
            rest(bytes@, start as int),
            max as int,
            d,
            |n: int|
                d matches Decoded::Malformed(MalformedPacket::InvalidPayload { header, payload }, len)
                    && header == bytes@[start as int] && payload@ == rest(bytes@, start as int).subrange(1, n + 1)
                    && len == n + 1,
        ),
        decoded_len_ok(d, bytes@.len() - start),
{
    let j = scan_cont(bytes, start, max);
    if j >= bytes.len() - start {
        return Decoded::Truncated;
    }
    let payload = copy_payload(bytes, start, j + 1);
    Decoded::Malformed(MalformedPacket::InvalidPayload { header: bytes[start], payload }, j + 1)
}

fn decode_lts1(bytes: &[u8], start: usize) -> (d: Decoded)
    requires
        start < bytes@.len(),
    ensures
        lts1_decodes(rest(bytes@, start as int), d),
        decoded_len_ok(d, bytes@.len() - start),
{
    let j = scan_cont(bytes, start, 4);
    if j >= bytes.len() - start {
        return Decoded::Truncated;
    }
    let h = bytes[start];
    if bytes[start + j] >= 0x80 {
        let payload = copy_payload(bytes, start, j + 1);
        return Decoded::Malformed(MalformedPacket::InvalidPayload { header: h, payload }, j + 1);
    }
    let ts = cont_value(bytes, start, j, 128);
    proof {
        lemma_pow128_bound(j as int);
        reveal_with_fuel(pow128, 5);
    }
    let tc = (h / 16) % 4;
    let data_relation = if tc == 0 {
        TimestampDataRelation::Sync
    } else if tc == 1 {
        TimestampDataRelation::AssocEventDelay
    } else if tc == 2 {
        TimestampDataRelation::UnknownDelay
    } else {
        TimestampDataRelation::UnknownAssocEventDelay
    };
    Decoded::Packet(TracePacket::LocalTimestamp1 { ts: ts as u32, data_relation }, j + 1)
}

fn decode_gts1(bytes: &[u8], start: usize) -> (d: Decoded)
    requires
        start < bytes@.len(),
    ensures
        gts1_decodes(rest(bytes@, start as int), d),
        decoded_len_ok(d, bytes@.len() - start),
{
    let j = scan_cont(bytes, start, 4);
    if j >= bytes.len() - start {
        return Decoded::Truncated;
    }
    let h = bytes[start];
    if bytes[start + j] >= 0x80 {
        let payload = copy_payload(bytes, start, j + 1);
        return Decoded::Malformed(MalformedPacket::InvalidPayload { header: h, payload }, j + 1);
    }
    if j == 4 {
        let last = bytes[start + 4];
        let ts = cont_value(bytes, start, 4, 32);
        Decoded::Packet(
            TracePacket::GlobalTimestamp1 { ts, wrap: last & 0x40 != 0, clkch: last & 0x20 != 0 },
            5,
        )
    } else {
        let ts = cont_value(bytes, start, j, 128);
        Decoded::Packet(TracePacket::GlobalTimestamp1 { ts, wrap: false, clkch: false }, j + 1)
    }
}

fn decode_gts2(bytes: &[u8], start: usize) -> (d: Decoded)
    requires
        start < bytes@.len(),
    ensures
        gts2_decodes(rest(bytes@, start as int), d),
        decoded_len_ok(d, bytes@.len() - start),
{
    let j = scan_cont(bytes, start, 6);
    if j >= bytes.len() - start {
        return Decoded::Truncated;
    }
    let h = bytes[start];
    if bytes[start + j] >= 0x80 || (j != 4 && j != 6) {
        let payload = copy_payload(bytes, start, j + 1);
        return Decoded::Malformed(MalformedPacket::InvalidPayload { header: h, payload }, j + 1);
    }
    if j == 4 {
        let ts = cont_value(bytes, start, 4, 2);
        Decoded::Packet(TracePacket::GlobalTimestamp2 { ts }, 5)
    } else {
        let ts = cont_value(bytes, start, 6, 8);
        Decoded::Packet(TracePacket::GlobalTimestamp2 { ts }, 7)
    }
}

fn decode_sync(bytes: &[u8], start: usize) -> (d: Decoded)
    requires
        start < bytes@.len(),
    ensures
        sync_decodes(rest(bytes@, start as int), d),
        decoded_len_ok(d, bytes@.len() - start),
{
    let ghost s = rest(bytes@, start as int);
    let mut k: usize = 1;
    while k < bytes.len() - start && bytes[start + k] == 0
        invariant
            1 <= k <= bytes@.len() - start,
            start < bytes@.len(),
            s == rest(bytes@, start as int),
            sync_stop(s, 1) == sync_stop(s, k as int),
        decreases bytes@.len() - start - k,
    {
        k = k + 1;
    }
    if k >= bytes.len() - start {
        Decoded::Truncated
    } else {
        let last = bytes[start + k];
        if last == 0x80 {
            Decoded::Packet(TracePacket::Sync, k + 1)
        } else {
            Decoded::Malformed(MalformedPacket::InvalidSync { zeros: k, last }, k + 1)
        }
    }
}

fn decode_extension(bytes: &[u8], start: usize) -> (d: Decoded)
    requires
        start < bytes@.len(),
    ensures
        extension_decodes(rest(bytes@, start as int), d),
        decoded_len_ok(d, bytes@.len() - start),
{
    let h = bytes[start];
    if h & 0x80 != 0 {
        cont_invalid(bytes, start, 4)
    } else {
        Decoded::Packet(TracePacket::Extension { page: h / 16, hardware: h & 0x04 != 0 }, 1)
    }
}

fn le_u32(p: &Vec<u8>) -> (r: u32)
    requires
        p@.len() == 4,
    ensures
        r as int == le_value(p@),
{
    p[0] as u32 + (p[1] as u32) * 256 + (p[2] as u32) * 65536 + (p[3] as u32) * 16777216
}

fn hardware_invalid(disc: u8, p: Vec<u8>) -> (d: Decoded)
    requires
        p@.len() <= 4,
    ensures
        invalid_hardware(d, disc, p@),
        decoded_len(d) == p@.len() + 1,
{
    let len = p.len() + 1;
    Decoded::Malformed(MalformedPacket::InvalidHardwarePacket { disc_id: disc, payload: p }, len)
}

/// A hardware source packet of kind `disc` with payload `p`.
fn decode_hardware(disc: u8, p: Vec<u8>) -> (d: Decoded)
    requires
        1 <= p@.len() <= 4,
    ensures
        hardware_decodes(disc, p@, d),
        decoded_len(d) == p@.len() + 1,
{
    let len = p.len() + 1;
    if disc == 0 {
        if p.len() == 1 {
            let b = p[0];
            Decoded::Packet(
                TracePacket::EventCounterWrap {
                    cyc: b & 0x20 != 0,
                    fold: b & 0x10 != 0,
                    lsu: b & 0x08 != 0,
                    sleep: b & 0x04 != 0,
                    exc: b & 0x02 != 0,
                    cpi: b & 0x01 != 0,
                },
                len,
            )
        } else {
            hardware_invalid(disc, p)
        }
    } else if disc == 1 {
        if p.len() == 2 {
            let num: u16 = p[0] as u16 + ((p[1] % 2) as u16) * 256;
            let f: u8 = (p[1] / 16) % 4;
            match VectActive::from(num) {
                Some(exception) if f != 0 => {
                    let action = if f == 1 {
                        ExceptionAction::Entered
                    } else if f == 2 {
                        ExceptionAction::Exited
                    } else {
                        ExceptionAction::Returned
                    };
                    Decoded::Packet(TracePacket::ExceptionTrace { exception, action }, len)
                },
                _ => Decoded::Malformed(
                    MalformedPacket::InvalidExceptionTrace { exception: num, function: f },
                    len,
                ),
            }
        } else {
            hardware_invalid(disc, p)
        }
    } else if disc == 2 {
        if p.len() == 4 {
            let pc = le_u32(&p);
            Decoded::Packet(TracePacket::PCSample { pc: Some(pc) }, len)
        } else if p.len() == 1 && p[0] == 0 {
            Decoded::Packet(TracePacket::PCSample { pc: None }, len)
        } else {
            hardware_invalid(disc, p)
        }
    } else if 8 <= disc && disc < 16 {
        let comparator = (disc / 2) % 4;
        if disc % 2 == 0 {
            if p.len() == 4 {
                let pc = le_u32(&p);
                Decoded::Packet(TracePacket::DataTracePC { comparator, pc }, len)
            } else {
                hardware_invalid(disc, p)
            }
        } else {
            if p.len() == 2 {
                let address = p[0] as u16 + (p[1] as u16) * 256;
                Decoded::Packet(TracePacket::DataTraceAddress { comparator, address }, len)
            } else {
                hardware_invalid(disc, p)
            }
        }
    } else if 16 <= disc && disc < 24 {
        let access_type = if disc % 2 == 1 {
            MemoryAccessType::Write
        } else {
            MemoryAccessType::Read
        };
        Decoded::Packet(
            TracePacket::DataTraceValue { comparator: (disc / 2) % 4, access_type, value: p },
            len,
        )
    } else {
        Decoded::Malformed(MalformedPacket::InvalidHardwareDisc { disc_id: disc, size: p.len() }, len)
    }
}

fn decode_source(bytes: &[u8], start: usize) -> (d: Decoded)
    requires
        start < bytes@.len(),
    ensures
        source_decodes(rest(bytes@, start as int), d),
        decoded_len_ok(d, bytes@.len() - start),
{
    let h = bytes[start];
    let size: usize = if h & 0x03 == 1 {
        1
    } else if h & 0x03 == 2 {
        2
    } else {
        4
    };
    if bytes.len() - start < size + 1 {
        return Decoded::Truncated;
    }
    let payload = copy_payload(bytes, start, size + 1);
    if h & 0x04 == 0 {
        Decoded::Packet(TracePacket::ItmData { port: h / 8, payload }, size + 1)
    } else {
        decode_hardware(h / 8, payload)
    }
}

/// Decodes the first packet of the bytes from `start` on.
pub fn decode_packet(bytes: &[u8], start: usize) -> (d: Decoded)
    requires
        start <= bytes@.len(),
    ensures
        decodes(rest(bytes@, start as int), d),
        decoded_len_ok(d, bytes@.len() - start),
{
    if start == bytes.len() {
        return Decoded::Empty;
    }
    let h = bytes[start];
    if h == 0 {
        decode_sync(bytes, start)
    } else if h == 0x70 {
        Decoded::Packet(TracePacket::Overflow, 1)
    } else if h & 0x8f == 0 {
        Decoded::Packet(TracePacket::LocalTimestamp2 { ts: h / 16 }, 1)
    } else if h & 0xcf == 0xc0 {
        decode_lts1(bytes, start)
    } else if h & 0x0f == 0 {
        Decoded::Malformed(MalformedPacket::InvalidHeader(h), 1)
    } else if h == 0x94 {
        decode_gts1(bytes, start)
    } else if h == 0xb4 {
        decode_gts2(bytes, start)
    } else if h & 0x0b == 0x08 {
        decode_extension(bytes, start)
    } else if h & 0x03 == 0 {
        Decoded::Malformed(MalformedPacket::InvalidHeader(h), 1)
    } else {
        decode_source(bytes, start)
    }
}

} // verus!
