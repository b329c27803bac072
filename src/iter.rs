use std::time::Duration;
use vstd::prelude::*;
use vstd::std_specs::bits::u64_leading_zeros;

use crate::cortex_m::LocalTimestampOptions;
use crate::decoder::{lemma_steps_push, steps, Decoder, DecoderError, DecoderErrorInt, Outcome};
use crate::packet::{MalformedPacket, TimestampDataRelation, TracePacket};

verus! {

/// The duration of `nanos` nanoseconds.
pub uninterp spec fn duration_of(nanos: u64) -> Duration;

/// Relies on `Duration::from_nanos`: the duration of exactly that many
/// nanoseconds, which depends on the number alone.
#[verifier::external_body]
fn duration_from_nanos(nanos: u64) -> (r: Duration)
    ensures
        r == duration_of(nanos),
{
    Duration::from_nanos(nanos)
}

/// [`Timestamps`] configuration.
#[derive(Debug, Clone, Copy, PartialEq, Eq, Structural)]
pub struct TimestampsConfiguration {
    /// Frequency of the ITM timestamp clock, in Hz.
    pub clock_frequency: u32,
    /// Prescaler used for the ITM timestamp clock.
    pub lts_prescaler: LocalTimestampOptions,
    /// When set, malformed packets are collected in
    /// [`TimestampedTracePackets::malformed_packets`] instead of being
    /// returned as errors.
    pub expect_malformed: bool,
}

/// Why a configuration was refused.
#[derive(Debug, Clone, Copy, PartialEq, Eq, Structural)]
pub enum ConfigurationError {
    /// The clock frequency is zero.
    ZeroFrequency,
    /// Local timestamps are disabled: absolute timestamps cannot be
    /// synthesized from global timestamps alone.
    LocalTimestampsDisabled,
}

/// A set of timestamped [`TracePacket`]s.
#[derive(Debug, Clone, PartialEq)]
pub struct TimestampedTracePackets {
    /// Timestamp of `packets` and `malformed_packets`.
    pub timestamp: Timestamp,
    /// Packets that the target generated during `timestamp`.
    pub packets: Vec<TracePacket>,
    /// Malformed packets that the target generated during `timestamp`.
    pub malformed_packets: Vec<MalformedPacket>,
    /// The number of decoding steps consumed to generate this set.
    pub consumed_packets: usize,
}

/// Timestamp relative to trace clock start with quality descriptions,
/// in order of decreasing quality.
#[derive(Debug, Clone, Copy, PartialEq)]
pub enum Timestamp {
    /// The timestamp is synchronous to the ITM/DWT data and event.
    Sync(Duration),
    /// The event happened between the previous and the current timestamp.
    UnknownDelay { prev: Duration, curr: Duration },
    /// The timestamp is synchronous to the packet, which was delayed
    /// relative to its event.
    AssocEventDelay(Duration),
    /// Both of the above: the event happened some time between the
    /// previous and the current timestamp.
    UnknownAssocEventDelay { prev: Duration, curr: Duration },
}

/// The two halves of a global timestamp, as far as they are known.
#[derive(Debug, Clone, Copy, PartialEq, Eq, Structural)]
pub struct Gts {
    /// The lower 26 bits, from a GTS1 packet.
    pub lower: Option<u64>,
    /// The bits from bit 26 on, from a GTS2 packet.
    pub upper: Option<u64>,
}

/// The `w` lowest bits set.
pub open spec fn low_mask(w: int) -> u64 {
    if w >= 64 {
        0xffff_ffff_ffff_ffffu64
    } else {
        ((1u64 << (w as u64)) - 1) as u64
    }
}

/// The number of bits that `n` takes.
pub open spec fn bit_width(n: u64) -> int {
    64 - u64_leading_zeros(n)
}

/// The lower half after a possibly compressed update `n`: the bits of
/// the old lower half above the width of `n` stay.
pub open spec fn overlay(lower: Option<u64>, n: u64) -> u64 {
    match lower {
        None => n,
        Some(l) => (l & !low_mask(bit_width(n))) | n,
    }
}

/// The whole global timestamp, where both halves are known.
pub open spec fn merged(g: Gts) -> Option<u64> {
    match (g.lower, g.upper) {
        (Some(l), Some(u)) => Some((u << 26u64) | l),
        _ => None,
    }
}

impl Gts {
    /// The position of the upper half in a whole global timestamp.
    pub const GTS2_SHIFT: u32 = 26;

    /// Applies a possibly compressed lower half.
    pub fn replace_lower(&mut self, new: u64)
        ensures
            final(self).lower == Some(overlay(old(self).lower, new)),
            final(self).upper == old(self).upper,
    {
        match self.lower {
            None => {
                self.lower = Some(new);
            },
            Some(old) => {
                let shift: u64 = (64 - new.leading_zeros()) as u64;
                if shift >= 64 {
                    assert((old & !0xffff_ffff_ffff_ffffu64) | new == new) by (bit_vector);
                    self.lower = Some(new);
                } else {
                    assert(((old >> shift) << shift) == (old & !(((1u64 << shift) - 1u64) as u64)))
                        by (bit_vector)
                        requires
                            shift < 64,
                    ;
                    self.lower = Some(((old >> shift) << shift) | new);
                }
            },
        }
    }

    /// Forgets both halves.
    pub fn reset(&mut self)
        ensures
            final(self).lower is None,
            final(self).upper is None,
    {
        self.lower = None;
        self.upper = None;
    }

    /// The whole global timestamp, where both halves are known.
    pub fn merge(&self) -> (r: Option<u64>)
        ensures
            r == merged(*self),
    {
        match (self.lower, self.upper) {
            (Some(lower), Some(upper)) => Some((upper << 26u64) | lower),
            _ => None,
        }
    }

    /// The halves that one global timestamp packet gives.
    pub fn from_one(gts: TracePacket) -> (r: Self)
        requires
            gts is GlobalTimestamp1 || gts is GlobalTimestamp2,
        ensures
            gts matches TracePacket::GlobalTimestamp1 { ts, .. } ==> r == (Gts { lower: Some(ts), upper: None }),
            gts matches TracePacket::GlobalTimestamp2 { ts } ==> r == (Gts { lower: None, upper: Some(ts) }),
    {
        match gts {
            TracePacket::GlobalTimestamp1 { ts: lower, .. } => Gts { lower: Some(lower), upper: None },
            TracePacket::GlobalTimestamp2 { ts: upper } => Gts { lower: None, upper: Some(upper) },
            _ => Gts { lower: None, upper: None },
        }
    }
}

/// The factor by which a prescaler slows the local timestamp clock.
pub open spec fn prescale_of(p: Option<LocalTimestampOptions>) -> int {
    match p {
        Some(LocalTimestampOptions::EnabledDiv4) => 4,
        Some(LocalTimestampOptions::EnabledDiv16) => 16,
        Some(LocalTimestampOptions::EnabledDiv64) => 64,
        _ => 1,
    }
}

/// `ticks` periods of a clock of `freq` Hz, in nanoseconds, rounded up.
pub open spec fn ceil_nanos(ticks: int, freq: int) -> int {
    (ticks * 1_000_000_000 + freq - 1) / freq
}

/// [`ceil_nanos`], where it fits in a `u64`; the largest `u64` otherwise.
pub open spec fn offset_nanos(ticks: int, freq: int) -> u64 {
    if ceil_nanos(ticks, freq) > u64::MAX {
        u64::MAX
    } else {
        ceil_nanos(ticks, freq) as u64
    }
}

/// The offset that `ticks` periods of a clock of `freq` Hz make, in
/// nanoseconds, never less than the exact value: an event is never
/// reported before it happened.
pub proof fn lemma_ceiling(ticks: int, freq: int)
    requires
        ticks >= 0,
        freq > 0,
    ensures
        ceil_nanos(ticks, freq) * freq >= ticks * 1_000_000_000,
        ceil_nanos(ticks, freq) * freq < ticks * 1_000_000_000 + freq,
        ceil_nanos(ticks, freq) * freq == ticks * 1_000_000_000 <==> (ticks * 1_000_000_000) % freq == 0,
{
    let a = ticks * 1_000_000_000;
    let q = (a + freq - 1) / freq;
    let r = (a + freq - 1) % freq;
    assert(q * freq + r == a + freq - 1) by (nonlinear_arith)
        requires
            freq > 0,
            q == (a + freq - 1) / freq,
            r == (a + freq - 1) % freq,
    ;
    assert(a == (a / freq) * freq + a % freq) by (nonlinear_arith)
        requires
            freq > 0,
    ;
    if a % freq == 0 {
        assert(q == a / freq) by (nonlinear_arith)
            requires
                freq > 0,
                q == (a + freq - 1) / freq,
                a == (a / freq) * freq,
        ;
        assert(q * freq == a);
    } else {
        assert(q == a / freq + 1) by (nonlinear_arith)
            requires
                freq > 0,
                q == (a + freq - 1) / freq,
                a == (a / freq) * freq + a % freq,
                0 < a % freq < freq,
        ;
        assert(q * freq == (a / freq) * freq + freq) by (nonlinear_arith)
            requires
                q == a / freq + 1,
        ;
        assert(q * freq != a);
    }
}

/// `ts * prescale` clock periods of `freq` Hz in nanoseconds, rounded up.
fn offset_nanos_of(ts: u64, prescale: u64, freq: u32) -> (r: u64)
    requires
        1 <= prescale <= 64,
        freq > 0,
    ensures
        r == offset_nanos(ts * prescale, freq as int),
{
    assert((ts as int) * (prescale as int) <= 0xffff_ffff_ffff_ffff * 64) by (nonlinear_arith)
        requires
            0 <= ts <= 0xffff_ffff_ffff_ffff,
            1 <= prescale <= 64,
    ;
    let ticks: u128 = (ts as u128) * (prescale as u128);
    let num: u128 = ticks * 1_000_000_000u128;
    let q: u128 = (num + (freq as u128) - 1) / (freq as u128);
    if q > u64::MAX as u128 {
        u64::MAX
    } else {
        q as u64
    }
}

/// Converts a number of timestamp clock ticks into a time offset,
/// rounded up to the next nanosecond. Global timestamps have no prescaler.
pub fn calc_offset(ts: u64, prescaler: Option<LocalTimestampOptions>, freq: u32) -> (r: Duration)
    requires
        prescaler != Some(LocalTimestampOptions::Disabled),
        freq > 0,
    ensures
        r == duration_of(offset_nanos(ts * prescale_of(prescaler), freq as int)),
{
    let prescale: u64 = match prescaler {
        Some(LocalTimestampOptions::EnabledDiv4) => 4,
        Some(LocalTimestampOptions::EnabledDiv16) => 16,
        Some(LocalTimestampOptions::EnabledDiv64) => 64,
        _ => 1,
    };
    duration_from_nanos(offset_nanos_of(ts, prescale, freq))
}

pub open spec fn add_sat(a: u64, b: u64) -> u64 {
    if a + b > u64::MAX {
        u64::MAX
    } else {
        (a + b) as u64
    }
}

pub open spec fn valid_configuration(c: TimestampsConfiguration) -> bool {
    c.clock_frequency > 0 && c.lts_prescaler != LocalTimestampOptions::Disabled
}

/// The timestamp of a group, from the quality of its local timestamp,
/// the time of the previous one and the time now, in nanoseconds.
pub open spec fn timestamp_of(rel: TimestampDataRelation, prev: u64, curr: u64) -> Timestamp {
    match rel {
        TimestampDataRelation::Sync => Timestamp::Sync(duration_of(curr)),
        TimestampDataRelation::UnknownDelay => Timestamp::UnknownDelay {
            prev: duration_of(prev),
            curr: duration_of(curr),
        },
        TimestampDataRelation::AssocEventDelay => Timestamp::AssocEventDelay(duration_of(curr)),
        TimestampDataRelation::UnknownAssocEventDelay => Timestamp::UnknownAssocEventDelay {
            prev: duration_of(prev),
            curr: duration_of(curr),
        },
    }
}

/// The time now after a global timestamp update to `g`.
pub open spec fn after_merge(offset: u64, g: Gts, freq: int) -> u64 {
    match merged(g) {
        Some(m) => offset_nanos(m as int, freq),
        None => offset,
    }
}

/// The time now and the global timestamp halves after packet `p`.
pub open spec fn gts_step(st: (u64, Gts), p: TracePacket, freq: int) -> (u64, Gts) {
    match p {
        TracePacket::GlobalTimestamp1 { ts, wrap, clkch } => {
            let g = Gts { lower: Some(overlay(st.1.lower, ts)), upper: st.1.upper };
            if wrap {
                (st.0, Gts { lower: g.lower, upper: None })
            } else if clkch {
                (st.0, Gts { lower: None, upper: None })
            } else {
                (after_merge(st.0, g, freq), g)
            }
        },
        TracePacket::GlobalTimestamp2 { ts } => {
            let g = Gts { lower: st.1.lower, upper: Some(ts) };
            (after_merge(st.0, g, freq), g)
        },
        _ => st,
    }
}

/// The time now and the global timestamp halves after the decoding
/// steps `seg`.
pub open spec fn state_after(st: (u64, Gts), seg: Seq<Outcome>, freq: int) -> (u64, Gts)
    decreases seg.len(),
{
    if seg.len() == 0 {
        st
    } else {
        let prev = state_after(st, seg.drop_last(), freq);
        match seg.last() {
            Ok(p) => gts_step(prev, p, freq),
            Err(_) => prev,
        }
    }
}

pub open spec fn is_local_timestamp(p: TracePacket) -> bool {
    p is LocalTimestamp1 || p is LocalTimestamp2
}

pub open spec fn is_timestamp(p: TracePacket) -> bool {
    p is LocalTimestamp1 || p is LocalTimestamp2 || p is GlobalTimestamp1 || p is GlobalTimestamp2
}

pub open spec fn is_global_timestamp(o: Outcome) -> bool {
    o matches Ok(p) && (p is GlobalTimestamp1 || p is GlobalTimestamp2)
}

/// The packets of the decoding steps `seg` that are no timestamps, in order.
pub open spec fn data_packets(seg: Seq<Outcome>) -> Seq<TracePacket>
    decreases seg.len(),
{
    if seg.len() == 0 {
        Seq::empty()
    } else {
        let before = data_packets(seg.drop_last());
        match seg.last() {
            Ok(p) => if is_timestamp(p) {
                before
            } else {
                before.push(p)
            },
            Err(_) => before,
        }
    }
}

/// The malformed packets of the decoding steps `seg`, in order.
pub open spec fn malformed_of(seg: Seq<Outcome>) -> Seq<MalformedPacket>
    decreases seg.len(),
{
    if seg.len() == 0 {
        Seq::empty()
    } else {
        let before = malformed_of(seg.drop_last());
        match seg.last() {
            Err(DecoderErrorInt::MalformedPacket(m)) => before.push(m),
            _ => before,
        }
    }
}

/// A decoding step that leaves a group open.
pub open spec fn accumulates(o: Outcome, expect_malformed: bool) -> bool {
    match o {
        Ok(p) => !is_local_timestamp(p),
        Err(DecoderErrorInt::MalformedPacket(_)) => expect_malformed,
        _ => false,
    }
}

/// The ticks and quality of a local timestamp packet.
pub open spec fn lts_of(p: TracePacket) -> (u64, TimestampDataRelation) {
    match p {
        TracePacket::LocalTimestamp1 { ts, data_relation } => (ts as u64, data_relation),
        TracePacket::LocalTimestamp2 { ts } => (ts as u64, TimestampDataRelation::Sync),
        _ => (0, TimestampDataRelation::Sync),
    }
}

/// Without a global timestamp, the time now stays as it was.
pub proof fn lemma_state_without_gts(st: (u64, Gts), seg: Seq<Outcome>, freq: int)
    requires
        forall|i: int| 0 <= i < seg.len() ==> !is_global_timestamp(#[trigger] seg[i]),
    ensures
        state_after(st, seg, freq) == st,
    decreases seg.len(),
{
    if seg.len() > 0 {
        lemma_state_without_gts(st, seg.drop_last(), freq);
        assert(!is_global_timestamp(seg[seg.len() - 1]));
    }
}

/// What one call of [`Timestamps::next_timestamped`] does: from state
/// `pre` to state `post`, returning `r`. The call takes the decoding
/// steps `seg` on the bytes left, all but the last of which leave the
/// group open; the group so far is the steps that earlier calls left
/// open followed by `seg`. A local timestamp closes the group: it holds
/// the data packets and malformed packets of those steps in order,
/// counts them, and is stamped with the time that the global timestamps
/// on the way and the local timestamp give. Any other last step is an
/// error, returned as it is. At the end of the bytes (`Eof`) the group
/// stays open for more bytes; after any other error it is dropped.
pub open spec fn group_step(
    pre: Timestamps,
    post: Timestamps,
    r: Result<TimestampedTracePackets, DecoderErrorInt>,
) -> bool {
    let seg = post.history().subrange(pre.history().len() as int, post.history().len() as int);
    let group = pre.pending() + seg;
    let freq = pre.configuration().clock_frequency as int;
    let em = pre.configuration().expect_malformed;
    &&& post.configuration() == pre.configuration()
    &&& post.ignores_eof() == pre.ignores_eof()
    &&& post.history().len() > pre.history().len()
    &&& post.history().subrange(0, pre.history().len() as int) == pre.history()
    &&& steps(pre.remaining(), seg, post.remaining(), pre.ignores_eof())
    &&& forall|i: int| 0 <= i < seg.len() - 1 ==> accumulates(#[trigger] seg[i], em)
    &&& !accumulates(seg.last(), em)
    &&& match r {
        Ok(g) => {
            let lts = seg.last()->Ok_0;
            let st = state_after((pre.current_offset(), pre.gts()), seg.drop_last(), freq);
            &&& seg.last() is Ok && is_local_timestamp(lts)
            &&& g.consumed_packets == group.len()
            &&& g.packets@ == data_packets(group)
            &&& g.malformed_packets@ == malformed_of(group)
            &&& post.pending() == Seq::<Outcome>::empty()
            &&& post.gts() == st.1
            &&& post.current_offset() == add_sat(
                st.0,
                offset_nanos(
                    lts_of(lts).0 * prescale_of(Some(pre.configuration().lts_prescaler)),
                    freq,
                ),
            )
            &&& g.timestamp == timestamp_of(lts_of(lts).1, pre.prev_lts(), post.current_offset())
            &&& post.prev_lts() == post.current_offset()
            &&& (forall|i: int| 0 <= i < seg.len() ==> !is_global_timestamp(#[trigger] seg[i]))
                ==> post.current_offset() >= pre.current_offset()
        },
        Err(e) => {
            &&& seg.last() == Err::<TracePacket, DecoderErrorInt>(e)
            &&& (post.current_offset(), post.gts()) == state_after(
                (pre.current_offset(), pre.gts()),
                seg,
                freq,
            )
            &&& post.prev_lts() == pre.prev_lts()
            &&& post.pending() == if e == DecoderErrorInt::Eof {
                group.drop_last()
            } else {
                Seq::<Outcome>::empty()
            }
        },
    }
}

proof fn lemma_data_packets_append(s: Seq<Outcome>, t: Seq<Outcome>)
    ensures
        data_packets(s + t) == data_packets(s) + data_packets(t),
    decreases t.len(),
{
    if t.len() == 0 {
        assert(s + t =~= s);
        assert(data_packets(s) + data_packets(t) =~= data_packets(s));
    } else {
        lemma_data_packets_append(s, t.drop_last());
        assert((s + t).drop_last() =~= s + t.drop_last());
        assert((s + t).last() == t.last());
        match t.last() {
            Ok(p) => {
                if !is_timestamp(p) {
                    assert(data_packets(s) + data_packets(t.drop_last()).push(p) =~= (data_packets(s)
                        + data_packets(t.drop_last())).push(p));
                }
            },
            Err(_) => {},
        }
    }
}

/// Successive groups account for every decoding step and lose no
/// packet: the numbers of steps that two groups in a row consumed add up
/// to the steps that were open before the first and the steps that the
/// decoder took for both, and their packets, one group after the other,
/// are the data packets of those steps in the order in which they were
/// decoded.
pub proof fn lemma_groups_conserve_packets(
    a: Timestamps,
    b: Timestamps,
    c: Timestamps,
    g1: TimestampedTracePackets,
    g2: TimestampedTracePackets,
)
    requires
        group_step(a, b, Ok(g1)),
        group_step(b, c, Ok(g2)),
    ensures
        g1.consumed_packets + g2.consumed_packets == a.pending().len() + c.history().len() - a.history().len(),
        g1.packets@ + g2.packets@ == data_packets(
            a.pending() + c.history().subrange(a.history().len() as int, c.history().len() as int),
        ),
{
    let (ha, hb, hc) = (a.history(), b.history(), c.history());
    let seg1 = hb.subrange(ha.len() as int, hb.len() as int);
    let seg2 = hc.subrange(hb.len() as int, hc.len() as int);
    assert(hc.subrange(0, hb.len() as int) == hb);
    assert(hc.subrange(ha.len() as int, hc.len() as int) =~= seg1 + seg2) by {
        assert forall|i: int| 0 <= i < seg1.len() implies #[trigger] hc[ha.len() + i] == seg1[i] by {
            assert(hc.subrange(0, hb.len() as int)[ha.len() + i] == hb[ha.len() + i]);
        }
    }
    assert(b.pending() + seg2 =~= seg2);
    assert(a.pending() + (seg1 + seg2) =~= (a.pending() + seg1) + seg2);
    lemma_data_packets_append(a.pending() + seg1, seg2);
}

/// The time of a timestamp: its point, or the end of its interval.
pub open spec fn current_of(t: Timestamp) -> Duration {
    match t {
        Timestamp::Sync(d) => d,
        Timestamp::UnknownDelay { curr, .. } => curr,
        Timestamp::AssocEventDelay(d) => d,
        Timestamp::UnknownAssocEventDelay { curr, .. } => curr,
    }
}

/// Between global timestamps the time does not go back: of two groups
/// in a row, with no global timestamp decoded for the second, the second
/// is stamped no earlier than the first (in nanoseconds since the start
/// of the trace clock).
pub proof fn lemma_time_monotone(
    a: Timestamps,
    b: Timestamps,
    c: Timestamps,
    g1: TimestampedTracePackets,
    g2: TimestampedTracePackets,
)
    requires
        group_step(a, b, Ok(g1)),
        group_step(b, c, Ok(g2)),
        forall|i: int|
            b.history().len() <= i < c.history().len() ==> !is_global_timestamp(#[trigger] c.history()[i]),
    ensures
        current_of(g1.timestamp) == duration_of(b.current_offset()),
        current_of(g2.timestamp) == duration_of(c.current_offset()),
        b.current_offset() <= c.current_offset(),
{
    let seg2 = c.history().subrange(b.history().len() as int, c.history().len() as int);
    assert forall|i: int| 0 <= i < seg2.len() implies !is_global_timestamp(#[trigger] seg2[i]) by {
        assert(seg2[i] == c.history()[b.history().len() + i]);
    }
}

/// What the group iterator yields for one result of
/// [`Timestamps::next_timestamped`]: nothing at the end of the bytes.
pub open spec fn yielded(
    g: Result<TimestampedTracePackets, DecoderErrorInt>,
) -> Option<Result<TimestampedTracePackets, DecoderError>> {
    match g {
        Err(DecoderErrorInt::Eof) => None,
        Err(DecoderErrorInt::UnexpectedEof) => Some(Err(DecoderError::UnexpectedEof)),
        Err(DecoderErrorInt::MalformedPacket(m)) => Some(Err(DecoderError::MalformedPacket(m))),
        Ok(g) => Some(Ok(g)),
    }
}

/// Iterator that yields [`TimestampedTracePackets`].
pub struct Timestamps {
    decoder: Decoder,
    options: TimestampsConfiguration,
    current_offset: u64,
    gts: Gts,
    prev_lts: u64,
    open_packets: Vec<TracePacket>,
    open_malformed: Vec<MalformedPacket>,
    open_consumed: usize,
    open_log: Ghost<Seq<Outcome>>,
}

impl Timestamps {
    pub closed spec fn wf(&self) -> bool {
        &&& self.decoder.wf()
        &&& valid_configuration(self.options)
        &&& forall|i: int|
            0 <= i < self.open_log@.len() ==> accumulates(#[trigger] self.open_log@[i], self.options.expect_malformed)
        &&& self.open_packets@ == data_packets(self.open_log@)
        &&& self.open_malformed@ == malformed_of(self.open_log@)
        &&& self.open_consumed == self.open_log@.len()
        &&& self.open_log@.len() <= self.decoder.position()
    }

    /// The decoder that this iterator reads.
    pub closed spec fn decoder(&self) -> Decoder {
        self.decoder
    }

    /// The bytes not decoded yet.
    pub closed spec fn remaining(&self) -> Seq<u8> {
        self.decoder.remaining()
    }

    pub closed spec fn ignores_eof(&self) -> bool {
        self.decoder.ignores_eof()
    }

    /// Everything that the decoder returned so far, in order.
    pub closed spec fn history(&self) -> Seq<Outcome> {
        self.decoder.history()
    }

    /// The decoding steps of the group that is still open.
    pub closed spec fn pending(&self) -> Seq<Outcome> {
        self.open_log@
    }

    pub closed spec fn configuration(&self) -> TimestampsConfiguration {
        self.options
    }

    /// The time now, in nanoseconds since the start of the trace clock.
    pub closed spec fn current_offset(&self) -> u64 {
        self.current_offset
    }

    /// The time of the last local timestamp, in nanoseconds.
    pub closed spec fn prev_lts(&self) -> u64 {
        self.prev_lts
    }

    pub closed spec fn gts(&self) -> Gts {
        self.gts
    }

    /// An iterator over the timestamped packet groups of `decoder`.
    pub fn new(decoder: Decoder, options: TimestampsConfiguration) -> (r: Result<Self, ConfigurationError>)
        requires
            decoder.wf(),
        ensures
            options.clock_frequency == 0 ==> r == Err::<Self, _>(ConfigurationError::ZeroFrequency),
            options.clock_frequency != 0 && options.lts_prescaler == LocalTimestampOptions::Disabled
                ==> r == Err::<Self, _>(ConfigurationError::LocalTimestampsDisabled),
            valid_configuration(options) <==> r is Ok,
            r matches Ok(t) ==> {
                &&& t.wf()
                &&& t.decoder() == decoder
                &&& t.remaining() == decoder.remaining()
                &&& t.ignores_eof() == decoder.ignores_eof()
                &&& t.history() == decoder.history()
                &&& t.configuration() == options
                &&& t.current_offset() == 0
                &&& t.prev_lts() == 0
                &&& t.gts() == (Gts { lower: None, upper: None })
                &&& t.pending() == Seq::<Outcome>::empty()
            },
    {
        if options.clock_frequency == 0 {
            return Err(ConfigurationError::ZeroFrequency);
        }
        if options.lts_prescaler == LocalTimestampOptions::Disabled {
            return Err(ConfigurationError::LocalTimestampsDisabled);
        }
        let t = Timestamps {
            decoder,
            options,
            current_offset: 0,
            gts: Gts { lower: None, upper: None },
            prev_lts: 0,
            open_packets: Vec::new(),
            open_malformed: Vec::new(),
            open_consumed: 0,
            open_log: Ghost(Seq::empty()),
        };
        assert(t.open_packets@ =~= data_packets(t.open_log@));
        assert(t.open_malformed@ =~= malformed_of(t.open_log@));
        Ok(t)
    }

    /// Appends bytes that arrived on the stream.
    pub fn push(&mut self, more: &[u8])
        requires
            old(self).wf(),
        ensures
            final(self).wf(),
            final(self).remaining() == old(self).remaining() + more@,
            final(self).ignores_eof() == old(self).ignores_eof(),
            final(self).history() == old(self).history(),
            final(self).pending() == old(self).pending(),
            final(self).configuration() == old(self).configuration(),
            final(self).current_offset() == old(self).current_offset(),
            final(self).prev_lts() == old(self).prev_lts(),
            final(self).gts() == old(self).gts(),
    {
        self.decoder.push(more);
    }

    fn apply_lts(&mut self, lts: u64, data_relation: TimestampDataRelation) -> (t: Timestamp)
        requires
            valid_configuration(old(self).options),
        ensures
            final(self).current_offset == add_sat(
                old(self).current_offset,
                offset_nanos(lts * prescale_of(Some(old(self).options.lts_prescaler)), old(self).options.clock_frequency as int),
            ),
            final(self).prev_lts == final(self).current_offset,
            t == timestamp_of(data_relation, old(self).prev_lts, final(self).current_offset),
            final(self).decoder == old(self).decoder,
            final(self).options == old(self).options,
            final(self).gts == old(self).gts,
            final(self).open_packets == old(self).open_packets,
            final(self).open_malformed == old(self).open_malformed,
            final(self).open_consumed == old(self).open_consumed,
            final(self).open_log == old(self).open_log,
    {
        let prescale: u64 = match self.options.lts_prescaler {
            LocalTimestampOptions::EnabledDiv4 => 4,
            LocalTimestampOptions::EnabledDiv16 => 16,
            LocalTimestampOptions::EnabledDiv64 => 64,
            _ => 1,
        };
        let offset = offset_nanos_of(lts, prescale, self.options.clock_frequency);
        self.current_offset = if self.current_offset > u64::MAX - offset {
            u64::MAX
        } else {
            self.current_offset + offset
        };
        let prev = duration_from_nanos(self.prev_lts);
        let curr = duration_from_nanos(self.current_offset);
        let t = match data_relation {
            TimestampDataRelation::Sync => Timestamp::Sync(curr),
            TimestampDataRelation::UnknownDelay => Timestamp::UnknownDelay { prev, curr },
            TimestampDataRelation::AssocEventDelay => Timestamp::AssocEventDelay(curr),
            TimestampDataRelation::UnknownAssocEventDelay => Timestamp::UnknownAssocEventDelay { prev, curr },
        };
        self.prev_lts = self.current_offset;
        t
    }

    fn apply_gts(&mut self)
        requires
            valid_configuration(old(self).options),
        ensures
            final(self).current_offset == after_merge(
                old(self).current_offset,
                old(self).gts,
                old(self).options.clock_frequency as int,
            ),
            final(self).prev_lts == old(self).prev_lts,
            final(self).decoder == old(self).decoder,
            final(self).options == old(self).options,
            final(self).gts == old(self).gts,
            final(self).open_packets == old(self).open_packets,
            final(self).open_malformed == old(self).open_malformed,
            final(self).open_consumed == old(self).open_consumed,
            final(self).open_log == old(self).open_log,
    {
        if let Some(gts) = self.gts.merge() {
            self.current_offset = offset_nanos_of(gts, 1, self.options.clock_frequency);
        }
    }

    /// Decodes packets up to and including the next local timestamp and
    /// returns them as a group, stamped with the time that the timestamp
    /// gives. Global timestamps on the way set the time now but close no
    /// group and are not part of it. At the end of the bytes the group
    /// stays open, to go on once more bytes were pushed. Any other error
    /// of the decoder ends the call and is returned (a malformed packet
    /// only where malformed packets are not expected), and the open
    /// group is dropped.
    pub fn next_timestamped(&mut self) -> (r: Result<TimestampedTracePackets, DecoderErrorInt>)
        requires
            old(self).wf(),
        ensures
            final(self).wf(),
            group_step(*old(self), *final(self), r),
    {
        let ghost h0 = self.decoder.history();
        let ghost s0 = self.decoder.remaining();
        let ghost p0 = self.open_log@;
        let ghost ie = self.decoder.ignores_eof();
        let ghost st0 = (self.current_offset, self.gts);
        let ghost freq = self.options.clock_frequency as int;
        let expect_malformed = self.options.expect_malformed;
        let mut packets: Vec<TracePacket> = Vec::new();
        let mut malformed_packets: Vec<MalformedPacket> = Vec::new();
        std::mem::swap(&mut packets, &mut self.open_packets);
        std::mem::swap(&mut malformed_packets, &mut self.open_malformed);
        let mut consumed_packets: usize = self.open_consumed;
        proof {
            assert(forall|i: int| 0 <= i < p0.len() ==> accumulates(#[trigger] p0[i], expect_malformed));
            assert(self.decoder.history().subrange(h0.len() as int, h0.len() as int) =~= Seq::<Outcome>::empty());
            assert(self.decoder.history().subrange(0, h0.len() as int) =~= h0);
            assert(p0 + Seq::<Outcome>::empty() =~= p0);
        }
        loop
            invariant
                self.decoder.wf(),
                valid_configuration(self.options),
                self.options == old(self).options,
                self.prev_lts == old(self).prev_lts,
                self.open_log == old(self).open_log,
                self.open_consumed == old(self).open_consumed,
                self.open_packets@ == Seq::<TracePacket>::empty(),
                self.open_malformed@ == Seq::<MalformedPacket>::empty(),
                h0 == old(self).decoder.history(),
                s0 == old(self).decoder.remaining(),
                p0 == old(self).open_log@,
                ie == old(self).decoder.ignores_eof(),
                self.decoder.ignores_eof() == ie,
                st0 == (old(self).current_offset, old(self).gts),
                freq == self.options.clock_frequency as int,
                expect_malformed == self.options.expect_malformed,
                p0.len() <= consumed_packets <= self.decoder.position(),
                self.decoder.history().len() == h0.len() + consumed_packets - p0.len(),
                self.decoder.history().subrange(0, h0.len() as int) == h0,
                forall|i: int| 0 <= i < p0.len() ==> accumulates(#[trigger] p0[i], expect_malformed),
                ({
                    let seg = self.decoder.history().subrange(
                        h0.len() as int,
                        self.decoder.history().len() as int,
                    );
                    &&& steps(s0, seg, self.decoder.remaining(), ie)
                    &&& forall|i: int| 0 <= i < seg.len() ==> accumulates(#[trigger] seg[i], expect_malformed)
                    &&& packets@ == data_packets(p0 + seg)
                    &&& malformed_packets@ == malformed_of(p0 + seg)
                    &&& (self.current_offset, self.gts) == state_after(st0, seg, freq)
                }),
            decreases self.decoder.remaining().len(),
        {
            let ghost hp = self.decoder.history();
            let ghost rp = self.decoder.remaining();
            let ghost segp = hp.subrange(h0.len() as int, hp.len() as int);
            let item = self.decoder.next_single();
            let ghost h1 = self.decoder.history();
            let ghost seg = h1.subrange(h0.len() as int, h1.len() as int);
            proof {
                self.decoder.lemma_remaining_fits();
                assert(seg =~= segp.push(item));
                assert(seg.drop_last() =~= segp);
                assert(h1.subrange(0, h0.len() as int) =~= h0);
                lemma_steps_push(s0, segp, rp, item, self.decoder.remaining(), ie);
                assert(p0 + seg =~= (p0 + segp).push(item));
                assert((p0 + seg).drop_last() =~= p0 + segp);
            }
            match item {
                Err(DecoderErrorInt::MalformedPacket(m)) => {
                    if expect_malformed {
                        consumed_packets = consumed_packets + 1;
                        malformed_packets.push(m);
                    } else {
                        self.open_consumed = 0;
                        self.open_log = Ghost(Seq::empty());
                        proof {
                            assert(self.open_packets@ =~= data_packets(self.open_log@));
                            assert(self.open_malformed@ =~= malformed_of(self.open_log@));
                        }
                        return Err(DecoderErrorInt::MalformedPacket(m));
                    }
                },
                Err(DecoderErrorInt::Eof) => {
                    self.open_packets = packets;
                    self.open_malformed = malformed_packets;
                    self.open_consumed = consumed_packets;
                    self.open_log = Ghost(p0 + segp);
                    proof {
                        assert forall|i: int| 0 <= i < self.open_log@.len() implies accumulates(
                            #[trigger] self.open_log@[i],
                            self.options.expect_malformed,
                        ) by {
                            if i >= p0.len() {
                                assert(self.open_log@[i] == segp[i - p0.len()]);
                            } else {
                                assert(self.open_log@[i] == p0[i]);
                                assert(accumulates(p0[i], old(self).options.expect_malformed));
                            }
                        }
                    }
                    return Err(DecoderErrorInt::Eof);
                },
                Err(e) => {
                    self.open_consumed = 0;
                    self.open_log = Ghost(Seq::empty());
                    proof {
                        assert(self.open_packets@ =~= data_packets(self.open_log@));
                        assert(self.open_malformed@ =~= malformed_of(self.open_log@));
                    }
                    return Err(e);
                },
                Ok(packet) => {
                    consumed_packets = consumed_packets + 1;
                    match packet {
                        TracePacket::LocalTimestamp1 { ts, data_relation } => {
                            proof {
                                if forall|i: int| 0 <= i < seg.len() ==> !is_global_timestamp(#[trigger] seg[i]) {
                                    assert forall|i: int| 0 <= i < segp.len() implies !is_global_timestamp(#[trigger] segp[i]) by {
                                        assert(segp[i] == seg[i]);
                                    }
                                    lemma_state_without_gts(st0, segp, freq);
                                }
                            }
                            let timestamp = self.apply_lts(ts as u64, data_relation);
                            self.open_consumed = 0;
                            self.open_log = Ghost(Seq::empty());
                            proof {
                                assert(self.open_packets@ =~= data_packets(self.open_log@));
                                assert(self.open_malformed@ =~= malformed_of(self.open_log@));
                            }
                            return Ok(TimestampedTracePackets { timestamp, packets, malformed_packets, consumed_packets });
                        },
                        TracePacket::LocalTimestamp2 { ts } => {
                            proof {
                                if forall|i: int| 0 <= i < seg.len() ==> !is_global_timestamp(#[trigger] seg[i]) {
                                    assert forall|i: int| 0 <= i < segp.len() implies !is_global_timestamp(#[trigger] segp[i]) by {
                                        assert(segp[i] == seg[i]);
                                    }
                                    lemma_state_without_gts(st0, segp, freq);
                                }
                            }
                            let timestamp = self.apply_lts(ts as u64, TimestampDataRelation::Sync);
                            self.open_consumed = 0;
                            self.open_log = Ghost(Seq::empty());
                            proof {
                                assert(self.open_packets@ =~= data_packets(self.open_log@));
                                assert(self.open_malformed@ =~= malformed_of(self.open_log@));
                            }
                            return Ok(TimestampedTracePackets { timestamp, packets, malformed_packets, consumed_packets });
                        },
                        TracePacket::GlobalTimestamp1 { ts, wrap, clkch } => {
                            self.gts.replace_lower(ts);
                            if wrap {
                                self.gts.upper = None;
                            } else if clkch {
                                self.gts.reset();
                            } else {
                                self.apply_gts();
                            }
                        },
                        TracePacket::GlobalTimestamp2 { ts } => {
                            self.gts.upper = Some(ts);
                            self.apply_gts();
                        },
                        packet => {
                            packets.push(packet);
                        },
                    }
                },
            }
        }
    }

    /// The next group of packets; `None` where the decoder reached the end
    /// of the bytes.
    pub fn next(&mut self) -> (r: Option<Result<TimestampedTracePackets, DecoderError>>)
        requires
            old(self).wf(),
        ensures
            final(self).wf(),
            exists|g: Result<TimestampedTracePackets, DecoderErrorInt>|
                group_step(*old(self), *final(self), g) && r == yielded(g),
    {
        let trace = self.next_timestamped();
        let ghost g = trace;
        let r = match trace {
            Err(DecoderErrorInt::Eof) => None,
            Err(DecoderErrorInt::UnexpectedEof) => Some(Err(DecoderError::UnexpectedEof)),
            Err(DecoderErrorInt::MalformedPacket(m)) => Some(Err(DecoderError::MalformedPacket(m))),
            Ok(trace) => Some(Ok(trace)),
        };
        assert(group_step(*old(self), *self, g) && r == yielded(g));
        r
    }
}

} // verus!
