use std::time::Duration;

use itm::{
    calc_offset, ConfigurationError, Decoder, DecoderError, DecoderOptions, Gts,
    LocalTimestampOptions, MalformedPacket, Timestamp, Timestamps, TimestampsConfiguration,
    TracePacket,
};

const FREQ: u32 = 16_000_000;

fn config(prescaler: LocalTimestampOptions, expect_malformed: bool) -> TimestampsConfiguration {
    TimestampsConfiguration {
        clock_frequency: FREQ,
        lts_prescaler: prescaler,
        expect_malformed,
    }
}

fn engine(stream: &[u8], cfg: TimestampsConfiguration) -> Timestamps {
    Decoder::new(stream, DecoderOptions { ignore_eof: false }).timestamps(cfg)
}

fn curr(t: &Timestamp) -> Duration {
    match t {
        Timestamp::Sync(d) | Timestamp::AssocEventDelay(d) => *d,
        Timestamp::UnknownDelay { curr, .. } | Timestamp::UnknownAssocEventDelay { curr, .. } => {
            *curr
        }
    }
}

#[test]
fn empty_stream_yields_no_group() {
    let mut it = engine(&[], config(LocalTimestampOptions::Enabled, false));
    assert!(it.next().is_none());
}

#[test]
fn single_lts2() {
    let mut it = engine(&[0b0110_0000], config(LocalTimestampOptions::Enabled, false));
    let g = it.next().unwrap().unwrap();
    assert_eq!(g.timestamp, Timestamp::Sync(Duration::from_nanos(375)));
    assert!(g.packets.is_empty());
    assert!(g.malformed_packets.is_empty());
    assert_eq!(g.consumed_packets, 1);
    assert!(it.next().is_none());
}

#[test]
fn lts1_assoc_event_delay() {
    let mut it = engine(&[0b1101_0000, 0b0000_0001], config(LocalTimestampOptions::Enabled, false));
    let g = it.next().unwrap().unwrap();
    assert_eq!(g.timestamp, Timestamp::AssocEventDelay(Duration::from_nanos(63)));
}

#[test]
fn lts1_unknown_delay_reports_previous_time() {
    // LTS2 (ts = 6), then LTS1 with an unknown delay (ts = 1).
    let mut it = engine(
        &[0b0110_0000, 0b1110_0000, 0b0000_0001],
        config(LocalTimestampOptions::Enabled, false),
    );
    let first = it.next().unwrap().unwrap();
    assert_eq!(first.timestamp, Timestamp::Sync(Duration::from_nanos(375)));
    let second = it.next().unwrap().unwrap();
    assert_eq!(
        second.timestamp,
        Timestamp::UnknownDelay {
            prev: Duration::from_nanos(375),
            curr: Duration::from_nanos(438),
        }
    );
}

#[test]
fn prescaler_scaling() {
    // LTS1 with ts = 1000.
    let mut it = engine(
        &[0b1100_0000, 0b1110_1000, 0b0000_0111],
        config(LocalTimestampOptions::EnabledDiv4, false),
    );
    let g = it.next().unwrap().unwrap();
    assert_eq!(g.timestamp, Timestamp::Sync(Duration::from_micros(250)));
}

#[test]
fn prescaler_div16_and_div64() {
    assert_eq!(
        calc_offset(1, Some(LocalTimestampOptions::EnabledDiv16), FREQ),
        Duration::from_nanos(1000)
    );
    assert_eq!(
        calc_offset(1, Some(LocalTimestampOptions::EnabledDiv64), FREQ),
        Duration::from_nanos(4000)
    );
    assert_eq!(calc_offset(5, None, FREQ), Duration::from_nanos(313));
}

#[test]
fn ceiling_rounding() {
    // 3 / 16 MHz = 187.5 ns
    assert_eq!(
        calc_offset(3, Some(LocalTimestampOptions::Enabled), FREQ),
        Duration::from_nanos(188)
    );
    // exact: 16 / 16 MHz = 1000 ns
    assert_eq!(
        calc_offset(16, Some(LocalTimestampOptions::Enabled), FREQ),
        Duration::from_nanos(1000)
    );
    // 1 / 3 Hz = 333333333.33.. ns
    assert_eq!(calc_offset(1, None, 3), Duration::from_nanos(333_333_334));
    assert_eq!(calc_offset(0, None, 3), Duration::from_nanos(0));
}

#[test]
fn offset_saturates_at_largest_duration() {
    assert_eq!(calc_offset(u64::MAX, None, 1), Duration::from_nanos(u64::MAX));
}

#[test]
fn malformed_tolerance() {
    let stream: &[u8] = &[
        0b0000_0001, 0x41, // data on port 0
        0b0000_0100,       // invalid header
        0b0000_1001, 0x42, // data on port 1
        0b1100_0000, 0b0000_0001, // LTS1, ts = 1
    ];
    let mut it = engine(stream, config(LocalTimestampOptions::Enabled, true));
    let g = it.next().unwrap().unwrap();
    assert_eq!(
        g.packets,
        vec![
            TracePacket::ItmData { port: 0, payload: vec![0x41] },
            TracePacket::ItmData { port: 1, payload: vec![0x42] },
        ]
    );
    assert_eq!(g.malformed_packets, vec![MalformedPacket::InvalidHeader(0b0000_0100)]);
    assert_eq!(g.timestamp, Timestamp::Sync(Duration::from_nanos(63)));
    assert_eq!(g.consumed_packets, 4);
    assert!(it.next().is_none());
}

#[test]
fn malformed_is_an_error_when_not_expected() {
    let stream: &[u8] = &[0b0000_0001, 0x41, 0b0000_0100, 0b1100_0000, 0b0000_0001];
    let mut it = engine(stream, config(LocalTimestampOptions::Enabled, false));
    assert_eq!(
        it.next(),
        Some(Err(DecoderError::MalformedPacket(MalformedPacket::InvalidHeader(0b0000_0100))))
    );
    // The engine stays usable after an error.
    let g = it.next().unwrap().unwrap();
    assert!(g.packets.is_empty());
    assert_eq!(g.consumed_packets, 1);
}

#[test]
fn truncated_packet_is_unexpected_eof() {
    let mut it = engine(&[0b1100_0000, 0b1000_0001], config(LocalTimestampOptions::Enabled, false));
    assert_eq!(it.next(), Some(Err(DecoderError::UnexpectedEof)));
    assert!(it.next().is_none());
}

#[test]
fn configuration_is_checked() {
    let d = Decoder::new(&[], DecoderOptions { ignore_eof: false });
    let r = Timestamps::new(
        d,
        TimestampsConfiguration {
            clock_frequency: 0,
            lts_prescaler: LocalTimestampOptions::Enabled,
            expect_malformed: false,
        },
    );
    assert!(matches!(r, Err(ConfigurationError::ZeroFrequency)));
    let d = Decoder::new(&[], DecoderOptions { ignore_eof: false });
    let r = Timestamps::new(d, config(LocalTimestampOptions::Disabled, false));
    assert!(matches!(r, Err(ConfigurationError::LocalTimestampsDisabled)));
    let d = Decoder::new(&[], DecoderOptions { ignore_eof: false });
    assert!(Timestamps::new(d, config(LocalTimestampOptions::Enabled, false)).is_ok());
}

/// The stream of the original timestamp check: 14 packets in 5 groups.
fn mixed_stream() -> Vec<u8> {
    vec![
        0x15, 0x00, 0x15, 0x00, 0x15, 0x00, // three PC samples
        0x94, 0x80, 0xa0, 0x84, 0x00, // GTS1
        0xb4, 0xbd, 0xf4, 0x91, 0x01, // GTS2
        0xc0, 0xc9, 0x01, // LTS1
        0x15, 0x00, // PC sample
        0xc0, 0xc9, 0x01, // LTS1
        0x70, // overflow
        0xc0, 0xc9, 0x01, // LTS1
        0x94, 0x80, 0xa0, 0x84, 0x00, // GTS1
        0xb4, 0xbd, 0xf4, 0x91, 0x01, // GTS2
        0xf0, 0xc9, 0x01, // LTS1
        0x60, // LTS2
    ]
}

#[test]
fn consumed_packets_sum_to_packets_decoded() {
    let stream = mixed_stream();
    let mut singles = Decoder::new(&stream, DecoderOptions { ignore_eof: false }).singles();
    let mut total = 0;
    while let Some(p) = singles.next() {
        assert!(p.is_ok());
        total += 1;
    }
    let mut it = engine(&stream, config(LocalTimestampOptions::Enabled, false));
    let mut sum = 0;
    while let Some(g) = it.next() {
        sum += g.unwrap().consumed_packets;
    }
    assert_eq!(total, 14);
    assert_eq!(sum, total);
}

#[test]
fn every_data_packet_lands_in_one_group_in_order() {
    let stream = mixed_stream();
    let mut singles = Decoder::new(&stream, DecoderOptions { ignore_eof: false }).singles();
    let mut data = Vec::new();
    while let Some(p) = singles.next() {
        let p = p.unwrap();
        match p {
            TracePacket::LocalTimestamp1 { .. }
            | TracePacket::LocalTimestamp2 { .. }
            | TracePacket::GlobalTimestamp1 { .. }
            | TracePacket::GlobalTimestamp2 { .. } => {}
            p => data.push(p),
        }
    }
    let mut it = engine(&stream, config(LocalTimestampOptions::Enabled, false));
    let mut grouped = Vec::new();
    while let Some(g) = it.next() {
        grouped.extend(g.unwrap().packets);
    }
    assert_eq!(data.len(), 5);
    assert_eq!(grouped, data);
}

#[test]
fn time_does_not_go_back_without_global_timestamps() {
    let stream: &[u8] = &[
        0b0110_0000, // LTS2
        0b0001_0101, 0b0000_0000, // PC sample
        0b1100_0000, 0b0000_0101, // LTS1
        0b1110_0000, 0b0000_0000, // LTS1 with ts = 0
        0b0001_0000, // LTS2
    ];
    let mut it = engine(stream, config(LocalTimestampOptions::Enabled, false));
    let mut last = Duration::from_nanos(0);
    let mut n = 0;
    while let Some(g) = it.next() {
        let c = curr(&g.unwrap().timestamp);
        assert!(c >= last);
        last = c;
        n += 1;
    }
    assert_eq!(n, 4);
    assert_eq!(last, Duration::from_nanos(375 + 313 + 63));
}

#[test]
fn gts_compression_overlays_low_bits() {
    let mut g = Gts { lower: Some(1 << 26), upper: None };
    g.replace_lower(0xff);
    assert_eq!(g.lower, Some((1 << 26) | 0xff));
    assert_eq!(g.upper, None);

    let mut g = Gts { lower: Some(0b1111_0000), upper: Some(3) };
    g.replace_lower(0b101);
    assert_eq!(g.lower, Some(0b1111_0101));

    let mut g = Gts { lower: Some(0xffff), upper: None };
    g.replace_lower(0);
    assert_eq!(g.lower, Some(0xffff));

    let mut g = Gts { lower: Some(0xffff), upper: None };
    g.replace_lower(u64::MAX);
    assert_eq!(g.lower, Some(u64::MAX));

    let mut g = Gts { lower: None, upper: None };
    g.replace_lower(5);
    assert_eq!(g.lower, Some(5));
}

#[test]
fn gts_reset_and_from_one() {
    let mut g = Gts { lower: Some(1), upper: Some(2) };
    g.reset();
    assert_eq!(g, Gts { lower: None, upper: None });
    assert_eq!(
        Gts::from_one(TracePacket::GlobalTimestamp1 { ts: 7, wrap: false, clkch: false }),
        Gts { lower: Some(7), upper: None }
    );
    assert_eq!(
        Gts::from_one(TracePacket::GlobalTimestamp2 { ts: 9 }),
        Gts { lower: None, upper: Some(9) }
    );
}

#[test]
fn gts1_wrap_waits_for_gts2() {
    let stream: &[u8] = &[
        0x94, 0x81, 0x00, // GTS1, lower = 1
        0xb4, 0x81, 0x80, 0x80, 0x00, // GTS2 (48-bit), upper = 1
        0x60, // LTS2
        0x94, 0x82, 0x80, 0x80, 0x40, // GTS1 with wrap, lower = 2
        0x60, // LTS2: the time goes on from the last merge
        0xb4, 0x82, 0x80, 0x80, 0x00, // GTS2, upper = 2
        0x60, // LTS2
    ];
    let mut it = engine(stream, config(LocalTimestampOptions::Enabled, false));
    let base = (1u64 << 26) | 1;
    let a = it.next().unwrap().unwrap();
    assert_eq!(a.timestamp, Timestamp::Sync(Duration::from_nanos(base * 125 / 2 + 1 + 375)));
    let b = it.next().unwrap().unwrap();
    assert_eq!(b.timestamp, Timestamp::Sync(Duration::from_nanos(base * 125 / 2 + 1 + 750)));
    let c = it.next().unwrap().unwrap();
    let merged = (2u64 << 26) | 2;
    assert_eq!(c.timestamp, Timestamp::Sync(Duration::from_nanos(merged * 125 / 2 + 375)));
}

#[test]
fn gts1_clock_change_resets_halves() {
    let stream: &[u8] = &[
        0x94, 0x81, 0x00, // GTS1, lower = 1
        0xb4, 0x81, 0x80, 0x80, 0x00, // GTS2, upper = 1
        0x94, 0x82, 0x80, 0x80, 0x20, // GTS1 with clock change
        0xb4, 0x82, 0x80, 0x80, 0x00, // GTS2 alone: no merge
        0x60, // LTS2
    ];
    let mut it = engine(stream, config(LocalTimestampOptions::Enabled, false));
    let base = (1u64 << 26) | 1;
    let a = it.next().unwrap().unwrap();
    assert_eq!(a.timestamp, Timestamp::Sync(Duration::from_nanos(base * 125 / 2 + 1 + 375)));
    assert_eq!(a.consumed_packets, 5);
}

#[test]
fn live_stream_keeps_cut_packet() {
    let mut d = Decoder::new(&[0b1100_0000, 0b1000_0001], DecoderOptions { ignore_eof: true });
    d.push(&[]);
    let mut it = d.timestamps(config(LocalTimestampOptions::Enabled, false));
    assert!(it.next().is_none());
    assert!(it.next().is_none());
}

#[test]
fn live_stream_completes_after_push() {
    let mut d = Decoder::new(&[0b1100_0000, 0b1000_0001], DecoderOptions { ignore_eof: true });
    let mut s = d.singles();
    assert!(s.next().is_none());
    d = Decoder::new(&[0b1100_0000, 0b1000_0001], DecoderOptions { ignore_eof: true });
    d.push(&[0b0000_0001]);
    let mut s = d.singles();
    assert_eq!(
        s.next(),
        Some(Ok(TracePacket::LocalTimestamp1 {
            ts: 129,
            data_relation: itm::TimestampDataRelation::Sync
        }))
    );
    assert!(s.next().is_none());
}

#[test]
fn live_stream_keeps_open_group_across_end_of_bytes() {
    // Two PC samples, the second cut off, then the rest arrives.
    let d = Decoder::new(&[0x15, 0x00, 0x15], DecoderOptions { ignore_eof: true });
    let mut it = d.timestamps(config(LocalTimestampOptions::Enabled, false));
    assert!(it.next().is_none());
    it.push(&[0x00, 0x60]);
    let g = it.next().unwrap().unwrap();
    assert_eq!(
        g.packets,
        vec![TracePacket::PCSample { pc: None }, TracePacket::PCSample { pc: None }]
    );
    assert_eq!(g.consumed_packets, 3);
    assert_eq!(g.timestamp, Timestamp::Sync(Duration::from_nanos(375)));
    assert!(it.next().is_none());
}

#[test]
fn open_group_waits_for_pushed_bytes() {
    let mut it = engine(&[0x15, 0x00], config(LocalTimestampOptions::Enabled, true));
    assert!(it.next().is_none());
    it.push(&[0x04, 0x60]);
    let g = it.next().unwrap().unwrap();
    assert_eq!(g.packets, vec![TracePacket::PCSample { pc: None }]);
    assert_eq!(g.malformed_packets, vec![MalformedPacket::InvalidHeader(0x04)]);
    assert_eq!(g.consumed_packets, 3);
}

#[test]
fn singles_push_bytes() {
    let mut s = Decoder::new(&[0x15], DecoderOptions { ignore_eof: true }).singles();
    assert!(s.next().is_none());
    s.push(&[0x00]);
    assert_eq!(s.next(), Some(Ok(TracePacket::PCSample { pc: None })));
}
