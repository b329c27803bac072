use itm::{
    decode_packet, Decoded, Decoder, DecoderError, DecoderOptions, Exception, ExceptionAction,
    MalformedPacket, MemoryAccessType, TimestampDataRelation, TracePacket, VectActive,
};

fn single(bytes: &[u8]) -> Decoded {
    decode_packet(bytes, 0)
}

#[test]
fn sync_packet() {
    assert_eq!(single(&[0, 0, 0, 0, 0, 0x80]), Decoded::Packet(TracePacket::Sync, 6));
    assert_eq!(
        single(&[0, 0, 0x81]),
        Decoded::Malformed(MalformedPacket::InvalidSync { zeros: 2, last: 0x81 }, 3)
    );
    assert_eq!(single(&[0, 0, 0]), Decoded::Truncated);
}

#[test]
fn empty_bytes() {
    assert_eq!(single(&[]), Decoded::Empty);
    assert_eq!(decode_packet(&[0x70], 1), Decoded::Empty);
}

#[test]
fn overflow_and_lts2() {
    assert_eq!(single(&[0x70]), Decoded::Packet(TracePacket::Overflow, 1));
    assert_eq!(single(&[0x60]), Decoded::Packet(TracePacket::LocalTimestamp2 { ts: 6 }, 1));
    assert_eq!(single(&[0x10]), Decoded::Packet(TracePacket::LocalTimestamp2 { ts: 1 }, 1));
}

#[test]
fn lts1_relations() {
    let cases = [
        (0xc0, TimestampDataRelation::Sync),
        (0xd0, TimestampDataRelation::AssocEventDelay),
        (0xe0, TimestampDataRelation::UnknownDelay),
        (0xf0, TimestampDataRelation::UnknownAssocEventDelay),
    ];
    for (h, rel) in cases {
        assert_eq!(
            single(&[h, 0xc9, 0x01]),
            Decoded::Packet(TracePacket::LocalTimestamp1 { ts: 201, data_relation: rel }, 3)
        );
    }
}

#[test]
fn lts1_largest_and_too_long() {
    assert_eq!(
        single(&[0xc0, 0xff, 0xff, 0xff, 0x7f]),
        Decoded::Packet(
            TracePacket::LocalTimestamp1 {
                ts: (1 << 28) - 1,
                data_relation: TimestampDataRelation::Sync
            },
            5
        )
    );
    assert_eq!(
        single(&[0xc0, 0x80, 0x80, 0x80, 0x80, 0x00]),
        Decoded::Malformed(
            MalformedPacket::InvalidPayload { header: 0xc0, payload: vec![0x80; 4] },
            5
        )
    );
    assert_eq!(single(&[0xc0, 0x80]), Decoded::Truncated);
}

#[test]
fn gts1_flags() {
    assert_eq!(
        single(&[0x94, 0x81, 0x80, 0x80, 0x41]),
        Decoded::Packet(
            TracePacket::GlobalTimestamp1 { ts: 1 + (1 << 21), wrap: true, clkch: false },
            5
        )
    );
    assert_eq!(
        single(&[0x94, 0x80, 0x80, 0x80, 0x20]),
        Decoded::Packet(TracePacket::GlobalTimestamp1 { ts: 0, wrap: false, clkch: true }, 5)
    );
    assert_eq!(
        single(&[0x94, 0x7f]),
        Decoded::Packet(TracePacket::GlobalTimestamp1 { ts: 0x7f, wrap: false, clkch: false }, 2)
    );
}

#[test]
fn gts2_lengths() {
    assert_eq!(
        single(&[0xb4, 0x81, 0x80, 0x80, 0x01]),
        Decoded::Packet(TracePacket::GlobalTimestamp2 { ts: 1 + (1 << 21) }, 5)
    );
    assert_eq!(
        single(&[0xb4, 0x80, 0x80, 0x80, 0x80, 0x80, 0x07]),
        Decoded::Packet(TracePacket::GlobalTimestamp2 { ts: 7 << 35 }, 7)
    );
    assert_eq!(
        single(&[0xb4, 0x81, 0x01]),
        Decoded::Malformed(
            MalformedPacket::InvalidPayload { header: 0xb4, payload: vec![0x81, 0x01] },
            3
        )
    );
}

#[test]
fn extension_packet() {
    assert_eq!(
        single(&[0x38]),
        Decoded::Packet(TracePacket::Extension { page: 3, hardware: false }, 1)
    );
    assert_eq!(
        single(&[0x3c]),
        Decoded::Packet(TracePacket::Extension { page: 3, hardware: true }, 1)
    );
    assert_eq!(
        single(&[0xb8, 0x81, 0x02]),
        Decoded::Malformed(
            MalformedPacket::InvalidPayload { header: 0xb8, payload: vec![0x81, 0x02] },
            3
        )
    );
}

#[test]
fn invalid_headers() {
    assert_eq!(single(&[0x04]), Decoded::Malformed(MalformedPacket::InvalidHeader(0x04), 1));
    assert_eq!(single(&[0x80]), Decoded::Malformed(MalformedPacket::InvalidHeader(0x80), 1));
}

#[test]
fn itm_data() {
    assert_eq!(
        single(&[0x2b, 1, 2, 3, 4]),
        Decoded::Packet(TracePacket::ItmData { port: 5, payload: vec![1, 2, 3, 4] }, 5)
    );
    assert_eq!(
        single(&[0x02, 0xaa, 0xbb]),
        Decoded::Packet(TracePacket::ItmData { port: 0, payload: vec![0xaa, 0xbb] }, 3)
    );
    assert_eq!(single(&[0x2b, 1, 2]), Decoded::Truncated);
}

#[test]
fn event_counter_wrap() {
    assert_eq!(
        single(&[0x05, 0b0010_0001]),
        Decoded::Packet(
            TracePacket::EventCounterWrap {
                cyc: true,
                fold: false,
                lsu: false,
                sleep: false,
                exc: false,
                cpi: true
            },
            2
        )
    );
}

#[test]
fn exception_trace() {
    assert_eq!(
        single(&[0x0e, 0x0f, 0x10]),
        Decoded::Packet(
            TracePacket::ExceptionTrace {
                exception: VectActive::Exception(Exception::SysTick),
                action: ExceptionAction::Entered
            },
            3
        )
    );
    assert_eq!(
        single(&[0x0e, 0x10, 0x21]),
        Decoded::Packet(
            TracePacket::ExceptionTrace {
                exception: VectActive::Interrupt { irqn: 256 },
                action: ExceptionAction::Exited
            },
            3
        )
    );
    assert_eq!(
        single(&[0x0e, 0x01, 0x10]),
        Decoded::Malformed(MalformedPacket::InvalidExceptionTrace { exception: 1, function: 1 }, 3)
    );
    assert_eq!(
        single(&[0x0e, 0x00, 0x00]),
        Decoded::Malformed(MalformedPacket::InvalidExceptionTrace { exception: 0, function: 0 }, 3)
    );
}

#[test]
fn pc_samples() {
    assert_eq!(
        single(&[0x17, 0x78, 0x56, 0x34, 0x12]),
        Decoded::Packet(TracePacket::PCSample { pc: Some(0x1234_5678) }, 5)
    );
    assert_eq!(single(&[0x15, 0x00]), Decoded::Packet(TracePacket::PCSample { pc: None }, 2));
    assert_eq!(
        single(&[0x15, 0x01]),
        Decoded::Malformed(
            MalformedPacket::InvalidHardwarePacket { disc_id: 2, payload: vec![1] },
            2
        )
    );
}

#[test]
fn data_trace() {
    assert_eq!(
        single(&[0x47, 0x78, 0x56, 0x34, 0x12]),
        Decoded::Packet(TracePacket::DataTracePC { comparator: 0, pc: 0x1234_5678 }, 5)
    );
    assert_eq!(
        single(&[0x5e, 0x34, 0x12]),
        Decoded::Packet(TracePacket::DataTraceAddress { comparator: 1, address: 0x1234 }, 3)
    );
    assert_eq!(
        single(&[0x8d, 0xab]),
        Decoded::Packet(
            TracePacket::DataTraceValue {
                comparator: 0,
                access_type: MemoryAccessType::Write,
                value: vec![0xab]
            },
            2
        )
    );
    assert_eq!(
        single(&[0x1d, 0x00]),
        Decoded::Malformed(MalformedPacket::InvalidHardwareDisc { disc_id: 3, size: 1 }, 2)
    );
}

#[test]
fn singles_walk_the_stream() {
    let stream: &[u8] = &[0x70, 0x0e, 0x01, 0x10, 0x15, 0x00, 0xc0, 0x80];
    let mut s = Decoder::new(stream, DecoderOptions { ignore_eof: false }).singles();
    assert_eq!(s.next(), Some(Ok(TracePacket::Overflow)));
    assert_eq!(
        s.next(),
        Some(Err(DecoderError::MalformedPacket(MalformedPacket::InvalidExceptionTrace {
            exception: 1,
            function: 1
        })))
    );
    assert_eq!(s.next(), Some(Ok(TracePacket::PCSample { pc: None })));
    assert_eq!(s.next(), Some(Err(DecoderError::UnexpectedEof)));
    assert_eq!(s.next(), None);
}

#[test]
fn vector_numbers() {
    assert_eq!(VectActive::from(0), Some(VectActive::ThreadMode));
    assert_eq!(VectActive::from(1), None);
    assert_eq!(VectActive::from(2), Some(VectActive::Exception(Exception::NonMaskableInt)));
    assert_eq!(VectActive::from(8), None);
    assert_eq!(VectActive::from(16), Some(VectActive::Interrupt { irqn: 0 }));
    assert_eq!(VectActive::from(511), Some(VectActive::Interrupt { irqn: 495 }));
    assert_eq!(VectActive::from(512), None);
}

#[test]
fn exception_irqn_round_trip() {
    let all = [
        Exception::NonMaskableInt,
        Exception::HardFault,
        Exception::MemoryManagement,
        Exception::BusFault,
        Exception::UsageFault,
        Exception::SecureFault,
        Exception::SVCall,
        Exception::DebugMonitor,
        Exception::PendSV,
        Exception::SysTick,
    ];
    for e in all {
        let n = e.irqn();
        assert!((-14..=-1).contains(&n));
        assert_eq!(VectActive::from((n + 16) as u16), Some(VectActive::Exception(e)));
    }
    assert_eq!(Exception::NonMaskableInt.irqn(), -14);
    assert_eq!(Exception::SVCall.irqn(), -5);
}
