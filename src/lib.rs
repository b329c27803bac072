//! Decoder of the ARM Cortex-M ITM/DWT trace protocol, and an engine that
//! groups the decoded packets under absolute timestamps.
pub mod cortex_m;
pub mod decoder;
pub mod iter;
pub mod packet;
pub mod serial;

pub use crate::cortex_m::{Exception, LocalTimestampOptions, VectActive};
pub use crate::decoder::{Decoder, DecoderError, DecoderErrorInt, DecoderOptions, Singles};
pub use crate::iter::{
    calc_offset, ConfigurationError, Gts, Timestamp, TimestampedTracePackets, Timestamps,
    TimestampsConfiguration,
};
pub use crate::packet::{
    decode_packet, Decoded, ExceptionAction, MalformedPacket, MemoryAccessType,
    TimestampDataRelation, TracePacket,
};
pub use crate::serial::SerialError;
