use vstd::prelude::*;

use crate::iter::{valid_configuration, Gts, Timestamps, TimestampsConfiguration};
use crate::packet::{decode_packet, decodes, rest, Decoded, MalformedPacket, TracePacket};

verus! {

/// Decoder options.
#[derive(Debug, Clone, Copy, PartialEq, Eq, Structural)]
pub struct DecoderOptions {
    /// The stream is live: a packet cut off by the end of the bytes
    /// buffered so far is left in place until more bytes come, instead
    /// of being reported as an unexpected end.
    pub ignore_eof: bool,
}

/// What one decoding step may fail with.
#[derive(Debug, Clone, PartialEq)]
pub enum DecoderErrorInt {
    /// The bytes ended on a packet boundary.
    Eof,
    /// The bytes ended inside a packet.
    UnexpectedEof,
    /// A packet broke the protocol.
    MalformedPacket(MalformedPacket),
}

/// Errors that the iterators over a decoder yield.
#[derive(Debug, Clone, PartialEq)]
pub enum DecoderError {
    /// The bytes ended inside a packet.
    UnexpectedEof,
    /// A packet broke the protocol.
    MalformedPacket(MalformedPacket),
}

/// What one decoding step returned.
pub type Outcome = Result<TracePacket, DecoderErrorInt>;

/// A decoder of ITM/DWT packets over the bytes of a trace stream.
pub struct Decoder {
    bytes: Vec<u8>,
    pos: usize,
    options: DecoderOptions,
    log: Ghost<Seq<Outcome>>,
}

/// What one decoding step returns where the first packet of the bytes
/// left is `d`.
pub open spec fn step_outcome(d: Decoded, ignore_eof: bool) -> Outcome {
    match d {
        Decoded::Packet(p, _) => Ok(p),
        Decoded::Malformed(m, _) => Err(DecoderErrorInt::MalformedPacket(m)),
        Decoded::Truncated => if ignore_eof {
            Err(DecoderErrorInt::Eof)
        } else {
            Err(DecoderErrorInt::UnexpectedEof)
        },
        Decoded::Empty => Err(DecoderErrorInt::Eof),
    }
}

/// How many of the bytes left `s` one decoding step takes, where the
/// first packet of them is `d`.
pub open spec fn step_len(s: Seq<u8>, d: Decoded, ignore_eof: bool) -> int {
    match d {
        Decoded::Packet(_, n) => n as int,
        Decoded::Malformed(_, n) => n as int,
        Decoded::Truncated => if ignore_eof {
            0
        } else {
            s.len() as int
        },
        Decoded::Empty => 0,
    }
}

/// One decoding step on the bytes left `s`: it returns `o` and leaves
/// the bytes `t`.
pub open spec fn one_step(s: Seq<u8>, o: Outcome, t: Seq<u8>, ignore_eof: bool) -> bool {
    exists|d: Decoded|
        #[trigger] decodes(s, d) && o == step_outcome(d, ignore_eof) && t == s.subrange(
            step_len(s, d, ignore_eof),
            s.len() as int,
        )
}

/// Decoding steps one after the other on the bytes left `s`: they
/// return `seg`, in order, and leave the bytes `t`.
pub open spec fn steps(s: Seq<u8>, seg: Seq<Outcome>, t: Seq<u8>, ignore_eof: bool) -> bool
    decreases seg.len(),
{
    if seg.len() == 0 {
        t == s
    } else {
        exists|m: Seq<u8>| #[trigger] one_step(s, seg[0], m, ignore_eof) && steps(m, seg.drop_first(), t, ignore_eof)
    }
}

/// One more step after a run of steps.
pub proof fn lemma_steps_push(s: Seq<u8>, seg: Seq<Outcome>, t: Seq<u8>, o: Outcome, u: Seq<u8>, ignore_eof: bool)
    requires
        steps(s, seg, t, ignore_eof),
        one_step(t, o, u, ignore_eof),
    ensures
        steps(s, seg.push(o), u, ignore_eof),
    decreases seg.len(),
{
    if seg.len() == 0 {
        assert(seg.push(o).drop_first() =~= Seq::<Outcome>::empty());
        assert(steps(u, Seq::<Outcome>::empty(), u, ignore_eof));
        assert(seg.push(o)[0] == o);
        assert(one_step(s, seg.push(o)[0], u, ignore_eof) && steps(u, seg.push(o).drop_first(), u, ignore_eof));
    } else {
        let m = choose|m: Seq<u8>| #[trigger] one_step(s, seg[0], m, ignore_eof) && steps(m, seg.drop_first(), t, ignore_eof);
        lemma_steps_push(m, seg.drop_first(), t, o, u, ignore_eof);
        assert(seg.push(o).drop_first() =~= seg.drop_first().push(o));
        assert(seg.push(o)[0] == seg[0]);
        assert(one_step(s, seg.push(o)[0], m, ignore_eof) && steps(m, seg.push(o).drop_first(), u, ignore_eof));
    }
}

impl Decoder {
    /// The bytes not decoded yet.
    pub closed spec fn remaining(&self) -> Seq<u8> {
        rest(self.bytes@, self.pos as int)
    }

    /// Everything that the decoding steps so far returned, in order.
    pub closed spec fn history(&self) -> Seq<Outcome> {
        self.log@
    }

    pub closed spec fn ignores_eof(&self) -> bool {
        self.options.ignore_eof
    }

    /// How many bytes were decoded so far.
    pub closed spec fn position(&self) -> nat {
        self.pos as nat
    }

    pub closed spec fn wf(&self) -> bool {
        self.pos <= self.bytes@.len() <= usize::MAX
    }

    /// What is left to decode, and what was decoded, fit in memory.
    pub proof fn lemma_remaining_fits(&self)
        requires
            self.wf(),
        ensures
            self.remaining().len() <= usize::MAX,
            self.position() <= usize::MAX,
    {
    }

    /// A decoder over `bytes`.
    pub fn new(bytes: &[u8], options: DecoderOptions) -> (r: Self)
        ensures
            r.wf(),
            r.remaining() == bytes@,
            r.history() == Seq::<Outcome>::empty(),
            r.ignores_eof() == options.ignore_eof,
            r.position() == 0,
    {
        let _len = bytes.len();
        let v = vstd::slice::slice_to_vec(bytes);
        let r = Decoder { bytes: v, pos: 0, options, log: Ghost(Seq::empty()) };
        assert(r.remaining() =~= bytes@);
        r
    }

    /// Appends bytes that arrived on the stream.
    pub fn push(&mut self, more: &[u8])
        requires
            old(self).wf(),
        ensures
            final(self).wf(),
            final(self).remaining() == old(self).remaining() + more@,
            final(self).history() == old(self).history(),
            final(self).ignores_eof() == old(self).ignores_eof(),
            final(self).position() == old(self).position(),
    {
        let mut i: usize = 0;
        while i < more.len()
            invariant
                self.wf(),
                0 <= i <= more@.len(),
                self.pos == old(self).pos,
                self.bytes@ == old(self).bytes@ + more@.subrange(0, i as int),
                self.history() == old(self).history(),
                self.ignores_eof() == old(self).ignores_eof(),
            decreases more@.len() - i,
        {
            self.bytes.push(more[i]);
            let _len = self.bytes.len();
            i = i + 1;
            assert(self.bytes@ =~= old(self).bytes@ + more@.subrange(0, i as int));
        }
        assert(more@.subrange(0, more@.len() as int) =~= more@);
        assert(self.remaining() =~= old(self).remaining() + more@);
    }

    /// Decodes the next packet. Reports `Eof` where the bytes end on a
    /// packet boundary (or, with `ignore_eof`, inside a packet, which is
    /// then kept for later), and `UnexpectedEof` where they end inside a
    /// packet, whose bytes are then dropped.
    pub fn next_single(&mut self) -> (r: Outcome)
        requires
            old(self).wf(),
        ensures
            final(self).wf(),
            final(self).ignores_eof() == old(self).ignores_eof(),
            final(self).history() == old(self).history().push(r),
            one_step(old(self).remaining(), r, final(self).remaining(), old(self).ignores_eof()),
            takes_bytes(r) ==> final(self).remaining().len() < old(self).remaining().len(),
            takes_bytes(r) ==> final(self).position() > old(self).position(),
            final(self).position() >= old(self).position(),
            r == Err::<TracePacket, DecoderErrorInt>(DecoderErrorInt::Eof) ==> final(self).remaining()
                == old(self).remaining(),
    {
        let ghost s = self.remaining();
        let len = self.bytes.len();
        let d = decode_packet(self.bytes.as_slice(), self.pos);
        let ghost dd = d;
        let ghost n = step_len(s, dd, self.options.ignore_eof);
        let r = match d {
            Decoded::Packet(p, n) => {
                self.pos = self.pos + n;
                Ok(p)
            },
            Decoded::Malformed(m, n) => {
                self.pos = self.pos + n;
                Err(DecoderErrorInt::MalformedPacket(m))
            },
            Decoded::Truncated => {
                if self.options.ignore_eof {
                    Err(DecoderErrorInt::Eof)
                } else {
                    self.pos = self.bytes.len();
                    Err(DecoderErrorInt::UnexpectedEof)
                }
            },
            Decoded::Empty => Err(DecoderErrorInt::Eof),
        };
        self.log = Ghost(self.log@.push(r));
        assert(self.remaining() =~= s.subrange(n, s.len() as int));
        assert(decodes(s, dd) && r == step_outcome(dd, self.options.ignore_eof) && self.remaining() == s.subrange(
            step_len(s, dd, self.options.ignore_eof),
            s.len() as int,
        ));
        r
    }

    /// An iterator over the packets of this decoder.
    pub fn singles(self) -> (r: Singles)
        requires
            self.wf(),
        ensures
            r.wf(),
            r.decoder() == self,
    {
        Singles::new(self)
    }

    /// An iterator over the timestamped packet groups of this decoder.
    pub fn timestamps(self, options: TimestampsConfiguration) -> (r: Timestamps)
        requires
            self.wf(),
            valid_configuration(options),
        ensures
            r.wf(),
            r.decoder() == self,
            r.remaining() == self.remaining(),
            r.ignores_eof() == self.ignores_eof(),
            r.history() == self.history(),
            r.configuration() == options,
            r.current_offset() == 0,
            r.prev_lts() == 0,
            r.gts() == (Gts { lower: None, upper: None }),
            r.pending() == Seq::<Outcome>::empty(),
    {
        Timestamps::new(self, options).unwrap()
    }
}

/// Iterator that yields [`TracePacket`]s.
pub struct Singles {
    decoder: Decoder,
}

impl Singles {
    pub closed spec fn wf(&self) -> bool {
        self.decoder.wf()
    }

    pub closed spec fn decoder(&self) -> Decoder {
        self.decoder
    }

    pub fn new(decoder: Decoder) -> (r: Self)
        requires
            decoder.wf(),
        ensures
            r.wf(),
            r.decoder() == decoder,
    {
        Singles { decoder }
    }

    /// Appends bytes that arrived on the stream.
    pub fn push(&mut self, more: &[u8])
        requires
            old(self).wf(),
        ensures
            final(self).wf(),
            final(self).decoder().remaining() == old(self).decoder().remaining() + more@,
            final(self).decoder().history() == old(self).decoder().history(),
            final(self).decoder().ignores_eof() == old(self).decoder().ignores_eof(),
    {
        self.decoder.push(more);
    }

    /// The next packet; `None` at the end of the bytes.
    pub fn next(&mut self) -> (r: Option<Result<TracePacket, DecoderError>>)
        requires
            old(self).wf(),
        ensures
            final(self).wf(),
            final(self).decoder().ignores_eof() == old(self).decoder().ignores_eof(),
            final(self).decoder().history().len() == old(self).decoder().history().len() + 1,
            final(self).decoder().history().drop_last() == old(self).decoder().history(),
            one_step(
                old(self).decoder().remaining(),
                final(self).decoder().history().last(),
                final(self).decoder().remaining(),
                old(self).decoder().ignores_eof(),
            ),
            r == single_of(final(self).decoder().history().last()),
    {
        let trace = self.decoder.next_single();
        assert(self.decoder.history().drop_last() =~= old(self).decoder.history());
        match trace {
            Err(DecoderErrorInt::Eof) => None,
            Err(DecoderErrorInt::UnexpectedEof) => Some(Err(DecoderError::UnexpectedEof)),
            Err(DecoderErrorInt::MalformedPacket(m)) => Some(Err(DecoderError::MalformedPacket(m))),
            Ok(trace) => Some(Ok(trace)),
        }
    }
}

/// A decoding step that returns a packet or a malformed marker takes
/// at least one byte.
pub open spec fn takes_bytes(o: Outcome) -> bool {
    match o {
        Ok(_) => true,
        Err(DecoderErrorInt::MalformedPacket(_)) => true,
        _ => false,
    }
}

/// What the packet iterator yields for one decoding step.
pub open spec fn single_of(o: Outcome) -> Option<Result<TracePacket, DecoderError>> {
    match o {
        Err(DecoderErrorInt::Eof) => None,
        Err(DecoderErrorInt::UnexpectedEof) => Some(Err(DecoderError::UnexpectedEof)),
        Err(DecoderErrorInt::MalformedPacket(m)) => Some(Err(DecoderError::MalformedPacket(m))),
        Ok(p) => Some(Ok(p)),
    }
}

} // verus!
