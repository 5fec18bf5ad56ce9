//! In-band terminal resize frames.
//!
//! A resize frame is five bytes `0xFF RR RR CC CC`: a marker byte followed by
//! rows and cols as big-endian unsigned 16-bit values. Frames may appear at
//! any position of the input direction of a terminal or exec substream.

use vstd::prelude::*;

verus! {

/// Marker byte that opens a resize frame.
pub const RESIZE_MARKER: u8 = 0xFF;

/// Rows and cols used when the peer sends no initial size.
pub const DEFAULT_ROWS: u16 = 24;
/// Cols counterpart of `DEFAULT_ROWS`.
pub const DEFAULT_COLS: u16 = 80;

/// The five bytes of a resize frame for the given size.
pub open spec fn spec_resize_frame(rows: u16, cols: u16) -> Seq<u8> {
    seq![
        0xFFu8,
        (rows / 256) as u8,
        (rows % 256) as u8,
        (cols / 256) as u8,
        (cols % 256) as u8,
    ]
}

/// Encode a resize frame for the given terminal size.
pub fn encode_resize_frame(rows: u16, cols: u16) -> (r: Vec<u8>)
    ensures
        r@ == spec_resize_frame(rows, cols),
{
    let mut out: Vec<u8> = Vec::new();
    out.push(0xFFu8);
    out.push((rows / 256) as u8);
    out.push((rows % 256) as u8);
    out.push((cols / 256) as u8);
    out.push((cols % 256) as u8);
    proof {
        assert(out@ =~= spec_resize_frame(rows, cols));
    }
    out
}

/// The size carried by the first five bytes, if they form a resize frame.
pub open spec fn spec_parse_resize(b: Seq<u8>) -> Option<(u16, u16)> {
    if b.len() >= 5 && b[0] == 0xFFu8 {
        Some(
            (
                (b[1] as u16 * 256 + b[2] as u16) as u16,
                (b[3] as u16 * 256 + b[4] as u16) as u16,
            ),
        )
    } else {
        None
    }
}

/// Parse a resize frame from the start of `b`.
pub fn parse_resize_frame(b: &[u8]) -> (r: Option<(u16, u16)>)
    ensures
        r == spec_parse_resize(b@),
{
    if b.len() >= 5 && b[0] == 0xFF {
        let rows: u16 = b[1] as u16 * 256 + b[2] as u16;
        let cols: u16 = b[3] as u16 * 256 + b[4] as u16;
        Some((rows, cols))
    } else {
        None
    }
}

/// The initial terminal size taken from the first five bytes of a substream:
/// the encoded size if they form a resize frame, `24x80` otherwise.
pub open spec fn spec_initial_size(b: Seq<u8>) -> (u16, u16) {
    match spec_parse_resize(b) {
        Some(size) => size,
        None => (24u16, 80u16),
    }
}

/// Initial PTY size for a terminal session, with the `24x80` fallback.
pub fn initial_pty_size(b: &[u8]) -> (r: (u16, u16))
    ensures
        r == spec_initial_size(b@),
{
    match parse_resize_frame(b) {
        Some(size) => size,
        None => (DEFAULT_ROWS, DEFAULT_COLS),
    }
}

/// Encoding a resize frame and parsing it back yields the same size.
pub proof fn lemma_resize_round_trip(rows: u16, cols: u16)
    ensures
        spec_parse_resize(spec_resize_frame(rows, cols)) == Some((rows, cols)),
{
    let f = spec_resize_frame(rows, cols);
    assert(f[1] as u16 * 256 + f[2] as u16 == rows);
    assert(f[3] as u16 * 256 + f[4] as u16 == cols);
}


/// One parsed piece of the input direction of a terminal substream: payload
/// bytes for the PTY, or an in-band resize.
pub enum TerminalEvent {
    /// Bytes to hand to the PTY, free of the resize marker.
    Data(Vec<u8>),
    /// A window-size change: rows and cols.
    Resize(u16, u16),
}

/// The bytes an event stands for in the wire stream.
pub open spec fn spec_event_bytes(e: TerminalEvent) -> Seq<u8> {
    match e {
        TerminalEvent::Data(v) => v@,
        TerminalEvent::Resize(rows, cols) => spec_resize_frame(rows, cols),
    }
}

/// The bytes a list of events stands for, in order.
pub open spec fn spec_events_bytes(s: Seq<TerminalEvent>) -> Seq<u8>
    decreases s.len(),
{
    if s.len() == 0 {
        seq![]
    } else {
        spec_event_bytes(s[0]) + spec_events_bytes(s.drop_first())
    }
}

/// A scanner only emits nonempty marker-free payloads.
pub open spec fn spec_event_wf(e: TerminalEvent) -> bool {
    match e {
        TerminalEvent::Data(v) => v@.len() > 0 && forall|k: int|
            0 <= k < v@.len() ==> #[trigger] v@[k] != 0xFFu8,
        TerminalEvent::Resize(rows, cols) => true,
    }
}

/// Appending an event appends its bytes.
proof fn lemma_events_bytes_push(s: Seq<TerminalEvent>, e: TerminalEvent)
    ensures
        spec_events_bytes(s.push(e)) == spec_events_bytes(s) + spec_event_bytes(e),
    decreases s.len(),
{
    if s.len() == 0 {
        assert(s.push(e)[0] == e);
        assert(s.push(e).drop_first() =~= Seq::<TerminalEvent>::empty());
        assert(spec_events_bytes(Seq::<TerminalEvent>::empty()) == Seq::<u8>::empty());
        assert(spec_events_bytes(s.push(e)) =~= spec_events_bytes(s) + spec_event_bytes(e));
    } else {
        assert(s.push(e)[0] == s[0]);
        assert(s.push(e).drop_first() =~= s.drop_first().push(e));
        lemma_events_bytes_push(s.drop_first(), e);
        assert(spec_events_bytes(s.push(e)) =~= spec_events_bytes(s) + spec_event_bytes(e));
    }
}

/// The streaming scanner of a terminal substream's input direction.
///
/// Bytes arrive in arbitrary chunks. The scanner cuts out five-byte resize
/// frames wherever they stand, keeps an incomplete frame until the missing
/// bytes arrive, and passes everything else through unchanged: the bytes of
/// the emitted events followed by the kept remainder are exactly the bytes
/// fed, in order.
pub struct TerminalInputScanner {
    pending: Vec<u8>,
}

impl TerminalInputScanner {
    /// Bytes received but not yet turned into events: at most the start of
    /// one resize frame.
    pub closed spec fn spec_pending(&self) -> Seq<u8> {
        self.pending@
    }

    /// The remainder is a proper frame start: short, and led by the marker.
    pub open spec fn wf(&self) -> bool {
        &&& self.spec_pending().len() < 5
        &&& self.spec_pending().len() > 0 ==> self.spec_pending()[0] == 0xFFu8
    }

    /// A fresh scanner with nothing pending.
    pub fn new() -> (r: TerminalInputScanner)
        ensures
            r.wf(),
            r.spec_pending() == Seq::<u8>::empty(),
    {
        TerminalInputScanner { pending: Vec::new() }
    }

    /// Feed one chunk of input. The returned events, followed by what the
    /// scanner keeps, carry exactly the pending and fed bytes in order;
    /// payload events are nonempty and marker-free.
    pub fn feed(&mut self, chunk: &[u8]) -> (evs: Vec<TerminalEvent>)
        requires
            old(self).wf(),
        ensures
            final(self).wf(),
            spec_events_bytes(evs@) + final(self).spec_pending() == old(self).spec_pending()
                + chunk@,
            forall|i: int| 0 <= i < evs@.len() ==> spec_event_wf(#[trigger] evs@[i]),
    {
        let ghost fed = old(self).spec_pending() + chunk@;
        let mut buf: Vec<u8> = crate::text::copy_subrange(
            self.pending.as_slice(),
            0,
            self.pending.len(),
        );
        self.pending.clear();
        buf.extend_from_slice(chunk);
        proof {
            assert(old(self).spec_pending().subrange(0, old(self).spec_pending().len() as int)
                =~= old(self).spec_pending());
            assert(buf@ == fed);
            assert(self.pending@ == Seq::<u8>::empty());
        }
        let n = buf.len();
        let mut evs: Vec<TerminalEvent> = Vec::new();
        let mut pos: usize = 0;
        proof {
            assert(buf@.subrange(0, 0) =~= Seq::<u8>::empty());
            assert(spec_events_bytes(evs@) =~= buf@.subrange(0, 0));
        }
        while pos < n
            invariant
                pos <= n,
                n == buf@.len(),
                buf@ == fed,
                fed == old(self).spec_pending() + chunk@,
                self.pending@ == Seq::<u8>::empty(),
                spec_events_bytes(evs@) == buf@.subrange(0, pos as int),
                forall|i: int| 0 <= i < evs@.len() ==> spec_event_wf(#[trigger] evs@[i]),
            decreases n - pos,
        {
            if buf[pos] == 0xFF {
                if n - pos >= 5 {
                    let rows: u16 = buf[pos + 1] as u16 * 256 + buf[pos + 2] as u16;
                    let cols: u16 = buf[pos + 3] as u16 * 256 + buf[pos + 4] as u16;
                    let ghost before = evs@;
                    evs.push(TerminalEvent::Resize(rows, cols));
                    proof {
                        lemma_events_bytes_push(before, TerminalEvent::Resize(rows, cols));
                        assert(spec_resize_frame(rows, cols) =~= buf@.subrange(
                            pos as int,
                            pos + 5,
                        ));
                        assert(buf@.subrange(0, pos + 5) =~= buf@.subrange(0, pos as int)
                            + buf@.subrange(pos as int, pos + 5));
                        assert forall|i: int| 0 <= i < evs@.len() implies spec_event_wf(
                            #[trigger] evs@[i],
                        ) by {
                            if i < before.len() {
                                assert(evs@[i] == before[i]);
                            }
                        }
                    }
                    pos = pos + 5;
                } else {
                    // an incomplete frame: keep it until more bytes arrive
                    let rest = crate::text::copy_subrange(buf.as_slice(), pos, n);
                    self.pending = rest;
                    proof {
                        assert(self.pending@[0] == buf@[pos as int]);
                        assert(fed =~= buf@.subrange(0, pos as int) + buf@.subrange(
                            pos as int,
                            n as int,
                        ));
                        assert(spec_events_bytes(evs@) + self.pending@ == old(self)
                            .spec_pending() + chunk@);
                    }
                    return evs;
                }
            } else {
                let mut end: usize = pos + 1;
                while end < n
                    invariant
                        pos < end <= n,
                        n == buf@.len(),
                        buf@ == fed,
                        forall|k: int| pos <= k < end ==> #[trigger] buf@[k] != 0xFFu8,
                    decreases n - end,
                {
                    if buf[end] == 0xFF {
                        break;
                    }
                    end = end + 1;
                }
                let payload = crate::text::copy_subrange(buf.as_slice(), pos, end);
                let ghost before = evs@;
                let ghost pv = payload@;
                evs.push(TerminalEvent::Data(payload));
                proof {
                    lemma_events_bytes_push(before, evs@.last());
                    assert(spec_event_bytes(evs@.last()) == pv);
                    assert(buf@.subrange(0, end as int) =~= buf@.subrange(0, pos as int)
                        + buf@.subrange(pos as int, end as int));
                    assert(spec_event_wf(evs@.last()));
                    assert forall|i: int| 0 <= i < evs@.len() implies spec_event_wf(
                        #[trigger] evs@[i],
                    ) by {
                        if i < before.len() {
                            assert(evs@[i] == before[i]);
                        }
                    }
                }
                pos = end;
            }
        }
        proof {
            assert(buf@.subrange(0, n as int) =~= buf@);
            assert(spec_events_bytes(evs@) + self.pending@ =~= fed);
        }
        evs
    }
}

} // verus!
