//! Substream headers.
//!
//! The first line of a substream tells the agent what the stream is for. A
//! forward substream carries one ASCII line `"<decimal-port>\n"` within its
//! first 16 bytes; other substreams open with a word such as `EXEC`, `TERM`,
//! `LOGS`, `METRICS` or `FS`, read from a line of at most 256 bytes.

use vstd::prelude::*;
use crate::text::{
    spec_parse_i64, spec_dec_nat, parse_i64_dec, push_dec_u64, copy_subrange, find_byte,
    bytes_eq, lemma_dec_nat_digits, lemma_dec_int_round_trip,
};

verus! {

/// ASCII whitespace as `str::trim` would strip it from this protocol's
/// ASCII lines.
pub open spec fn spec_ws_byte(b: u8) -> bool {
    b == 0x20 || b == 0x09 || b == 0x0A || b == 0x0D
}

/// The text with leading whitespace stripped.
pub open spec fn spec_trim_front(s: Seq<u8>) -> Seq<u8>
    decreases s.len(),
{
    if s.len() > 0 && spec_ws_byte(s[0]) {
        spec_trim_front(s.drop_first())
    } else {
        s
    }
}

/// The text with trailing whitespace stripped.
pub open spec fn spec_trim_back(s: Seq<u8>) -> Seq<u8>
    decreases s.len(),
{
    if s.len() > 0 && spec_ws_byte(s.last()) {
        spec_trim_back(s.drop_last())
    } else {
        s
    }
}

/// The text with whitespace stripped from both ends.
pub open spec fn spec_trim(s: Seq<u8>) -> Seq<u8> {
    spec_trim_back(spec_trim_front(s))
}

/// Strip ASCII whitespace from both ends of a byte string.
pub fn trim_bytes(s: &[u8]) -> (r: Vec<u8>)
    ensures
        r@ == spec_trim(s@),
{
    let n = s.len();
    let mut lo: usize = 0;
    proof {
        assert(s@.subrange(0, n as int) =~= s@);
    }
    while lo < n && is_ws_byte(s[lo])
        invariant
            lo <= n,
            n == s@.len(),
            spec_trim_front(s@) == spec_trim_front(s@.subrange(lo as int, n as int)),
        decreases n - lo,
    {
        proof {
            let cur = s@.subrange(lo as int, n as int);
            assert(cur[0] == s@[lo as int]);
            assert(cur.drop_first() =~= s@.subrange(lo + 1, n as int));
        }
        lo = lo + 1;
    }
    proof {
        let cur = s@.subrange(lo as int, n as int);
        if cur.len() > 0 {
            assert(cur[0] == s@[lo as int]);
        }
        assert(spec_trim_front(s@) == cur);
    }
    let mut hi: usize = n;
    while hi > lo && is_ws_byte(s[hi - 1])
        invariant
            lo <= hi <= n,
            n == s@.len(),
            spec_trim_front(s@) == s@.subrange(lo as int, n as int),
            spec_trim_back(s@.subrange(lo as int, n as int)) == spec_trim_back(
                s@.subrange(lo as int, hi as int),
            ),
        decreases hi,
    {
        proof {
            let cur = s@.subrange(lo as int, hi as int);
            assert(cur.last() == s@[hi - 1]);
            assert(cur.drop_last() =~= s@.subrange(lo as int, hi - 1));
        }
        hi = hi - 1;
    }
    proof {
        let cur = s@.subrange(lo as int, hi as int);
        if cur.len() > 0 {
            assert(cur.last() == s@[hi - 1]);
        }
        assert(spec_trim(s@) == cur);
    }
    copy_subrange(s, lo, hi)
}

/// ASCII-whitespace test on one byte.
fn is_ws_byte(b: u8) -> (r: bool)
    ensures
        r == spec_ws_byte(b),
{
    b == 0x20 || b == 0x09 || b == 0x0A || b == 0x0D
}

/// The value of a forward header's text: what `str::parse::<u16>` accepts,
/// further restricted to nonzero ports.
pub open spec fn spec_port_value(t: Seq<u8>) -> Option<u16> {
    if t.len() > 0 && t[0] == 0x2Du8 {
        None
    } else {
        match spec_parse_i64(t) {
            Some(v) => if 1 <= v <= 65535 {
                Some(v as u16)
            } else {
                None
            },
            None => None,
        }
    }
}

/// What a forward substream's first bytes decide: the header line must end
/// within the first 16 bytes, and its trimmed text must read as a port
/// between 1 and 65535.
pub open spec fn spec_parse_port_header(buf: Seq<u8>) -> Option<u16> {
    if exists|i: int| 0 <= i < buf.len() && i < 16 && buf[i] == 0x0Au8 {
        let i = spec_first_nl(buf);
        spec_port_value(spec_trim(buf.subrange(0, i)))
    } else {
        None
    }
}

/// Index of the first newline of `buf`, assuming one exists.
pub open spec fn spec_first_nl(buf: Seq<u8>) -> int {
    choose|i: int|
        0 <= i < buf.len() && buf[i] == 0x0Au8 && forall|j: int|
            0 <= j < i ==> buf[j] != 0x0Au8
}

/// The chosen first newline really is the first one.
proof fn lemma_first_nl(buf: Seq<u8>, w: int)
    requires
        0 <= w < buf.len(),
        buf[w] == 0x0Au8,
        forall|j: int| 0 <= j < w ==> buf[j] != 0x0Au8,
    ensures
        spec_first_nl(buf) == w,
{
    assert(spec_first_nl(buf) == w) by {
        let c = spec_first_nl(buf);
        assert(0 <= c < buf.len() && buf[c] == 0x0Au8 && forall|j: int|
            0 <= j < c ==> buf[j] != 0x0Au8);
        if c < w {
            assert(buf[c] != 0x0Au8);
        } else if c > w {
            assert(buf[w] != 0x0Au8);
        }
    }
}

/// Parse the port header at the start of a forward substream: rejected when
/// no newline arrives within 16 bytes, or when the line is no port.
pub fn parse_port_header(buf: &[u8]) -> (r: Option<u16>)
    ensures
        r == spec_parse_port_header(buf@),
{
    let n = buf.len();
    let limit = if n < 16 {
        n
    } else {
        16
    };
    let head = copy_subrange(buf, 0, limit);
    let nl = find_byte(head.as_slice(), 0x0Au8);
    let i = match nl {
        Some(i) => i,
        None => {
            proof {
                assert forall|i: int|
                    0 <= i < buf@.len() && i < 16 implies buf@[i] != 0x0Au8 by {
                    assert(head@[i] == buf@[i]);
                }
            }
            return None;
        },
    };
    proof {
        assert(head@[i as int] == buf@[i as int]);
        assert forall|j: int| 0 <= j < i implies buf@[j] != 0x0Au8 by {
            assert(head@[j] == buf@[j]);
        }
        lemma_first_nl(buf@, i as int);
    }
    let line = copy_subrange(buf, 0, i);
    let trimmed = trim_bytes(line.as_slice());
    proof {
        assert(line@ =~= buf@.subrange(0, i as int));
    }
    if trimmed.len() > 0 && trimmed[0] == 0x2D {
        return None;
    }
    match parse_i64_dec(trimmed.as_slice()) {
        Some(v) => {
            if 1 <= v && v <= 65535 {
                Some(v as u16)
            } else {
                None
            }
        },
        None => None,
    }
}

/// The forms a substream's first line may take, as the agent-side
/// demultiplexer reads it.
pub enum StreamHeader {
    /// `"<port>"`: connect to this local TCP port and proxy bytes.
    Forward(u16),
    /// `"EXEC <json>"`: run a command; the rest of the line is the config.
    Exec(Vec<u8>),
    /// `"TERM"` or `"TERM <name>"`: an interactive terminal, with the
    /// `TERM` environment value to use, if given.
    Term(Option<Vec<u8>>),
    /// `"LOGS"`: subscribe to the log broadcast.
    Logs,
    /// `"METRICS"`: subscribe to the metrics broadcast.
    Metrics,
    /// `"FS <verb> <json>"`: a one-shot filesystem operation.
    Fs(Vec<u8>),
    /// Anything else: close the substream at once.
    Unknown,
}

/// The spec-level image of a parsed header.
pub enum SpecStreamHeader {
    Forward(u16),
    Exec(Seq<u8>),
    Term(Option<Seq<u8>>),
    Logs,
    Metrics,
    Fs(Seq<u8>),
    Unknown,
}

impl View for StreamHeader {
    type V = SpecStreamHeader;

    open spec fn view(&self) -> SpecStreamHeader {
        match self {
            StreamHeader::Forward(p) => SpecStreamHeader::Forward(*p),
            StreamHeader::Exec(v) => SpecStreamHeader::Exec(v@),
            StreamHeader::Term(o) => match o {
                Some(v) => SpecStreamHeader::Term(Some(v@)),
                None => SpecStreamHeader::Term(None),
            },
            StreamHeader::Logs => SpecStreamHeader::Logs,
            StreamHeader::Metrics => SpecStreamHeader::Metrics,
            StreamHeader::Fs(v) => SpecStreamHeader::Fs(v@),
            StreamHeader::Unknown => SpecStreamHeader::Unknown,
        }
    }
}

/// The word before the first space of `t`, and the rest after it.
pub open spec fn spec_split_word(t: Seq<u8>) -> (Seq<u8>, Seq<u8>) {
    if exists|i: int| 0 <= i < t.len() && t[i] == 0x20u8 {
        let i = spec_first_space(t);
        (t.subrange(0, i), t.subrange(i + 1, t.len() as int))
    } else {
        (t, Seq::empty())
    }
}

/// Index of the first space of `t`, assuming one exists.
pub open spec fn spec_first_space(t: Seq<u8>) -> int {
    choose|i: int|
        0 <= i < t.len() && t[i] == 0x20u8 && forall|j: int| 0 <= j < i ==> t[j] != 0x20u8
}

/// The chosen first space really is the first one.
proof fn lemma_first_space(t: Seq<u8>, w: int)
    requires
        0 <= w < t.len(),
        t[w] == 0x20u8,
        forall|j: int| 0 <= j < w ==> t[j] != 0x20u8,
    ensures
        spec_first_space(t) == w,
{
    assert(spec_first_space(t) == w) by {
        let c = spec_first_space(t);
        assert(0 <= c < t.len() && t[c] == 0x20u8 && forall|j: int|
            0 <= j < c ==> t[j] != 0x20u8);
        if c < w {
            assert(t[c] != 0x20u8);
        } else if c > w {
            assert(t[w] != 0x20u8);
        }
    }
}

/// What the demultiplexer does with a header line (already stripped of its
/// newline): a lone port number proxies; `EXEC`, `TERM`, `LOGS`, `METRICS`
/// and `FS` open their handlers; anything else closes the substream.
pub open spec fn spec_stream_header(line: Seq<u8>) -> SpecStreamHeader {
    let t = spec_trim(line);
    let (word, rest) = spec_split_word(t);
    if line.len() > 256 {
        SpecStreamHeader::Unknown
    } else if spec_port_value(t) is Some {
        SpecStreamHeader::Forward(spec_port_value(t)->Some_0)
    } else if word == spec_kw_exec() {
        SpecStreamHeader::Exec(rest)
    } else if t == spec_kw_term() {
        SpecStreamHeader::Term(None)
    } else if word == spec_kw_term() {
        SpecStreamHeader::Term(Some(rest))
    } else if t == spec_kw_logs() {
        SpecStreamHeader::Logs
    } else if t == spec_kw_metrics() {
        SpecStreamHeader::Metrics
    } else if word == spec_kw_fs() {
        SpecStreamHeader::Fs(rest)
    } else {
        SpecStreamHeader::Unknown
    }
}

/// The bytes of the `EXEC` keyword.
pub open spec fn spec_kw_exec() -> Seq<u8> {
    seq![0x45u8, 0x58u8, 0x45u8, 0x43u8]
}

/// The bytes of the `TERM` keyword.
pub open spec fn spec_kw_term() -> Seq<u8> {
    seq![0x54u8, 0x45u8, 0x52u8, 0x4Du8]
}

/// The bytes of the `LOGS` keyword.
pub open spec fn spec_kw_logs() -> Seq<u8> {
    seq![0x4Cu8, 0x4Fu8, 0x47u8, 0x53u8]
}

/// The bytes of the `METRICS` keyword.
pub open spec fn spec_kw_metrics() -> Seq<u8> {
    seq![0x4Du8, 0x45u8, 0x54u8, 0x52u8, 0x49u8, 0x43u8, 0x53u8]
}

/// The bytes of the `FS` keyword.
pub open spec fn spec_kw_fs() -> Seq<u8> {
    seq![0x46u8, 0x53u8]
}

/// Whether `s` equals the keyword bytes `kw`.
fn eq_kw(s: &[u8], kw: &[u8]) -> (r: bool)
    ensures
        r == (s@ == kw@),
{
    bytes_eq(s, kw)
}

/// Read the first line of a substream (without its newline) as a header.
pub fn parse_stream_header(line: &[u8]) -> (r: StreamHeader)
    ensures
        r@ == spec_stream_header(line@),
{
    if line.len() > 256 {
        return StreamHeader::Unknown;
    }
    let t = trim_bytes(line);
    let ghost tv = t@;

    // a bare decimal port means a raw TCP forward
    let mut port: Option<u16> = None;
    if !(t.len() > 0 && t[0] == 0x2D) {
        match parse_i64_dec(t.as_slice()) {
            Some(v) => {
                if 1 <= v && v <= 65535 {
                    port = Some(v as u16);
                }
            },
            None => {},
        }
    }
    proof {
        assert(port == spec_port_value(tv));
    }
    if let Some(p) = port {
        return StreamHeader::Forward(p);
    }

    // split the first word off
    let n = t.len();
    let sp = find_byte(t.as_slice(), 0x20u8);
    let word: Vec<u8>;
    let rest: Vec<u8>;
    let had_space: bool;
    match sp {
        Some(i) => {
            proof {
                lemma_first_space(tv, i as int);
            }
            word = copy_subrange(t.as_slice(), 0, i);
            rest = copy_subrange(t.as_slice(), i + 1, n);
            had_space = true;
        },
        None => {
            word = t;
            rest = Vec::new();
            had_space = false;
            proof {
                assert(word@ == tv);
                assert(rest@ =~= Seq::<u8>::empty());
            }
        },
    }
    proof {
        assert((word@, rest@) == spec_split_word(tv));
        if had_space {
            assert(tv[spec_first_space(tv)] == 0x20u8);
            assert(word@ != tv) by {
                if word@ == tv {
                    assert(tv.len() == spec_first_space(tv));
                }
            }
        }
    }

    let kw_exec: [u8; 4] = [0x45, 0x58, 0x45, 0x43];
    let kw_term: [u8; 4] = [0x54, 0x45, 0x52, 0x4D];
    let kw_logs: [u8; 4] = [0x4C, 0x4F, 0x47, 0x53];
    let kw_metrics: [u8; 7] = [0x4D, 0x45, 0x54, 0x52, 0x49, 0x43, 0x53];
    let kw_fs: [u8; 2] = [0x46, 0x53];
    proof {
        assert(kw_exec@ =~= spec_kw_exec());
        assert(kw_term@ =~= spec_kw_term());
        assert(kw_logs@ =~= spec_kw_logs());
        assert(kw_metrics@ =~= spec_kw_metrics());
        assert(kw_fs@ =~= spec_kw_fs());
    }
    if eq_kw(word.as_slice(), kw_exec.as_slice()) {
        StreamHeader::Exec(rest)
    } else if eq_kw(word.as_slice(), kw_term.as_slice()) {
        if !had_space {
            StreamHeader::Term(None)
        } else {
            StreamHeader::Term(Some(rest))
        }
    } else if eq_kw(word.as_slice(), kw_logs.as_slice()) && !had_space {
        StreamHeader::Logs
    } else if eq_kw(word.as_slice(), kw_metrics.as_slice()) && !had_space {
        StreamHeader::Metrics
    } else if eq_kw(word.as_slice(), kw_fs.as_slice()) {
        StreamHeader::Fs(rest)
    } else {
        StreamHeader::Unknown
    }
}


/// The decimal digits of `n` are at most five for ports.
proof fn lemma_dec_nat_len5(n: nat)
    requires
        n <= 65535,
    ensures
        spec_dec_nat(n).len() <= 5,
{
    if n >= 10 {
        assert(spec_dec_nat(n).len() == spec_dec_nat(n / 10).len() + 1);
        if n / 10 >= 10 {
            assert(spec_dec_nat(n / 10).len() == spec_dec_nat(n / 100).len() + 1);
            if n / 100 >= 10 {
                assert(spec_dec_nat(n / 100).len() == spec_dec_nat(n / 1000).len() + 1);
                if n / 1000 >= 10 {
                    assert(spec_dec_nat(n / 1000).len() == spec_dec_nat(n / 10000).len() + 1);
                    assert(n / 10000 < 10);
                }
            }
        }
    }
}

/// The header line the proxy writes for a port reads back as that port:
/// the digits and the newline fit the sixteen-byte window, and the line
/// parses to the same value.
pub proof fn lemma_forward_header_round_trip(port: u16)
    requires
        port >= 1,
    ensures
        spec_parse_port_header(spec_dec_nat(port as nat) + seq![0x0Au8]) == Some(port),
{
    let digits = spec_dec_nat(port as nat);
    let buf = digits + seq![0x0Au8];
    lemma_dec_nat_digits(port as nat);
    lemma_dec_nat_len5(port as nat);
    assert(buf[digits.len() as int] == 0x0Au8);
    assert forall|j: int| 0 <= j < digits.len() implies buf[j] != 0x0Au8 by {
        assert(buf[j] == digits[j]);
        assert(0x30 <= digits[j] <= 0x39);
    }
    lemma_first_nl(buf, digits.len() as int);
    let line = buf.subrange(0, digits.len() as int);
    assert(line =~= digits);
    // digits hold no whitespace, so the trim leaves them alone
    assert(0x30 <= digits[0] <= 0x39);
    assert(spec_trim_front(digits) == digits);
    assert(0x30 <= digits.last() <= 0x39);
    assert(spec_trim_back(digits) == digits);
    lemma_dec_int_round_trip(port as int);
    assert(spec_parse_i64(digits) == Some(port as int));
    assert(spec_port_value(digits) == Some(port));
}

/// Build the one-line forward header: the decimal port and a newline. The
/// line it produces parses back to the same port.
pub fn forward_header(port: u16) -> (r: Vec<u8>)
    requires
        port >= 1,
    ensures
        r@ == spec_dec_nat(port as nat) + seq![0x0Au8],
        spec_parse_port_header(r@) == Some(port),
{
    let mut out: Vec<u8> = Vec::new();
    push_dec_u64(port as u64, &mut out);
    out.push(0x0Au8);
    proof {
        assert(out@ =~= spec_dec_nat(port as nat) + seq![0x0Au8]);
        lemma_forward_header_round_trip(port);
    }
    out
}

} // verus!
