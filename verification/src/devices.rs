//! Parsing the device-list table: the fixed-width rows the CLI prints,
//! with a whitespace-split fallback for narrow rows.
//!
//! Rows are read by character position: the id in the first twelve
//! columns, the name up to column 28, the status up to column 37. Header
//! rows, blank rows and rows without an id are skipped.

use vstd::prelude::*;
use crate::handshake::{lemma_tokens_run, spec_is_ws, spec_tokens};
use crate::text::copy_subrange_chars;
use crate::trusted::{chars_to_string, str_to_chars};

verus! {

/// One parsed device row.
#[derive(Debug, Clone)]
pub struct DeviceInfo {
    pub short_id: String,
    pub name: String,
    pub status: String,
}

/// Leading whitespace stripped.
pub open spec fn spec_ctrim_front(s: Seq<char>) -> Seq<char>
    decreases s.len(),
{
    if s.len() > 0 && spec_is_ws(s[0]) {
        spec_ctrim_front(s.drop_first())
    } else {
        s
    }
}

/// Trailing whitespace stripped.
pub open spec fn spec_ctrim_back(s: Seq<char>) -> Seq<char>
    decreases s.len(),
{
    if s.len() > 0 && spec_is_ws(s.last()) {
        spec_ctrim_back(s.drop_last())
    } else {
        s
    }
}

/// Whitespace stripped from both ends.
pub open spec fn spec_ctrim(s: Seq<char>) -> Seq<char> {
    spec_ctrim_back(spec_ctrim_front(s))
}

/// Strip whitespace from both ends of a character range.
fn ctrim(s: &Vec<char>, from: usize, to: usize) -> (r: Vec<char>)
    requires
        from <= to <= s@.len(),
    ensures
        r@ == spec_ctrim(s@.subrange(from as int, to as int)),
{
    let mut lo = from;
    while lo < to && is_wsc(s[lo])
        invariant
            from <= lo <= to <= s@.len(),
            spec_ctrim_front(s@.subrange(from as int, to as int)) == spec_ctrim_front(
                s@.subrange(lo as int, to as int),
            ),
        decreases to - lo,
    {
        proof {
            let cur = s@.subrange(lo as int, to as int);
            assert(cur[0] == s@[lo as int]);
            assert(cur.drop_first() =~= s@.subrange(lo + 1, to as int));
        }
        lo = lo + 1;
    }
    proof {
        let cur = s@.subrange(lo as int, to as int);
        if cur.len() > 0 {
            assert(cur[0] == s@[lo as int]);
        }
        assert(spec_ctrim_front(s@.subrange(from as int, to as int)) == cur);
    }
    let mut hi = to;
    while hi > lo && is_wsc(s[hi - 1])
        invariant
            lo <= hi <= to <= s@.len(),
            spec_ctrim_front(s@.subrange(from as int, to as int)) == s@.subrange(
                lo as int,
                to as int,
            ),
            spec_ctrim_back(s@.subrange(lo as int, to as int)) == spec_ctrim_back(
                s@.subrange(lo as int, hi as int),
            ),
        decreases hi,
    {
        proof {
            let cur = s@.subrange(lo as int, hi as int);
            assert(cur.last() == s@[hi - 1]);
            assert(cur.drop_last() =~= s@.subrange(lo as int, hi - 1));
        }
        hi = hi - 1;
    }
    proof {
        let cur = s@.subrange(lo as int, hi as int);
        if cur.len() > 0 {
            assert(cur.last() == s@[hi - 1]);
        }
        assert(spec_ctrim(s@.subrange(from as int, to as int)) == cur);
    }
    copy_subrange_chars(s.as_slice(), lo, hi)
}

/// Whitespace test on one character.
fn is_wsc(c: char) -> (r: bool)
    ensures
        r == spec_is_ws(c),
{
    c == ' ' || c == '\t' || c == '\n' || c == '\r'
}

/// The line starts with the given text.
pub open spec fn spec_starts_with(s: Seq<char>, p: Seq<char>) -> bool {
    p.len() <= s.len() && s.subrange(0, p.len() as int) == p
}

/// Whether the characters from `from` start with the literal.
fn starts_with_at(s: &Vec<char>, lit: &[char]) -> (r: bool)
    ensures
        r == spec_starts_with(s@, lit@),
{
    let m = lit.len();
    if s.len() < m {
        return false;
    }
    let mut t: usize = 0;
    while t < m
        invariant
            t <= m,
            m == lit@.len(),
            m <= s@.len(),
            forall|j: int| 0 <= j < t ==> s@[j] == lit@[j],
        decreases m - t,
    {
        if s[t] != lit[t] {
            proof {
                assert(s@.subrange(0, lit@.len() as int)[t as int] == s@[t as int]);
            }
            return false;
        }
        t = t + 1;
    }
    proof {
        assert(s@.subrange(0, lit@.len() as int) =~= lit@);
    }
    true
}

/// The columns of one row, if the row carries a device: header rows,
/// blank rows and rows with an empty id column give nothing. Wide rows
/// are cut by position; short rows fall back to whitespace fields.
pub open spec fn spec_parse_device_line(line: Seq<char>) -> Option<
    (Seq<char>, Seq<char>, Seq<char>),
> {
    if spec_starts_with(line, spec_hdr_device()) || spec_starts_with(line, spec_hdr_short())
        || spec_ctrim(line).len() == 0 {
        None
    } else if line.len() >= 37 {
        let sid = spec_ctrim(line.subrange(0, 12));
        if sid.len() == 0 {
            None
        } else {
            Some((sid, spec_ctrim(line.subrange(12, 28)), spec_ctrim(line.subrange(28, 37))))
        }
    } else {
        let toks = spec_tokens(line);
        if toks.len() >= 3 {
            Some((toks[0], toks[1], toks[2]))
        } else {
            None
        }
    }
}

/// The `DEVICE ID` header prefix.
pub open spec fn spec_hdr_device() -> Seq<char> {
    seq!['D', 'E', 'V', 'I', 'C', 'E', ' ', 'I', 'D']
}

/// The `SHORT_ID` header prefix.
pub open spec fn spec_hdr_short() -> Seq<char> {
    seq!['S', 'H', 'O', 'R', 'T', '_', 'I', 'D']
}

/// Index of the first newline of `s`, or its length.
pub open spec fn spec_line_end(s: Seq<char>) -> int
    decreases s.len(),
{
    if s.len() == 0 {
        0
    } else if s[0] == '\n' {
        0
    } else {
        1 + spec_line_end(s.drop_first())
    }
}

/// A line never passes the end of the text.
pub proof fn lemma_line_end_bounds(s: Seq<char>)
    ensures
        0 <= spec_line_end(s) <= s.len(),
    decreases s.len(),
{
    if s.len() > 0 && s[0] != '\n' {
        lemma_line_end_bounds(s.drop_first());
    }
}

/// A line without a trailing carriage return.
pub open spec fn spec_strip_cr(l: Seq<char>) -> Seq<char> {
    if l.len() > 0 && l.last() == '\r' {
        l.drop_last()
    } else {
        l
    }
}

/// The device rows of the whole output, line by line.
pub open spec fn spec_parse_devices(s: Seq<char>) -> Seq<(Seq<char>, Seq<char>, Seq<char>)>
    decreases s.len(),
{
    if s.len() == 0 {
        seq![]
    } else {
        let e = spec_line_end(s);
        let line = spec_strip_cr(s.subrange(0, e));
        let rest = if e < s.len() {
            proof {
                lemma_line_end_bounds(s);
            }
            spec_parse_devices(s.subrange(e + 1, s.len() as int))
        } else {
            seq![]
        };
        match spec_parse_device_line(line) {
            Some(t) => seq![t] + rest,
            None => rest,
        }
    }
}

/// The newline scan finds the first newline.
proof fn lemma_nl_scan(s: Seq<char>, i: int, j: int)
    requires
        0 <= i <= j <= s.len(),
        forall|k: int| i <= k < j ==> (#[trigger] s[k]) != '\n',
        j == s.len() || s[j] == '\n',
    ensures
        spec_line_end(s.subrange(i, s.len() as int)) == j - i,
    decreases j - i,
{
    let cur = s.subrange(i, s.len() as int);
    if i == j {
        if j < s.len() {
            assert(cur[0] == s[j]);
        }
    } else {
        assert(cur[0] == s[i]);
        assert(cur.drop_first() =~= s.subrange(i + 1, s.len() as int));
        lemma_nl_scan(s, i + 1, j);
    }
}

/// Extract the first three whitespace-separated fields, if a row has
/// that many.
fn three_tokens(line: &Vec<char>) -> (r: Option<(Vec<char>, Vec<char>, Vec<char>)>)
    ensures
        match r {
            Some(t) => spec_tokens(line@).len() >= 3 && t.0@ == spec_tokens(line@)[0] && t.1@
                == spec_tokens(line@)[1] && t.2@ == spec_tokens(line@)[2],
            None => spec_tokens(line@).len() < 3,
        },
{
    let n = line.len();
    let mut found: Vec<Vec<char>> = Vec::new();
    let mut i: usize = 0;
    proof {
        assert(line@.subrange(0, n as int) =~= line@);
        assert(found@.map_values(|v: Vec<char>| v@) =~= Seq::<Seq<char>>::empty());
        assert(spec_tokens(line@) =~= found@.map_values(|v: Vec<char>| v@) + spec_tokens(
            line@.subrange(0, n as int),
        ));
    }
    while i < n && found.len() < 3
        invariant
            i <= n,
            n == line@.len(),
            found@.len() <= 3,
            spec_tokens(line@) == found@.map_values(|v: Vec<char>| v@) + spec_tokens(
                line@.subrange(i as int, n as int),
            ),
        decreases n - i,
    {
        let c = line[i];
        if is_wsc(c) {
            proof {
                let cur = line@.subrange(i as int, n as int);
                assert(cur[0] == c);
                assert(cur.drop_first() =~= line@.subrange(i + 1, n as int));
            }
            i = i + 1;
        } else {
            let mut end: usize = i + 1;
            while end < n && !is_wsc(line[end])
                invariant
                    i < end <= n,
                    n == line@.len(),
                    forall|j: int| i <= j < end ==> !spec_is_ws(#[trigger] line@[j]),
                decreases n - end,
            {
                end = end + 1;
            }
            proof {
                let cur = line@.subrange(i as int, n as int);
                assert forall|j: int| 0 <= j < end - i implies !spec_is_ws(
                    #[trigger] cur[j],
                ) by {
                    assert(cur[j] == line@[i + j]);
                }
                if end < n {
                    assert(cur[end - i] == line@[end as int]);
                }
                lemma_tokens_run(cur, end - i);
                assert(cur.subrange(0, end - i) =~= line@.subrange(i as int, end as int));
                assert(cur.subrange(end - i, cur.len() as int) =~= line@.subrange(
                    end as int,
                    n as int,
                ));
            }
            let tok = copy_subrange_chars(line.as_slice(), i, end);
            let ghost before = found@;
            found.push(tok);
            proof {
                assert(found@.map_values(|v: Vec<char>| v@) =~= before.map_values(
                    |v: Vec<char>| v@,
                ).push(line@.subrange(i as int, end as int)));
                assert(found@.map_values(|v: Vec<char>| v@) + spec_tokens(
                    line@.subrange(end as int, n as int),
                ) =~= before.map_values(|v: Vec<char>| v@) + (seq![
                    line@.subrange(i as int, end as int),
                ] + spec_tokens(line@.subrange(end as int, n as int))));
            }
            i = end;
        }
    }
    if found.len() < 3 {
        proof {
            if i >= n {
                assert(line@.subrange(n as int, n as int) =~= Seq::<char>::empty());
                assert(spec_tokens(line@).len() == found@.len());
            }
        }
        return None;
    }
    proof {
        assert(spec_tokens(line@)[0] == found@.map_values(|v: Vec<char>| v@)[0]);
        assert(spec_tokens(line@)[1] == found@.map_values(|v: Vec<char>| v@)[1]);
        assert(spec_tokens(line@)[2] == found@.map_values(|v: Vec<char>| v@)[2]);
    }
    let mut found = found;
    let t0 = found.remove(0);
    let t1 = found.remove(0);
    let t2 = found.remove(0);
    Some((t0, t1, t2))
}

/// Parse one row.
fn parse_device_line(line: &Vec<char>) -> (r: Option<DeviceInfo>)
    ensures
        match r {
            Some(d) => spec_parse_device_line(line@) matches Some(t) && d.short_id@ == t.0
                && d.name@ == t.1 && d.status@ == t.2,
            None => spec_parse_device_line(line@) is None,
        },
{
    let hdr_device: [char; 9] = ['D', 'E', 'V', 'I', 'C', 'E', ' ', 'I', 'D'];
    let hdr_short: [char; 8] = ['S', 'H', 'O', 'R', 'T', '_', 'I', 'D'];
    proof {
        assert(hdr_device@ =~= spec_hdr_device());
        assert(hdr_short@ =~= spec_hdr_short());
    }
    if starts_with_at(line, hdr_device.as_slice()) {
        return None;
    }
    if starts_with_at(line, hdr_short.as_slice()) {
        return None;
    }
    let n = line.len();
    let whole = ctrim(line, 0, n);
    proof {
        assert(line@.subrange(0, n as int) =~= line@);
    }
    if whole.len() == 0 {
        return None;
    }
    if n >= 37 {
        let sid = ctrim(line, 0, 12);
        if sid.len() == 0 {
            return None;
        }
        let name = ctrim(line, 12, 28);
        let status = ctrim(line, 28, 37);
        Some(
            DeviceInfo {
                short_id: chars_to_string(&sid),
                name: chars_to_string(&name),
                status: chars_to_string(&status),
            },
        )
    } else {
        match three_tokens(line) {
            Some((t0, t1, t2)) => Some(
                DeviceInfo {
                    short_id: chars_to_string(&t0),
                    name: chars_to_string(&t1),
                    status: chars_to_string(&t2),
                },
            ),
            None => None,
        }
    }
}

/// Parse the device-list output into rows.
pub fn parse_devices_list(output: &str) -> (r: Vec<DeviceInfo>)
    ensures
        r@.len() == spec_parse_devices(output@).len(),
        forall|i: int|
            0 <= i < r@.len() ==> {
                &&& (#[trigger] r@[i]).short_id@ == spec_parse_devices(output@)[i].0
                &&& r@[i].name@ == spec_parse_devices(output@)[i].1
                &&& r@[i].status@ == spec_parse_devices(output@)[i].2
            },
{
    let cs = str_to_chars(output);
    let n = cs.len();
    let mut out: Vec<DeviceInfo> = Vec::new();
    let mut pos: usize = 0;
    let ghost full = spec_parse_devices(output@);
    proof {
        assert(cs@.subrange(0, n as int) =~= cs@);
    }
    while pos < n
        invariant
            pos <= n,
            n == cs@.len(),
            cs@ == output@,
            full == spec_parse_devices(output@),
            out@.len() <= full.len(),
            spec_parse_devices(output@) == spec_prefix_triples(out@) + spec_parse_devices(
                cs@.subrange(pos as int, n as int),
            ),
            forall|i: int|
                0 <= i < out@.len() ==> {
                    &&& (#[trigger] out@[i]).short_id@ == full[i].0
                    &&& out@[i].name@ == full[i].1
                    &&& out@[i].status@ == full[i].2
                },
        decreases n - pos,
    {
        // find the end of this line
        let mut e = pos;
        while e < n && cs[e] != '\n'
            invariant
                pos <= e <= n,
                n == cs@.len(),
                forall|k: int| pos <= k < e ==> (#[trigger] cs@[k]) != '\n',
            decreases n - e,
        {
            e = e + 1;
        }
        proof {
            lemma_nl_scan(cs@, pos as int, e as int);
        }
        // strip one trailing carriage return
        let line_end = if e > pos && cs[e - 1] == '\r' {
            e - 1
        } else {
            e
        };
        let line = copy_subrange_chars(cs.as_slice(), pos, line_end);
        proof {
            let cur = cs@.subrange(pos as int, n as int);
            let raw = cur.subrange(0, e - pos);
            assert(raw =~= cs@.subrange(pos as int, e as int));
            if e > pos && cs@[e - 1] == '\r' {
                assert(raw.last() == cs@[e - 1]);
                assert(raw.drop_last() =~= cs@.subrange(pos as int, e - 1));
            }
            assert(line@ == spec_strip_cr(raw));
        }
        let parsed = parse_device_line(&line);
        let ghost before = out@;
        match parsed {
            Some(d) => {
                out.push(d);
            },
            None => {},
        }
        proof {
            let cur = cs@.subrange(pos as int, n as int);
            if e < n {
                assert(cur.subrange(e - pos + 1, cur.len() as int) =~= cs@.subrange(
                    e + 1,
                    n as int,
                ));
            }
            if parsed is Some {
                assert(spec_prefix_triples(out@) =~= spec_prefix_triples(before).push(
                    (out@.last().short_id@, out@.last().name@, out@.last().status@),
                ));
                lemma_prefix_push(before, out@.last());
            } else {
                assert(out@ == before);
            }
            if e >= n {
                assert(cs@.subrange(n as int, n as int) =~= Seq::<char>::empty());
            }
        }
        if e < n {
            pos = e + 1;
        } else {
            pos = n;
        }
    }
    proof {
        assert(cs@.subrange(n as int, n as int) =~= Seq::<char>::empty());
        assert(spec_parse_devices(output@) =~= spec_prefix_triples(out@));
    }
    out
}

/// The triples a row list stands for.
pub open spec fn spec_prefix_triples(rows: Seq<DeviceInfo>) -> Seq<
    (Seq<char>, Seq<char>, Seq<char>),
> {
    rows.map_values(|d: DeviceInfo| (d.short_id@, d.name@, d.status@))
}

/// Appending a row appends its triple.
proof fn lemma_prefix_push(rows: Seq<DeviceInfo>, d: DeviceInfo)
    ensures
        spec_prefix_triples(rows.push(d)) == spec_prefix_triples(rows).push(
            (d.short_id@, d.name@, d.status@),
        ),
{
    assert(spec_prefix_triples(rows.push(d)) =~= spec_prefix_triples(rows).push(
        (d.short_id@, d.name@, d.status@),
    ));
}

/// The first row with this name.
pub fn find_device_by_name<'a>(devices: &'a Vec<DeviceInfo>, name: &str) -> (r: Option<
    &'a DeviceInfo,
>)
    ensures
        match r {
            Some(d) => exists|i: int|
                0 <= i < devices@.len() && *d == devices@[i] && (#[trigger] devices@[i]).name@
                    == name@,
            None => forall|i: int|
                0 <= i < devices@.len() ==> (#[trigger] devices@[i]).name@ != name@,
        },
{
    let mut i: usize = 0;
    while i < devices.len()
        invariant
            i <= devices@.len(),
            forall|k: int| 0 <= k < i ==> (#[trigger] devices@[k]).name@ != name@,
        decreases devices@.len() - i,
    {
        if crate::text::str_eq(devices[i].name.as_str(), name) {
            return Some(&devices[i]);
        }
        i = i + 1;
    }
    None
}

/// The first row with this short id.
pub fn find_device_by_short_id<'a>(devices: &'a Vec<DeviceInfo>, short_id: &str) -> (r: Option<
    &'a DeviceInfo,
>)
    ensures
        match r {
            Some(d) => exists|i: int|
                0 <= i < devices@.len() && *d == devices@[i]
                    && (#[trigger] devices@[i]).short_id@ == short_id@,
            None => forall|i: int|
                0 <= i < devices@.len() ==> (#[trigger] devices@[i]).short_id@ != short_id@,
        },
{
    let mut i: usize = 0;
    while i < devices.len()
        invariant
            i <= devices@.len(),
            forall|k: int| 0 <= k < i ==> (#[trigger] devices@[k]).short_id@ != short_id@,
        decreases devices@.len() - i,
    {
        if crate::text::str_eq(devices[i].short_id.as_str(), short_id) {
            return Some(&devices[i]);
        }
        i = i + 1;
    }
    None
}

} // verus!
