//! Log-line and table formatting: ANSI coloring, escape-aware widths, and
//! fixed-width rows for the device tables.

use vstd::prelude::*;
use crate::trusted::{chars_to_string, str_to_chars};
use crate::text::copy_subrange_chars;
use vstd::string::StringExecFns;

verus! {

/// The ANSI escape character.
pub open spec fn spec_esc() -> char {
    '\u{1b}'
}

/// A message with its trailing newlines stripped, as `trim_end_matches`
/// with a newline pattern leaves it.
pub open spec fn spec_trim_newlines(s: Seq<char>) -> Seq<char>
    decreases s.len(),
{
    if s.len() > 0 && s.last() == '\n' {
        spec_trim_newlines(s.drop_last())
    } else {
        s
    }
}

/// A formatted log line: `source: message`, the message stripped of its
/// trailing newlines; with color, the source cyan and the message white.
pub open spec fn spec_format_log(source: Seq<char>, message: Seq<char>, ansi: bool) -> Seq<
    char,
> {
    let msg = spec_trim_newlines(message);
    if ansi {
        "\u{1b}[36m"@ + source + "\u{1b}[0m"@ + ": "@ + "\u{1b}[37m"@ + msg + "\u{1b}[0m"@
    } else {
        source + ": "@ + msg
    }
}

/// Format one log line for display.
pub fn format_log(source: &str, message: &str, ansi: bool) -> (r: String)
    ensures
        r@ == spec_format_log(source@, message@, ansi),
{
    let cs = str_to_chars(message);
    let n = cs.len();
    let mut end = n;
    proof {
        assert(cs@.subrange(0, n as int) =~= cs@);
    }
    while end > 0 && cs[end - 1] == '\n'
        invariant
            end <= n,
            n == cs@.len(),
            spec_trim_newlines(cs@) == spec_trim_newlines(cs@.subrange(0, end as int)),
        decreases end,
    {
        proof {
            let cur = cs@.subrange(0, end as int);
            assert(cur.last() == cs@[end - 1]);
            assert(cur.drop_last() =~= cs@.subrange(0, end - 1));
        }
        end = end - 1;
    }
    proof {
        let cur = cs@.subrange(0, end as int);
        if cur.len() > 0 {
            assert(cur.last() == cs@[end - 1]);
        }
        assert(spec_trim_newlines(cs@) == cur);
        assert(cs@.subrange(0, n as int) =~= cs@);
    }
    let trimmed = copy_subrange_chars(cs.as_slice(), 0, end);
    let msg = chars_to_string(&trimmed);
    let mut out = String::new();
    if ansi {
        out.append("\u{1b}[36m");
        out.append(source);
        out.append("\u{1b}[0m");
        out.append(": ");
        out.append("\u{1b}[37m");
        out.append(msg.as_str());
        out.append("\u{1b}[0m");
    } else {
        out.append(source);
        out.append(": ");
        out.append(msg.as_str());
    }
    proof {
        assert(out@ =~= spec_format_log(source@, message@, ansi));
    }
    out
}

/// Wrap a text in one ANSI style: the opening code, the text, the reset.
pub open spec fn spec_styled(code: Seq<char>, s: Seq<char>) -> Seq<char> {
    code + s + "\u{1b}[0m"@
}

/// Bold.
pub fn bold(s: &str) -> (r: String)
    ensures
        r@ == spec_styled("\u{1b}[1m"@, s@),
{
    let mut out = String::new();
    out.append("\u{1b}[1m");
    out.append(s);
    out.append("\u{1b}[0m");
    proof {
        assert(out@ =~= spec_styled("\u{1b}[1m"@, s@));
    }
    out
}

/// Bold, under its short original name.
pub fn b(s: &str) -> (r: String)
    ensures
        r@ == spec_styled("\u{1b}[1m"@, s@),
{
    bold(s)
}

/// Dim.
pub fn dim(s: &str) -> (r: String)
    ensures
        r@ == spec_styled("\u{1b}[2m"@, s@),
{
    let mut out = String::new();
    out.append("\u{1b}[2m");
    out.append(s);
    out.append("\u{1b}[0m");
    proof {
        assert(out@ =~= spec_styled("\u{1b}[2m"@, s@));
    }
    out
}

/// Green.
pub fn green(s: &str) -> (r: String)
    ensures
        r@ == spec_styled("\u{1b}[32m"@, s@),
{
    let mut out = String::new();
    out.append("\u{1b}[32m");
    out.append(s);
    out.append("\u{1b}[0m");
    proof {
        assert(out@ =~= spec_styled("\u{1b}[32m"@, s@));
    }
    out
}

/// Red.
pub fn red(s: &str) -> (r: String)
    ensures
        r@ == spec_styled("\u{1b}[31m"@, s@),
{
    let mut out = String::new();
    out.append("\u{1b}[31m");
    out.append(s);
    out.append("\u{1b}[0m");
    proof {
        assert(out@ =~= spec_styled("\u{1b}[31m"@, s@));
    }
    out
}

/// Yellow.
pub fn yellow(s: &str) -> (r: String)
    ensures
        r@ == spec_styled("\u{1b}[33m"@, s@),
{
    let mut out = String::new();
    out.append("\u{1b}[33m");
    out.append(s);
    out.append("\u{1b}[0m");
    proof {
        assert(out@ =~= spec_styled("\u{1b}[33m"@, s@));
    }
    out
}

/// Cyan.
pub fn cyan(s: &str) -> (r: String)
    ensures
        r@ == spec_styled("\u{1b}[36m"@, s@),
{
    let mut out = String::new();
    out.append("\u{1b}[36m");
    out.append(s);
    out.append("\u{1b}[0m");
    proof {
        assert(out@ =~= spec_styled("\u{1b}[36m"@, s@));
    }
    out
}

/// The status column of the device table.
pub fn status_badge(online: bool) -> (r: String)
    ensures
        online ==> r@ == spec_styled("\u{1b}[32m"@, "online"@),
        !online ==> r@ == spec_styled("\u{1b}[31m"@, "offline"@),
{
    if online {
        green("online")
    } else {
        red("offline")
    }
}

/// The pending column of the device table.
pub fn pending_badge(pending: bool) -> (r: String)
    ensures
        pending ==> r@ == spec_styled("\u{1b}[33m"@, "PENDING"@),
        !pending ==> r@ == spec_styled("\u{1b}[2m"@, "-"@),
{
    if pending {
        yellow("PENDING")
    } else {
        dim("-")
    }
}

/// What remains of a text after the control part of a CSI sequence: the
/// bytes up to and including the first final byte (`0x40` to `0x7e`) are
/// dropped.
pub open spec fn spec_after_csi(s: Seq<char>) -> Seq<char>
    decreases s.len(),
{
    if s.len() == 0 {
        s
    } else if 0x40 <= (s[0] as u32) && (s[0] as u32) <= 0x7e {
        s.drop_first()
    } else {
        spec_after_csi(s.drop_first())
    }
}

/// Dropping a CSI control part never lengthens the text.
pub proof fn lemma_after_csi_len(s: Seq<char>)
    ensures
        spec_after_csi(s).len() <= s.len(),
    decreases s.len(),
{
    if s.len() > 0 && !(0x40 <= (s[0] as u32) && (s[0] as u32) <= 0x7e) {
        lemma_after_csi_len(s.drop_first());
    }
}

/// The visible characters of a text: CSI sequences (`ESC [` up to their
/// final byte) are dropped; everything else stays, in order.
pub open spec fn spec_strip_ansi(s: Seq<char>) -> Seq<char>
    decreases s.len(),
{
    if s.len() == 0 {
        s
    } else if s[0] == spec_esc() {
        if s.len() == 1 {
            Seq::empty()
        } else if s[1] == '[' {
            proof {
                lemma_after_csi_len(s.subrange(2, s.len() as int));
            }
            spec_strip_ansi(spec_after_csi(s.subrange(2, s.len() as int)))
        } else {
            // another escape: the escape and the one following character go
            spec_strip_ansi(s.subrange(2, s.len() as int))
        }
    } else {
        seq![s[0]] + spec_strip_ansi(s.drop_first())
    }
}

/// The tail of `s` after the CSI control part that starts at `i`.
proof fn lemma_csi_scan(s: Seq<char>, i: int, j: int)
    requires
        0 <= i <= j <= s.len(),
        forall|k: int| i <= k < j ==> !(0x40 <= (#[trigger] s[k] as u32) <= 0x7e),
        j == s.len() || (0x40 <= (s[j] as u32) <= 0x7e),
    ensures
        j < s.len() ==> spec_after_csi(s.subrange(i, s.len() as int)) == s.subrange(
            j + 1,
            s.len() as int,
        ),
        j == s.len() ==> spec_after_csi(s.subrange(i, s.len() as int)) == Seq::<char>::empty(),
    decreases j - i,
{
    let cur = s.subrange(i, s.len() as int);
    if i == j {
        if j < s.len() {
            assert(cur[0] == s[j]);
            assert(cur.drop_first() =~= s.subrange(j + 1, s.len() as int));
        } else {
            assert(cur =~= Seq::<char>::empty());
        }
    } else {
        assert(cur[0] == s[i]);
        assert(cur.drop_first() =~= s.subrange(i + 1, s.len() as int));
        lemma_csi_scan(s, i + 1, j);
    }
}

/// Strip CSI escape sequences from a text.
pub fn strip_ansi(s: &str) -> (r: String)
    ensures
        r@ == spec_strip_ansi(s@),
{
    let cs = str_to_chars(s);
    let n = cs.len();
    let mut acc: Vec<char> = Vec::new();
    let mut i: usize = 0;
    proof {
        assert(cs@.subrange(0, n as int) =~= cs@);
        assert(Seq::<char>::empty() + spec_strip_ansi(cs@) =~= spec_strip_ansi(cs@));
    }
    while i < n
        invariant
            i <= n,
            n == cs@.len(),
            cs@ == s@,
            spec_strip_ansi(s@) == acc@ + spec_strip_ansi(cs@.subrange(i as int, n as int)),
        decreases n - i,
    {
        let ghost cur = cs@.subrange(i as int, n as int);
        proof {
            assert(cur[0] == cs@[i as int]);
        }
        let c = cs[i];
        if c == '\u{1b}' {
            if i + 1 >= n {
                proof {
                    assert(cur.len() == 1);
                    assert(acc@ + spec_strip_ansi(cur) =~= acc@);
                    assert(cs@.subrange(n as int, n as int) =~= Seq::<char>::empty());
                    assert(acc@ + spec_strip_ansi(cs@.subrange(n as int, n as int)) =~= acc@);
                }
                i = n;
            } else if cs[i + 1] == '[' {
                let mut j = i + 2;
                while j < n && !(0x40 <= cs[j] as u32 && cs[j] as u32 <= 0x7e)
                    invariant
                        i + 2 <= j <= n,
                        n == cs@.len(),
                        forall|k: int|
                            i + 2 <= k < j ==> !(0x40 <= (#[trigger] cs@[k] as u32) <= 0x7e),
                    decreases n - j,
                {
                    j = j + 1;
                }
                proof {
                    assert(cur[1] == cs@[i + 1]);
                    assert(cur.subrange(2, cur.len() as int) =~= cs@.subrange(
                        i + 2,
                        n as int,
                    ));
                    lemma_csi_scan(cs@, i + 2, j as int);
                    if j < n {
                        assert(spec_strip_ansi(cur) == spec_strip_ansi(
                            cs@.subrange(j + 1, n as int),
                        ));
                    } else {
                        assert(cs@.subrange(n as int, n as int) =~= Seq::<char>::empty());
                        assert(spec_strip_ansi(cur) == spec_strip_ansi(
                            cs@.subrange(n as int, n as int),
                        ));
                    }
                }
                if j < n {
                    i = j + 1;
                } else {
                    i = n;
                }
            } else {
                proof {
                    assert(cur[1] == cs@[i + 1]);
                    assert(cur.subrange(2, cur.len() as int) =~= cs@.subrange(
                        i + 2,
                        n as int,
                    ));
                }
                i = i + 2;
            }
        } else {
            let ghost prev = acc@;
            acc.push(c);
            proof {
                assert(cur.drop_first() =~= cs@.subrange(i + 1, n as int));
                assert(acc@ + spec_strip_ansi(cs@.subrange(i + 1, n as int)) =~= prev + (seq![
                    c,
                ] + spec_strip_ansi(cs@.subrange(i + 1, n as int))));
            }
            i = i + 1;
        }
    }
    proof {
        assert(cs@.subrange(n as int, n as int) =~= Seq::<char>::empty());
        assert(acc@ + spec_strip_ansi(cs@.subrange(n as int, n as int)) =~= acc@);
    }
    chars_to_string(&acc)
}

/// What remains of a text after a `ESC [ ... m` color sequence: everything
/// up to and including the first `m` is dropped.
pub open spec fn spec_after_m(s: Seq<char>) -> Seq<char>
    decreases s.len(),
{
    if s.len() == 0 {
        s
    } else if s[0] == 'm' {
        s.drop_first()
    } else {
        spec_after_m(s.drop_first())
    }
}

/// Dropping a color sequence never lengthens the text.
pub proof fn lemma_after_m_len(s: Seq<char>)
    ensures
        spec_after_m(s).len() <= s.len(),
    decreases s.len(),
{
    if s.len() > 0 && s[0] != 'm' {
        lemma_after_m_len(s.drop_first());
    }
}

/// How many characters of a text are visible: `ESC [ ... m` color
/// sequences take no width; every other character, a lone escape included,
/// counts one column.
pub open spec fn spec_visible_len(s: Seq<char>) -> int
    decreases s.len(),
{
    if s.len() == 0 {
        0
    } else if s[0] == spec_esc() && s.len() >= 2 && s[1] == '[' {
        proof {
            lemma_after_m_len(s.subrange(2, s.len() as int));
        }
        spec_visible_len(spec_after_m(s.subrange(2, s.len() as int)))
    } else {
        1 + spec_visible_len(s.drop_first())
    }
}

/// The tail of `s` after the color sequence that starts at `i`.
proof fn lemma_m_scan(s: Seq<char>, i: int, j: int)
    requires
        0 <= i <= j <= s.len(),
        forall|k: int| i <= k < j ==> (#[trigger] s[k]) != 'm',
        j == s.len() || s[j] == 'm',
    ensures
        j < s.len() ==> spec_after_m(s.subrange(i, s.len() as int)) == s.subrange(
            j + 1,
            s.len() as int,
        ),
        j == s.len() ==> spec_after_m(s.subrange(i, s.len() as int)) == Seq::<char>::empty(),
    decreases j - i,
{
    let cur = s.subrange(i, s.len() as int);
    if i == j {
        if j < s.len() {
            assert(cur[0] == s[j]);
            assert(cur.drop_first() =~= s.subrange(j + 1, s.len() as int));
        } else {
            assert(cur =~= Seq::<char>::empty());
        }
    } else {
        assert(cur[0] == s[i]);
        assert(cur.drop_first() =~= s.subrange(i + 1, s.len() as int));
        lemma_m_scan(s, i + 1, j);
    }
}

/// Visible width of a text, not counting color sequences.
pub fn visible_len(s: &str) -> (r: usize)
    ensures
        r as int == spec_visible_len(s@),
{
    let cs = str_to_chars(s);
    let n = cs.len();
    let mut count: usize = 0;
    let mut i: usize = 0;
    proof {
        assert(cs@.subrange(0, n as int) =~= cs@);
    }
    while i < n
        invariant
            i <= n,
            count <= i,
            n == cs@.len(),
            cs@ == s@,
            spec_visible_len(s@) == count + spec_visible_len(
                cs@.subrange(i as int, n as int),
            ),
        decreases n - i,
    {
        let ghost cur = cs@.subrange(i as int, n as int);
        proof {
            assert(cur[0] == cs@[i as int]);
            if cur.len() >= 2 {
                assert(cur[1] == cs@[i + 1]);
            }
        }
        let c = cs[i];
        if c == '\u{1b}' && i + 1 < n && cs[i + 1] == '[' {
            let mut j = i + 2;
            while j < n && cs[j] != 'm'
                invariant
                    i + 2 <= j <= n,
                    n == cs@.len(),
                    forall|k: int| i + 2 <= k < j ==> (#[trigger] cs@[k]) != 'm',
                decreases n - j,
            {
                j = j + 1;
            }
            proof {
                assert(cur.subrange(2, cur.len() as int) =~= cs@.subrange(i + 2, n as int));
                lemma_m_scan(cs@, i + 2, j as int);
                if j == n {
                    assert(cs@.subrange(n as int, n as int) =~= Seq::<char>::empty());
                }
            }
            if j < n {
                i = j + 1;
            } else {
                i = n;
            }
        } else {
            proof {
                assert(cur.drop_first() =~= cs@.subrange(i + 1, n as int));
            }
            count = count + 1;
            i = i + 1;
        }
    }
    proof {
        assert(cs@.subrange(n as int, n as int) =~= Seq::<char>::empty());
    }
    count
}

/// A cell padded with spaces to the target width; text already as wide
/// stays as it is. Width is measured visibly, so colored cells align.
pub open spec fn spec_pad_cell(s: Seq<char>, width: int) -> Seq<char> {
    let vis = spec_visible_len(s);
    if vis >= width {
        s
    } else {
        s + Seq::new((width - vis) as nat, |k: int| ' ')
    }
}

/// Pad a cell to a column width.
pub fn pad_cell(s: &str, width: usize) -> (r: String)
    ensures
        r@ == spec_pad_cell(s@, width as int),
{
    let vis = visible_len(s);
    let mut out = String::new();
    out.append(s);
    if vis >= width {
        proof {
            assert(out@ =~= spec_pad_cell(s@, width as int));
        }
        return out;
    }
    let mut k: usize = 0;
    let pad = width - vis;
    let mut spaces: Vec<char> = Vec::new();
    while k < pad
        invariant
            k <= pad,
            spaces@ =~= Seq::new(k as nat, |t: int| ' '),
        decreases pad - k,
    {
        spaces.push(' ');
        proof {
            assert(spaces@ =~= Seq::new((k + 1) as nat, |t: int| ' '));
        }
        k = k + 1;
    }
    let tail = chars_to_string(&spaces);
    out.append(tail.as_str());
    proof {
        assert(out@ =~= spec_pad_cell(s@, width as int));
    }
    out
}

/// A table row of eight padded cells and a free-form tail, separated by
/// single spaces.
pub open spec fn spec_row8(
    c1: Seq<char>,
    w1: int,
    c2: Seq<char>,
    w2: int,
    c3: Seq<char>,
    w3: int,
    c4: Seq<char>,
    w4: int,
    c5: Seq<char>,
    w5: int,
    c6: Seq<char>,
    w6: int,
    c7: Seq<char>,
    w7: int,
    c8: Seq<char>,
    w8: int,
    c9: Seq<char>,
) -> Seq<char> {
    spec_pad_cell(c1, w1) + " "@ + spec_pad_cell(c2, w2) + " "@ + spec_pad_cell(c3, w3) + " "@
        + spec_pad_cell(c4, w4) + " "@ + spec_pad_cell(c5, w5) + " "@ + spec_pad_cell(c6, w6)
        + " "@ + spec_pad_cell(c7, w7) + " "@ + spec_pad_cell(c8, w8) + " "@ + c9
}

/// Render one table row of eight padded cells and a tail.
pub fn row8(
    c1: &str,
    w1: usize,
    c2: &str,
    w2: usize,
    c3: &str,
    w3: usize,
    c4: &str,
    w4: usize,
    c5: &str,
    w5: usize,
    c6: &str,
    w6: usize,
    c7: &str,
    w7: usize,
    c8: &str,
    w8: usize,
    c9: &str,
) -> (r: String)
    ensures
        r@ == spec_row8(
            c1@,
            w1 as int,
            c2@,
            w2 as int,
            c3@,
            w3 as int,
            c4@,
            w4 as int,
            c5@,
            w5 as int,
            c6@,
            w6 as int,
            c7@,
            w7 as int,
            c8@,
            w8 as int,
            c9@,
        ),
{
    let mut out = String::new();
    let p1 = pad_cell(c1, w1);
    let p2 = pad_cell(c2, w2);
    let p3 = pad_cell(c3, w3);
    let p4 = pad_cell(c4, w4);
    let p5 = pad_cell(c5, w5);
    let p6 = pad_cell(c6, w6);
    let p7 = pad_cell(c7, w7);
    let p8 = pad_cell(c8, w8);
    out.append(p1.as_str());
    out.append(" ");
    out.append(p2.as_str());
    out.append(" ");
    out.append(p3.as_str());
    out.append(" ");
    out.append(p4.as_str());
    out.append(" ");
    out.append(p5.as_str());
    out.append(" ");
    out.append(p6.as_str());
    out.append(" ");
    out.append(p7.as_str());
    out.append(" ");
    out.append(p8.as_str());
    out.append(" ");
    out.append(c9);
    proof {
        assert(out@ =~= spec_row8(
            c1@,
            w1 as int,
            c2@,
            w2 as int,
            c3@,
            w3 as int,
            c4@,
            w4 as int,
            c5@,
            w5 as int,
            c6@,
            w6 as int,
            c7@,
            w7 as int,
            c8@,
            w8 as int,
            c9@,
        ));
    }
    out
}

/// A text cut to at most `max` characters, the last three replaced by dots
/// when it was longer.
pub open spec fn spec_truncate(s: Seq<char>, max: int) -> Seq<char> {
    if s.len() > max {
        s.subrange(0, max - 3) + "..."@
    } else {
        s
    }
}

/// Truncate a text for a fixed-width column. The width must leave room
/// for the three dots.
pub fn truncate_str(s: &str, max: usize) -> (r: String)
    requires
        max >= 3,
    ensures
        r@ == spec_truncate(s@, max as int),
{
    let cs = str_to_chars(s);
    if cs.len() > max {
        let head = copy_subrange_chars(cs.as_slice(), 0, max - 3);
        let mut out = chars_to_string(&head);
        out.append("...");
        proof {
            assert(out@ =~= spec_truncate(s@, max as int));
        }
        out
    } else {
        let mut out = String::new();
        out.append(s);
        proof {
            assert(out@ =~= spec_truncate(s@, max as int));
        }
        out
    }
}

} // verus!
