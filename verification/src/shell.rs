//! Shell selection and argument building for terminal and exec sessions.
//!
//! The shell is detected with robust fallbacks (environment, password
//! database, a probe list, `/bin/sh`), and flags are chosen by the shell's
//! base name: only `bash`, `zsh` and `fish` reliably take `-l`.

use vstd::prelude::*;
use crate::trusted::str_to_chars;
use vstd::string::StringExecFns;

verus! {

/// How the shell will be invoked; decides which flags are safe.
pub enum ShellMode {
    /// An interactive login shell for a terminal session.
    InteractiveLogin,
    /// One command without a PTY, for piped exec sessions.
    ExecPiped { command: String },
    /// One command on a PTY, for full-screen programs.
    ExecPty { command: String },
}

/// The spec-level image of a mode.
pub enum SpecShellMode {
    InteractiveLogin,
    ExecPiped(Seq<char>),
    ExecPty(Seq<char>),
}

impl View for ShellMode {
    type V = SpecShellMode;

    open spec fn view(&self) -> SpecShellMode {
        match self {
            ShellMode::InteractiveLogin => SpecShellMode::InteractiveLogin,
            ShellMode::ExecPiped { command } => SpecShellMode::ExecPiped(command@),
            ShellMode::ExecPty { command } => SpecShellMode::ExecPty(command@),
        }
    }
}

/// Everything after the last `/` of a path; the path itself if it has none.
pub open spec fn spec_after_last_slash(s: Seq<char>) -> Seq<char>
    decreases s.len(),
{
    if s.len() == 0 {
        s
    } else if s.last() == '/' {
        Seq::empty()
    } else {
        spec_after_last_slash(s.drop_last()) + seq![s.last()]
    }
}

/// Whether the shell's base name reliably supports the `-l` login flag.
pub open spec fn spec_supports_login(shell: Seq<char>) -> bool {
    let b = spec_after_last_slash(shell);
    b == seq!['b', 'a', 's', 'h'] || b == seq!['z', 's', 'h'] || b == seq![
        'f',
        'i',
        's',
        'h',
    ]
}

/// A path's tail after its last slash is its suffix from that position.
proof fn lemma_after_last_slash(s: Seq<char>, start: int)
    requires
        0 <= start <= s.len(),
        start > 0 ==> s[start - 1] == '/',
        forall|j: int| start <= j < s.len() ==> s[j] != '/',
    ensures
        spec_after_last_slash(s) == s.subrange(start, s.len() as int),
    decreases s.len() - start,
{
    if s.len() == 0 {
        assert(s.subrange(0, 0) =~= s);
    } else if start == s.len() {
        if s.last() == '/' {
            assert(s.subrange(start, s.len() as int) =~= Seq::<char>::empty());
        } else {
            assert(start < s.len());
        }
    } else {
        // the last character is no slash
        assert(s.last() != '/');
        let d = s.drop_last();
        assert forall|j: int| start <= j < d.len() implies d[j] != '/' by {
            assert(d[j] == s[j]);
        }
        if start > 0 {
            assert(d[start - 1] == s[start - 1]);
        }
        lemma_after_last_slash(d, start);
        assert(spec_after_last_slash(s) == d.subrange(start, d.len() as int) + seq![s.last()]);
        assert(d.subrange(start, d.len() as int) =~= s.subrange(start, s.len() - 1));
        assert(s.subrange(start, s.len() - 1) + seq![s.last()] =~= s.subrange(
            start,
            s.len() as int,
        ));
    }
}

/// Whether the shell's base name takes the `-l` flag: `bash`, `zsh` and
/// `fish` do; BusyBox `ash`, `dash` and plain `sh` do not.
pub fn supports_login_flag(shell: &str) -> (r: bool)
    ensures
        r == spec_supports_login(shell@),
{
    let cs = str_to_chars(shell);
    let n = cs.len();
    let mut start: usize = n;
    while start > 0 && cs[start - 1] != '/'
        invariant
            start <= n,
            n == cs@.len(),
            forall|j: int| start <= j < n ==> cs@[j] != '/',
        decreases start,
    {
        start = start - 1;
    }
    proof {
        lemma_after_last_slash(cs@, start as int);
    }
    let blen = n - start;
    if blen == 4 && cs[start] == 'b' && cs[start + 1] == 'a' && cs[start + 2] == 's' && cs[start
        + 3] == 'h' {
        proof {
            assert(cs@.subrange(start as int, n as int) =~= seq!['b', 'a', 's', 'h']);
        }
        true
    } else if blen == 3 && cs[start] == 'z' && cs[start + 1] == 's' && cs[start + 2] == 'h' {
        proof {
            assert(cs@.subrange(start as int, n as int) =~= seq!['z', 's', 'h']);
        }
        true
    } else if blen == 4 && cs[start] == 'f' && cs[start + 1] == 'i' && cs[start + 2] == 's'
        && cs[start + 3] == 'h' {
        proof {
            assert(cs@.subrange(start as int, n as int) =~= seq!['f', 'i', 's', 'h']);
        }
        true
    } else {
        proof {
            let b = cs@.subrange(start as int, n as int);
            if b == seq!['b', 'a', 's', 'h'] {
                assert(b.len() == 4);
                assert(cs@[start as int] == b[0] && b[0] == 'b');
                assert(cs@[start + 1] == b[1] && b[1] == 'a');
                assert(cs@[start + 2] == b[2] && b[2] == 's');
                assert(cs@[start + 3] == b[3] && b[3] == 'h');
            } else if b == seq!['z', 's', 'h'] {
                assert(b.len() == 3);
                assert(cs@[start as int] == b[0] && b[0] == 'z');
                assert(cs@[start + 1] == b[1] && b[1] == 's');
                assert(cs@[start + 2] == b[2] && b[2] == 'h');
            } else if b == seq!['f', 'i', 's', 'h'] {
                assert(b.len() == 4);
                assert(cs@[start as int] == b[0] && b[0] == 'f');
                assert(cs@[start + 1] == b[1] && b[1] == 'i');
                assert(cs@[start + 2] == b[2] && b[2] == 's');
                assert(cs@[start + 3] == b[3] && b[3] == 'h');
            }
        }
        false
    }
}

/// The argument list for a shell and mode: `-l -i` for interactive login
/// shells that take them, `-c <command>` for exec modes, with `-l` only
/// where the shell supports it and never on a PTY exec.
pub open spec fn spec_shell_args(shell: Seq<char>, mode: SpecShellMode) -> Seq<Seq<char>> {
    match mode {
        SpecShellMode::InteractiveLogin => if spec_supports_login(shell) {
            seq![seq!['-', 'l'], seq!['-', 'i']]
        } else {
            seq![]
        },
        SpecShellMode::ExecPiped(cmd) => if spec_supports_login(shell) {
            seq![seq!['-', 'l'], seq!['-', 'c'], cmd]
        } else {
            seq![seq!['-', 'c'], cmd]
        },
        SpecShellMode::ExecPty(cmd) => seq![seq!['-', 'c'], cmd],
    }
}

/// Build the argument vector for the given shell and mode.
pub fn build_shell_args(shell: &str, mode: ShellMode) -> (r: Vec<String>)
    ensures
        r.deep_view() == spec_shell_args(shell@, mode@),
{
    let login = supports_login_flag(shell);
    let mut out: Vec<String> = Vec::new();
    proof {
        reveal_strlit("-l");
        reveal_strlit("-i");
        reveal_strlit("-c");
        assert("-l"@ =~= seq!['-', 'l']);
        assert("-i"@ =~= seq!['-', 'i']);
        assert("-c"@ =~= seq!['-', 'c']);
    }
    match mode {
        ShellMode::InteractiveLogin => {
            if login {
                out.push(String::from_str("-l"));
                out.push(String::from_str("-i"));
            }
        },
        ShellMode::ExecPiped { command } => {
            if login {
                out.push(String::from_str("-l"));
            }
            out.push(String::from_str("-c"));
            out.push(command);
        },
        ShellMode::ExecPty { command } => {
            out.push(String::from_str("-c"));
            out.push(command);
        },
    }
    proof {
        assert(out.deep_view() =~= spec_shell_args(shell@, mode@));
    }
    out
}

/// Pick the shell from the detected candidates, in order: a validated
/// `SHELL` value, the password-database shell, the first probe hit, and
/// `/bin/sh` as the last resort.
pub fn select_shell(
    env_shell: Option<String>,
    passwd_shell: Option<String>,
    probe_hits: Vec<String>,
) -> (r: String)
    ensures
        r@ == (match env_shell {
            Some(s) => s@,
            None => match passwd_shell {
                Some(p) => p@,
                None => if probe_hits@.len() > 0 {
                    probe_hits@[0]@
                } else {
                    "/bin/sh"@
                },
            },
        }),
{
    match env_shell {
        Some(s) => s,
        None => match passwd_shell {
            Some(p) => p,
            None => {
                if probe_hits.len() > 0 {
                    let mut probe_hits = probe_hits;
                    let first = probe_hits.remove(0);
                    first
                } else {
                    String::from_str("/bin/sh")
                }
            },
        },
    }
}

/// The probe list of shells an agent tries, most preferred first.
pub fn shell_probe_candidates() -> (r: Vec<String>)
    ensures
        r.deep_view() == seq![
            "/bin/bash"@,
            "/usr/bin/bash"@,
            "/bin/zsh"@,
            "/usr/bin/zsh"@,
            "/usr/bin/fish"@,
            "/bin/ash"@,
            "/bin/sh"@,
        ],
{
    let mut out: Vec<String> = Vec::new();
    out.push(String::from_str("/bin/bash"));
    out.push(String::from_str("/usr/bin/bash"));
    out.push(String::from_str("/bin/zsh"));
    out.push(String::from_str("/usr/bin/zsh"));
    out.push(String::from_str("/usr/bin/fish"));
    out.push(String::from_str("/bin/ash"));
    out.push(String::from_str("/bin/sh"));
    proof {
        assert(out.deep_view() =~= seq![
            "/bin/bash"@,
            "/usr/bin/bash"@,
            "/bin/zsh"@,
            "/usr/bin/zsh"@,
            "/usr/bin/fish"@,
            "/bin/ash"@,
            "/bin/sh"@,
        ]);
    }
    out
}


/// One of the colon-separated entries of a PATH value reads as `dir`:
/// a maximal segment between colons or ends equals it. The directories
/// asked about carry no colon themselves.
pub open spec fn spec_path_contains(cur: Seq<char>, dir: Seq<char>) -> bool {
    exists|i: int|
        0 <= i && i + dir.len() <= cur.len() && #[trigger] cur.subrange(i, i + dir.len())
            == dir && (i == 0 || cur[i - 1] == ':') && (i + dir.len() == cur.len() || cur[i
            + dir.len()] == ':')
}

/// The essential directories, most specific first.
pub open spec fn spec_essential_dirs() -> Seq<Seq<char>> {
    seq![
        "/usr/local/sbin"@,
        "/usr/local/bin"@,
        "/usr/sbin"@,
        "/usr/bin"@,
        "/sbin"@,
        "/bin"@,
    ]
}

/// The merged PATH text: the current value, then each essential directory
/// it misses, joined by colons; an empty current value contributes no
/// leading entry.
pub open spec fn spec_merge_path(cur: Seq<char>) -> Seq<char> {
    spec_merge_from(cur, cur, 0)
}

/// The merge, essentials from `k` on appended to `acc`.
pub open spec fn spec_merge_from(cur: Seq<char>, acc: Seq<char>, k: int) -> Seq<char>
    decreases spec_essential_dirs().len() - k,
{
    if k < 0 || k >= spec_essential_dirs().len() {
        acc
    } else {
        let dir = spec_essential_dirs()[k];
        let acc2 = if spec_path_contains(cur, dir) {
            acc
        } else if acc.len() == 0 {
            dir
        } else {
            acc + ":"@ + dir
        };
        spec_merge_from(cur, acc2, k + 1)
    }
}

/// Whether a PATH value holds `dir` as one of its entries. The essential
/// directories carry no colon, which the scan relies on.
fn path_contains(cur: &Vec<char>, dir: &[char]) -> (r: bool)
    requires
        forall|t: int| 0 <= t < dir@.len() ==> dir@[t] != ':',
    ensures
        r == spec_path_contains(cur@, dir@),
{
    let n = cur.len();
    let dlen = dir.len();
    let mut i: usize = 0;
    loop
        invariant
            0 <= i <= n,
            n == cur@.len(),
            dlen == dir@.len(),
            forall|t: int| 0 <= t < dir@.len() ==> dir@[t] != ':',
            i == 0 || cur@[i - 1] == ':',
            forall|a: int|
                0 <= a < i && (a == 0 || cur@[a - 1] == ':') ==> !(a + dir@.len()
                    <= cur@.len() && #[trigger] cur@.subrange(a, a + dir@.len()) == dir@ && (a
                    + dir@.len() == cur@.len() || cur@[a + dir@.len()] == ':')),
        decreases n - i,
    {
        // the segment starting at i ends at the next colon or the end
        let mut j = i;
        while j < n && cur[j] != ':'
            invariant
                i <= j <= n,
                n == cur@.len(),
                forall|t: int| i <= t < j ==> (#[trigger] cur@[t]) != ':',
            decreases n - j,
        {
            j = j + 1;
        }
        // compare the segment with the directory
        let mut same = j - i == dlen;
        if same {
            let mut t: usize = 0;
            while t < dlen && same
                invariant
                    t <= dlen,
                    dlen == dir@.len(),
                    i + dlen <= n || i + dlen <= j + dlen,
                    j - i == dlen,
                    i <= j <= n,
                    n == cur@.len(),
                    same ==> forall|u: int| 0 <= u < t ==> cur@[i + u] == dir@[u],
                    !same ==> exists|u: int|
                        0 <= u < dlen && #[trigger] cur@[i + u] != dir@[u],
                decreases dlen - t,
            {
                if cur[i + t] != dir[t] {
                    same = false;
                }
                t = t + 1;
            }
        }
        if same {
            proof {
                assert(cur@.subrange(i as int, i + dir@.len()) =~= dir@);
                assert(i + dir@.len() == cur@.len() || cur@[i + dir@.len()] == ':');
            }
            return true;
        }
        proof {
            assert forall|a: int|
                0 <= a < j + 1 && (a == 0 || cur@[a - 1] == ':') implies !(a + dir@.len()
                    <= cur@.len() && #[trigger] cur@.subrange(a, a + dir@.len()) == dir@ && (a
                    + dir@.len() == cur@.len() || cur@[a + dir@.len()] == ':')) by {
                if a >= i {
                    // within this segment, only its start can host an entry
                    if a > i {
                        assert(cur@[a - 1] == ':');
                        assert(a - 1 >= j || a - 1 < j);
                        if a - 1 < j {
                            assert(cur@[a - 1] != ':');
                        }
                    }
                    if a == i && a + dir@.len() <= cur@.len() && cur@.subrange(
                        a,
                        a + dir@.len(),
                    ) == dir@ {
                        // the segment would have to end exactly at the colon
                        if i + dlen < j {
                            assert(cur@[i + dir@.len()] != ':');
                            assert(i + dir@.len() < cur@.len());
                        } else if i + dlen > j && j < n {
                            let off = j - i;
                            assert(cur@.subrange(a, a + dir@.len())[off as int]
                                == cur@[j as int]);
                            assert(dir@[off as int] == ':');
                        } else if i + dlen > j && j >= n {
                            assert(i + dlen > n);
                        } else {
                            // lengths agree: the comparison failed on content
                            assert(j - i == dlen);
                            let u = choose|u: int|
                                0 <= u < dlen && #[trigger] cur@[i + u] != dir@[u];
                            assert(cur@.subrange(a, a + dir@.len())[u] == cur@[i + u]);
                        }
                    }
                }
            }
        }
        if j >= n {
            proof {
                assert(!spec_path_contains(cur@, dir@)) by {
                    if spec_path_contains(cur@, dir@) {
                        let w = choose|w: int|
                            0 <= w && w + dir@.len() <= cur@.len() && #[trigger] cur@.subrange(
                                w,
                                w + dir@.len(),
                            ) == dir@ && (w == 0 || cur@[w - 1] == ':') && (w + dir@.len()
                                == cur@.len() || cur@[w + dir@.len()] == ':');
                        assert(w < j + 1);
                    }
                }
            }
            return false;
        }
        i = j + 1;
    }
}

/// Merge the essential directories behind the current PATH value: each
/// missing one is appended, none is removed, nothing is reordered.
pub fn merge_path(current: &str) -> (r: String)
    ensures
        r@ == spec_merge_path(current@),
{
    let cur = str_to_chars(current);
    let mut out = String::new();
    out.append(current);
    let essentials: [&str; 6] = [
        "/usr/local/sbin",
        "/usr/local/bin",
        "/usr/sbin",
        "/usr/bin",
        "/sbin",
        "/bin",
    ];
    proof {
        reveal_strlit("/usr/local/sbin");
        reveal_strlit("/usr/local/bin");
        reveal_strlit("/usr/sbin");
        reveal_strlit("/usr/bin");
        reveal_strlit("/sbin");
        reveal_strlit("/bin");
        reveal_strlit(":");
    }
    let mut k: usize = 0;
    while k < 6
        invariant
            k <= 6,
            cur@ == current@,
            essentials@.len() == 6,
            forall|t: int|
                0 <= t < 6 ==> (#[trigger] essentials@[t])@ == spec_essential_dirs()[t],
            spec_merge_path(current@) == spec_merge_from(current@, out@, k as int),
        decreases 6 - k,
    {
        let dir = essentials[k];
        let dirc = str_to_chars(dir);
        proof {
            reveal_strlit("/usr/local/sbin");
            reveal_strlit("/usr/local/bin");
            reveal_strlit("/usr/sbin");
            reveal_strlit("/usr/bin");
            reveal_strlit("/sbin");
            reveal_strlit("/bin");
            reveal_strlit(":");
            assert(dirc@ == spec_essential_dirs()[k as int]);
            assert forall|t: int| 0 <= t < dirc@.len() implies dirc@[t] != ':' by {
                assert(spec_essential_dirs()[k as int][t] != ':');
            }
        }
        if !path_contains(&cur, dirc.as_slice()) {
            if out.as_str().is_empty() {
                let mut fresh = String::new();
                fresh.append(dir);
                out = fresh;
            } else {
                out.append(":");
                out.append(dir);
            }
        }
        k = k + 1;
    }
    out
}

} // verus!
