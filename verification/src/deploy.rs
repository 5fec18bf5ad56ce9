//! The deployment revision model: jobs, steps, rollback policy and the
//! reports agents send back. The execution engine and its persistence live
//! elsewhere; here are the shapes and the identity hash.
//!
//! Durations are held as whole seconds.

use vstd::prelude::*;
use crate::text::{push_dec_u64, push_dec_i64, spec_dec_nat, spec_dec_int, spec_hex_bytes,
    hex_encode_bytes, str_eq};
use crate::trusted::{sha256, sha256_of, new_uuid_v4_string};
use vstd::string::StringSliceAdditionalSpecFns;
use vstd::utf8::encode_utf8;

verus! {

/// What a job is: a long-lived service, a one-shot job, or an observer.
#[derive(PartialEq, Eq, Structural, Debug, Clone)]
pub enum RunType {
    Service,
    Job,
    Observe,
}

/// Whether a job may ask for, or force, a reboot.
#[derive(PartialEq, Eq, Structural, Debug, Clone)]
pub enum RebootMode {
    NoReboot,
    Request,
    Auto,
}

/// A command: one shell line, or an argv list.
#[derive(Debug, Clone)]
pub enum CommandSpec {
    Sh(String),
    Argv(Vec<String>),
}

/// How many times to retry a step, and how.
#[derive(Debug, Clone)]
pub struct RetrySpec {
    pub attempts: u32,
    pub backoff: u64,
    pub on_exit_codes: Option<Vec<i32>>,
}

/// How to undo a step.
#[derive(Debug, Clone)]
pub struct Undo {
    pub run: CommandSpec,
    pub timeout: Option<u64>,
}

/// One step of a job.
#[derive(Debug, Clone)]
pub struct Step {
    pub name: Option<String>,
    pub run: CommandSpec,
    pub timeout: Option<u64>,
    pub retry: Option<RetrySpec>,
    pub undo: Option<Undo>,
}

/// Whether executed steps are undone on failure.
#[derive(PartialEq, Eq, Structural, Debug, Clone)]
pub enum UndoMode {
    NoUndo,
    ExecutedSteps,
}

/// What happens when a step fails.
#[derive(Debug, Clone)]
pub struct OnFailure {
    pub undo: UndoMode,
    pub continue_on_failure: bool,
}

/// The steps run to stop a service.
#[derive(Debug, Clone)]
pub struct StopSpec {
    pub steps: Vec<Step>,
}

/// Caps on collected logs.
#[derive(Debug, Clone)]
pub struct LogLimit {
    pub max_bytes: u64,
    pub max_lines: u32,
    pub timeout: u64,
}

/// How to collect a job's logs.
#[derive(Debug, Clone)]
pub struct LogSpec {
    pub tail: CommandSpec,
    pub follow: Option<CommandSpec>,
    pub since: Option<u64>,
    pub limits: Option<LogLimit>,
}

/// A liveness probe.
#[derive(Debug, Clone)]
pub struct LivenessSpec {
    pub every: u64,
    pub check: CommandSpec,
}

/// A health probe with a failure threshold.
#[derive(Debug, Clone)]
pub struct HealthSpec {
    pub every: u64,
    pub run: CommandSpec,
    pub fails_after: u32,
}

/// What to observe about a job.
#[derive(Debug, Clone)]
pub struct ObserveSpec {
    pub logs: Option<LogSpec>,
    pub liveness: Option<LivenessSpec>,
    pub health: Option<HealthSpec>,
}

/// Whether a job's working directory outlives the run.
#[derive(PartialEq, Eq, Structural, Debug, Clone)]
pub enum WorkdirMode {
    Persistent,
    Ephemeral,
}

/// A job's working directory.
#[derive(Debug, Clone)]
pub struct Workdir {
    pub mode: WorkdirMode,
    pub path: Option<String>,
}

/// One job of a revision: its identity, kind, inputs and steps.
#[derive(Debug, Clone)]
pub struct RunSpec {
    pub id: String,
    pub run_type: RunType,
    pub enabled: bool,
    pub workdir: Option<Workdir>,
    pub files: Vec<(String, String)>,
    pub env: Vec<(String, String)>,
    pub steps: Vec<Step>,
    pub on_failure: Option<OnFailure>,
    pub stop: Option<StopSpec>,
    pub reboot: RebootMode,
    pub observe: Option<ObserveSpec>,
}

/// When a failing deployment rolls back.
#[derive(PartialEq, Eq, Structural, Debug, Clone)]
pub enum RollbackTrigger {
    Never,
    Any,
    All,
    Consecutive(u32),
}

/// The rollback policy of a revision.
#[derive(Debug, Clone)]
pub struct RollbackPolicy {
    pub on_health_failure: RollbackTrigger,
    pub on_liveness_failure: RollbackTrigger,
    pub stabilization_period_secs: u64,
}

impl RollbackPolicy {
    /// A policy from its three parts.
    pub fn new(
        on_health_failure: RollbackTrigger,
        on_liveness_failure: RollbackTrigger,
        stabilization_period_secs: u64,
    ) -> (r: RollbackPolicy)
        ensures
            r.on_health_failure == on_health_failure,
            r.on_liveness_failure == on_liveness_failure,
            r.stabilization_period_secs == stabilization_period_secs,
    {
        RollbackPolicy { on_health_failure, on_liveness_failure, stabilization_period_secs }
    }
}

/// The default stabilization window: one minute.
pub fn default_stabilization_period() -> (r: u64)
    ensures
        r == 60,
{
    60
}

/// The default log cap in bytes.
pub fn default_max_log_bytes() -> (r: u64)
    ensures
        r == 262144,
{
    262144
}

/// The default log cap in lines.
pub fn default_max_log_lines() -> (r: u32)
    ensures
        r == 1024,
{
    1024
}

/// The default log collection timeout, in seconds.
pub fn default_log_timeout() -> (r: u64)
    ensures
        r == 5,
{
    5
}

/// A set of jobs deployed together, with an optional rollback policy.
#[derive(Debug, Clone)]
pub struct DeploymentRevision {
    pub id: Option<String>,
    pub jobs: Vec<RunSpec>,
    pub rollback: Option<RollbackPolicy>,
}

/// A request to create a revision from its serialized form.
#[derive(Debug, Clone)]
pub struct CreateDeployRevisionBody {
    pub revision: String,
    pub active: Option<bool>,
}

/// A request to change a revision.
#[derive(Debug, Clone)]
pub struct UpdateDeployRevisionBody {
    pub revision: Option<String>,
    pub add_run_spec: Option<String>,
    pub update_run_spec: Option<String>,
    pub remove_run_spec_id: Option<String>,
    pub active: Option<bool>,
}

/// How a run or revision ended.
#[derive(PartialEq, Eq, Structural, Debug, Clone)]
pub enum Outcome {
    Success,
    Failed,
}

/// The whole-revision report.
#[derive(Debug, Clone)]
pub struct DeploymentRevisionReport {
    pub revision_id: String,
    pub outcome: Outcome,
    pub dirty: bool,
    pub error: Option<String>,
}

/// The per-run report.
#[derive(Debug, Clone)]
pub struct RunReport {
    pub run_id: String,
    pub revision_id: String,
    pub outcome: Outcome,
    pub error: Option<String>,
}

/// The per-step report.
#[derive(Debug, Clone)]
pub struct StepReport {
    pub revision_id: String,
    pub run_id: String,
    pub name: Option<String>,
    pub attempts: u32,
    pub exit_code: Option<i32>,
    pub report_time: u64,
    pub success: bool,
    pub is_undo: bool,
    pub error: Option<String>,
    pub log_tail: String,
}

/// The rollback report.
#[derive(Debug, Clone)]
pub struct RollbackReport {
    pub revision_id: String,
    pub success: bool,
    pub undone_steps: Vec<u32>,
    pub error: Option<String>,
    pub log_tail: String,
}

/// The liveness and health state of one run.
#[derive(Debug, Clone)]
pub struct RunState {
    pub run_id: String,
    pub revision_id: String,
    pub healthy: Option<bool>,
    pub alive: Option<bool>,
    pub report_time: u32,
}

/// One report of any kind.
#[derive(Debug, Clone)]
pub enum DeployReportKind {
    DeploymentRevisionReport(DeploymentRevisionReport),
    RunReport(RunReport),
    StepReport(StepReport),
    RollbackReport(RollbackReport),
    RunState(RunState),
}

impl DeployReportKind {
    /// The revision a report belongs to, whatever its kind.
    pub fn get_revision_id(&self) -> (r: &String)
        ensures
            r@ == (match self {
                DeployReportKind::DeploymentRevisionReport(x) => x.revision_id@,
                DeployReportKind::RunReport(x) => x.revision_id@,
                DeployReportKind::StepReport(x) => x.revision_id@,
                DeployReportKind::RollbackReport(x) => x.revision_id@,
                DeployReportKind::RunState(x) => x.revision_id@,
            }),
    {
        match self {
            DeployReportKind::DeploymentRevisionReport(x) => &x.revision_id,
            DeployReportKind::RunReport(x) => &x.revision_id,
            DeployReportKind::StepReport(x) => &x.revision_id,
            DeployReportKind::RollbackReport(x) => &x.revision_id,
            DeployReportKind::RunState(x) => &x.revision_id,
        }
    }
}

/// A report with its addressing and lifetime.
#[derive(Debug, Clone)]
pub struct DeployReport {
    pub device_id: String,
    pub revision_id: String,
    pub kind: DeployReportKind,
    pub expires_at: Option<u64>,
    pub created_at: u64,
}


/// Canonical bytes of a text: its length, a separator, its UTF-8 bytes.
pub open spec fn spec_cstr(s: Seq<char>) -> Seq<u8> {
    spec_dec_nat(s.len()) + seq![0x3Bu8] + encode_utf8(s)
}

/// Append the canonical bytes of a text.
fn push_cstr(t: &str, out: &mut Vec<u8>)
    ensures
        final(out)@ == old(out)@ + spec_cstr(t@),
{
    let n = t.unicode_len();
    push_dec_u64(n as u64, out);
    out.push(0x3Bu8);
    out.extend_from_slice(t.as_bytes());
    proof {
        assert(out@ =~= old(out)@ + spec_cstr(t@));
    }
}

/// Canonical bytes of an optional text.
pub open spec fn spec_copt_str(s: Option<Seq<char>>) -> Seq<u8> {
    match s {
        None => seq![0u8],
        Some(t) => seq![1u8] + spec_cstr(t),
    }
}

/// Append the canonical bytes of an optional text.
fn push_copt_str(t: &Option<String>, out: &mut Vec<u8>)
    ensures
        final(out)@ == old(out)@ + spec_copt_str(
            match t {
                None => None,
                Some(x) => Some(x@),
            },
        ),
{
    match t {
        None => {
            out.push(0u8);
            proof {
                assert(out@ =~= old(out)@ + seq![0u8]);
            }
        },
        Some(x) => {
            out.push(1u8);
            push_cstr(x.as_str(), out);
            proof {
                assert(out@ =~= old(out)@ + spec_copt_str(Some(x@)));
            }
        },
    }
}

/// Canonical bytes of an optional number.
pub open spec fn spec_copt_u64(v: Option<u64>) -> Seq<u8> {
    match v {
        None => seq![0u8],
        Some(n) => seq![1u8] + spec_dec_nat(n as nat) + seq![0x3Bu8],
    }
}

/// Append the canonical bytes of an optional number.
fn push_copt_u64(v: &Option<u64>, out: &mut Vec<u8>)
    ensures
        final(out)@ == old(out)@ + spec_copt_u64(*v),
{
    match v {
        None => {
            out.push(0u8);
            proof {
                assert(out@ =~= old(out)@ + seq![0u8]);
            }
        },
        Some(n) => {
            out.push(1u8);
            push_dec_u64(*n, out);
            out.push(0x3Bu8);
            proof {
                assert(out@ =~= old(out)@ + spec_copt_u64(*v));
            }
        },
    }
}

/// Canonical bytes of a command.
pub open spec fn spec_cmd_bytes(c: CommandSpec) -> Seq<u8> {
    match c {
        CommandSpec::Sh(s) => seq![0u8] + spec_cstr(s@),
        CommandSpec::Argv(args) => seq![1u8] + spec_dec_nat(args@.len()) + seq![0x3Bu8]
            + spec_strs_bytes(args@, args@.len() as int),
    }
}

/// Canonical bytes of the first `n` texts of a list.
pub open spec fn spec_strs_bytes(ss: Seq<String>, n: int) -> Seq<u8>
    decreases n,
{
    if n <= 0 {
        seq![]
    } else {
        spec_strs_bytes(ss, n - 1) + spec_cstr(ss[n - 1]@)
    }
}

/// Append the canonical bytes of a command.
fn push_cmd(c: &CommandSpec, out: &mut Vec<u8>)
    ensures
        final(out)@ == old(out)@ + spec_cmd_bytes(*c),
{
    match c {
        CommandSpec::Sh(sh) => {
            out.push(0u8);
            push_cstr(sh.as_str(), out);
            proof {
                assert(out@ =~= old(out)@ + spec_cmd_bytes(*c));
            }
        },
        CommandSpec::Argv(args) => {
            out.push(1u8);
            let n = args.len();
            push_dec_u64(n as u64, out);
            out.push(0x3Bu8);
            let ghost mid = out@;
            let mut k: usize = 0;
            while k < n
                invariant
                    k <= n,
                    n == args@.len(),
                    out@ == mid + spec_strs_bytes(args@, k as int),
                decreases n - k,
            {
                push_cstr(args[k].as_str(), out);
                proof {
                    assert(out@ =~= mid + spec_strs_bytes(args@, k + 1));
                }
                k = k + 1;
            }
            proof {
                assert(out@ =~= old(out)@ + spec_cmd_bytes(*c));
            }
        },
    }
}

/// Canonical bytes of a retry policy.
pub open spec fn spec_retry_bytes(r: RetrySpec) -> Seq<u8> {
    spec_dec_nat(r.attempts as nat) + seq![0x3Bu8] + spec_dec_nat(r.backoff as nat) + seq![
        0x3Bu8,
    ] + (match r.on_exit_codes {
        None => seq![0u8],
        Some(codes) => seq![1u8] + spec_dec_nat(codes@.len()) + seq![0x3Bu8]
            + spec_codes_bytes(codes@, codes@.len() as int),
    })
}

/// Canonical bytes of the first `n` exit codes.
pub open spec fn spec_codes_bytes(cs: Seq<i32>, n: int) -> Seq<u8>
    decreases n,
{
    if n <= 0 {
        seq![]
    } else {
        spec_codes_bytes(cs, n - 1) + spec_dec_int(cs[n - 1] as int) + seq![0x3Bu8]
    }
}

/// Append the canonical bytes of a retry policy.
fn push_retry(r: &RetrySpec, out: &mut Vec<u8>)
    ensures
        final(out)@ == old(out)@ + spec_retry_bytes(*r),
{
    push_dec_u64(r.attempts as u64, out);
    out.push(0x3Bu8);
    push_dec_u64(r.backoff, out);
    out.push(0x3Bu8);
    match &r.on_exit_codes {
        None => {
            out.push(0u8);
        },
        Some(codes) => {
            out.push(1u8);
            let n = codes.len();
            push_dec_u64(n as u64, out);
            out.push(0x3Bu8);
            let ghost mid = out@;
            let mut k: usize = 0;
            while k < n
                invariant
                    k <= n,
                    n == codes@.len(),
                    out@ == mid + spec_codes_bytes(codes@, k as int),
                decreases n - k,
            {
                push_dec_i64(codes[k] as i64, out);
                out.push(0x3Bu8);
                proof {
                    assert(out@ =~= mid + spec_codes_bytes(codes@, k + 1));
                }
                k = k + 1;
            }
        },
    }
    proof {
        assert(out@ =~= old(out)@ + spec_retry_bytes(*r));
    }
}

/// Canonical bytes of one step.
pub open spec fn spec_step_bytes(s: Step) -> Seq<u8> {
    spec_copt_str(
        match s.name {
            None => None,
            Some(t) => Some(t@),
        },
    ) + spec_cmd_bytes(s.run) + spec_copt_u64(s.timeout) + (match s.retry {
        None => seq![0u8],
        Some(r) => seq![1u8] + spec_retry_bytes(r),
    }) + (match s.undo {
        None => seq![0u8],
        Some(u) => seq![1u8] + spec_cmd_bytes(u.run) + spec_copt_u64(u.timeout),
    })
}

/// Append the canonical bytes of one step.
#[verifier::rlimit(100)]
#[verifier::spinoff_prover]
fn push_step(s: &Step, out: &mut Vec<u8>)
    ensures
        final(out)@ == old(out)@ + spec_step_bytes(*s),
{
    push_copt_str(&s.name, out);
    push_cmd(&s.run, out);
    push_copt_u64(&s.timeout, out);
    match &s.retry {
        None => {
            out.push(0u8);
        },
        Some(r) => {
            out.push(1u8);
            push_retry(r, out);
        },
    }
    match &s.undo {
        None => {
            out.push(0u8);
        },
        Some(u) => {
            out.push(1u8);
            push_cmd(&u.run, out);
            push_copt_u64(&u.timeout, out);
        },
    }
    proof {
        assert(out@ =~= old(out)@ + spec_step_bytes(*s));
    }
}

/// Canonical bytes of the first `n` steps.
pub open spec fn spec_steps_bytes(ss: Seq<Step>, n: int) -> Seq<u8>
    decreases n,
{
    if n <= 0 {
        seq![]
    } else {
        spec_steps_bytes(ss, n - 1) + spec_step_bytes(ss[n - 1])
    }
}

/// Append the canonical bytes of a step list, with its length.
fn push_steps(ss: &Vec<Step>, out: &mut Vec<u8>)
    ensures
        final(out)@ == old(out)@ + spec_dec_nat(ss@.len()) + seq![0x3Bu8] + spec_steps_bytes(
            ss@,
            ss@.len() as int,
        ),
{
    let n = ss.len();
    push_dec_u64(n as u64, out);
    out.push(0x3Bu8);
    let ghost mid = out@;
    let mut k: usize = 0;
    while k < n
        invariant
            k <= n,
            n == ss@.len(),
            out@ == mid + spec_steps_bytes(ss@, k as int),
        decreases n - k,
    {
        push_step(&ss[k], out);
        proof {
            assert(out@ =~= mid + spec_steps_bytes(ss@, k + 1));
        }
        k = k + 1;
    }
    proof {
        assert(out@ =~= old(out)@ + spec_dec_nat(ss@.len()) + seq![0x3Bu8] + spec_steps_bytes(
            ss@,
            ss@.len() as int,
        ));
    }
}

/// Canonical bytes of the first `n` key-value pairs.
pub open spec fn spec_pairs_bytes(ps: Seq<(String, String)>, n: int) -> Seq<u8>
    decreases n,
{
    if n <= 0 {
        seq![]
    } else {
        spec_pairs_bytes(ps, n - 1) + spec_cstr(ps[n - 1].0@) + spec_cstr(ps[n - 1].1@)
    }
}

/// Append the canonical bytes of a key-value list, with its length.
fn push_pairs(ps: &Vec<(String, String)>, out: &mut Vec<u8>)
    ensures
        final(out)@ == old(out)@ + spec_dec_nat(ps@.len()) + seq![0x3Bu8] + spec_pairs_bytes(
            ps@,
            ps@.len() as int,
        ),
{
    let n = ps.len();
    push_dec_u64(n as u64, out);
    out.push(0x3Bu8);
    let ghost mid = out@;
    let mut k: usize = 0;
    while k < n
        invariant
            k <= n,
            n == ps@.len(),
            out@ == mid + spec_pairs_bytes(ps@, k as int),
        decreases n - k,
    {
        push_cstr(ps[k].0.as_str(), out);
        push_cstr(ps[k].1.as_str(), out);
        proof {
            assert(out@ =~= mid + spec_pairs_bytes(ps@, k + 1));
        }
        k = k + 1;
    }
    proof {
        assert(out@ =~= old(out)@ + spec_dec_nat(ps@.len()) + seq![0x3Bu8] + spec_pairs_bytes(
            ps@,
            ps@.len() as int,
        ));
    }
}

/// Canonical bytes of the log settings.
pub open spec fn spec_logs_bytes(l: Option<LogSpec>) -> Seq<u8> {
    match l {
        None => seq![0u8],
        Some(l) => seq![1u8] + spec_cmd_bytes(l.tail) + (match l.follow {
            None => seq![0u8],
            Some(f) => seq![1u8] + spec_cmd_bytes(f),
        }) + spec_copt_u64(l.since) + (match l.limits {
            None => seq![0u8],
            Some(lim) => seq![1u8] + spec_dec_nat(lim.max_bytes as nat) + seq![0x3Bu8]
                + spec_dec_nat(lim.max_lines as nat) + seq![0x3Bu8] + spec_dec_nat(
                lim.timeout as nat,
            ) + seq![0x3Bu8],
        }),
    }
}

/// Canonical bytes of the liveness settings.
pub open spec fn spec_liveness_bytes(l: Option<LivenessSpec>) -> Seq<u8> {
    match l {
        None => seq![0u8],
        Some(l) => seq![1u8] + spec_dec_nat(l.every as nat) + seq![0x3Bu8] + spec_cmd_bytes(
            l.check,
        ),
    }
}

/// Canonical bytes of the health settings.
pub open spec fn spec_health_bytes(h: Option<HealthSpec>) -> Seq<u8> {
    match h {
        None => seq![0u8],
        Some(h) => seq![1u8] + spec_dec_nat(h.every as nat) + seq![0x3Bu8] + spec_cmd_bytes(
            h.run,
        ) + spec_dec_nat(h.fails_after as nat) + seq![0x3Bu8],
    }
}

/// Canonical bytes of the observation settings.
pub open spec fn spec_observe_bytes(o: ObserveSpec) -> Seq<u8> {
    spec_logs_bytes(o.logs) + spec_liveness_bytes(o.liveness) + spec_health_bytes(o.health)
}

/// Append the canonical bytes of the log settings.
#[verifier::rlimit(100)]
fn push_logs(l: &Option<LogSpec>, out: &mut Vec<u8>)
    ensures
        final(out)@ == old(out)@ + spec_logs_bytes(*l),
{
    match l {
        None => {
            out.push(0u8);
            proof {
                assert(out@ =~= old(out)@ + spec_logs_bytes(*l));
            }
        },
        Some(ls) => {
            out.push(1u8);
            push_cmd(&ls.tail, out);
            match &ls.follow {
                None => {
                    out.push(0u8);
                },
                Some(f) => {
                    out.push(1u8);
                    push_cmd(f, out);
                },
            }
            push_copt_u64(&ls.since, out);
            match &ls.limits {
                None => {
                    out.push(0u8);
                },
                Some(lim) => {
                    out.push(1u8);
                    push_dec_u64(lim.max_bytes, out);
                    out.push(0x3Bu8);
                    push_dec_u64(lim.max_lines as u64, out);
                    out.push(0x3Bu8);
                    push_dec_u64(lim.timeout, out);
                    out.push(0x3Bu8);
                },
            }
            proof {
                assert(out@ =~= old(out)@ + spec_logs_bytes(*l));
            }
        },
    }
}

/// Append the canonical bytes of the liveness settings.
fn push_liveness(l: &Option<LivenessSpec>, out: &mut Vec<u8>)
    ensures
        final(out)@ == old(out)@ + spec_liveness_bytes(*l),
{
    match l {
        None => {
            out.push(0u8);
            proof {
                assert(out@ =~= old(out)@ + spec_liveness_bytes(*l));
            }
        },
        Some(ls) => {
            out.push(1u8);
            push_dec_u64(ls.every, out);
            out.push(0x3Bu8);
            push_cmd(&ls.check, out);
            proof {
                assert(out@ =~= old(out)@ + spec_liveness_bytes(*l));
            }
        },
    }
}

/// Append the canonical bytes of the health settings.
fn push_health(h: &Option<HealthSpec>, out: &mut Vec<u8>)
    ensures
        final(out)@ == old(out)@ + spec_health_bytes(*h),
{
    match h {
        None => {
            out.push(0u8);
            proof {
                assert(out@ =~= old(out)@ + spec_health_bytes(*h));
            }
        },
        Some(hs) => {
            out.push(1u8);
            push_dec_u64(hs.every, out);
            out.push(0x3Bu8);
            push_cmd(&hs.run, out);
            push_dec_u64(hs.fails_after as u64, out);
            out.push(0x3Bu8);
            proof {
                assert(out@ =~= old(out)@ + spec_health_bytes(*h));
            }
        },
    }
}

/// Append the canonical bytes of the observation settings.
fn push_observe(o: &ObserveSpec, out: &mut Vec<u8>)
    ensures
        final(out)@ == old(out)@ + spec_observe_bytes(*o),
{
    push_logs(&o.logs, out);
    push_liveness(&o.liveness, out);
    push_health(&o.health, out);
    proof {
        assert(out@ =~= old(out)@ + spec_observe_bytes(*o));
    }
}

/// Canonical bytes of a job's identity, kind, switch and workdir.
pub open spec fn spec_rs_head(r: RunSpec) -> Seq<u8> {
    spec_cstr(r.id@) + (match r.run_type {
        RunType::Service => seq![0u8],
        RunType::Job => seq![1u8],
        RunType::Observe => seq![2u8],
    }) + (if r.enabled {
        seq![1u8]
    } else {
        seq![0u8]
    }) + (match r.workdir {
        None => seq![0u8],
        Some(w) => seq![1u8] + (match w.mode {
            WorkdirMode::Persistent => seq![0u8],
            WorkdirMode::Ephemeral => seq![1u8],
        }) + spec_copt_str(
            match w.path {
                None => None,
                Some(p) => Some(p@),
            },
        ),
    })
}

/// Canonical bytes of the on-failure settings.
pub open spec fn spec_onfailure_bytes(f: Option<OnFailure>) -> Seq<u8> {
    match f {
        None => seq![0u8],
        Some(f) => seq![1u8] + (match f.undo {
            UndoMode::NoUndo => seq![0u8],
            UndoMode::ExecutedSteps => seq![1u8],
        }) + (if f.continue_on_failure {
            seq![1u8]
        } else {
            seq![0u8]
        }),
    }
}

/// Canonical bytes of the stop settings.
pub open spec fn spec_stop_bytes(st: Option<StopSpec>) -> Seq<u8> {
    match st {
        None => seq![0u8],
        Some(st) => seq![1u8] + spec_dec_nat(st.steps@.len()) + seq![0x3Bu8]
            + spec_steps_bytes(st.steps@, st.steps@.len() as int),
    }
}

/// Canonical bytes of the reboot mode.
pub open spec fn spec_reboot_bytes(m: RebootMode) -> Seq<u8> {
    match m {
        RebootMode::NoReboot => seq![0u8],
        RebootMode::Request => seq![1u8],
        RebootMode::Auto => seq![2u8],
    }
}

/// Canonical bytes of the optional observation settings.
pub open spec fn spec_observe_opt_bytes(o: Option<ObserveSpec>) -> Seq<u8> {
    match o {
        None => seq![0u8],
        Some(o) => seq![1u8] + spec_observe_bytes(o),
    }
}

/// Canonical bytes of a job's failure, stop and reboot settings.
pub open spec fn spec_rs_tail(r: RunSpec) -> Seq<u8> {
    spec_onfailure_bytes(r.on_failure) + spec_stop_bytes(r.stop) + spec_reboot_bytes(r.reboot)
        + spec_observe_opt_bytes(r.observe)
}

/// Canonical bytes of a whole job.
pub open spec fn spec_runspec_bytes(r: RunSpec) -> Seq<u8> {
    spec_rs_head(r) + spec_dec_nat(r.files@.len()) + seq![0x3Bu8] + spec_pairs_bytes(
        r.files@,
        r.files@.len() as int,
    ) + spec_dec_nat(r.env@.len()) + seq![0x3Bu8] + spec_pairs_bytes(
        r.env@,
        r.env@.len() as int,
    ) + spec_dec_nat(r.steps@.len()) + seq![0x3Bu8] + spec_steps_bytes(
        r.steps@,
        r.steps@.len() as int,
    ) + spec_rs_tail(r)
}

/// The identity hash of a job: the hex text of the digest of its
/// canonical bytes.
pub open spec fn spec_run_hash(r: RunSpec) -> Seq<char> {
    spec_hex_bytes(sha256_of(spec_runspec_bytes(r))).map_values(|b: u8| b as char)
}

/// ASCII bytes read as text, one character per byte.
fn bytes_as_text(hex: Vec<u8>) -> (r: String)
    ensures
        r@ == hex@.map_values(|b: u8| b as char),
{
    let mut cs: Vec<char> = Vec::new();
    let mut i: usize = 0;
    while i < hex.len()
        invariant
            i <= hex@.len(),
            cs@ == hex@.subrange(0, i as int).map_values(|b: u8| b as char),
        decreases hex@.len() - i,
    {
        cs.push(hex[i] as char);
        proof {
            assert(hex@.subrange(0, i + 1).map_values(|b: u8| b as char) =~= hex@.subrange(
                0,
                i as int,
            ).map_values(|b: u8| b as char).push(hex@[i as int] as char));
        }
        i = i + 1;
    }
    proof {
        assert(hex@.subrange(0, hex@.len() as int) =~= hex@);
    }
    crate::trusted::chars_to_string(&cs)
}


/// Append a job's identity, kind, switch and workdir.
#[verifier::rlimit(100)]
fn push_rs_head(r: &RunSpec, out: &mut Vec<u8>)
    ensures
        final(out)@ == old(out)@ + spec_rs_head(*r),
{
    push_cstr(r.id.as_str(), out);
    match &r.run_type {
        RunType::Service => out.push(0u8),
        RunType::Job => out.push(1u8),
        RunType::Observe => out.push(2u8),
    }
    if r.enabled {
        out.push(1u8);
    } else {
        out.push(0u8);
    }
    match &r.workdir {
        None => {
            out.push(0u8);
        },
        Some(w) => {
            out.push(1u8);
            match &w.mode {
                WorkdirMode::Persistent => out.push(0u8),
                WorkdirMode::Ephemeral => out.push(1u8),
            }
            push_copt_str(&w.path, out);
        },
    }
    proof {
        assert(out@ =~= old(out)@ + spec_rs_head(*r));
    }
}

/// Append the canonical bytes of the on-failure settings.
fn push_onfailure(f: &Option<OnFailure>, out: &mut Vec<u8>)
    ensures
        final(out)@ == old(out)@ + spec_onfailure_bytes(*f),
{
    match f {
        None => {
            out.push(0u8);
        },
        Some(fs) => {
            out.push(1u8);
            match &fs.undo {
                UndoMode::NoUndo => out.push(0u8),
                UndoMode::ExecutedSteps => out.push(1u8),
            }
            if fs.continue_on_failure {
                out.push(1u8);
            } else {
                out.push(0u8);
            }
        },
    }
    proof {
        assert(out@ =~= old(out)@ + spec_onfailure_bytes(*f));
    }
}

/// Append the canonical bytes of the stop settings.
fn push_stop(st: &Option<StopSpec>, out: &mut Vec<u8>)
    ensures
        final(out)@ == old(out)@ + spec_stop_bytes(*st),
{
    match st {
        None => {
            out.push(0u8);
            proof {
                assert(out@ =~= old(out)@ + spec_stop_bytes(*st));
            }
        },
        Some(ss) => {
            out.push(1u8);
            push_steps(&ss.steps, out);
            proof {
                assert(out@ =~= old(out)@ + spec_stop_bytes(*st));
            }
        },
    }
}

/// Append the canonical bytes of the reboot mode.
fn push_reboot(m: &RebootMode, out: &mut Vec<u8>)
    ensures
        final(out)@ == old(out)@ + spec_reboot_bytes(*m),
{
    match m {
        RebootMode::NoReboot => out.push(0u8),
        RebootMode::Request => out.push(1u8),
        RebootMode::Auto => out.push(2u8),
    }
    proof {
        assert(out@ =~= old(out)@ + spec_reboot_bytes(*m));
    }
}

/// Append the canonical bytes of the optional observation settings.
fn push_observe_opt(o: &Option<ObserveSpec>, out: &mut Vec<u8>)
    ensures
        final(out)@ == old(out)@ + spec_observe_opt_bytes(*o),
{
    match o {
        None => {
            out.push(0u8);
            proof {
                assert(out@ =~= old(out)@ + spec_observe_opt_bytes(*o));
            }
        },
        Some(os) => {
            out.push(1u8);
            push_observe(os, out);
            proof {
                assert(out@ =~= old(out)@ + spec_observe_opt_bytes(*o));
            }
        },
    }
}

/// Append a job's failure, stop, reboot and observation settings.
fn push_rs_tail(r: &RunSpec, out: &mut Vec<u8>)
    ensures
        final(out)@ == old(out)@ + spec_rs_tail(*r),
{
    push_onfailure(&r.on_failure, out);
    push_stop(&r.stop, out);
    push_reboot(&r.reboot, out);
    push_observe_opt(&r.observe, out);
    proof {
        assert(out@ =~= old(out)@ + spec_rs_tail(*r));
    }
}

impl RunSpec {
    /// A job from all its parts.
    pub fn new(
        id: String,
        run_type: RunType,
        enabled: bool,
        workdir: Option<Workdir>,
        files: Vec<(String, String)>,
        env: Vec<(String, String)>,
        steps: Vec<Step>,
        on_failure: Option<OnFailure>,
        stop: Option<StopSpec>,
        reboot: RebootMode,
        observe: Option<ObserveSpec>,
    ) -> (r: RunSpec)
        ensures
            r == (RunSpec {
                id,
                run_type,
                enabled,
                workdir,
                files,
                env,
                steps,
                on_failure,
                stop,
                reboot,
                observe,
            }),
    {
        RunSpec {
            id,
            run_type,
            enabled,
            workdir,
            files,
            env,
            steps,
            on_failure,
            stop,
            reboot,
            observe,
        }
    }

    /// Turn a job on or off.
    pub fn enable(&mut self, enabled: bool)
        ensures
            *final(self) == (RunSpec { enabled, ..*old(self) }),
    {
        self.enabled = enabled;
    }

    /// Append this job's canonical bytes.
    fn push_bytes(&self, out: &mut Vec<u8>)
        ensures
            final(out)@ == old(out)@ + spec_runspec_bytes(*self),
    {
        push_rs_head(self, out);
        push_pairs(&self.files, out);
        push_pairs(&self.env, out);
        push_steps(&self.steps, out);
        push_rs_tail(self, out);
        proof {
            assert(out@ =~= old(out)@ + spec_runspec_bytes(*self));
        }
    }

    /// The job's identity hash: hex of the digest of its canonical bytes.
    pub fn get_hash(&self) -> (r: String)
        ensures
            r@ == spec_run_hash(*self),
    {
        let mut bytes: Vec<u8> = Vec::new();
        self.push_bytes(&mut bytes);
        let digest = sha256(bytes.as_slice());
        let hex = hex_encode_bytes(digest.as_slice());
        bytes_as_text(hex)
    }
}

/// The canonical bytes of a revision: each job's hash text, then the
/// rollback policy.
pub open spec fn spec_rev_bytes(jobs: Seq<RunSpec>, n: int, rollback: Option<
    RollbackPolicy,
>) -> Seq<u8>
    decreases n + 1,
{
    if n > 0 {
        spec_rev_bytes(jobs, n - 1, rollback) + spec_hex_bytes(
            sha256_of(spec_runspec_bytes(jobs[n - 1])),
        )
    } else {
        match rollback {
            None => seq![0u8],
            Some(p) => seq![1u8] + spec_trigger_bytes(p.on_health_failure)
                + spec_trigger_bytes(p.on_liveness_failure) + spec_dec_nat(
                p.stabilization_period_secs as nat,
            ) + seq![0x3Bu8],
        }
    }
}

/// Canonical bytes of a rollback trigger.
pub open spec fn spec_trigger_bytes(t: RollbackTrigger) -> Seq<u8> {
    match t {
        RollbackTrigger::Never => seq![0u8],
        RollbackTrigger::Any => seq![1u8],
        RollbackTrigger::All => seq![2u8],
        RollbackTrigger::Consecutive(k) => seq![3u8] + spec_dec_nat(k as nat) + seq![0x3Bu8],
    }
}

/// Append the canonical bytes of a rollback trigger.
fn push_trigger(t: &RollbackTrigger, out: &mut Vec<u8>)
    ensures
        final(out)@ == old(out)@ + spec_trigger_bytes(*t),
{
    match t {
        RollbackTrigger::Never => out.push(0u8),
        RollbackTrigger::Any => out.push(1u8),
        RollbackTrigger::All => out.push(2u8),
        RollbackTrigger::Consecutive(k) => {
            out.push(3u8);
            push_dec_u64(*k as u64, out);
            out.push(0x3Bu8);
        },
    }
    proof {
        assert(out@ =~= old(out)@ + spec_trigger_bytes(*t));
    }
}

impl DeploymentRevision {
    /// A revision over the given jobs, with a fresh random id.
    pub fn new(units: Vec<RunSpec>, rollback: Option<RollbackPolicy>) -> (r:
        DeploymentRevision)
        ensures
            r.id matches Some(u) && u@.len() == 36,
            r.jobs == units,
            r.rollback == rollback,
    {
        DeploymentRevision { id: Some(new_uuid_v4_string()), jobs: units, rollback }
    }

    /// A revision with no jobs and a fresh random id.
    pub fn empty() -> (r: DeploymentRevision)
        ensures
            r.id matches Some(u) && u@.len() == 36,
            r.jobs@ == Seq::<RunSpec>::empty(),
            r.rollback is None,
    {
        DeploymentRevision { id: Some(new_uuid_v4_string()), jobs: Vec::new(), rollback: None }
    }

    /// The revision's identity hash: hex of the digest over the job
    /// hashes and the rollback policy.
    pub fn get_hash(&self) -> (r: String)
        ensures
            r@ == spec_hex_bytes(
                sha256_of(
                    spec_rev_bytes(self.jobs@, self.jobs@.len() as int, self.rollback),
                ),
            ).map_values(|b: u8| b as char),
    {
        let mut bytes: Vec<u8> = Vec::new();
        match &self.rollback {
            None => {
                bytes.push(0u8);
            },
            Some(p) => {
                bytes.push(1u8);
                push_trigger(&p.on_health_failure, &mut bytes);
                push_trigger(&p.on_liveness_failure, &mut bytes);
                push_dec_u64(p.stabilization_period_secs, &mut bytes);
                bytes.push(0x3Bu8);
            },
        }
        proof {
            assert(bytes@ =~= spec_rev_bytes(self.jobs@, 0, self.rollback));
        }
        let n = self.jobs.len();
        let mut k: usize = 0;
        while k < n
            invariant
                k <= n,
                n == self.jobs@.len(),
                bytes@ == spec_rev_bytes(self.jobs@, k as int, self.rollback),
            decreases n - k,
        {
            let mut job_bytes: Vec<u8> = Vec::new();
            self.jobs[k].push_bytes(&mut job_bytes);
            let digest = sha256(job_bytes.as_slice());
            let mut hx = hex_encode_bytes(digest.as_slice());
            bytes.append(&mut hx);
            proof {
                assert(bytes@ =~= spec_rev_bytes(self.jobs@, k + 1, self.rollback));
            }
            k = k + 1;
        }
        let digest = sha256(bytes.as_slice());
        let hex = hex_encode_bytes(digest.as_slice());
        bytes_as_text(hex)
    }

    /// The job whose identity hash is `run_id`, if one exists.
    pub fn get_job(&self, run_id: &str) -> (r: Option<&RunSpec>)
        ensures
            match r {
                Some(j) => exists|i: int|
                    0 <= i < self.jobs@.len() && *j == self.jobs@[i] && spec_run_hash(
                        #[trigger] self.jobs@[i],
                    ) == run_id@,
                None => forall|i: int|
                    0 <= i < self.jobs@.len() ==> spec_run_hash(#[trigger] self.jobs@[i])
                        != run_id@,
            },
    {
        let n = self.jobs.len();
        let mut k: usize = 0;
        while k < n
            invariant
                k <= n,
                n == self.jobs@.len(),
                forall|i: int|
                    0 <= i < k ==> spec_run_hash(#[trigger] self.jobs@[i]) != run_id@,
            decreases n - k,
        {
            let h = self.jobs[k].get_hash();
            if str_eq(h.as_str(), run_id) {
                return Some(&self.jobs[k]);
            }
            k = k + 1;
        }
        None
    }
}


/// A text padded on the right with spaces to `w` columns.
pub open spec fn spec_lpad(s: Seq<char>, w: int) -> Seq<char> {
    if s.len() >= w {
        s
    } else {
        s + Seq::new((w - s.len()) as nat, |k: int| ' ')
    }
}

/// A text padded on the left with spaces to `w` columns.
pub open spec fn spec_rpad(s: Seq<char>, w: int) -> Seq<char> {
    if s.len() >= w {
        s
    } else {
        Seq::new((w - s.len()) as nat, |k: int| ' ') + s
    }
}

/// Spaces.
fn spaces(k: usize) -> (r: Vec<char>)
    ensures
        r@ == Seq::new(k as nat, |t: int| ' '),
{
    let mut out: Vec<char> = Vec::new();
    let mut i: usize = 0;
    while i < k
        invariant
            i <= k,
            out@ =~= Seq::new(i as nat, |t: int| ' '),
        decreases k - i,
    {
        out.push(' ');
        proof {
            assert(out@ =~= Seq::new((i + 1) as nat, |t: int| ' '));
        }
        i = i + 1;
    }
    out
}

/// Pad a text on the right to `w` columns.
fn lpad(s: &str, w: usize) -> (r: String)
    ensures
        r@ == spec_lpad(s@, w as int),
{
    let cs = crate::trusted::str_to_chars(s);
    let mut out = String::new();
    out.append(s);
    if cs.len() >= w {
        proof {
            assert(out@ =~= spec_lpad(s@, w as int));
        }
        return out;
    }
    let pad = spaces(w - cs.len());
    let tail = crate::trusted::chars_to_string(&pad);
    out.append(tail.as_str());
    proof {
        assert(out@ =~= spec_lpad(s@, w as int));
    }
    out
}

/// Pad a text on the left to `w` columns.
fn rpad(s: &str, w: usize) -> (r: String)
    ensures
        r@ == spec_rpad(s@, w as int),
{
    let cs = crate::trusted::str_to_chars(s);
    let mut out = String::new();
    if cs.len() < w {
        let pad = spaces(w - cs.len());
        let head = crate::trusted::chars_to_string(&pad);
        out.append(head.as_str());
    }
    out.append(s);
    proof {
        assert(out@ =~= spec_rpad(s@, w as int));
    }
    out
}

/// The header row of the short revision listing.
pub open spec fn spec_revision_list_header() -> Seq<char> {
    spec_lpad("REVISION"@, 36) + " "@ + spec_rpad("JOBS"@, 4) + " "@ + spec_rpad(
        "ROLLBACK"@,
        8,
    )
}

/// The header row of the short revision listing.
pub fn revision_list_header_line() -> (r: String)
    ensures
        r@ == spec_revision_list_header(),
{
    let mut out = String::new();
    let c1 = lpad("REVISION", 36);
    let c2 = rpad("JOBS", 4);
    let c3 = rpad("ROLLBACK", 8);
    out.append(c1.as_str());
    out.append(" ");
    out.append(c2.as_str());
    out.append(" ");
    out.append(c3.as_str());
    proof {
        assert(out@ =~= spec_revision_list_header());
    }
    out
}

/// The short row of one revision: its id (or a placeholder), its job
/// count, and whether it has a rollback policy.
pub open spec fn spec_revision_short_line(rev: DeploymentRevision) -> Seq<char> {
    let id = match rev.id {
        Some(s) => s@,
        None => "<none>"@,
    };
    let jobs = spec_dec_nat(rev.jobs@.len()).map_values(|b: u8| b as char);
    let rb = if rev.rollback is Some {
        "yes"@
    } else {
        "no"@
    };
    spec_lpad(id, 36) + " "@ + spec_rpad(jobs, 4) + " "@ + spec_rpad(rb, 8)
}

/// Render one revision's short row.
pub fn revision_short_line(rev: &DeploymentRevision) -> (r: String)
    ensures
        r@ == spec_revision_short_line(*rev),
{
    let id: String = match &rev.id {
        Some(s) => s.clone(),
        None => {
            let mut p = String::new();
            p.append("<none>");
            p
        },
    };
    let mut digits: Vec<u8> = Vec::new();
    push_dec_u64(rev.jobs.len() as u64, &mut digits);
    let jobs = bytes_as_text(digits);
    let rb = if rev.rollback.is_some() {
        "yes"
    } else {
        "no"
    };
    let mut out = String::new();
    let c1 = lpad(id.as_str(), 36);
    let c2 = rpad(jobs.as_str(), 4);
    let c3 = rpad(rb, 8);
    out.append(c1.as_str());
    out.append(" ");
    out.append(c2.as_str());
    out.append(" ");
    out.append(c3.as_str());
    proof {
        assert(out@ =~= spec_revision_short_line(*rev));
    }
    out
}

/// The short listing of revisions: the header, then one row each.
pub fn revision_list_short_lines(revs: &Vec<DeploymentRevision>) -> (r: Vec<String>)
    ensures
        r@.len() == revs@.len() + 1,
        r@[0]@ == spec_revision_list_header(),
        forall|i: int|
            0 <= i < revs@.len() ==> (#[trigger] r@[i + 1])@ == spec_revision_short_line(
                revs@[i],
            ),
{
    let mut out: Vec<String> = Vec::new();
    out.push(revision_list_header_line());
    let mut i: usize = 0;
    while i < revs.len()
        invariant
            i <= revs@.len(),
            out@.len() == i + 1,
            out@[0]@ == spec_revision_list_header(),
            forall|k: int|
                0 <= k < i ==> (#[trigger] out@[k + 1])@ == spec_revision_short_line(
                    revs@[k],
                ),
        decreases revs@.len() - i,
    {
        out.push(revision_short_line(&revs[i]));
        i = i + 1;
    }
    out
}


/// The enabled jobs of a list, each keyed by its identity hash, in order.
pub open spec fn spec_job_map(jobs: Seq<RunSpec>, n: int) -> Seq<(Seq<char>, RunSpec)>
    decreases n,
{
    if n <= 0 {
        seq![]
    } else if jobs[n - 1].enabled {
        spec_job_map(jobs, n - 1) + seq![(spec_run_hash(jobs[n - 1]), jobs[n - 1])]
    } else {
        spec_job_map(jobs, n - 1)
    }
}

impl DeploymentRevision {
    /// The enabled jobs keyed by their identity hashes, in job order.
    /// Disabled jobs are left out.
    pub fn get_job_map(&self) -> (r: Vec<(String, &RunSpec)>)
        ensures
            r@.len() == spec_job_map(self.jobs@, self.jobs@.len() as int).len(),
            forall|i: int|
                0 <= i < r@.len() ==> {
                    &&& (#[trigger] r@[i]).0@ == spec_job_map(
                        self.jobs@,
                        self.jobs@.len() as int,
                    )[i].0
                    &&& *r@[i].1 == spec_job_map(self.jobs@, self.jobs@.len() as int)[i].1
                },
    {
        let n = self.jobs.len();
        let mut out: Vec<(String, &RunSpec)> = Vec::new();
        let mut k: usize = 0;
        while k < n
            invariant
                k <= n,
                n == self.jobs@.len(),
                out@.len() == spec_job_map(self.jobs@, k as int).len(),
                forall|i: int|
                    0 <= i < out@.len() ==> {
                        &&& (#[trigger] out@[i]).0@ == spec_job_map(self.jobs@, k as int)[i].0
                        &&& *out@[i].1 == spec_job_map(self.jobs@, k as int)[i].1
                    },
            decreases n - k,
        {
            if self.jobs[k].enabled {
                let h = self.jobs[k].get_hash();
                out.push((h, &self.jobs[k]));
            }
            k = k + 1;
        }
        out
    }
}

} // verus!
