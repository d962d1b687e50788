//! Network adapter management: the PowerShell scripts that change adapters
//! and routing metrics, the reading of `ping.exe` and PowerShell output,
//! and the adapter records built from PowerShell's JSON.

use vstd::prelude::*;
use crate::json::{json_array_members, parse_json_members};
use crate::text::{
    chars_of, string_of, decimal, decimal_string, push_decimal, contains, contains_chars,
    find, find_chars, lines, split_lines, trim, trim_chars, unicode_lowercase, to_lowercase,
    utf8_lossy, decode_utf8_lossy, is_ascii_digit, parse_digits, parse_digits_u64, all_digits,
    lemma_find_from_bounds, lemma_find_shift, occurs_at, find_from,
};

verus! {

/// Represents a network adapter on the system.
#[derive(Debug, Clone)]
pub struct NetworkAdapter {
    pub name: String,
    pub interface_index: u32,
    pub status: String,
    pub mac_address: String,
    pub speed: String,
    pub description: String,
    pub is_connected: bool,
}

/// Result of a connectivity test.
#[derive(Debug, Clone)]
pub struct ConnectivityResult {
    pub reachable: bool,
    pub latency_ms: Option<u64>,
}

/// A PowerShell script to run, and the message that stands for its failure.
#[derive(Debug, Clone)]
pub struct PowerShellCommand {
    pub script: String,
    pub error_context: String,
}

// ------------------------------------------------------------ quoting

/// `s` made safe to stand between single quotes in PowerShell: every `'`
/// doubled, as `str::replace('\'', "''")` does.
pub open spec fn ps_escape(s: Seq<char>) -> Seq<char>
    decreases s.len(),
{
    if s.len() == 0 {
        seq![]
    } else {
        (if s[0] == '\'' {
            seq!['\'', '\'']
        } else {
            seq![s[0]]
        }) + ps_escape(s.drop_first())
    }
}

/// How PowerShell reads the inside of a single-quoted literal: `''` stands
/// for one `'`.
pub open spec fn ps_unescape(t: Seq<char>) -> Seq<char>
    decreases t.len(),
{
    if t.len() == 0 {
        seq![]
    } else if t.len() >= 2 && t[0] == '\'' && t[1] == '\'' {
        seq!['\''] + ps_unescape(t.skip(2))
    } else {
        seq![t[0]] + ps_unescape(t.drop_first())
    }
}

/// Quoting loses nothing: PowerShell reads back from an escaped adapter
/// name exactly the name that was escaped, whatever quotes it holds.
pub proof fn law_ps_escape_round_trip(s: Seq<char>)
    ensures
        ps_unescape(ps_escape(s)) == s,
    decreases s.len(),
{
    if s.len() > 0 {
        let e = ps_escape(s.drop_first());
        law_ps_escape_round_trip(s.drop_first());
        if s[0] == '\'' {
            let t = seq!['\'', '\''] + e;
            assert(t.skip(2) =~= e);
        } else {
            let t = seq![s[0]] + e;
            assert(t.drop_first() =~= e);
        }
        assert(s =~= seq![s[0]] + s.drop_first());
    }
}

/// Appends `s` with every `'` doubled.
pub fn push_ps_escaped(out: &mut String, s: &str)
    ensures
        final(out)@ == old(out)@ + ps_escape(s@),
{
    let cs = chars_of(s);
    let ghost start = out@;
    let mut i: usize = 0;
    assert(cs@.skip(0) =~= cs@);
    while i < cs.len()
        invariant
            i <= cs@.len(),
            cs@ == s@,
            start + ps_escape(cs@) == out@ + ps_escape(cs@.skip(i as int)),
        decreases cs.len() - i,
    {
        let c = cs[i];
        assert(cs@.skip(i as int).drop_first() =~= cs@.skip(i + 1));
        if c == '\'' {
            out.push('\'');
            out.push('\'');
        } else {
            out.push(c);
        }
        proof {
            let rest = cs@.skip(i as int);
            assert(rest[0] == c);
        }
        i = i + 1;
        assert(start + ps_escape(cs@) =~= out@ + ps_escape(cs@.skip(i as int)));
    }
    assert(cs@.skip(i as int) =~= Seq::<char>::empty());
    assert(out@ =~= start + ps_escape(s@));
}

// ------------------------------------------------------- adapter commands

/// The script that enables the adapter `name`.
pub open spec fn enable_script(name: Seq<char>) -> Seq<char> {
    "Enable-NetAdapter -Name '"@ + ps_escape(name) + "' -Confirm:$false -ErrorAction Stop"@
}

/// The script that disables the adapter `name`.
pub open spec fn disable_script(name: Seq<char>) -> Seq<char> {
    "Disable-NetAdapter -Name '"@ + ps_escape(name) + "' -Confirm:$false -ErrorAction Stop"@
}

/// The script that sets the routing metric of an interface.
pub open spec fn metric_script(interface_index: u32, metric: u32) -> Seq<char> {
    "Set-NetIPInterface -InterfaceIndex "@ + decimal(interface_index as nat)
        + " -InterfaceMetric "@ + decimal(metric as nat) + " -ErrorAction Stop"@
}

/// Enables a network adapter by name: the PowerShell command that does it.
pub fn enable_adapter(name: &str) -> (cmd: PowerShellCommand)
    ensures
        cmd.script@ == enable_script(name@),
        cmd.error_context@ == "Failed to enable adapter '"@ + name@ + "'"@,
{
    let mut script = String::from_str("Enable-NetAdapter -Name '");
    push_ps_escaped(&mut script, name);
    script.append("' -Confirm:$false -ErrorAction Stop");
    let mut ctx = String::from_str("Failed to enable adapter '");
    ctx.append(name);
    ctx.append("'");
    PowerShellCommand { script, error_context: ctx }
}

/// Disables a network adapter by name: the PowerShell command that does it.
pub fn disable_adapter(name: &str) -> (cmd: PowerShellCommand)
    ensures
        cmd.script@ == disable_script(name@),
        cmd.error_context@ == "Failed to disable adapter '"@ + name@ + "'"@,
{
    let mut script = String::from_str("Disable-NetAdapter -Name '");
    push_ps_escaped(&mut script, name);
    script.append("' -Confirm:$false -ErrorAction Stop");
    let mut ctx = String::from_str("Failed to disable adapter '");
    ctx.append(name);
    ctx.append("'");
    PowerShellCommand { script, error_context: ctx }
}

/// Sets the routing metric for a network interface: the PowerShell command
/// that does it.
pub fn set_routing_metric(interface_index: u32, metric: u32) -> (cmd: PowerShellCommand)
    ensures
        cmd.script@ == metric_script(interface_index, metric),
        cmd.error_context@ == "Failed to set metric "@ + decimal(metric as nat)
            + " on interface "@ + decimal(interface_index as nat),
{
    let mut script = String::from_str("Set-NetIPInterface -InterfaceIndex ");
    push_decimal(&mut script, interface_index as u64);
    script.append(" -InterfaceMetric ");
    push_decimal(&mut script, metric as u64);
    script.append(" -ErrorAction Stop");
    let mut ctx = String::from_str("Failed to set metric ");
    push_decimal(&mut ctx, metric as u64);
    ctx.append(" on interface ");
    push_decimal(&mut ctx, interface_index as u64);
    PowerShellCommand { script, error_context: ctx }
}


// -------------------------------------------------------------- plans

/// One PowerShell command of a plan; a failed command stops the plan only
/// where it must succeed.
#[derive(Debug, Clone)]
pub struct PlanStep {
    pub command: PowerShellCommand,
    pub must_succeed: bool,
}

/// `step` sets the routing metric of `interface_index` to `metric` and
/// stops its plan when it fails.
pub open spec fn is_metric_step(step: PlanStep, interface_index: u32, metric: u32) -> bool {
    &&& step.command.script@ == metric_script(interface_index, metric)
    &&& step.command.error_context@ == "Failed to set metric "@ + decimal(metric as nat)
        + " on interface "@ + decimal(interface_index as nat)
    &&& step.must_succeed
}

/// The script that turns on IP forwarding on all interfaces.
pub open spec fn forwarding_script() -> Seq<char> {
    "Set-NetIPInterface -Forwarding Enabled -ErrorAction SilentlyContinue"@
}

fn metric_step(interface_index: u32, metric: u32) -> (step: PlanStep)
    ensures
        is_metric_step(step, interface_index, metric),
{
    PlanStep { command: set_routing_metric(interface_index, metric), must_succeed: true }
}

/// Configures load balancing between two adapters: primary metric 10,
/// secondary metric 20, then IP forwarding, whose failure is ignored.
pub fn configure_load_balancing(primary_index: u32, secondary_index: u32) -> (plan: Vec<PlanStep>)
    ensures
        plan@.len() == 3,
        is_metric_step(plan@[0], primary_index, 10),
        is_metric_step(plan@[1], secondary_index, 20),
        plan@[2].command.script@ == forwarding_script(),
        plan@[2].command.error_context@ == Seq::<char>::empty(),
        !plan@[2].must_succeed,
{
    let mut plan: Vec<PlanStep> = Vec::new();
    plan.push(metric_step(primary_index, 10));
    plan.push(metric_step(secondary_index, 20));
    let forwarding = PowerShellCommand {
        script: String::from_str("Set-NetIPInterface -Forwarding Enabled -ErrorAction SilentlyContinue"),
        error_context: String::new(),
    };
    plan.push(PlanStep { command: forwarding, must_succeed: false });
    plan
}

/// Configures failover between two adapters: primary metric 10, secondary
/// metric 100.
pub fn configure_failover(primary_index: u32, secondary_index: u32) -> (plan: Vec<PlanStep>)
    ensures
        plan@.len() == 2,
        is_metric_step(plan@[0], primary_index, 10),
        is_metric_step(plan@[1], secondary_index, 100),
{
    let mut plan: Vec<PlanStep> = Vec::new();
    plan.push(metric_step(primary_index, 10));
    plan.push(metric_step(secondary_index, 100));
    plan
}

/// Where a plan goes after one of its steps has run.
#[derive(Debug, Clone)]
pub enum PlanProgress {
    /// Run the step at this index next.
    Next(usize),
    /// Every step has run; the plan succeeded.
    Finished,
    /// A step that must succeed failed; the plan fails with this message.
    Failed(String),
}

/// Decides how a plan goes on once step `done` has run and `succeeded` or
/// not: a failure of a step that must succeed ends the plan with that
/// step's message, any other outcome moves to the next step or finishes.
pub fn plan_progress(plan: &Vec<PlanStep>, done: usize, succeeded: bool) -> (r: PlanProgress)
    requires
        done < plan@.len(),
    ensures
        !succeeded && plan@[done as int].must_succeed ==> (r matches PlanProgress::Failed(e)
            && e@ == plan@[done as int].command.error_context@),
        (succeeded || !plan@[done as int].must_succeed) && done + 1 < plan@.len() ==> r
            == PlanProgress::Next((done + 1) as usize),
        (succeeded || !plan@[done as int].must_succeed) && done + 1 == plan@.len() ==> r
            is Finished,
{
    if !succeeded && plan[done].must_succeed {
        PlanProgress::Failed(plan[done].command.error_context.clone())
    } else if done < plan.len() - 1 {
        PlanProgress::Next(done + 1)
    } else {
        PlanProgress::Finished
    }
}

// ------------------------------------------------------------------ ping

/// A single echo request to send with `ping.exe`.
#[derive(Debug, Clone)]
pub struct PingRequest {
    pub host: String,
    pub timeout_ms: u32,
    /// The local address the echo request leaves from, where it must go
    /// through one adapter.
    pub source: Option<String>,
}

/// Tests connectivity to a host: one echo request with a 2000 ms timeout.
pub fn test_connectivity_to(host: &str) -> (req: PingRequest)
    ensures
        req.host@ == host@,
        req.timeout_ms == 2000,
        req.source is None,
{
    PingRequest { host: String::from_str(host), timeout_ms: 2000, source: None }
}

/// Tests connectivity to the internet: an echo request to 8.8.8.8.
pub fn test_connectivity() -> (req: PingRequest)
    ensures
        req.host@ == "8.8.8.8"@,
        req.timeout_ms == 2000,
        req.source is None,
{
    test_connectivity_to("8.8.8.8")
}

/// An IPv4 address that PowerShell reported for an adapter: neither empty
/// (no address) nor `N/A` (no field).
pub open spec fn usable_address(ip: Seq<char>) -> bool {
    ip.len() > 0 && ip != "N/A"@
}

/// Tests connectivity on a specific adapter: an echo request to 8.8.8.8
/// that leaves from the adapter's own address, so that only that adapter
/// carries it; `None` where the adapter has no address, and so cannot
/// reach the host.
pub fn test_adapter_connectivity(adapter: &AdapterDetails) -> (r: Option<PingRequest>)
    ensures
        r is Some <==> usable_address(adapter.ip_address@),
        r matches Some(req) ==> (req.host@ == "8.8.8.8"@ && req.timeout_ms == 2000 && (
        req.source matches Some(src) && src@ == adapter.ip_address@)),
{
    let na = String::from_str("N/A");
    if adapter.ip_address.unicode_len() == 0 || adapter.ip_address == na {
        return None;
    }
    let base = test_connectivity();
    Some(PingRequest {
        host: base.host,
        timeout_ms: base.timeout_ms,
        source: Some(adapter.ip_address.clone()),
    })
}

/// The arguments of `ping.exe` for a request: one echo, the timeout, the
/// source address where there is one, the host.
pub fn ping_arguments(req: &PingRequest) -> (args: Vec<String>)
    ensures
        args@[0]@ == "-n"@,
        args@[1]@ == "1"@,
        args@[2]@ == "-w"@,
        args@[3]@ == decimal(req.timeout_ms as nat),
        req.source is None ==> args@.len() == 5 && args@[4]@ == req.host@,
        req.source matches Some(src) ==> (args@.len() == 7 && args@[4]@ == "-S"@ && args@[5]@
            == src@ && args@[6]@ == req.host@),
{
    let mut args: Vec<String> = Vec::new();
    args.push(String::from_str("-n"));
    args.push(String::from_str("1"));
    args.push(String::from_str("-w"));
    args.push(decimal_string(req.timeout_ms as u64));
    match &req.source {
        Some(src) => {
            args.push(String::from_str("-S"));
            args.push(src.clone());
        },
        None => {},
    }
    args.push(req.host.clone());
    args
}


/// The lowercased reply of `ping.exe` reports an answer from the host: it
/// holds `ttl=`, `durée=`, `durée EXPIRÉ` or `time=`.
pub open spec fn ping_reply_ok(lower: Seq<char>) -> bool {
    ||| contains(lower, "ttl="@)
    ||| contains(lower, "durée="@)
    ||| contains(lower, "durée EXPIRÉ"@)
    ||| contains(lower, "time="@)
}

/// A lowercased reply line that carries a round-trip time, in English or
/// French: `time=12ms`, `time<1ms`, `temps=12 ms`, `durée=<1ms`.
pub open spec fn has_latency_key(lower_line: Seq<char>) -> bool {
    ||| contains(lower_line, "time="@)
    ||| contains(lower_line, "time<"@)
    ||| contains(lower_line, "temps="@)
    ||| contains(lower_line, "durée="@)
}

/// The key that introduces the round-trip time on a lowercased line; a key
/// ending in `<` leaves the time itself after it, as `time<1ms` reads 1.
pub open spec fn latency_key(lower_line: Seq<char>) -> Seq<char> {
    if contains(lower_line, "time="@) {
        "time="@
    } else if contains(lower_line, "time<"@) {
        "time<"@
    } else if contains(lower_line, "temps="@) {
        "temps="@
    } else {
        "durée="@
    }
}

/// What `s.split(key).nth(1)` gives back: the text after the first
/// occurrence of `key`, up to the next one.
pub open spec fn second_piece(s: Seq<char>, key: Seq<char>) -> Option<Seq<char>> {
    match find(s, key) {
        None => None,
        Some(i) => {
            let rest = s.skip(i + key.len());
            match find(rest, key) {
                Some(j) => Some(rest.take(j)),
                None => Some(rest),
            }
        },
    }
}

/// The longest prefix of `s` made of ASCII digits and `<`.
pub open spec fn take_digits_or_lt(s: Seq<char>) -> Seq<char>
    decreases s.len(),
{
    if s.len() > 0 && (is_ascii_digit(s[0]) || s[0] == '<') {
        seq![s[0]] + take_digits_or_lt(s.drop_first())
    } else {
        seq![]
    }
}

/// `s` without its leading `<` characters.
pub open spec fn skip_lt(s: Seq<char>) -> Seq<char>
    decreases s.len(),
{
    if s.len() > 0 && s[0] == '<' {
        skip_lt(s.drop_first())
    } else {
        s
    }
}

/// The longest prefix of `s` made of ASCII digits.
pub open spec fn take_digits(s: Seq<char>) -> Seq<char>
    decreases s.len(),
{
    if s.len() > 0 && is_ascii_digit(s[0]) {
        seq![s[0]] + take_digits(s.drop_first())
    } else {
        seq![]
    }
}

/// The round-trip time, in milliseconds, that a reply line carries after
/// its key, a leading `<` skipped (`time=12ms` and `temps=12 ms` read 12,
/// `time<1ms` and `durée=<1ms` read 1).
pub open spec fn latency_in_line(line: Seq<char>, lower_line: Seq<char>) -> Option<u64> {
    match second_piece(line, latency_key(lower_line)) {
        None => None,
        Some(p) => parse_digits_u64(take_digits(skip_lt(take_digits_or_lt(p)))),
    }
}

/// The round-trip time of the first line that carries one, each line given
/// with its lowercase form.
pub open spec fn first_latency_in(pairs: Seq<(Seq<char>, Seq<char>)>) -> Option<u64>
    decreases pairs.len(),
{
    if pairs.len() == 0 {
        None
    } else if has_latency_key(pairs[0].1) {
        latency_in_line(pairs[0].0, pairs[0].1)
    } else {
        first_latency_in(pairs.drop_first())
    }
}

/// Each line with its Unicode lowercase form.
pub open spec fn with_lowercase(ls: Seq<Seq<char>>) -> Seq<(Seq<char>, Seq<char>)> {
    Seq::new(ls.len(), |i: int| (ls[i], unicode_lowercase(ls[i])))
}

/// What a reply of `ping.exe` says: whether the host answered, and the
/// round-trip time where it answered and a line gives one.
pub open spec fn ping_verdict(stdout: Seq<char>) -> (bool, Option<u64>) {
    if ping_reply_ok(unicode_lowercase(stdout)) {
        (true, first_latency_in(with_lowercase(lines(stdout))))
    } else {
        (false, None)
    }
}

/// Whether the lowercased reply of `ping.exe` reports an answer.
pub fn reply_reports_answer(stdout_lower: &str) -> (b: bool)
    ensures
        b == ping_reply_ok(stdout_lower@),
{
    let l = chars_of(stdout_lower);
    let k1 = chars_of("ttl=");
    let k2 = chars_of("durée=");
    let k3 = chars_of("durée EXPIRÉ");
    let k4 = chars_of("time=");
    contains_chars(&l, &k1) || contains_chars(&l, &k2) || contains_chars(&l, &k3)
        || contains_chars(&l, &k4)
}

// ------------------------------------------------------- laws of the reply

proof fn lemma_find_first_from(s: Seq<char>, pat: Seq<char>, from: int, p: int)
    requires
        0 <= from <= p,
        occurs_at(s, pat, p),
        forall|j: int| from <= j < p ==> !occurs_at(s, pat, j),
    ensures
        find_from(s, pat, from) == Some(p),
    decreases p - from,
{
    if from < p {
        assert(!occurs_at(s, pat, from));
        lemma_find_first_from(s, pat, from + 1, p);
    }
}

proof fn lemma_take_digits_or_lt_of(a: Seq<char>, b: Seq<char>)
    requires
        forall|i: int| 0 <= i < a.len() ==> ('0' <= #[trigger] a[i] <= '9' || a[i] == '<'),
        b.len() > 0 ==> !('0' <= b[0] <= '9') && b[0] != '<',
    ensures
        take_digits_or_lt(a + b) == a,
    decreases a.len(),
{
    if a.len() == 0 {
        assert(a + b =~= b);
    } else {
        assert((a + b).drop_first() =~= a.drop_first() + b);
        assert((a + b)[0] == a[0]);
        lemma_take_digits_or_lt_of(a.drop_first(), b);
        assert(seq![a[0]] + a.drop_first() =~= a);
    }
}

proof fn lemma_take_digits_of(a: Seq<char>, b: Seq<char>)
    requires
        forall|i: int| 0 <= i < a.len() ==> '0' <= #[trigger] a[i] <= '9',
        b.len() > 0 ==> !('0' <= b[0] <= '9'),
    ensures
        take_digits(a + b) == a,
    decreases a.len(),
{
    if a.len() == 0 {
        assert(a + b =~= b);
    } else {
        assert((a + b).drop_first() =~= a.drop_first() + b);
        assert((a + b)[0] == a[0]);
        lemma_take_digits_of(a.drop_first(), b);
        assert(seq![a[0]] + a.drop_first() =~= a);
    }
}

proof fn lemma_skip_lts(m: nat, d: Seq<char>)
    requires
        d.len() > 0 ==> d[0] != '<',
    ensures
        skip_lt(Seq::new(m, |i: int| '<') + d) == d,
    decreases m,
{
    let l = Seq::new(m, |i: int| '<');
    if m == 0 {
        assert(l + d =~= d);
    } else {
        assert((l + d).drop_first() =~= Seq::new((m - 1) as nat, |i: int| '<') + d);
        assert((l + d)[0] == '<');
        lemma_skip_lts((m - 1) as nat, d);
    }
}

proof fn lemma_latency_key_start(lower: Seq<char>)
    ensures
        latency_key(lower).len() >= 2,
        latency_key(lower)[0] == 't' || latency_key(lower)[0] == 'd',
{
    reveal_strlit("time=");
    reveal_strlit("time<");
    reveal_strlit("temps=");
    reveal_strlit("durée=");
}

/// The digits that `take_digits` keeps are the longest run of ASCII digits
/// at the start of the text: a prefix of it, made of `0` to `9` only, and
/// followed by no further digit.
pub proof fn law_take_digits_longest_run(s: Seq<char>)
    ensures
        take_digits(s).len() <= s.len(),
        take_digits(s) =~= s.take(take_digits(s).len() as int),
        forall|i: int| 0 <= i < take_digits(s).len() ==> '0' <= #[trigger] take_digits(s)[i] <= '9',
        take_digits(s).len() < s.len() ==> !('0' <= s[take_digits(s).len() as int] <= '9'),
    decreases s.len(),
{
    if s.len() > 0 && is_ascii_digit(s[0]) {
        law_take_digits_longest_run(s.drop_first());
        let t = take_digits(s.drop_first());
        assert(take_digits(s) == seq![s[0]] + t);
        assert forall|i: int| 0 <= i < take_digits(s).len() implies '0' <= #[trigger] take_digits(
            s,
        )[i] <= '9' by {
            if i > 0 {
                assert(take_digits(s)[i] == t[i - 1]);
            }
        }
        assert(take_digits(s) =~= s.take(take_digits(s).len() as int)) by {
            assert forall|i: int| 0 <= i < take_digits(s).len() implies take_digits(s)[i] == s[i] by {
                if i > 0 {
                    assert(take_digits(s)[i] == t[i - 1]);
                    assert(t[i - 1] == s.drop_first().take(t.len() as int)[i - 1]);
                }
            }
        }
        if take_digits(s).len() < s.len() {
            assert(s[take_digits(s).len() as int] == s.drop_first()[t.len() as int]);
        }
    }
}

/// A reply line reads as its round-trip time the number written after its
/// key: where the line is some text without the key, the key, any number
/// of `<`, the decimal digits of `n`, then text that starts with neither a
/// digit nor `<` (such as `ms TTL=117`), the line carries `n` exactly.
pub proof fn law_latency_reads_the_number(
    line: Seq<char>,
    lower: Seq<char>,
    pre: Seq<char>,
    lts: nat,
    n: u64,
    post: Seq<char>,
)
    requires
        line == pre + latency_key(lower) + Seq::new(lts, |i: int| '<') + decimal(n as nat) + post,
        find(pre + latency_key(lower), latency_key(lower)) == Some(pre.len() as int),
        post.len() > 0 ==> !('0' <= post[0] <= '9') && post[0] != '<',
    ensures
        latency_in_line(line, lower) == Some(n),
        has_latency_key(lower) ==> first_latency_in(seq![(line, lower)]) == Some(n),
{
    let key = latency_key(lower);
    let l = Seq::new(lts, |i: int| '<');
    let d = decimal(n as nat);
    crate::text::lemma_decimal_round_trip(n as nat);
    lemma_latency_key_start(lower);
    let p = pre.len() as int;
    let k = key.len() as int;
    lemma_find_from_bounds(pre + key, key, 0);
    assert(line.subrange(p, p + k) =~= key);
    assert forall|j: int| 0 <= j < p implies !occurs_at(line, key, j) by {
        assert(line.subrange(j, j + k) =~= (pre + key).subrange(j, j + k));
        assert(!occurs_at(pre + key, key, j));
    }
    lemma_find_first_from(line, key, 0, p);
    let rest = line.skip(p + k);
    assert(rest =~= l + d + post);
    let m = (lts + d.len()) as int;
    assert forall|i: int| 0 <= i < m implies ('0' <= #[trigger] rest[i] <= '9' || rest[i] == '<')
        by {
        if i >= lts {
            assert(rest[i] == d[i - lts]);
            assert(is_ascii_digit(d[i - lts]));
        }
    }
    lemma_find_from_bounds(rest, key, 0);
    let post2 = match find(rest, key) {
        Some(j) => post.take(j - m),
        None => post,
    };
    match find(rest, key) {
        Some(j) => {
            assert(rest.subrange(j, j + k)[0] == rest[j]);
            assert(j >= m);
            assert(rest.take(j) =~= l + d + post2);
        },
        None => {},
    }
    assert(second_piece(line, key) == Some(l + d + post2));
    assert forall|i: int| 0 <= i < (l + d).len() implies ('0' <= #[trigger] (l + d)[i] <= '9' || (l
        + d)[i] == '<') by {
        if i >= lts {
            assert((l + d)[i] == d[i - lts]);
            assert(is_ascii_digit(d[i - lts]));
        }
    }
    assert(post2.len() > 0 ==> post2[0] == post[0]);
    assert(l + d + post2 =~= (l + d) + post2);
    lemma_take_digits_or_lt_of(l + d, post2);
    assert(is_ascii_digit(d[0]));
    lemma_skip_lts(lts, d);
    assert forall|i: int| 0 <= i < d.len() implies '0' <= #[trigger] d[i] <= '9' by {
        assert(is_ascii_digit(d[i]));
    }
    lemma_take_digits_of(d, Seq::<char>::empty());
    assert(d + Seq::<char>::empty() =~= d);
    assert(parse_digits_u64(d) == Some(n));
    if has_latency_key(lower) {
        let pairs = seq![(line, lower)];
        assert(pairs[0] == (line, lower));
    }
}

proof fn lemma_key_first_at_end(pre: Seq<char>, key: Seq<char>)
    requires
        key.len() >= 3,
        forall|j: int|
            0 <= j < pre.len() && #[trigger] pre[j] == key[0] ==> j + 2 < pre.len() && (pre[j + 1]
                != key[1] || pre[j + 2] != key[2]),
    ensures
        find(pre + key, key) == Some(pre.len() as int),
{
    let s = pre + key;
    let p = pre.len() as int;
    let k = key.len() as int;
    assert(s.subrange(p, p + k) =~= key);
    assert forall|j: int| 0 <= j < p implies !occurs_at(s, key, j) by {
        if occurs_at(s, key, j) {
            assert(s.subrange(j, j + k)[0] == s[j]);
            assert(s[j] == pre[j]);
            assert(s.subrange(j, j + k)[1] == s[j + 1]);
            assert(s[j + 1] == pre[j + 1]);
            assert(s.subrange(j, j + k)[2] == s[j + 2]);
            assert(s[j + 2] == pre[j + 2]);
        }
    }
    lemma_find_first_from(s, key, 0, p);
}

/// The English reply line of `ping.exe`, `Reply from <host>: bytes=32
/// time=<n>ms TTL=117`, with the host written in digits and dots, carries
/// the round-trip time `n`, for every `n`.
pub proof fn law_reply_line_reads_latency(host: Seq<char>, n: u64, lower: Seq<char>)
    requires
        forall|i: int| 0 <= i < host.len() ==> ('0' <= #[trigger] host[i] <= '9' || host[i] == '.'),
        contains(lower, "time="@),
    ensures
        latency_in_line(
            "Reply from "@ + host + ": bytes=32 "@ + "time="@ + decimal(n as nat) + "ms TTL=117"@,
            lower,
        ) == Some(n),
{
    reveal_strlit("Reply from ");
    reveal_strlit(": bytes=32 ");
    reveal_strlit("time=");
    reveal_strlit("ms TTL=117");
    let a = "Reply from "@;
    let b = ": bytes=32 "@;
    let pre = a + host + b;
    let key = "time="@;
    assert(latency_key(lower) == key);
    assert forall|j: int| 0 <= j < pre.len() && #[trigger] pre[j] == key[0] implies j + 2
        < pre.len() && (pre[j + 1] != key[1] || pre[j + 2] != key[2]) by {
        let h = host.len() as int;
        if j < 11 {
            assert(pre[j] == a[j]);
            assert(j == 0 || j == 1 || j == 2 || j == 3 || j == 4 || j == 5 || j == 6 || j == 7
                || j == 8 || j == 9 || j == 10);
        } else if j < 11 + h {
            assert(pre[j] == host[j - 11]);
        } else {
            let q = j - 11 - h;
            assert(pre[j] == b[q]);
            assert(q == 0 || q == 1 || q == 2 || q == 3 || q == 4 || q == 5 || q == 6 || q == 7
                || q == 8 || q == 9 || q == 10);
            if q == 4 {
                assert(pre[j + 1] == b[5]);
                assert(pre[j + 2] == b[6]);
            }
        }
    }
    lemma_key_first_at_end(pre, key);
    let post = "ms TTL=117"@;
    let line = "Reply from "@ + host + ": bytes=32 "@ + "time="@ + decimal(n as nat) + "ms TTL=117"@;
    assert(line =~= pre + key + Seq::new(0, |i: int| '<') + decimal(n as nat) + post);
    law_latency_reads_the_number(line, lower, pre, 0, n, post);
}

/// The French reply line of `ping.exe`, `Réponse de <host> : octets=32
/// temps=<n> ms TTL=117`, with the host written in digits and dots, carries
/// the round-trip time `n`, for every `n`.
pub proof fn law_french_reply_line_reads_latency(host: Seq<char>, n: u64, lower: Seq<char>)
    requires
        forall|i: int| 0 <= i < host.len() ==> ('0' <= #[trigger] host[i] <= '9' || host[i] == '.'),
        !contains(lower, "time="@),
        !contains(lower, "time<"@),
        contains(lower, "temps="@),
    ensures
        latency_in_line(
            "Réponse de "@ + host + " : octets=32 "@ + "temps="@ + decimal(n as nat) + " ms TTL=117"@,
            lower,
        ) == Some(n),
{
    reveal_strlit("Réponse de ");
    reveal_strlit(" : octets=32 ");
    reveal_strlit("temps=");
    reveal_strlit(" ms TTL=117");
    let a = "Réponse de "@;
    let b = " : octets=32 "@;
    let pre = a + host + b;
    let key = "temps="@;
    assert(latency_key(lower) == key);
    assert forall|j: int| 0 <= j < pre.len() && #[trigger] pre[j] == key[0] implies j + 2
        < pre.len() && (pre[j + 1] != key[1] || pre[j + 2] != key[2]) by {
        let h = host.len() as int;
        if j < 11 {
            assert(pre[j] == a[j]);
            assert(j == 0 || j == 1 || j == 2 || j == 3 || j == 4 || j == 5 || j == 6 || j == 7
                || j == 8 || j == 9 || j == 10);
        } else if j < 11 + h {
            assert(pre[j] == host[j - 11]);
        } else {
            let q = j - 11 - h;
            assert(pre[j] == b[q]);
            assert(q == 0 || q == 1 || q == 2 || q == 3 || q == 4 || q == 5 || q == 6 || q == 7
                || q == 8 || q == 9 || q == 10 || q == 11 || q == 12);
            if q == 5 || q == 7 {
                assert(pre[j + 1] == b[q + 1]);
                assert(pre[j + 2] == b[q + 2]);
            }
        }
    }
    lemma_key_first_at_end(pre, key);
    let post = " ms TTL=117"@;
    let line = "Réponse de "@ + host + " : octets=32 "@ + "temps="@ + decimal(n as nat) + " ms TTL=117"@;
    assert(line =~= pre + key + Seq::new(0, |i: int| '<') + decimal(n as nat) + post);
    law_latency_reads_the_number(line, lower, pre, 0, n, post);
}

proof fn lemma_absent_char_no_match(s: Seq<char>, pat: Seq<char>, q: int)
    requires
        0 <= q < pat.len(),
        forall|i: int| 0 <= i < s.len() ==> #[trigger] s[i] != pat[q],
    ensures
        !contains(s, pat),
{
    lemma_find_from_bounds(s, pat, 0);
    match find(s, pat) {
        Some(i) => {
            assert(s.subrange(i, i + pat.len())[q] == s[i + q]);
        },
        None => {},
    }
}

/// The reply counts as an answer exactly where its lowercase text holds
/// `ttl=`, `durée=`, `durée EXPIRÉ` or `time=`; no other line, such as
/// `reply from ...: destination host unreachable.`, makes it one.
pub proof fn law_answer_needs_reply_marker(lower: Seq<char>)
    ensures
        ping_reply_ok(lower) <==> (contains(lower, "ttl="@) || contains(lower, "durée="@)
            || contains(lower, "durée EXPIRÉ"@) || contains(lower, "time="@)),
{
}

/// A reply whose lowercase text has neither `=` nor `é` reports no answer,
/// and then the host is unreachable with no round-trip time.
pub proof fn law_no_marker_no_answer(stdout: Seq<char>)
    requires
        forall|i: int|
            0 <= i < unicode_lowercase(stdout).len() ==> #[trigger] unicode_lowercase(stdout)[i]
                != '=' && unicode_lowercase(stdout)[i] != 'é',
    ensures
        !ping_reply_ok(unicode_lowercase(stdout)),
        ping_verdict(stdout) == (false, None::<u64>),
{
    let l = unicode_lowercase(stdout);
    reveal_strlit("ttl=");
    reveal_strlit("durée=");
    reveal_strlit("durée EXPIRÉ");
    reveal_strlit("time=");
    lemma_absent_char_no_match(l, "ttl="@, 3);
    lemma_absent_char_no_match(l, "durée="@, 5);
    lemma_absent_char_no_match(l, "durée EXPIRÉ"@, 3);
    lemma_absent_char_no_match(l, "time="@, 4);
}

/// The host is reachable only where the lowercase reply holds one of the
/// answer markers, and an unreachable host has no round-trip time.
pub proof fn law_reachable_needs_marker(stdout: Seq<char>)
    ensures
        ping_verdict(stdout).0 ==> (contains(unicode_lowercase(stdout), "ttl="@) || contains(
            unicode_lowercase(stdout),
            "durée="@,
        ) || contains(unicode_lowercase(stdout), "durée EXPIRÉ"@) || contains(
            unicode_lowercase(stdout),
            "time="@,
        )),
        !ping_verdict(stdout).0 ==> ping_verdict(stdout).1 is None,
{
}

/// The lowercase reply of a ping that only got `Destination host
/// unreachable` back from a gateway reports no answer, whatever the
/// addresses (written in digits and dots).
pub proof fn law_destination_unreachable_is_no_answer(target: Seq<char>, gateway: Seq<char>)
    requires
        forall|i: int| 0 <= i < target.len() ==> ('0' <= #[trigger] target[i] <= '9' || target[i] == '.'),
        forall|i: int| 0 <= i < gateway.len() ==> ('0' <= #[trigger] gateway[i] <= '9' || gateway[i] == '.'),
    ensures
        !ping_reply_ok(
            "\r\npinging "@ + target + " with 32 bytes of data:\r\nreply from "@ + gateway
                + ": destination host unreachable.\r\n"@,
        ),
{
    reveal_strlit("\r\npinging ");
    reveal_strlit(" with 32 bytes of data:\r\nreply from ");
    reveal_strlit(": destination host unreachable.\r\n");
    reveal_strlit("ttl=");
    reveal_strlit("durée=");
    reveal_strlit("durée EXPIRÉ");
    reveal_strlit("time=");
    let a = "\r\npinging "@;
    let b = " with 32 bytes of data:\r\nreply from "@;
    let c = ": destination host unreachable.\r\n"@;
    let s = a + target + b + gateway + c;
    assert forall|i: int| 0 <= i < s.len() implies #[trigger] s[i] != '=' && s[i] != 'é' by {
        let t = target.len() as int;
        let g = gateway.len() as int;
        if i < a.len() {
            assert(s[i] == a[i]);
        } else if i < a.len() + t {
            assert(s[i] == target[i - a.len()]);
        } else if i < a.len() + t + b.len() {
            assert(s[i] == b[i - a.len() - t]);
        } else if i < a.len() + t + b.len() + g {
            assert(s[i] == gateway[i - a.len() - t - b.len()]);
        } else {
            assert(s[i] == c[i - a.len() - t - b.len() - g]);
        }
    }
    lemma_absent_char_no_match(s, "ttl="@, 3);
    lemma_absent_char_no_match(s, "durée="@, 5);
    lemma_absent_char_no_match(s, "durée EXPIRÉ"@, 3);
    lemma_absent_char_no_match(s, "time="@, 4);
}

/// The round-trip time of a reply is read from its first line that
/// carries a time key, whatever the later lines say.
pub proof fn law_latency_from_first_timed_line(pairs: Seq<(Seq<char>, Seq<char>)>, i: int)
    requires
        0 <= i < pairs.len(),
        has_latency_key(pairs[i].1),
        forall|j: int| 0 <= j < i ==> !has_latency_key(#[trigger] pairs[j].1),
    ensures
        first_latency_in(pairs) == latency_in_line(pairs[i].0, pairs[i].1),
    decreases i,
{
    if i > 0 {
        assert(!has_latency_key(pairs[0].1));
        let rest = pairs.drop_first();
        assert forall|j: int| 0 <= j < i - 1 implies !has_latency_key(#[trigger] rest[j].1) by {
            assert(rest[j] == pairs[j + 1]);
        }
        law_latency_from_first_timed_line(rest, i - 1);
    }
}

/// A reply none of whose lines carries a time key gives no round-trip
/// time.
pub proof fn law_no_timed_line_no_latency(pairs: Seq<(Seq<char>, Seq<char>)>)
    requires
        forall|j: int| 0 <= j < pairs.len() ==> !has_latency_key(#[trigger] pairs[j].1),
    ensures
        first_latency_in(pairs) is None,
    decreases pairs.len(),
{
    if pairs.len() > 0 {
        assert(!has_latency_key(pairs[0].1));
        let rest = pairs.drop_first();
        assert forall|j: int| 0 <= j < rest.len() implies !has_latency_key(#[trigger] rest[j].1) by {
            assert(rest[j] == pairs[j + 1]);
        }
        law_no_timed_line_no_latency(rest);
    }
}

fn has_latency_key_chars(lower_line: &[char]) -> (b: bool)
    ensures
        b == has_latency_key(lower_line@),
{
    let k1 = chars_of("time=");
    let k2 = chars_of("time<");
    let k3 = chars_of("temps=");
    let k4 = chars_of("durée=");
    contains_chars(lower_line, &k1) || contains_chars(lower_line, &k2) || contains_chars(
        lower_line,
        &k3,
    ) || contains_chars(lower_line, &k4)
}

fn latency_key_chars(lower_line: &[char]) -> (k: Vec<char>)
    ensures
        k@ == latency_key(lower_line@),
{
    let k1 = chars_of("time=");
    let k2 = chars_of("time<");
    let k3 = chars_of("temps=");
    let k4 = chars_of("durée=");
    if contains_chars(lower_line, &k1) {
        k1
    } else if contains_chars(lower_line, &k2) {
        k2
    } else if contains_chars(lower_line, &k3) {
        k3
    } else {
        k4
    }
}

fn second_piece_chars(s: &[char], key: &[char]) -> (r: Option<Vec<char>>)
    ensures
        match r {
            Some(p) => second_piece(s@, key@) == Some(p@),
            None => second_piece(s@, key@) is None,
        },
{
    match find_chars(s, key, 0) {
        None => None,
        Some(i) => {
            proof {
                lemma_find_from_bounds(s@, key@, 0);
            }
            let n = s.len();
            assert(i + key@.len() <= n);
            let start = i + key.len();
            let ghost rest = s@.skip(start as int);
            let end = match find_chars(s, key, start) {
                Some(j) => j,
                None => s.len(),
            };
            proof {
                lemma_find_shift(s@, key@, start as int);
                lemma_find_from_bounds(s@, key@, start as int);
                lemma_find_from_bounds(rest, key@, 0);
            }
            let mut p: Vec<char> = Vec::new();
            let mut k: usize = start;
            while k < end
                invariant
                    start <= k <= end <= s@.len(),
                    p@ == s@.subrange(start as int, k as int),
                decreases end - k,
            {
                p.push(s[k]);
                k = k + 1;
            }
            proof {
                match find(rest, key@) {
                    Some(j) => {
                        assert(rest.take(j) =~= p@);
                    },
                    None => {
                        assert(rest =~= p@);
                    },
                }
            }
            Some(p)
        },
    }
}

fn take_digits_or_lt_chars(s: &[char]) -> (r: Vec<char>)
    ensures
        r@ == take_digits_or_lt(s@),
{
    let mut r: Vec<char> = Vec::new();
    let mut i: usize = 0;
    assert(s@.skip(0) =~= s@);
    while i < s.len() && (('0' <= s[i] && s[i] <= '9') || s[i] == '<')
        invariant
            i <= s@.len(),
            take_digits_or_lt(s@) == r@ + take_digits_or_lt(s@.skip(i as int)),
        decreases s.len() - i,
    {
        assert(s@.skip(i as int).drop_first() =~= s@.skip(i + 1));
        assert(s@.skip(i as int)[0] == s@[i as int]);
        r.push(s[i]);
        i = i + 1;
        assert(take_digits_or_lt(s@) =~= r@ + take_digits_or_lt(s@.skip(i as int)));
    }
    if i < s.len() {
        assert(s@.skip(i as int)[0] == s@[i as int]);
    }
    assert(take_digits_or_lt(s@.skip(i as int)) =~= Seq::<char>::empty());
    assert(r@ =~= take_digits_or_lt(s@));
    r
}

fn take_digits_chars(s: &[char]) -> (r: Vec<char>)
    ensures
        r@ == take_digits(s@),
        all_digits(r@),
{
    let mut r: Vec<char> = Vec::new();
    let mut i: usize = 0;
    assert(s@.skip(0) =~= s@);
    while i < s.len() && ('0' <= s[i] && s[i] <= '9')
        invariant
            i <= s@.len(),
            take_digits(s@) == r@ + take_digits(s@.skip(i as int)),
            all_digits(r@),
        decreases s.len() - i,
    {
        assert(s@.skip(i as int).drop_first() =~= s@.skip(i + 1));
        assert(s@.skip(i as int)[0] == s@[i as int]);
        r.push(s[i]);
        i = i + 1;
        assert(take_digits(s@) =~= r@ + take_digits(s@.skip(i as int)));
    }
    if i < s.len() {
        assert(s@.skip(i as int)[0] == s@[i as int]);
    }
    assert(take_digits(s@.skip(i as int)) =~= Seq::<char>::empty());
    assert(r@ =~= take_digits(s@));
    r
}

fn skip_lt_chars(s: &[char]) -> (r: Vec<char>)
    ensures
        r@ == skip_lt(s@),
{
    let mut i: usize = 0;
    assert(s@.skip(0) =~= s@);
    while i < s.len() && s[i] == '<'
        invariant
            i <= s@.len(),
            skip_lt(s@) == skip_lt(s@.skip(i as int)),
        decreases s.len() - i,
    {
        assert(s@.skip(i as int).drop_first() =~= s@.skip(i + 1));
        assert(s@.skip(i as int)[0] == s@[i as int]);
        i = i + 1;
    }
    if i < s.len() {
        assert(s@.skip(i as int)[0] == s@[i as int]);
    }
    let mut r: Vec<char> = Vec::new();
    let mut k: usize = i;
    while k < s.len()
        invariant
            i <= k <= s@.len(),
            r@ == s@.subrange(i as int, k as int),
        decreases s.len() - k,
    {
        r.push(s[k]);
        k = k + 1;
    }
    assert(r@ =~= s@.skip(i as int));
    r
}

fn latency_in_line_chars(line: &[char], lower_line: &[char]) -> (r: Option<u64>)
    ensures
        r == latency_in_line(line@, lower_line@),
{
    let key = latency_key_chars(lower_line);
    match second_piece_chars(line, &key) {
        None => None,
        Some(p) => {
            let a = take_digits_or_lt_chars(&p);
            let b = skip_lt_chars(&a);
            let c = take_digits_chars(&b);
            parse_digits(&c)
        },
    }
}

/// The round-trip time that a reply line carries, given the line and its
/// lowercase form.
pub fn latency_from_line(line: &str, line_lower: &str) -> (r: Option<u64>)
    ensures
        r == latency_in_line(line@, line_lower@),
{
    let l = chars_of(line);
    let ll = chars_of(line_lower);
    latency_in_line_chars(&l, &ll)
}

/// Reads a reply of `ping.exe`, given its lowercase form and its lines
/// each with their lowercase form: the host is reachable where the reply
/// reports an answer, with the round-trip time of the first line that
/// carries one.
pub fn read_ping_reply(reply_lower: &str, lines_lower: &Vec<(String, String)>) -> (r:
    ConnectivityResult)
    ensures
        r.reachable == ping_reply_ok(reply_lower@),
        r.latency_ms == (if ping_reply_ok(reply_lower@) {
            first_latency_in(lines_lower.deep_view())
        } else {
            None
        }),
{
    if !reply_reports_answer(reply_lower) {
        return ConnectivityResult { reachable: false, latency_ms: None };
    }
    let ghost all = lines_lower.deep_view();
    let mut i: usize = 0;
    assert(all.skip(0) =~= all);
    while i < lines_lower.len()
        invariant
            i <= lines_lower@.len(),
            all == lines_lower.deep_view(),
            ping_reply_ok(reply_lower@),
            first_latency_in(all) == first_latency_in(all.skip(i as int)),
        decreases lines_lower.len() - i,
    {
        let line = chars_of(lines_lower[i].0.as_str());
        let llv = chars_of(lines_lower[i].1.as_str());
        assert(all.skip(i as int)[0] == all[i as int]);
        assert(all[i as int] == (lines_lower@[i as int].0@, lines_lower@[i as int].1@));
        if has_latency_key_chars(&llv) {
            let latency = latency_in_line_chars(&line, &llv);
            return ConnectivityResult { reachable: true, latency_ms: latency };
        }
        assert(all.skip(i as int).drop_first() =~= all.skip(i + 1));
        i = i + 1;
    }
    assert(all.skip(i as int) =~= Seq::<(Seq<char>, Seq<char>)>::empty());
    ConnectivityResult { reachable: true, latency_ms: None }
}

/// Reads the reply of `ping.exe`: the host is reachable where the reply
/// reports an answer, with the round-trip time of the first line that
/// carries one.
pub fn parse_ping_output(stdout: &str) -> (r: ConnectivityResult)
    ensures
        (r.reachable, r.latency_ms) == ping_verdict(stdout@),
{
    let lower = to_lowercase(stdout);
    let sv = chars_of(stdout);
    let ls = split_lines(&sv);
    let ghost all = lines(stdout@);
    let mut pairs: Vec<(String, String)> = Vec::new();
    let mut i: usize = 0;
    while i < ls.len()
        invariant
            i <= ls@.len(),
            ls@.len() == all.len(),
            forall|k: int| 0 <= k < ls@.len() ==> #[trigger] ls@[k]@ == all[k],
            pairs.deep_view() =~= with_lowercase(all).take(i as int),
        decreases ls.len() - i,
    {
        let line = string_of(ls[i].as_slice());
        let line_lower = to_lowercase(line.as_str());
        assert(ls@[i as int]@ == all[i as int]);
        let ghost before = pairs.deep_view();
        let ghost pv = pairs@;
        let ghost entry = (line@, line_lower@);
        assert(entry == with_lowercase(all)[i as int]);
        pairs.push((line, line_lower));
        assert(pairs@ == pv.push((line, line_lower)));
        assert(pairs.deep_view() =~= before.push(entry)) by {
            assert forall|k: int| 0 <= k < pairs@.len() implies #[trigger] pairs.deep_view()[k]
                == before.push(entry)[k] by {
                if k < pv.len() {
                    assert(pairs@[k] == pv[k]);
                }
            }
        }
        i = i + 1;
        assert(pairs.deep_view() =~= with_lowercase(all).take(i as int));
    }
    assert(with_lowercase(all).take(i as int) =~= with_lowercase(all));
    read_ping_reply(lower.as_str(), &pairs)
}

/// Reads the raw output bytes of `ping.exe` (decoded as UTF-8, invalid
/// sequences replaced).
pub fn ping_outcome(stdout: &[u8]) -> (r: ConnectivityResult)
    ensures
        (r.reachable, r.latency_ms) == ping_verdict(utf8_lossy(stdout@)),
{
    let text = decode_utf8_lossy(stdout);
    parse_ping_output(text.as_str())
}

/// What a finished PowerShell process gives back: its output where it
/// succeeded, otherwise an error carrying what it wrote to stderr.
pub fn powershell_outcome(success: bool, stdout: &[u8], stderr: &[u8]) -> (r: Result<
    String,
    String,
>)
    ensures
        success ==> (r matches Ok(out) && out@ == utf8_lossy(stdout@)),
        !success ==> (r matches Err(e) && e@ == "PowerShell error: "@ + utf8_lossy(stderr@)),
{
    if !success {
        let err = decode_utf8_lossy(stderr);
        let mut msg = String::from_str("PowerShell error: ");
        msg.append(err.as_str());
        Err(msg)
    } else {
        Ok(decode_utf8_lossy(stdout))
    }
}


// ------------------------------------------------------- adapter records

/// Detailed adapter info for expert mode.
#[derive(Debug, Clone)]
pub struct AdapterDetails {
    pub name: String,
    pub interface_index: u32,
    pub status: String,
    pub description: String,
    pub mac_address: String,
    pub speed: String,
    pub ip_address: String,
    pub subnet_mask: String,
    pub default_gateway: String,
    pub dns_servers: String,
    pub dhcp_enabled: bool,
    pub routing_metric: Option<u32>,
}

/// The PowerShell script that lists the adapters as JSON.
pub const LIST_ADAPTERS_SCRIPT: &'static str = r#"
        Get-NetAdapter | Select-Object Name, ifIndex, Status, MacAddress, LinkSpeed, InterfaceDescription |
        ConvertTo-Json -Compress
    "#;

/// The PowerShell script that gives every adapter's details as JSON, in a
/// single process.
pub const ADAPTER_DETAILS_SCRIPT: &'static str = r#"
$adapters = Get-NetAdapter | Select-Object Name, ifIndex, Status, MacAddress, LinkSpeed, InterfaceDescription
$results = @()
foreach ($a in $adapters) {
    $idx = $a.ifIndex
    $ip = ""
    $prefix = 24
    try {
        $ipObj = Get-NetIPAddress -InterfaceIndex $idx -AddressFamily IPv4 -ErrorAction SilentlyContinue | Select-Object -First 1
        if ($ipObj) { $ip = $ipObj.IPAddress; $prefix = $ipObj.PrefixLength }
    } catch {}
    $gw = ""
    try {
        $gwObj = Get-NetIPConfiguration -InterfaceIndex $idx -ErrorAction SilentlyContinue
        if ($gwObj -and $gwObj.IPv4DefaultGateway) { $gw = $gwObj.IPv4DefaultGateway.NextHop }
    } catch {}
    $dns = ""
    try {
        $dnsArr = Get-DnsClientServerAddress -InterfaceIndex $idx -AddressFamily IPv4 -ErrorAction SilentlyContinue | Select-Object -ExpandProperty ServerAddresses
        if ($dnsArr) { $dns = ($dnsArr -join ", ") }
    } catch {}
    $dhcp = $false
    try {
        $dhcpVal = Get-NetIPInterface -InterfaceIndex $idx -AddressFamily IPv4 -ErrorAction SilentlyContinue | Select-Object -ExpandProperty Dhcp
        if ($dhcpVal -eq "Enabled") { $dhcp = $true }
    } catch {}
    $metric = 0
    try {
        $mVal = Get-NetIPInterface -InterfaceIndex $idx -AddressFamily IPv4 -ErrorAction SilentlyContinue | Select-Object -ExpandProperty InterfaceMetric
        if ($mVal) { $metric = [int]$mVal }
    } catch {}
    $results += @{
        name = $a.Name
        interface_index = $idx
        status = $a.Status
        description = $a.InterfaceDescription
        mac_address = $a.MacAddress
        speed = $a.LinkSpeed
        ip_address = $ip
        prefix = $prefix
        default_gateway = $gw
        dns_servers = $dns
        dhcp_enabled = $dhcp
        routing_metric = $metric
    }
}
$results | ConvertTo-Json -Compress
"#;

/// The text of `o`, or `default` where there is none.
pub open spec fn text_or(o: Option<&str>, default: Seq<char>) -> Seq<char> {
    match o {
        Some(s) => s@,
        None => default,
    }
}

fn string_or(o: Option<&str>, default: &str) -> (r: String)
    ensures
        r@ == text_or(o, default@),
{
    match o {
        Some(s) => String::from_str(s),
        None => String::from_str(default),
    }
}

/// An adapter record built from the fields that PowerShell reported, with
/// `Unknown` or `N/A` for a missing field; it is connected exactly when its
/// status is `Up`.
pub fn adapter_from_fields(
    name: Option<&str>,
    if_index: Option<u64>,
    status: Option<&str>,
    mac_address: Option<&str>,
    speed: Option<&str>,
    description: Option<&str>,
) -> (a: NetworkAdapter)
    ensures
        a.name@ == text_or(name, "Unknown"@),
        a.interface_index == (match if_index {
            Some(v) => v,
            None => 0u64,
        }) as u32,
        a.status@ == text_or(status, "Unknown"@),
        a.mac_address@ == text_or(mac_address, "N/A"@),
        a.speed@ == text_or(speed, "N/A"@),
        a.description@ == text_or(description, "Unknown"@),
        a.is_connected == (a.status@ == "Up"@),
{
    let idx: u64 = match if_index {
        Some(v) => v,
        None => 0,
    };
    let status = string_or(status, "Unknown");
    let up = String::from_str("Up");
    let is_connected = status == up;
    NetworkAdapter {
        name: string_or(name, "Unknown"),
        interface_index: idx as u32,
        status,
        mac_address: string_or(mac_address, "N/A"),
        speed: string_or(speed, "N/A"),
        description: string_or(description, "Unknown"),
        is_connected,
    }
}

/// The subnet mask of a prefix length of at most 32: `prefix` ones
/// followed by zeros.
pub open spec fn mask_of(prefix: u32) -> u32 {
    if prefix == 0 {
        0
    } else {
        (!0u32) << ((32 - prefix) as u32)
    }
}

/// What `prefix_to_subnet` gives: the dotted mask and the prefix length,
/// or `N/A` for a prefix longer than 32.
pub open spec fn subnet_text(prefix: u32) -> Seq<char> {
    if prefix > 32 {
        "N/A"@
    } else {
        let m = mask_of(prefix);
        decimal(((m >> 24u32) & 0xFFu32) as nat) + "."@ + decimal(((m >> 16u32) & 0xFFu32) as nat)
            + "."@ + decimal(((m >> 8u32) & 0xFFu32) as nat) + "."@ + decimal(
            (m & 0xFFu32) as nat,
        ) + "/"@ + decimal(prefix as nat)
    }
}

/// The mask of a prefix length holds exactly that many leading ones: it is
/// 2^32 minus 2^(32 - prefix).
pub proof fn law_subnet_mask_leading_ones(prefix: u32)
    requires
        prefix <= 32,
    ensures
        mask_of(prefix) as int + vstd::arithmetic::power2::pow2((32 - prefix) as nat)
            == 0x1_0000_0000,
{
    vstd::arithmetic::power2::lemma2_to64();
    if prefix > 0 {
        let sh: u32 = (32 - prefix) as u32;
        let shl: u64 = sh as u64;
        assert(((!0u32) << sh) as u64 + (1u64 << shl) == 0x1_0000_0000u64) by (bit_vector)
            requires
                sh < 32,
                shl == sh as u64,
        ;
        vstd::bits::lemma_u64_shl_is_mul(1u64, shl);
    }
}

/// The subnet text of a prefix length of at most 32 is the mask's four
/// octets, most significant first, in decimal and separated by dots, then
/// `/` and the prefix length: the octets are below 256 and make up the
/// mask.
pub proof fn law_subnet_text_octets(prefix: u32)
    requires
        prefix <= 32,
    ensures
        exists|a: nat, b: nat, c: nat, d: nat|
            a < 256 && b < 256 && c < 256 && d < 256 && a * 16777216 + b * 65536 + c * 256 + d
                == mask_of(prefix) && #[trigger] subnet_text(prefix) == decimal(a) + "."@
                + decimal(b) + "."@ + decimal(c) + "."@ + decimal(d) + "/"@ + decimal(
                prefix as nat,
            ),
{
    let m = mask_of(prefix);
    let a = (m >> 24u32) & 0xFFu32;
    let b = (m >> 16u32) & 0xFFu32;
    let c = (m >> 8u32) & 0xFFu32;
    let d = m & 0xFFu32;
    assert(a < 256 && b < 256 && c < 256 && d < 256) by (bit_vector)
        requires
            a == (m >> 24u32) & 0xFFu32,
            b == (m >> 16u32) & 0xFFu32,
            c == (m >> 8u32) & 0xFFu32,
            d == m & 0xFFu32,
    ;
    assert(a * 16777216 + b * 65536 + c * 256 + d == m) by (bit_vector)
        requires
            a == (m >> 24u32) & 0xFFu32,
            b == (m >> 16u32) & 0xFFu32,
            c == (m >> 8u32) & 0xFFu32,
            d == m & 0xFFu32,
    ;
    assert(subnet_text(prefix) == decimal(a as nat) + "."@ + decimal(b as nat) + "."@ + decimal(
        c as nat,
    ) + "."@ + decimal(d as nat) + "/"@ + decimal(prefix as nat));
}

/// Formats a prefix length as a dotted subnet mask followed by the prefix
/// (`255.255.255.0/24`), or `N/A` for a prefix longer than 32.
pub fn prefix_to_subnet(prefix: u32) -> (r: String)
    ensures
        r@ == subnet_text(prefix),
{
    if prefix > 32 {
        return String::from_str("N/A");
    }
    let mask: u32 = if prefix == 0 {
        0
    } else {
        !0u32 << (32 - prefix)
    };
    assert(mask == mask_of(prefix));
    let mut r = String::new();
    push_decimal(&mut r, ((mask >> 24u32) & 0xFFu32) as u64);
    r.append(".");
    push_decimal(&mut r, ((mask >> 16u32) & 0xFFu32) as u64);
    r.append(".");
    push_decimal(&mut r, ((mask >> 8u32) & 0xFFu32) as u64);
    r.append(".");
    push_decimal(&mut r, (mask & 0xFFu32) as u64);
    r.append("/");
    push_decimal(&mut r, prefix as u64);
    r
}

/// A detailed adapter record built from the fields that PowerShell
/// reported: `Unknown` or `N/A` for a missing text, a /24 mask for a
/// missing prefix, DHCP off when unknown, no metric when none was given.
pub fn details_from_fields(
    name: Option<&str>,
    if_index: Option<u64>,
    status: Option<&str>,
    description: Option<&str>,
    mac_address: Option<&str>,
    speed: Option<&str>,
    ip_address: Option<&str>,
    prefix: Option<u64>,
    default_gateway: Option<&str>,
    dns_servers: Option<&str>,
    dhcp_enabled: Option<bool>,
    routing_metric: Option<u64>,
) -> (d: AdapterDetails)
    ensures
        d.name@ == text_or(name, "Unknown"@),
        d.interface_index == (match if_index {
            Some(v) => v,
            None => 0u64,
        }) as u32,
        d.status@ == text_or(status, "Unknown"@),
        d.description@ == text_or(description, "Unknown"@),
        d.mac_address@ == text_or(mac_address, "N/A"@),
        d.speed@ == text_or(speed, "N/A"@),
        d.ip_address@ == text_or(ip_address, "N/A"@),
        d.subnet_mask@ == subnet_text(
            (match prefix {
                Some(p) => p,
                None => 24u64,
            }) as u32,
        ),
        d.default_gateway@ == text_or(default_gateway, "N/A"@),
        d.dns_servers@ == text_or(dns_servers, "N/A"@),
        d.dhcp_enabled == (match dhcp_enabled {
            Some(b) => b,
            None => false,
        }),
        d.routing_metric == (match routing_metric {
            Some(m) => Some(m as u32),
            None => None::<u32>,
        }),
{
    let idx: u64 = match if_index {
        Some(v) => v,
        None => 0,
    };
    let p: u64 = match prefix {
        Some(v) => v,
        None => 24,
    };
    let dhcp = match dhcp_enabled {
        Some(b) => b,
        None => false,
    };
    let metric: Option<u32> = match routing_metric {
        Some(m) => Some(m as u32),
        None => None,
    };
    AdapterDetails {
        name: string_or(name, "Unknown"),
        interface_index: idx as u32,
        status: string_or(status, "Unknown"),
        description: string_or(description, "Unknown"),
        mac_address: string_or(mac_address, "N/A"),
        speed: string_or(speed, "N/A"),
        ip_address: string_or(ip_address, "N/A"),
        subnet_mask: prefix_to_subnet(p as u32),
        default_gateway: string_or(default_gateway, "N/A"),
        dns_servers: string_or(dns_servers, "N/A"),
        dhcp_enabled: dhcp,
        routing_metric: metric,
    }
}

/// The text to read as a JSON array: the trimmed output itself where it
/// starts with `[`, otherwise the single object it holds wrapped in
/// brackets.
pub open spec fn json_frame(t: Seq<char>) -> Seq<char> {
    if t.len() > 0 && t[0] == '[' {
        t
    } else {
        "["@ + t + "]"@
    }
}

fn frame_trimmed(t: &[char]) -> (s: String)
    ensures
        s@ == json_frame(t@),
{
    if t.len() > 0 && t[0] == '[' {
        string_of(t)
    } else {
        let mut s = String::from_str("[");
        let inner = string_of(t);
        s.append(inner.as_str());
        s.append("]");
        s
    }
}

/// The members of a JSON object as plain values: key, and the member read
/// as text, as `u64` and as a boolean.
pub type JsonObject = Seq<(Seq<char>, Option<Seq<char>>, Option<u64>, Option<bool>)>;

/// What `value[key]` reads from an object: the first member under `key`, or
/// nothing (a JSON null) where there is none.
pub open spec fn member_of(obj: JsonObject, key: Seq<char>) -> (
    Option<Seq<char>>,
    Option<u64>,
    Option<bool>,
)
    decreases obj.len(),
{
    if obj.len() == 0 {
        (None, None, None)
    } else if obj[0].0 == key {
        (obj[0].1, obj[0].2, obj[0].3)
    } else {
        member_of(obj.drop_first(), key)
    }
}

/// The text `o`, or `default` where there is none.
pub open spec fn text_of(o: Option<Seq<char>>, default: Seq<char>) -> Seq<char> {
    match o {
        Some(t) => t,
        None => default,
    }
}

/// The adapter record that one JSON object of the adapter list stands for.
pub open spec fn adapter_matches(a: NetworkAdapter, obj: JsonObject) -> bool {
    &&& a.name@ == text_of(member_of(obj, "Name"@).0, "Unknown"@)
    &&& a.interface_index == (match member_of(obj, "ifIndex"@).1 {
        Some(v) => v,
        None => 0u64,
    }) as u32
    &&& a.status@ == text_of(member_of(obj, "Status"@).0, "Unknown"@)
    &&& a.mac_address@ == text_of(member_of(obj, "MacAddress"@).0, "N/A"@)
    &&& a.speed@ == text_of(member_of(obj, "LinkSpeed"@).0, "N/A"@)
    &&& a.description@ == text_of(member_of(obj, "InterfaceDescription"@).0, "Unknown"@)
    &&& a.is_connected == (a.status@ == "Up"@)
}

/// The detailed record that one JSON object of the details list stands
/// for.
pub open spec fn details_match(d: AdapterDetails, obj: JsonObject) -> bool {
    &&& d.name@ == text_of(member_of(obj, "name"@).0, "Unknown"@)
    &&& d.interface_index == (match member_of(obj, "interface_index"@).1 {
        Some(v) => v,
        None => 0u64,
    }) as u32
    &&& d.status@ == text_of(member_of(obj, "status"@).0, "Unknown"@)
    &&& d.description@ == text_of(member_of(obj, "description"@).0, "Unknown"@)
    &&& d.mac_address@ == text_of(member_of(obj, "mac_address"@).0, "N/A"@)
    &&& d.speed@ == text_of(member_of(obj, "speed"@).0, "N/A"@)
    &&& d.ip_address@ == text_of(member_of(obj, "ip_address"@).0, "N/A"@)
    &&& d.subnet_mask@ == subnet_text(
        (match member_of(obj, "prefix"@).1 {
            Some(p) => p,
            None => 24u64,
        }) as u32,
    )
    &&& d.default_gateway@ == text_of(member_of(obj, "default_gateway"@).0, "N/A"@)
    &&& d.dns_servers@ == text_of(member_of(obj, "dns_servers"@).0, "N/A"@)
    &&& d.dhcp_enabled == (match member_of(obj, "dhcp_enabled"@).2 {
        Some(b) => b,
        None => false,
    })
    &&& d.routing_metric == (match member_of(obj, "routing_metric"@).1 {
        Some(m) => Some(m as u32),
        None => None::<u32>,
    })
}

proof fn lemma_member_of_first(obj: JsonObject, key: Seq<char>, i: int)
    requires
        0 <= i < obj.len(),
        obj[i].0 == key,
        forall|j: int| 0 <= j < i ==> (#[trigger] obj[j]).0 != key,
    ensures
        member_of(obj, key) == (obj[i].1, obj[i].2, obj[i].3),
    decreases i,
{
    if i > 0 {
        assert(obj[0].0 != key);
        let rest = obj.drop_first();
        assert forall|j: int| 0 <= j < i - 1 implies (#[trigger] rest[j]).0 != key by {
            assert(rest[j] == obj[j + 1]);
        }
        lemma_member_of_first(rest, key, i - 1);
    }
}

proof fn lemma_member_of_absent(obj: JsonObject, key: Seq<char>)
    requires
        forall|j: int| 0 <= j < obj.len() ==> (#[trigger] obj[j]).0 != key,
    ensures
        member_of(obj, key) == (None::<Seq<char>>, None::<u64>, None::<bool>),
    decreases obj.len(),
{
    if obj.len() > 0 {
        assert(obj[0].0 != key);
        let rest = obj.drop_first();
        assert forall|j: int| 0 <= j < rest.len() implies (#[trigger] rest[j]).0 != key by {
            assert(rest[j] == obj[j + 1]);
        }
        lemma_member_of_absent(rest, key);
    }
}

/// Each detailed record that `details_from_members` (and so
/// `parse_adapter_details`) gives takes every field from the JSON member of
/// the same name: where `obj[i]` is the first member with its key, the
/// field of that name is the member's text (or number, or flag), and the
/// field's default where the member has none of that kind.
pub proof fn law_details_fields_by_name(d: AdapterDetails, obj: JsonObject, i: int)
    requires
        details_match(d, obj),
        0 <= i < obj.len(),
        forall|j: int| 0 <= j < i ==> (#[trigger] obj[j]).0 != obj[i].0,
    ensures
        obj[i].0 == "name"@ ==> d.name@ == (match obj[i].1 {
            Some(t) => t,
            None => "Unknown"@,
        }),
        obj[i].0 == "status"@ ==> d.status@ == (match obj[i].1 {
            Some(t) => t,
            None => "Unknown"@,
        }),
        obj[i].0 == "description"@ ==> d.description@ == (match obj[i].1 {
            Some(t) => t,
            None => "Unknown"@,
        }),
        obj[i].0 == "mac_address"@ ==> d.mac_address@ == (match obj[i].1 {
            Some(t) => t,
            None => "N/A"@,
        }),
        obj[i].0 == "speed"@ ==> d.speed@ == (match obj[i].1 {
            Some(t) => t,
            None => "N/A"@,
        }),
        obj[i].0 == "ip_address"@ ==> d.ip_address@ == (match obj[i].1 {
            Some(t) => t,
            None => "N/A"@,
        }),
        obj[i].0 == "default_gateway"@ ==> d.default_gateway@ == (match obj[i].1 {
            Some(t) => t,
            None => "N/A"@,
        }),
        obj[i].0 == "dns_servers"@ ==> d.dns_servers@ == (match obj[i].1 {
            Some(t) => t,
            None => "N/A"@,
        }),
        obj[i].0 == "interface_index"@ ==> d.interface_index == (match obj[i].2 {
            Some(v) => v,
            None => 0,
        }) as u32,
        obj[i].0 == "prefix"@ ==> d.subnet_mask@ == subnet_text(
            (match obj[i].2 {
                Some(p) => p,
                None => 24,
            }) as u32,
        ),
        obj[i].0 == "dhcp_enabled"@ ==> d.dhcp_enabled == (match obj[i].3 {
            Some(b) => b,
            None => false,
        }),
        obj[i].0 == "routing_metric"@ ==> d.routing_metric == (match obj[i].2 {
            Some(m) => Some(m as u32),
            None => None::<u32>,
        }),
{
    lemma_member_of_first(obj, obj[i].0, i);
}

/// A detailed record whose JSON object has no member of a field's name
/// holds that field's default: `Unknown` for the name, status and
/// description, `N/A` for the other texts, interface 0, prefix 24, DHCP
/// off and no routing metric.
pub proof fn law_details_defaults(d: AdapterDetails, obj: JsonObject)
    requires
        details_match(d, obj),
    ensures
        (forall|j: int| 0 <= j < obj.len() ==> (#[trigger] obj[j]).0 != "name"@) ==> d.name@
            == "Unknown"@,
        (forall|j: int| 0 <= j < obj.len() ==> (#[trigger] obj[j]).0 != "status"@) ==> d.status@
            == "Unknown"@,
        (forall|j: int| 0 <= j < obj.len() ==> (#[trigger] obj[j]).0 != "description"@)
            ==> d.description@ == "Unknown"@,
        (forall|j: int| 0 <= j < obj.len() ==> (#[trigger] obj[j]).0 != "mac_address"@)
            ==> d.mac_address@ == "N/A"@,
        (forall|j: int| 0 <= j < obj.len() ==> (#[trigger] obj[j]).0 != "speed"@) ==> d.speed@
            == "N/A"@,
        (forall|j: int| 0 <= j < obj.len() ==> (#[trigger] obj[j]).0 != "ip_address"@)
            ==> d.ip_address@ == "N/A"@,
        (forall|j: int| 0 <= j < obj.len() ==> (#[trigger] obj[j]).0 != "default_gateway"@)
            ==> d.default_gateway@ == "N/A"@,
        (forall|j: int| 0 <= j < obj.len() ==> (#[trigger] obj[j]).0 != "dns_servers"@)
            ==> d.dns_servers@ == "N/A"@,
        (forall|j: int| 0 <= j < obj.len() ==> (#[trigger] obj[j]).0 != "interface_index"@)
            ==> d.interface_index == 0,
        (forall|j: int| 0 <= j < obj.len() ==> (#[trigger] obj[j]).0 != "prefix"@)
            ==> d.subnet_mask@ == subnet_text(24),
        (forall|j: int| 0 <= j < obj.len() ==> (#[trigger] obj[j]).0 != "dhcp_enabled"@)
            ==> !d.dhcp_enabled,
        (forall|j: int| 0 <= j < obj.len() ==> (#[trigger] obj[j]).0 != "routing_metric"@)
            ==> d.routing_metric is None,
{
    if forall|j: int| 0 <= j < obj.len() ==> (#[trigger] obj[j]).0 != "name"@ {
        lemma_member_of_absent(obj, "name"@);
    }
    if forall|j: int| 0 <= j < obj.len() ==> (#[trigger] obj[j]).0 != "status"@ {
        lemma_member_of_absent(obj, "status"@);
    }
    if forall|j: int| 0 <= j < obj.len() ==> (#[trigger] obj[j]).0 != "description"@ {
        lemma_member_of_absent(obj, "description"@);
    }
    if forall|j: int| 0 <= j < obj.len() ==> (#[trigger] obj[j]).0 != "mac_address"@ {
        lemma_member_of_absent(obj, "mac_address"@);
    }
    if forall|j: int| 0 <= j < obj.len() ==> (#[trigger] obj[j]).0 != "speed"@ {
        lemma_member_of_absent(obj, "speed"@);
    }
    if forall|j: int| 0 <= j < obj.len() ==> (#[trigger] obj[j]).0 != "ip_address"@ {
        lemma_member_of_absent(obj, "ip_address"@);
    }
    if forall|j: int| 0 <= j < obj.len() ==> (#[trigger] obj[j]).0 != "default_gateway"@ {
        lemma_member_of_absent(obj, "default_gateway"@);
    }
    if forall|j: int| 0 <= j < obj.len() ==> (#[trigger] obj[j]).0 != "dns_servers"@ {
        lemma_member_of_absent(obj, "dns_servers"@);
    }
    if forall|j: int| 0 <= j < obj.len() ==> (#[trigger] obj[j]).0 != "interface_index"@ {
        lemma_member_of_absent(obj, "interface_index"@);
    }
    if forall|j: int| 0 <= j < obj.len() ==> (#[trigger] obj[j]).0 != "prefix"@ {
        lemma_member_of_absent(obj, "prefix"@);
    }
    if forall|j: int| 0 <= j < obj.len() ==> (#[trigger] obj[j]).0 != "dhcp_enabled"@ {
        lemma_member_of_absent(obj, "dhcp_enabled"@);
    }
    if forall|j: int| 0 <= j < obj.len() ==> (#[trigger] obj[j]).0 != "routing_metric"@ {
        lemma_member_of_absent(obj, "routing_metric"@);
    }
}

/// Each adapter record that `adapters_from_members` (and so
/// `parse_adapter_list`) gives takes every field from the JSON member that
/// `Get-NetAdapter` names for it: where `obj[i]` is the first member with
/// its key, `Name` gives the name, `ifIndex` the interface index, `Status`
/// the status (connected exactly when it is `Up`), `MacAddress` the MAC
/// address, `LinkSpeed` the speed and `InterfaceDescription` the
/// description, each falling back to its default where the member has
/// none of that kind.
pub proof fn law_adapter_fields_by_name(a: NetworkAdapter, obj: JsonObject, i: int)
    requires
        adapter_matches(a, obj),
        0 <= i < obj.len(),
        forall|j: int| 0 <= j < i ==> (#[trigger] obj[j]).0 != obj[i].0,
    ensures
        obj[i].0 == "Name"@ ==> a.name@ == (match obj[i].1 {
            Some(t) => t,
            None => "Unknown"@,
        }),
        obj[i].0 == "ifIndex"@ ==> a.interface_index == (match obj[i].2 {
            Some(v) => v,
            None => 0,
        }) as u32,
        obj[i].0 == "Status"@ ==> a.status@ == (match obj[i].1 {
            Some(t) => t,
            None => "Unknown"@,
        }),
        obj[i].0 == "MacAddress"@ ==> a.mac_address@ == (match obj[i].1 {
            Some(t) => t,
            None => "N/A"@,
        }),
        obj[i].0 == "LinkSpeed"@ ==> a.speed@ == (match obj[i].1 {
            Some(t) => t,
            None => "N/A"@,
        }),
        obj[i].0 == "InterfaceDescription"@ ==> a.description@ == (match obj[i].1 {
            Some(t) => t,
            None => "Unknown"@,
        }),
        a.is_connected <==> a.status@ == "Up"@,
{
    lemma_member_of_first(obj, obj[i].0, i);
}

/// Reads the member `key` of an object.
fn member<'a>(obj: &'a Vec<(String, Option<String>, Option<u64>, Option<bool>)>, key: &str) -> (r: (
    Option<&'a str>,
    Option<u64>,
    Option<bool>,
))
    ensures
        (
            match r.0 {
                Some(t) => Some(t@),
                None => None::<Seq<char>>,
            },
            r.1,
            r.2,
        ) == member_of(obj.deep_view(), key@),
{
    let wanted = String::from_str(key);
    let ghost all = obj.deep_view();
    let mut i: usize = 0;
    assert(all.skip(0) =~= all);
    while i < obj.len()
        invariant
            i <= obj@.len(),
            all == obj.deep_view(),
            wanted@ == key@,
            member_of(all, key@) == member_of(all.skip(i as int), key@),
        decreases obj.len() - i,
    {
        assert(all.skip(i as int)[0] == all[i as int]);
        assert(all[i as int].0 == obj@[i as int].0@);
        if obj[i].0 == wanted {
            let t: Option<&str> = match &obj[i].1 {
                Some(s) => Some(s.as_str()),
                None => None,
            };
            return (t, obj[i].2, obj[i].3);
        }
        assert(all.skip(i as int).drop_first() =~= all.skip(i + 1));
        i = i + 1;
    }
    assert(all.skip(i as int) =~= Seq::<(Seq<char>, Option<Seq<char>>, Option<u64>, Option<bool>)>::empty());
    (None, None, None)
}

/// One adapter record per JSON object of the adapter list, built from its
/// members.
pub fn adapters_from_members(
    objects: &Vec<Vec<(String, Option<String>, Option<u64>, Option<bool>)>>,
) -> (v: Vec<NetworkAdapter>)
    ensures
        v@.len() == objects.deep_view().len(),
        forall|i: int|
            0 <= i < v@.len() ==> adapter_matches(#[trigger] v@[i], objects.deep_view()[i]),
{
    let ghost objs = objects.deep_view();
    let mut adapters: Vec<NetworkAdapter> = Vec::new();
    let mut i: usize = 0;
    while i < objects.len()
        invariant
            i <= objects@.len(),
            objs == objects.deep_view(),
            adapters@.len() == i,
            forall|k: int| 0 <= k < adapters@.len() ==> adapter_matches(#[trigger] adapters@[k], objs[k]),
        decreases objects.len() - i,
    {
        let obj = &objects[i];
        assert(objs[i as int] == obj.deep_view());
        let a = adapter_from_fields(
            member(obj, "Name").0,
            member(obj, "ifIndex").1,
            member(obj, "Status").0,
            member(obj, "MacAddress").0,
            member(obj, "LinkSpeed").0,
            member(obj, "InterfaceDescription").0,
        );
        adapters.push(a);
        i = i + 1;
    }
    adapters
}

/// One detailed record per JSON object of the details list, built from its
/// members.
pub fn details_from_members(
    objects: &Vec<Vec<(String, Option<String>, Option<u64>, Option<bool>)>>,
) -> (v: Vec<AdapterDetails>)
    ensures
        v@.len() == objects.deep_view().len(),
        forall|i: int|
            0 <= i < v@.len() ==> details_match(#[trigger] v@[i], objects.deep_view()[i]),
{
    let ghost objs = objects.deep_view();
    let mut details: Vec<AdapterDetails> = Vec::new();
    let mut i: usize = 0;
    while i < objects.len()
        invariant
            i <= objects@.len(),
            objs == objects.deep_view(),
            details@.len() == i,
            forall|k: int| 0 <= k < details@.len() ==> details_match(#[trigger] details@[k], objs[k]),
        decreases objects.len() - i,
    {
        let obj = &objects[i];
        assert(objs[i as int] == obj.deep_view());
        let d = details_from_fields(
            member(obj, "name").0,
            member(obj, "interface_index").1,
            member(obj, "status").0,
            member(obj, "description").0,
            member(obj, "mac_address").0,
            member(obj, "speed").0,
            member(obj, "ip_address").0,
            member(obj, "prefix").1,
            member(obj, "default_gateway").0,
            member(obj, "dns_servers").0,
            member(obj, "dhcp_enabled").2,
            member(obj, "routing_metric").1,
        );
        details.push(d);
        i = i + 1;
    }
    details
}

/// Reads the adapter list that PowerShell printed as JSON: no adapter for
/// an empty output, an error where the output is not JSON, otherwise one
/// adapter per JSON element, built from its members.
pub fn parse_adapter_list(output: &str) -> (r: Result<Vec<NetworkAdapter>, String>)
    ensures
        trim(output@).len() == 0 ==> (r matches Ok(v) && v@.len() == 0),
        trim(output@).len() > 0 ==> (r is Err <==> json_array_members(json_frame(trim(output@)))
            is None),
        r matches Err(e) ==> e@ == "Failed to parse adapter list JSON"@,
        r matches Ok(v) ==> (trim(output@).len() > 0 ==> (json_array_members(
            json_frame(trim(output@)),
        ) matches Some(objs) && v@.len() == objs.len() && forall|i: int|
            0 <= i < v@.len() ==> adapter_matches(#[trigger] v@[i], objs[i]))),
{
    let oc = chars_of(output);
    let t = trim_chars(&oc);
    if t.len() == 0 {
        return Ok(Vec::new());
    }
    let framed = frame_trimmed(&t);
    let objects = match parse_json_members(framed.as_str()) {
        Some(v) => v,
        None => {
            return Err(String::from_str("Failed to parse adapter list JSON"));
        },
    };
    Ok(adapters_from_members(&objects))
}

/// Reads the adapter details that PowerShell printed as JSON: nothing for
/// an empty or `null` output, an error where the output is not JSON,
/// otherwise one record per JSON element, built from its members.
pub fn parse_adapter_details(output: &str) -> (r: Result<Vec<AdapterDetails>, String>)
    ensures
        (trim(output@).len() == 0 || trim(output@) == "null"@) ==> (r matches Ok(v) && v@.len()
            == 0),
        !(trim(output@).len() == 0 || trim(output@) == "null"@) ==> (r is Err
            <==> json_array_members(json_frame(trim(output@))) is None),
        r matches Err(e) ==> e@ == "Failed to parse adapter details JSON"@,
        r matches Ok(v) ==> (!(trim(output@).len() == 0 || trim(output@) == "null"@) ==> (
        json_array_members(json_frame(trim(output@))) matches Some(objs) && v@.len() == objs.len()
            && forall|i: int| 0 <= i < v@.len() ==> details_match(#[trigger] v@[i], objs[i]))),
{
    let oc = chars_of(output);
    let t = trim_chars(&oc);
    let null = chars_of("null");
    let ts = string_of(&t);
    let ns = string_of(&null);
    if t.len() == 0 || ts == ns {
        return Ok(Vec::new());
    }
    let framed = frame_trimmed(&t);
    let objects = match parse_json_members(framed.as_str()) {
        Some(v) => v,
        None => {
            return Err(String::from_str("Failed to parse adapter details JSON"));
        },
    };
    Ok(details_from_members(&objects))
}

/// Finds the details of the adapter called `name` among `all`: the first
/// record with that name, or an error naming the adapter.
pub fn get_adapter_details(all: Vec<AdapterDetails>, name: &str) -> (r: Result<
    AdapterDetails,
    String,
>)
    ensures
        r matches Ok(d) ==> exists|i: int|
            0 <= i < all@.len() && all@[i] == d && d.name@ == name@ && forall|j: int|
                0 <= j < i ==> (#[trigger] all@[j]).name@ != name@,
        r is Err <==> forall|i: int| 0 <= i < all@.len() ==> (#[trigger] all@[i]).name@ != name@,
        r matches Err(e) ==> e@ == "Adapter "@ + name@ + " not found"@,
{
    let wanted = String::from_str(name);
    let ghost orig = all@;
    let mut records = all;
    let mut i: usize = 0;
    while i < records.len()
        invariant
            i <= records@.len(),
            records@ == orig,
            all@ == orig,
            wanted@ == name@,
            forall|j: int| 0 <= j < i ==> (#[trigger] orig[j]).name@ != name@,
        decreases records.len() - i,
    {
        if records[i].name == wanted {
            let d = records.remove(i);
            assert(orig[i as int] == d);
            assert(orig[i as int].name@ == name@);
            assert(exists|k: int|
                0 <= k < orig.len() && orig[k] == d && d.name@ == name@ && forall|j: int|
                    0 <= j < k ==> (#[trigger] orig[j]).name@ != name@);
            return Ok(d);
        }
        i = i + 1;
    }
    let mut msg = String::from_str("Adapter ");
    msg.append(name);
    msg.append(" not found");
    Err(msg)
}

} // verus!
