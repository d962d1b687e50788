//! Monitoring and automatic failover: the settings, the state shown to the
//! user, and the decisions of each monitoring tick.

use vstd::prelude::*;
use crate::network::{NetworkAdapter, ConnectivityResult};
use crate::text::{push_padded_decimal, decimal_value};
use crate::logger::two_digits;
use crate::clock::unix_now_secs;

verus! {

// ------------------------------------------------------------- settings

/// The user's monitoring settings.
#[derive(Debug, Clone)]
pub struct Settings {
    pub interval_secs: u64,
    pub ping_target: String,
    pub adapter_refresh_secs: u64,
}

impl Default for Settings {
    fn default() -> (s: Self)
        ensures
            s.interval_secs == 5,
            s.ping_target@ == "8.8.8.8"@,
            s.adapter_refresh_secs == 30,
    {
        Settings {
            interval_secs: 5,
            ping_target: String::from_str("8.8.8.8"),
            adapter_refresh_secs: 30,
        }
    }
}

/// `v` brought into `lo..=hi`, as `v.max(lo).min(hi)` does.
pub open spec fn clamp(v: u64, lo: u64, hi: u64) -> u64 {
    let m = if v < lo {
        lo
    } else {
        v
    };
    if m > hi {
        hi
    } else {
        m
    }
}

/// Saved settings always stand within their bounds (interval 1 to 300 s,
/// adapter refresh 5 to 600 s), and settings already within bounds are
/// saved unchanged.
pub proof fn law_settings_bounds(interval_secs: u64, adapter_refresh_secs: u64)
    ensures
        1 <= clamp(interval_secs, 1, 300) <= 300,
        5 <= clamp(adapter_refresh_secs, 5, 600) <= 600,
        clamp(clamp(interval_secs, 1, 300), 1, 300) == clamp(interval_secs, 1, 300),
        clamp(clamp(adapter_refresh_secs, 5, 600), 5, 600) == clamp(adapter_refresh_secs, 5, 600),
        1 <= interval_secs <= 300 ==> clamp(interval_secs, 1, 300) == interval_secs,
        5 <= adapter_refresh_secs <= 600 ==> clamp(adapter_refresh_secs, 5, 600)
            == adapter_refresh_secs,
{
}

impl Settings {
    /// The settings that a save request stores: the interval brought into
    /// 1..=300 s and the adapter refresh into 5..=600 s.
    pub fn clamped(interval_secs: u64, ping_target: String, adapter_refresh_secs: u64) -> (s:
        Settings)
        ensures
            s.interval_secs == clamp(interval_secs, 1, 300),
            s.ping_target == ping_target,
            s.adapter_refresh_secs == clamp(adapter_refresh_secs, 5, 600),
    {
        let i = if interval_secs < 1 {
            1
        } else {
            interval_secs
        };
        let r = if adapter_refresh_secs < 5 {
            5
        } else {
            adapter_refresh_secs
        };
        Settings {
            interval_secs: if i > 300 {
                300
            } else {
                i
            },
            ping_target,
            adapter_refresh_secs: if r > 600 {
                600
            } else {
                r
            },
        }
    }

    /// A copy of the settings.
    pub fn copy(&self) -> (s: Settings)
        ensures
            s == *self,
    {
        Settings {
            interval_secs: self.interval_secs,
            ping_target: self.ping_target.clone(),
            adapter_refresh_secs: self.adapter_refresh_secs,
        }
    }
}


// ---------------------------------------------------------------- state

/// The reachability seen through one connected adapter.
#[derive(Debug, Clone)]
pub struct AdapterStatus {
    pub name: String,
    pub reachable: bool,
    pub latency_ms: Option<u64>,
}

/// Which adapters the automatic failover switches between.
#[derive(Debug, Clone)]
pub struct FailoverConfig {
    pub enabled: bool,
    pub primary_index: u32,
    pub secondary_index: u32,
    pub primary_name: String,
    pub secondary_name: String,
}

impl Default for FailoverConfig {
    fn default() -> (c: Self)
        ensures
            !c.enabled,
            c.primary_index == 0,
            c.secondary_index == 0,
            c.primary_name@ == Seq::<char>::empty(),
            c.secondary_name@ == Seq::<char>::empty(),
    {
        FailoverConfig {
            enabled: false,
            primary_index: 0,
            secondary_index: 0,
            primary_name: String::new(),
            secondary_name: String::new(),
        }
    }
}

/// The automatic failover: its configuration, whether traffic currently
/// goes through the secondary adapter, how often it switched, and when, and
/// the current runs of failed and successful checks since it was turned on.
#[derive(Debug, Clone)]
pub struct FailoverState {
    pub config: FailoverConfig,
    pub is_failed_over: bool,
    pub failover_count: u32,
    pub last_switch: String,
    pub consecutive_failures: u32,
    pub consecutive_successes: u32,
}

/// What holds of every failover state the library makes: traffic is on the
/// secondary adapter only while the failover is on and after a switch, and
/// the switch count is 0 exactly when no switch time is recorded.
pub open spec fn failover_consistent(fo: FailoverState) -> bool {
    &&& fo.is_failed_over ==> fo.config.enabled && fo.failover_count > 0
    &&& (fo.failover_count == 0 <==> fo.last_switch@ == "Never"@)
}

impl Default for FailoverState {
    fn default() -> (f: Self)
        ensures
            !f.config.enabled,
            f.config.primary_index == 0,
            f.config.secondary_index == 0,
            f.config.primary_name@ == Seq::<char>::empty(),
            f.config.secondary_name@ == Seq::<char>::empty(),
            !f.is_failed_over,
            f.failover_count == 0,
            f.last_switch@ == "Never"@,
            f.consecutive_failures == 0,
            f.consecutive_successes == 0,
            failover_consistent(f),
    {
        FailoverState {
            config: FailoverConfig::default(),
            is_failed_over: false,
            failover_count: 0,
            last_switch: String::from_str("Never"),
            consecutive_failures: 0,
            consecutive_successes: 0,
        }
    }
}

/// What the monitor last saw, as shown to the user.
#[derive(Debug, Clone)]
pub struct MonitorState {
    pub internet_reachable: bool,
    pub overall_latency_ms: Option<u64>,
    pub adapters: Vec<AdapterStatus>,
    pub last_check: String,
    pub failover: FailoverState,
}

impl Default for MonitorState {
    fn default() -> (m: Self)
        ensures
            !m.internet_reachable,
            m.overall_latency_ms is None,
            m.adapters@.len() == 0,
            m.last_check@ == "Never"@,
            !m.failover.config.enabled,
            m.failover.config.primary_index == 0,
            m.failover.config.secondary_index == 0,
            m.failover.config.primary_name@ == Seq::<char>::empty(),
            m.failover.config.secondary_name@ == Seq::<char>::empty(),
            !m.failover.is_failed_over,
            m.failover.failover_count == 0,
            m.failover.last_switch@ == "Never"@,
            m.failover.consecutive_failures == 0,
            m.failover.consecutive_successes == 0,
            failover_consistent(m.failover),
    {
        MonitorState {
            internet_reachable: false,
            overall_latency_ms: None,
            adapters: Vec::new(),
            last_check: String::from_str("Never"),
            failover: FailoverState::default(),
        }
    }
}

impl AdapterStatus {
    pub fn copy(&self) -> (s: AdapterStatus)
        ensures
            s == *self,
    {
        AdapterStatus {
            name: self.name.clone(),
            reachable: self.reachable,
            latency_ms: self.latency_ms,
        }
    }
}

impl FailoverConfig {
    pub fn copy(&self) -> (c: FailoverConfig)
        ensures
            c == *self,
    {
        FailoverConfig {
            enabled: self.enabled,
            primary_index: self.primary_index,
            secondary_index: self.secondary_index,
            primary_name: self.primary_name.clone(),
            secondary_name: self.secondary_name.clone(),
        }
    }
}

impl FailoverState {
    pub fn copy(&self) -> (f: FailoverState)
        ensures
            f == *self,
    {
        FailoverState {
            config: self.config.copy(),
            is_failed_over: self.is_failed_over,
            failover_count: self.failover_count,
            last_switch: self.last_switch.clone(),
            consecutive_failures: self.consecutive_failures,
            consecutive_successes: self.consecutive_successes,
        }
    }
}

fn copy_statuses(v: &Vec<AdapterStatus>) -> (r: Vec<AdapterStatus>)
    ensures
        r@ == v@,
{
    let mut r: Vec<AdapterStatus> = Vec::new();
    let mut i: usize = 0;
    while i < v.len()
        invariant
            i <= v@.len(),
            r@ == v@.take(i as int),
        decreases v.len() - i,
    {
        r.push(v[i].copy());
        i = i + 1;
        assert(r@ =~= v@.take(i as int));
    }
    assert(v@.take(i as int) =~= v@);
    r
}

impl MonitorState {
    pub fn copy(&self) -> (m: MonitorState)
        ensures
            m.internet_reachable == self.internet_reachable,
            m.overall_latency_ms == self.overall_latency_ms,
            m.adapters@ == self.adapters@,
            m.last_check == self.last_check,
            m.failover == self.failover,
    {
        MonitorState {
            internet_reachable: self.internet_reachable,
            overall_latency_ms: self.overall_latency_ms,
            adapters: copy_statuses(&self.adapters),
            last_check: self.last_check.clone(),
            failover: self.failover.copy(),
        }
    }
}

// --------------------------------------------------------------- clock

/// The time of day of `now` seconds since the epoch as `HH:MM:SS`, the way
/// the monitor stamps its checks and switches.
pub open spec fn hms_text(now: u64) -> Seq<char> {
    two_digits(((now / 3600) % 24) as nat) + ":"@ + two_digits(((now / 60) % 60) as nat) + ":"@
        + two_digits((now % 60) as nat)
}

/// The monitor's stamps and the log's stamps agree: both give the time of
/// day of the same instant.
pub proof fn law_monitor_clock_matches_log_clock(now: u64)
    ensures
        hms_text(now) == crate::logger::clock_text(now),
{
    let d = now % 86400;
    let n = now as int;
    assert((n / 3600) % 24 == (n % 86400) / 3600) by {
        vstd::arithmetic::div_mod::lemma_mod_breakdown(n, 3600, 24);
        vstd::arithmetic::div_mod::lemma_fundamental_div_mod(n, 3600);
        assert(n % 86400 == 3600 * ((n / 3600) % 24) + n % 3600);
        vstd::arithmetic::div_mod::lemma_fundamental_div_mod_converse(
            n % 86400,
            3600,
            (n / 3600) % 24,
            n % 3600,
        );
    }
    assert((n / 60) % 60 == ((n % 86400) % 3600) / 60) by {
        vstd::arithmetic::div_mod::lemma_mod_mod(n, 3600, 24);
        vstd::arithmetic::div_mod::lemma_mod_breakdown(n, 60, 60);
        vstd::arithmetic::div_mod::lemma_fundamental_div_mod_converse(
            n % 3600,
            60,
            (n / 60) % 60,
            n % 60,
        );
    }
    assert(now % 60 == d % 60) by {
        vstd::arithmetic::div_mod::lemma_mod_mod(n, 60, 1440);
    }
}

/// Every stamp of the monitor reads back as the time of day of its
/// instant: hours, minutes and seconds in this order, each in range, with
/// hours * 3600 + minutes * 60 + seconds the seconds since midnight (UTC).
pub proof fn law_hms_text_reads_back(now: u64)
    ensures
        hms_text(now).len() == 8,
        hms_text(now)[2] == ':',
        hms_text(now)[5] == ':',
        decimal_value(hms_text(now).subrange(3, 5)) < 60,
        decimal_value(hms_text(now).subrange(6, 8)) < 60,
        decimal_value(hms_text(now).subrange(0, 2)) * 3600 + decimal_value(
            hms_text(now).subrange(3, 5),
        ) * 60 + decimal_value(hms_text(now).subrange(6, 8)) == now % 86400,
{
    law_monitor_clock_matches_log_clock(now);
    crate::logger::law_clock_text_reads_back(now);
}

/// Formats `now` seconds since the epoch as `HH:MM:SS`.
pub fn format_hms(now: u64) -> (r: String)
    ensures
        r@ == hms_text(now),
{
    let mut r = String::new();
    push_padded_decimal(&mut r, (now / 3600) % 24, 2);
    r.append(":");
    push_padded_decimal(&mut r, (now / 60) % 60, 2);
    r.append(":");
    push_padded_decimal(&mut r, now % 60, 2);
    r
}

/// The current time of day as `HH:MM:SS`.
pub fn chrono_now() -> (r: String)
    ensures
        exists|now: u64| r@ == hms_text(now),
{
    let now = unix_now_secs();
    format_hms(now)
}


// ------------------------------------------------------------ failover

/// Consecutive unreachable checks after which traffic switches to the
/// secondary adapter.
pub const FAILOVER_THRESHOLD: u32 = 2;

/// Consecutive reachable checks after which traffic goes back to the
/// primary adapter.
pub const RECOVERY_THRESHOLD: u32 = 3;

/// The abstract state of the automatic failover: whether it is on, whether
/// traffic is on the secondary adapter, the current runs of failed and
/// successful checks, and the number of switches to the secondary.
pub ghost struct FailoverModel {
    pub enabled: bool,
    pub failed_over: bool,
    pub failures: int,
    pub successes: int,
    pub switches: int,
}

/// What one check does to the failover: nothing while it is off; a failed
/// check extends the run of failures, ends the run of successes and, at the
/// second failure in a row, switches to the secondary; a successful check
/// does the converse and, at the third success in a row, switches back.
pub open spec fn failover_step(m: FailoverModel, reachable: bool) -> FailoverModel {
    if !m.enabled {
        m
    } else if !reachable {
        let f = m.failures + 1;
        let switch = f >= FAILOVER_THRESHOLD && !m.failed_over;
        FailoverModel {
            enabled: true,
            failed_over: m.failed_over || switch,
            failures: f,
            successes: 0,
            switches: if switch {
                m.switches + 1
            } else {
                m.switches
            },
        }
    } else {
        let s = m.successes + 1;
        let restore = s >= RECOVERY_THRESHOLD && m.failed_over;
        FailoverModel {
            enabled: true,
            failed_over: m.failed_over && !restore,
            failures: 0,
            successes: s,
            switches: m.switches,
        }
    }
}

/// The failover after `n` failed checks in a row.
pub open spec fn after_losses(m: FailoverModel, n: nat) -> FailoverModel
    decreases n,
{
    if n == 0 {
        m
    } else {
        failover_step(after_losses(m, (n - 1) as nat), false)
    }
}

/// The failover after `n` successful checks in a row.
pub open spec fn after_successes(m: FailoverModel, n: nat) -> FailoverModel
    decreases n,
{
    if n == 0 {
        m
    } else {
        failover_step(after_successes(m, (n - 1) as nat), true)
    }
}

proof fn lemma_losses_count(m: FailoverModel, n: nat)
    requires
        m.enabled,
        m.failures >= 0,
    ensures
        after_losses(m, n).enabled,
        after_losses(m, n).failures == m.failures + n,
        n >= 1 ==> after_losses(m, n).successes == 0,
    decreases n,
{
    if n > 0 {
        lemma_losses_count(m, (n - 1) as nat);
    }
}

proof fn lemma_successes_count(m: FailoverModel, n: nat)
    requires
        m.enabled,
        m.successes >= 0,
    ensures
        after_successes(m, n).enabled,
        after_successes(m, n).successes == m.successes + n,
        n >= 1 ==> after_successes(m, n).failures == 0,
    decreases n,
{
    if n > 0 {
        lemma_successes_count(m, (n - 1) as nat);
    }
}

/// Loss detection: two failed checks in a row put traffic on the secondary
/// adapter, whatever the failover's state before them, and further failed
/// checks keep it there.
pub proof fn law_failover_after_two_losses(m: FailoverModel, n: nat)
    requires
        m.enabled,
        m.failures >= 0,
        n >= 2,
    ensures
        after_losses(m, n).failed_over,
{
    lemma_losses_count(m, (n - 1) as nat);
}

/// Debouncing: a single failed check right after a successful one (or at
/// the start) does not switch.
pub proof fn law_single_loss_keeps_primary(m: FailoverModel)
    requires
        m.enabled,
        !m.failed_over,
        m.failures == 0,
    ensures
        !failover_step(m, false).failed_over,
{
}

/// Recovery: three successful checks in a row put traffic back on the
/// primary adapter, whatever the failover's state before them.
pub proof fn law_recovery_after_three_successes(m: FailoverModel, n: nat)
    requires
        m.enabled,
        m.successes >= 0,
        n >= 3,
    ensures
        !after_successes(m, n).failed_over,
{
    lemma_successes_count(m, (n - 1) as nat);
}

/// Debouncing: once on the secondary adapter after a failed check, one or
/// two successful checks do not switch back.
pub proof fn law_no_early_recovery(m: FailoverModel, n: nat)
    requires
        m.enabled,
        m.failed_over,
        m.successes == 0,
        1 <= n < 3,
    ensures
        after_successes(m, n).failed_over,
{
    assert(after_successes(m, 0) == m);
    assert(after_successes(m, 1) == failover_step(m, true));
    if n == 2 {
        assert(after_successes(m, 2) == failover_step(after_successes(m, 1), true));
    }
}

/// While the failover is off, checks change nothing of it.
pub proof fn law_disabled_failover_is_inert(m: FailoverModel, reachable: bool)
    requires
        !m.enabled,
    ensures
        failover_step(m, reachable) == m,
{
}

/// A switch happens only at the end of a run: to the secondary only on a
/// failed check that follows another failed check while the failover is on,
/// back to the primary only on a successful check that follows two other
/// successful ones.
pub proof fn law_switch_needs_runs(m: FailoverModel, reachable: bool)
    ensures
        !m.failed_over && failover_step(m, reachable).failed_over ==> m.enabled && !reachable
            && m.failures + 1 >= 2,
        m.failed_over && !failover_step(m, reachable).failed_over ==> m.enabled && reachable
            && m.successes + 1 >= 3,
{
}

/// Recovery: on the secondary adapter, a successful check that follows two
/// successful ones switches back to the primary and leaves the switch count
/// as it was.
pub proof fn law_recovery_on_third_success(m: FailoverModel)
    requires
        m.enabled,
        m.failed_over,
        m.successes == 2,
    ensures
        !failover_step(m, true).failed_over,
        failover_step(m, true).switches == m.switches,
        failover_step(m, true).successes == 3,
{
}

/// Loss detection: on the primary adapter, a failed check that follows a
/// failed one switches to the secondary and counts one more switch.
pub proof fn law_failover_on_second_failure(m: FailoverModel)
    requires
        m.enabled,
        !m.failed_over,
        m.failures == 1,
    ensures
        failover_step(m, false).failed_over,
        failover_step(m, false).switches == m.switches + 1,
{
}

/// The switch counter counts exactly the switches to the secondary
/// adapter.
pub proof fn law_switch_counter(m: FailoverModel, reachable: bool)
    ensures
        failover_step(m, reachable).switches == m.switches + (if !m.failed_over && failover_step(
            m,
            reachable,
        ).failed_over {
            1int
        } else {
            0int
        }),
{
}


// ------------------------------------------------------------ the loop

/// What the monitor keeps from one tick to the next: the tick counter and
/// the adapters last listed.
#[derive(Debug, Clone)]
pub struct MonitorLoop {
    pub tick_count: u64,
    pub cached_adapters: Vec<NetworkAdapter>,
}

/// What a tick has to do before it can decide anything: how long to sleep
/// afterwards, which host to ping, and whether to list the adapters again.
#[derive(Debug, Clone)]
pub struct TickPlan {
    pub interval_secs: u64,
    pub ping_target: String,
    pub refresh_adapters: bool,
}

/// What the failover decided on one check: the routing metrics to set, in
/// order, and the message that announces a switch (empty when none).
#[derive(Debug, Clone)]
pub struct FailoverDecision {
    pub metrics_to_set: Vec<(u32, u32)>,
    pub action: String,
}

/// The abstract failover state held by a failover state.
pub open spec fn failover_model(fo: FailoverState) -> FailoverModel {
    FailoverModel {
        enabled: fo.config.enabled,
        failed_over: fo.is_failed_over,
        failures: fo.consecutive_failures as int,
        successes: fo.consecutive_successes as int,
        switches: fo.failover_count as int,
    }
}

/// The ping interval of a tick, at least one second.
pub open spec fn tick_interval(s: Settings) -> u64 {
    if s.interval_secs < 1 {
        1
    } else {
        s.interval_secs
    }
}

/// Every how many ticks the adapters are listed again: the refresh period
/// (at least 5 s) over the interval, at least 1.
pub open spec fn refresh_every(s: Settings) -> u64 {
    let interval = tick_interval(s);
    let refresh = if s.adapter_refresh_secs < 5 {
        5
    } else {
        s.adapter_refresh_secs
    };
    let q = if interval > 0 {
        refresh / interval
    } else {
        6
    };
    if q < 1 {
        1
    } else {
        q
    }
}

/// The adapters are listed again as often as the settings ask: with the
/// ping interval `I` (at least 1 s) and the refresh period `R` (at least
/// 5 s), a refresh comes every `refresh_every` ticks, where that many ticks
/// last at most `R` seconds and one tick more would last longer than `R`;
/// where `R` is shorter than one tick, at every tick.
pub proof fn law_refresh_period_matches_settings(s: Settings)
    ensures
        ({
            let interval: int = if s.interval_secs < 1 {
                1
            } else {
                s.interval_secs as int
            };
            let refresh: int = if s.adapter_refresh_secs < 5 {
                5
            } else {
                s.adapter_refresh_secs as int
            };
            &&& refresh_every(s) >= 1
            &&& refresh >= interval ==> refresh_every(s) * interval <= refresh && refresh < (
            refresh_every(s) + 1) * interval
            &&& refresh < interval ==> refresh_every(s) == 1
        }),
{
    let interval: int = if s.interval_secs < 1 {
        1
    } else {
        s.interval_secs as int
    };
    let refresh: int = if s.adapter_refresh_secs < 5 {
        5
    } else {
        s.adapter_refresh_secs as int
    };
    assert(tick_interval(s) == interval);
    let q = refresh / interval;
    assert(q * interval <= refresh && refresh < (q + 1) * interval) by (nonlinear_arith)
        requires
            interval >= 1,
            refresh >= 0,
            q == refresh / interval,
    ;
    assert(refresh >= interval ==> q >= 1) by (nonlinear_arith)
        requires
            interval >= 1,
            q == refresh / interval,
    ;
    assert(refresh < interval ==> q == 0) by (nonlinear_arith)
        requires
            interval >= 1,
            refresh >= 0,
            q == refresh / interval,
    ;
}

/// The names of the connected adapters, in order.
pub open spec fn connected_names(adapters: Seq<NetworkAdapter>) -> Seq<Seq<char>>
    decreases adapters.len(),
{
    if adapters.len() == 0 {
        seq![]
    } else if adapters.last().is_connected {
        connected_names(adapters.drop_last()).push(adapters.last().name@)
    } else {
        connected_names(adapters.drop_last())
    }
}

impl MonitorLoop {
    /// A loop that has not ticked yet, with no adapters listed.
    pub fn new() -> (lp: MonitorLoop)
        ensures
            lp.tick_count == 0,
            lp.cached_adapters@.len() == 0,
    {
        MonitorLoop { tick_count: 0, cached_adapters: Vec::new() }
    }

    /// Starts a tick: counts it, and reads from the settings the interval,
    /// the ping target and whether the adapters are due to be listed again:
    /// at the first tick and every `refresh_every` ticks after it, or
    /// whenever none is known.
    pub fn begin_tick(&mut self, settings: &Settings) -> (plan: TickPlan)
        requires
            old(self).tick_count < u64::MAX,
        ensures
            final(self).tick_count == old(self).tick_count + 1,
            final(self).cached_adapters == old(self).cached_adapters,
            plan.interval_secs == tick_interval(*settings),
            plan.ping_target@ == settings.ping_target@,
            plan.refresh_adapters == ((final(self).tick_count - 1) % (refresh_every(
                *settings,
            ) as int) == 0 || old(self).cached_adapters@.len() == 0),
    {
        self.tick_count = self.tick_count + 1;
        let interval_secs: u64 = if settings.interval_secs < 1 {
            1
        } else {
            settings.interval_secs
        };
        let adapter_refresh_secs: u64 = if settings.adapter_refresh_secs < 5 {
            5
        } else {
            settings.adapter_refresh_secs
        };
        let q: u64 = if interval_secs > 0 {
            adapter_refresh_secs / interval_secs
        } else {
            6
        };
        let refresh_interval: u64 = if q < 1 {
            1
        } else {
            q
        };
        let refresh_adapters = (self.tick_count - 1) % refresh_interval == 0
            || self.cached_adapters.len() == 0;
        TickPlan {
            interval_secs,
            ping_target: settings.ping_target.clone(),
            refresh_adapters,
        }
    }

    /// Keeps a fresh adapter listing for the following ticks.
    pub fn store_adapters(&mut self, adapters: Vec<NetworkAdapter>)
        ensures
            final(self).cached_adapters == adapters,
            final(self).tick_count == old(self).tick_count,
    {
        self.cached_adapters = adapters;
    }

    /// One status per connected adapter, in order, each carrying the
    /// outcome of the tick's single ping.
    pub fn adapter_statuses(&self, connectivity: &ConnectivityResult) -> (r: Vec<AdapterStatus>)
        ensures
            r@.len() == connected_names(self.cached_adapters@).len(),
            forall|i: int|
                0 <= i < r@.len() ==> (#[trigger] r@[i]).name@ == connected_names(
                    self.cached_adapters@,
                )[i] && r@[i].reachable == connectivity.reachable && r@[i].latency_ms
                    == connectivity.latency_ms,
    {
        let adapters = &self.cached_adapters;
        let mut r: Vec<AdapterStatus> = Vec::new();
        let mut i: usize = 0;
        while i < adapters.len()
            invariant
                i <= adapters@.len(),
                r@.len() == connected_names(adapters@.take(i as int)).len(),
                forall|k: int|
                    0 <= k < r@.len() ==> (#[trigger] r@[k]).name@ == connected_names(
                        adapters@.take(i as int),
                    )[k] && r@[k].reachable == connectivity.reachable && r@[k].latency_ms
                        == connectivity.latency_ms,
            decreases adapters.len() - i,
        {
            let ghost before = adapters@.take(i as int);
            assert(adapters@.take(i + 1).drop_last() =~= before);
            assert(adapters@.take(i + 1).last() == adapters@[i as int]);
            if adapters[i].is_connected {
                r.push(
                    AdapterStatus {
                        name: adapters[i].name.clone(),
                        reachable: connectivity.reachable,
                        latency_ms: connectivity.latency_ms,
                    },
                );
            }
            i = i + 1;
        }
        assert(adapters@.take(i as int) =~= adapters@);
        r
    }
}

impl FailoverState {
    /// Applies one check to the failover (see `failover_step`). A switch to
    /// the secondary gives it metric 10 and the primary metric 100, a
    /// switch back does the reverse; the switch is stamped with `now`.
    pub fn record_check(&mut self, reachable: bool, now: u64) -> (d: FailoverDecision)
        requires
            old(self).config.enabled && !reachable ==> old(self).consecutive_failures < u32::MAX,
            old(self).config.enabled && !reachable && old(self).consecutive_failures + 1
                >= FAILOVER_THRESHOLD && !old(self).is_failed_over ==> old(self).failover_count
                < u32::MAX,
            old(self).config.enabled && reachable ==> old(self).consecutive_successes < u32::MAX,
        ensures
            failover_model(*final(self)) == failover_step(
                failover_model(*old(self)),
                reachable,
            ),
            failover_consistent(*old(self)) ==> failover_consistent(*final(self)),
            final(self).config == old(self).config,
            !old(self).is_failed_over && final(self).is_failed_over ==> {
                &&& d.metrics_to_set@ == seq![
                    (old(self).config.secondary_index, 10u32),
                    (old(self).config.primary_index, 100u32),
                ]
                &&& d.action@ == "🔄 Failover → "@ + old(self).config.secondary_name@
                &&& final(self).last_switch@ == hms_text(now)
            },
            old(self).is_failed_over && !final(self).is_failed_over ==> {
                &&& d.metrics_to_set@ == seq![
                    (old(self).config.primary_index, 10u32),
                    (old(self).config.secondary_index, 100u32),
                ]
                &&& d.action@ == "✅ Restauré → "@ + old(self).config.primary_name@
                &&& final(self).last_switch@ == hms_text(now)
            },
            old(self).is_failed_over == final(self).is_failed_over ==> {
                &&& d.metrics_to_set@.len() == 0
                &&& d.action@ == Seq::<char>::empty()
                &&& final(self).last_switch == old(self).last_switch
            },
    {
        let mut metrics: Vec<(u32, u32)> = Vec::new();
        let mut action = String::new();
        if self.config.enabled {
            if !reachable {
                self.consecutive_failures = self.consecutive_failures + 1;
                self.consecutive_successes = 0;
                if self.consecutive_failures >= FAILOVER_THRESHOLD && !self.is_failed_over {
                    metrics.push((self.config.secondary_index, 10));
                    metrics.push((self.config.primary_index, 100));
                    self.is_failed_over = true;
                    self.failover_count = self.failover_count + 1;
                    self.last_switch = format_hms(now);
                    proof {
                        lemma_hms_text_is_not_never(now);
                    }
                    action = String::from_str("🔄 Failover → ");
                    action.append(self.config.secondary_name.as_str());
                }
            } else {
                self.consecutive_successes = self.consecutive_successes + 1;
                self.consecutive_failures = 0;
                if self.consecutive_successes >= RECOVERY_THRESHOLD && self.is_failed_over {
                    metrics.push((self.config.primary_index, 10));
                    metrics.push((self.config.secondary_index, 100));
                    self.is_failed_over = false;
                    self.last_switch = format_hms(now);
                    proof {
                        lemma_hms_text_is_not_never(now);
                    }
                    action = String::from_str("✅ Restauré → ");
                    action.append(self.config.primary_name.as_str());
                }
            }
        }
        FailoverDecision { metrics_to_set: metrics, action }
    }
}

/// A switch time is never the text `Never`.
proof fn lemma_hms_text_is_not_never(now: u64)
    ensures
        hms_text(now) != "Never"@,
{
    law_monitor_clock_matches_log_clock(now);
    crate::logger::law_clock_text_shape(now);
    reveal_strlit("Never");
}

/// Records a tick in the shared state (reachability, latency, adapter
/// statuses, check time) and gives back the copy to publish, whose check
/// time also names the switch when one happened.
pub fn finish_tick(
    state: &mut MonitorState,
    connectivity: &ConnectivityResult,
    statuses: Vec<AdapterStatus>,
    now: &str,
    action: &str,
) -> (payload: MonitorState)
    ensures
        final(state).internet_reachable == connectivity.reachable,
        final(state).overall_latency_ms == connectivity.latency_ms,
        final(state).adapters@ == statuses@,
        final(state).last_check@ == now@,
        final(state).failover == old(state).failover,
        payload.internet_reachable == connectivity.reachable,
        payload.overall_latency_ms == connectivity.latency_ms,
        payload.adapters@ == statuses@,
        payload.failover == old(state).failover,
        action@.len() == 0 ==> payload.last_check@ == now@,
        action@.len() > 0 ==> payload.last_check@ == now@ + " | "@ + action@,
{
    state.internet_reachable = connectivity.reachable;
    state.overall_latency_ms = connectivity.latency_ms;
    state.adapters = statuses;
    state.last_check = String::from_str(now);
    let mut payload = state.copy();
    if action.unicode_len() > 0 {
        let mut check = String::from_str(now);
        check.append(" | ");
        check.append(action);
        payload.last_check = check;
    }
    payload
}

// ------------------------------------------- turning the failover on and off

/// The metrics set when the automatic failover is turned on: primary 10,
/// secondary 100.
pub fn failover_start_metrics(primary_index: u32, secondary_index: u32) -> (m: Vec<(u32, u32)>)
    ensures
        m@ == seq![(primary_index, 10u32), (secondary_index, 100u32)],
{
    let mut m: Vec<(u32, u32)> = Vec::new();
    m.push((primary_index, 10));
    m.push((secondary_index, 100));
    m
}

impl FailoverState {
    /// The failover state right after it is turned on for two adapters:
    /// on the primary, never switched, no run of checks yet.
    pub fn enabled_for(
        primary_index: u32,
        secondary_index: u32,
        primary_name: String,
        secondary_name: String,
    ) -> (f: FailoverState)
        ensures
            f.config.enabled,
            f.config.primary_index == primary_index,
            f.config.secondary_index == secondary_index,
            f.config.primary_name == primary_name,
            f.config.secondary_name == secondary_name,
            !f.is_failed_over,
            f.failover_count == 0,
            f.last_switch@ == "Never"@,
            f.consecutive_failures == 0,
            f.consecutive_successes == 0,
            failover_consistent(f),
    {
        FailoverState {
            config: FailoverConfig {
                enabled: true,
                primary_index,
                secondary_index,
                primary_name,
                secondary_name,
            },
            is_failed_over: false,
            failover_count: 0,
            last_switch: String::from_str("Never"),
            consecutive_failures: 0,
            consecutive_successes: 0,
        }
    }

    /// The metrics to restore when the failover is turned off: the primary
    /// back to 10 and the secondary to 100 where traffic is on the
    /// secondary, nothing otherwise.
    pub fn disable_metrics(&self) -> (m: Vec<(u32, u32)>)
        ensures
            self.is_failed_over ==> m@ == seq![
                (self.config.primary_index, 10u32),
                (self.config.secondary_index, 100u32),
            ],
            !self.is_failed_over ==> m@.len() == 0,
    {
        if self.is_failed_over {
            failover_start_metrics(self.config.primary_index, self.config.secondary_index)
        } else {
            Vec::new()
        }
    }

    /// Turns the failover off, back on the primary; the adapters, the
    /// switch count, the last switch time and the runs of checks stay.
    pub fn disable(&mut self)
        ensures
            !final(self).config.enabled,
            !final(self).is_failed_over,
            final(self).config.primary_index == old(self).config.primary_index,
            final(self).config.secondary_index == old(self).config.secondary_index,
            final(self).config.primary_name == old(self).config.primary_name,
            final(self).config.secondary_name == old(self).config.secondary_name,
            final(self).failover_count == old(self).failover_count,
            final(self).last_switch == old(self).last_switch,
            final(self).consecutive_failures == old(self).consecutive_failures,
            final(self).consecutive_successes == old(self).consecutive_successes,
            failover_consistent(*old(self)) ==> failover_consistent(*final(self)),
    {
        self.config.enabled = false;
        self.is_failed_over = false;
    }
}

} // verus!
