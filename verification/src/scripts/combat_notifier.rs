//! The combat notifier: it learns how long the weapons take to cycle from the
//! gaps between damage lines, and asks for a notification once a few cycles
//! pass with no shot fired.
//!
//! Times are milliseconds on the caller's monotonic clock.
use vstd::prelude::*;
use vstd::relations::{sorted_by, total_ordering};
use crate::patterns::{compile, is_match, regex_compiles, regex_matches};
use crate::scripts::util::{raw_text, to_raw_text};

verus! {

broadcast use vstd::seq_lib::group_to_multiset_ensures;

/// A damage line of the game log.
pub const COMBAT_PATTERN: &'static str = r" \(combat\) \d+ to .* - ";

/// Which of the sorted gaps is taken as the cycle time.
pub const EXAMPLE_NUM: usize = 3;

/// What the notifier tells its timer.
#[derive(Debug, Clone, Copy, PartialEq, Eq, Structural)]
pub enum NotifierCommand {
    /// Notify at this time unless told something else first.
    WaitUntil(u64),
    Disable,
    Enable,
}

/// The notifier's settings.
#[derive(Debug, Clone, Copy, PartialEq, Eq, Structural)]
pub struct AppSettings {
    /// Weapon cycles without a shot before the notification.
    pub num_cycles: u8,
    pub sample_num: usize,
    /// How many gaps are kept.
    pub num_samples: usize,
    /// How many gaps are needed before a cycle time is estimated.
    pub min_num_samples: usize,
}

impl AppSettings {
    /// The settings used when none are stored.
    pub fn default_settings() -> (r: Self)
        ensures
            r == (AppSettings { num_cycles: 3, sample_num: 4, num_samples: 10, min_num_samples: 6 }),
    {
        AppSettings { num_cycles: 3, sample_num: 4, num_samples: 10, min_num_samples: 6 }
    }
}

/// Order of gaps.
pub open spec fn leq_u64() -> spec_fn(u64, u64) -> bool {
    |a: u64, b: u64| a <= b
}

proof fn lemma_leq_u64_total()
    ensures
        total_ordering(leq_u64()),
{
    let r = leq_u64();
    assert forall|x: u64, y: u64, z: u64| #[trigger] r(x, y) && #[trigger] r(y, z) implies r(x, z) by {}
    assert forall|x: u64, y: u64| #[trigger] r(x, y) && #[trigger] r(y, x) implies x == y by {}
    assert forall|x: u64, y: u64| #[trigger] r(x, y) || #[trigger] r(y, x) by {}
    assert forall|x: u64| #[trigger] r(x, x) by {}
}

/// The gaps sorted ascending.
pub open spec fn sorted_gaps(gaps: Seq<u64>) -> Seq<u64> {
    gaps.sort_by(leq_u64())
}

/// Sorts gaps ascending.
pub fn sort_gaps(v: &[u64]) -> (r: Vec<u64>)
    ensures
        r@ == sorted_gaps(v@),
{
    let mut out: Vec<u64> = Vec::new();
    let mut i: usize = 0;
    while i < v.len()
        invariant
            i <= v@.len(),
            sorted_by(out@, leq_u64()),
            out@.to_multiset() == v@.take(i as int).to_multiset(),
        decreases v.len() - i,
    {
        let x = v[i];
        let mut j: usize = 0;
        while j < out.len() && out[j] <= x
            invariant
                j <= out@.len(),
                forall|k: int| 0 <= k < j ==> out@[k] <= x,
            decreases out.len() - j,
        {
            j = j + 1;
        }
        let ghost before = out@;
        out.insert(j, x);
        proof {
            vstd::seq_lib::to_multiset_insert(before, j as int, x);
            assert(v@.take(i + 1) =~= v@.take(i as int).push(x));
            assert(out@ =~= before.insert(j as int, x));
            assert forall|a: int, b: int| 0 <= a < b < out@.len() implies #[trigger] leq_u64()(
                out@[a],
                out@[b],
            ) by {
                if b < j {
                    assert(leq_u64()(before[a], before[b]));
                } else if b == j {
                    assert(before[a] <= x);
                } else if a > j {
                    assert(leq_u64()(before[a - 1], before[b - 1]));
                } else if a == j {
                    assert(!(before[j as int] <= x));
                    if b - 1 > j {
                        assert(leq_u64()(before[j as int], before[b - 1]));
                    }
                } else {
                    assert(leq_u64()(before[a], before[b - 1]));
                }
            }
        }
        i = i + 1;
    }
    proof {
        assert(v@.take(v@.len() as int) =~= v@);
        lemma_leq_u64_total();
        v@.lemma_sort_by_ensures(leq_u64());
        vstd::seq_lib::lemma_sorted_unique(out@, sorted_gaps(v@), leq_u64());
    }
    out
}

/// The kept gaps after `gap` is added: the oldest goes first once there are
/// `num_samples` of them.
pub open spec fn add_sample(gaps: Seq<u64>, num_samples: usize, gap: u64) -> Seq<u64> {
    let kept = if gaps.len() >= num_samples && gaps.len() > 0 {
        gaps.drop_first()
    } else {
        gaps
    };
    kept.push(gap)
}

/// The estimated cycle time: the fourth smallest gap, once there are at least
/// `min_num_samples` gaps.
pub open spec fn expected_cycle(gaps: Seq<u64>, min_num_samples: usize) -> Option<u64> {
    if gaps.len() < min_num_samples {
        None
    } else {
        Some(sorted_gaps(gaps)[EXAMPLE_NUM as int])
    }
}

/// The estimate can be made: too few gaps for one, or at least four.
pub open spec fn estimate_defined(gaps: Seq<u64>, min_num_samples: usize) -> bool {
    gaps.len() < min_num_samples || gaps.len() > EXAMPLE_NUM
}

/// Running the damage lines through the notifier, `matched` telling which
/// lines are damage lines, all at time `now`: the gaps kept, the time of the
/// last shot, and the times to notify at, in order.
pub open spec fn combat_run(gaps: Seq<u64>, last: u64, s: AppSettings, now: u64, matched: Seq<bool>) -> (Seq<u64>, u64, Seq<u64>)
    decreases matched.len(),
{
    if matched.len() == 0 {
        (gaps, last, Seq::empty())
    } else if !matched[0] {
        combat_run(gaps, last, s, now, matched.drop_first())
    } else {
        let gap = if now >= last {
            (now - last) as u64
        } else {
            0
        };
        let g2 = add_sample(gaps, s.num_samples, gap);
        let rest = combat_run(g2, now, s, now, matched.drop_first());
        match expected_cycle(g2, s.min_num_samples) {
            None => rest,
            Some(e) => (rest.0, rest.1, seq![(now + e * s.num_cycles) as u64] + rest.2),
        }
    }
}

/// How many gaps are kept after one more is added to `len` of them.
pub open spec fn add_sample_len(len: nat, num_samples: usize) -> nat {
    if len >= num_samples && len > 0 {
        len
    } else {
        len + 1
    }
}

/// Every estimate a run from `len` gaps makes can be made (see
/// `estimate_defined`).
pub open spec fn combat_run_defined(len: nat, s: AppSettings, matched: Seq<bool>) -> bool
    decreases matched.len(),
{
    if matched.len() == 0 {
        true
    } else if !matched[0] {
        combat_run_defined(len, s, matched.drop_first())
    } else {
        let l2 = add_sample_len(len, s.num_samples);
        (l2 < s.min_num_samples || l2 > EXAMPLE_NUM) && combat_run_defined(l2, s, matched.drop_first())
    }
}

/// Which of the lines, once cleaned, are damage lines.
pub open spec fn damage_lines(logs: Seq<String>) -> Seq<bool> {
    logs.map_values(|l: String| regex_matches(COMBAT_PATTERN@, raw_text(l@)))
}


/// Whether every estimate a run makes can be made (see `combat_run_defined`).
fn run_defined(len: usize, s: AppSettings, matched: &[bool]) -> (r: bool)
    ensures
        r == combat_run_defined(len as nat, s, matched@),
{
    let ghost cap: nat = if len >= s.num_samples {
        len as nat
    } else {
        s.num_samples as nat
    };
    let mut l: usize = len;
    let mut i: usize = 0;
    assert(matched@.subrange(0, matched@.len() as int) =~= matched@);
    while i < matched.len()
        invariant
            i <= matched@.len(),
            l <= cap || l <= 1,
            cap == if len >= s.num_samples { len as nat } else { s.num_samples as nat },
            combat_run_defined(len as nat, s, matched@) == combat_run_defined(l as nat, s, matched@.subrange(i as int, matched@.len() as int)),
        decreases matched.len() - i,
    {
        let ghost rest = matched@.subrange(i as int, matched@.len() as int);
        assert(rest.drop_first() =~= matched@.subrange(i + 1, matched@.len() as int));
        if matched[i] {
            let l2: usize = if l >= s.num_samples && l > 0 {
                l
            } else {
                l + 1
            };
            if !(l2 < s.min_num_samples || l2 > EXAMPLE_NUM) {
                return false;
            }
            l = l2;
        }
        i = i + 1;
    }
    true
}

/// Which of the cleaned lines match the damage pattern.
fn match_all(p: &crate::patterns::Pattern, lines: &[String]) -> (r: Vec<bool>)
    ensures
        r@ == lines@.map_values(|l: String| regex_matches(p@, l@)),
{
    let mut out: Vec<bool> = Vec::new();
    let mut i: usize = 0;
    while i < lines.len()
        invariant
            i <= lines@.len(),
            out@ == lines@.take(i as int).map_values(|l: String| regex_matches(p@, l@)),
        decreases lines.len() - i,
    {
        out.push(is_match(p, lines[i].as_str()));
        i = i + 1;
        assert(out@ =~= lines@.take(i as int).map_values(|l: String| regex_matches(p@, l@)));
    }
    assert(lines@.take(lines@.len() as int) =~= lines@);
    out
}

/// The notifier's state: the recent gaps between shots, the time of the last
/// shot, and its settings.
pub struct CombatNotifier {
    last_delays: std::collections::VecDeque<u64>,
    last_shot_time: u64,
    settings: AppSettings,
}

impl CombatNotifier {
    #[verifier::type_invariant]
    closed spec fn gaps_before_last_shot(self) -> bool {
        forall|i: int| 0 <= i < self.last_delays@.len() ==> #[trigger] self.last_delays@[i] <= self.last_shot_time
    }

    /// The recent gaps, oldest first.
    pub closed spec fn gaps(self) -> Seq<u64> {
        self.last_delays@
    }

    /// The time of the last shot.
    pub closed spec fn last_shot(self) -> u64 {
        self.last_shot_time
    }

    /// The settings.
    pub closed spec fn settings_spec(self) -> AppSettings {
        self.settings
    }

    /// A notifier with no gaps yet, its last shot at `now`.
    pub fn new(settings: AppSettings, now: u64) -> (r: Self)
        ensures
            r.gaps() == Seq::<u64>::empty(),
            r.last_shot() == now,
            r.settings_spec() == settings,
    {
        CombatNotifier { last_delays: std::collections::VecDeque::new(), last_shot_time: now, settings }
    }

    /// The settings.
    pub fn settings(&self) -> (r: AppSettings)
        ensures
            r == self.settings_spec(),
    {
        self.settings
    }

    /// Replaces the settings.
    pub fn set_settings(&mut self, settings: AppSettings)
        ensures
            final(self).settings_spec() == settings,
            final(self).gaps() == old(self).gaps(),
            final(self).last_shot() == old(self).last_shot(),
    {
        proof {
            use_type_invariant(&*self);
        }
        self.settings = settings;
    }

    /// The number of gaps kept.
    pub fn num_gaps(&self) -> (r: usize)
        ensures
            r == self.gaps().len(),
    {
        self.last_delays.len()
    }

    /// Adds a gap; the oldest is dropped first once `num_samples` are kept.
    fn add_new_duration(&mut self, dur: u64)
        requires
            dur <= old(self).last_shot(),
        ensures
            final(self).gaps() == add_sample(old(self).gaps(), old(self).settings_spec().num_samples, dur),
            final(self).last_shot() == old(self).last_shot(),
            final(self).settings_spec() == old(self).settings_spec(),
    {
        proof {
            use_type_invariant(&*self);
        }
        let mut delays = std::collections::VecDeque::new();
        std::mem::swap(&mut delays, &mut self.last_delays);
        let ghost before = delays@;
        if delays.len() >= self.settings.num_samples {
            delays.pop_front();
        }
        delays.push_back(dur);
        proof {
            if before.len() >= self.settings.num_samples && before.len() > 0 {
                assert(delays@ =~= before.drop_first().push(dur));
            } else {
                assert(delays@ =~= before.push(dur));
            }
            assert forall|i: int| 0 <= i < delays@.len() implies #[trigger] delays@[i] <= self.last_shot_time by {
                if i < delays@.len() - 1 {
                    if before.len() >= self.settings.num_samples && before.len() > 0 {
                        assert(delays@[i] == before[i + 1]);
                    } else {
                        assert(delays@[i] == before[i]);
                    }
                }
            }
        }
        self.last_delays = delays;
    }

    /// The estimated cycle time (see `expected_cycle`).
    pub fn expected_cycle_duration(&self) -> (r: Option<u64>)
        requires
            estimate_defined(self.gaps(), self.settings_spec().min_num_samples),
        ensures
            r == expected_cycle(self.gaps(), self.settings_spec().min_num_samples),
            r matches Some(e) ==> e <= self.last_shot(),
    {
        proof {
            use_type_invariant(self);
        }
        if self.last_delays.len() < self.settings.min_num_samples {
            return None;
        }
        let mut delays: Vec<u64> = Vec::new();
        let mut i: usize = 0;
        while i < self.last_delays.len()
            invariant
                i <= self.last_delays@.len(),
                delays@ == self.last_delays@.take(i as int),
            decreases self.last_delays@.len() - i,
        {
            delays.push(self.last_delays[i]);
            i = i + 1;
            assert(delays@ =~= self.last_delays@.take(i as int));
        }
        assert(delays@ =~= self.last_delays@);
        let sorted = sort_gaps(delays.as_slice());
        proof {
            lemma_leq_u64_total();
            delays@.lemma_sort_by_ensures(leq_u64());
            assert(sorted@.len() == delays@.len()) by {
                assert(sorted@.to_multiset().len() == delays@.to_multiset().len());
            }
            assert(sorted@.contains(sorted@[EXAMPLE_NUM as int]));
            assert(delays@.contains(sorted@[EXAMPLE_NUM as int]));
        }
        let example = sorted[EXAMPLE_NUM];
        Some(example)
    }

    /// Takes in which of a batch of lines are damage lines, all at `now`.
    /// Each damage line is a shot: the gap since the last shot is kept, the
    /// shot becomes the last, and once a cycle time can be estimated a
    /// notification is asked for `num_cycles` cycles after `now`.
    pub fn shots(&mut self, matched: &[bool], now: u64) -> (r: Vec<NotifierCommand>)
        requires
            old(self).last_shot() <= now,
            now <= u64::MAX / 256,
            combat_run_defined(old(self).gaps().len(), old(self).settings_spec(), matched@),
        ensures
            ({
                let run = combat_run(old(self).gaps(), old(self).last_shot(), old(self).settings_spec(), now, matched@);
                &&& final(self).gaps() == run.0
                &&& final(self).last_shot() == run.1
                &&& r@ == run.2.map_values(|t: u64| NotifierCommand::WaitUntil(t))
            }),
            final(self).settings_spec() == old(self).settings_spec(),
    {
        let ghost m = matched@;
        let ghost s = self.settings;
        let ghost start = combat_run(self.gaps(), self.last_shot(), s, now, m);
        let mut out: Vec<NotifierCommand> = Vec::new();
        let mut i: usize = 0;
        assert(m.subrange(0, m.len() as int) =~= m);
        while i < matched.len()
            invariant
                m == matched@,
                i <= m.len(),
                self.settings_spec() == s,
                self.last_shot() <= now,
                now <= u64::MAX / 256,
                combat_run_defined(self.gaps().len(), s, m.subrange(i as int, m.len() as int)),
                ({
                    let run = combat_run(self.gaps(), self.last_shot(), s, now, m.subrange(i as int, m.len() as int));
                    &&& start.0 == run.0
                    &&& start.1 == run.1
                    &&& start.2.map_values(|t: u64| NotifierCommand::WaitUntil(t)) == out@ + run.2.map_values(|t: u64| NotifierCommand::WaitUntil(t))
                }),
            decreases matched.len() - i,
        {
            let ghost rest = m.subrange(i as int, m.len() as int);
            assert(rest.drop_first() =~= m.subrange(i + 1, m.len() as int));
            assert(rest[0] == m[i as int]);
            if matched[i] {
                proof {
                    use_type_invariant(&*self);
                }
                let time_since_last = now - self.last_shot_time;
                let ghost g2 = add_sample(self.gaps(), s.num_samples, time_since_last);
                assert(g2.len() == add_sample_len(self.gaps().len(), s.num_samples));
                let mut delays = std::collections::VecDeque::new();
                std::mem::swap(&mut delays, &mut self.last_delays);
                let ghost gaps_before = delays@;
                proof {
                    assert forall|k: int| 0 <= k < delays@.len() implies #[trigger] delays@[k] <= now by {
                        assert(delays@[k] <= self.last_shot_time);
                    }
                }
                self.last_shot_time = now;
                self.last_delays = delays;
                assert(self.gaps() == gaps_before);
                self.add_new_duration(time_since_last);
                let expected = self.expected_cycle_duration();
                match expected {
                    None => {},
                    Some(expected_dur) => {
                        let nc = self.settings.num_cycles as u64;
                        assert(now + expected_dur * nc <= u64::MAX) by (nonlinear_arith)
                            requires
                                expected_dur <= now,
                                nc <= 255,
                                now <= u64::MAX / 256,
                        ;
                        let wait_until = now + expected_dur * (self.settings.num_cycles as u64);
                        let ghost prev_out = out@;
                        out.push(NotifierCommand::WaitUntil(wait_until));
                        proof {
                            let run_rest = combat_run(self.gaps(), self.last_shot(), s, now, m.subrange(i + 1, m.len() as int));
                            assert(seq![wait_until] + run_rest.2 =~= seq![wait_until].add(run_rest.2));
                            assert((seq![wait_until] + run_rest.2).map_values(|t: u64| NotifierCommand::WaitUntil(t))
                                =~= seq![NotifierCommand::WaitUntil(wait_until)] + run_rest.2.map_values(|t: u64| NotifierCommand::WaitUntil(t)));
                            assert(out@ =~= prev_out + seq![NotifierCommand::WaitUntil(wait_until)]);
                        }
                    },
                }
            }
            i = i + 1;
        }
        proof {
            assert(m.subrange(i as int, m.len() as int) =~= Seq::<bool>::empty());
            assert(out@ + Seq::<NotifierCommand>::empty() =~= out@);
        }
        out
    }

    /// Takes in new game log lines at `now`: the damage lines among them
    /// (see `damage_lines`) are the shots (see `shots`).
    pub fn new_game_logs(&mut self, logs: &[String], now: u64) -> (r: Vec<NotifierCommand>)
        requires
            regex_compiles(COMBAT_PATTERN@),
            old(self).last_shot() <= now,
            now <= u64::MAX / 256,
            combat_run_defined(old(self).gaps().len(), old(self).settings_spec(), damage_lines(logs@)),
        ensures
            ({
                let run = combat_run(old(self).gaps(), old(self).last_shot(), old(self).settings_spec(), now, damage_lines(logs@));
                &&& final(self).gaps() == run.0
                &&& final(self).last_shot() == run.1
                &&& r@ == run.2.map_values(|t: u64| NotifierCommand::WaitUntil(t))
            }),
            final(self).settings_spec() == old(self).settings_spec(),
    {
        let cleaned = to_raw_text(logs);
        let damage_regex = compile(COMBAT_PATTERN).unwrap();
        let matched = match_all(&damage_regex, cleaned.as_slice());
        proof {
            assert(matched@ =~= damage_lines(logs@));
        }
        self.shots(matched.as_slice(), now)
    }

    /// `new_game_logs` where it can run; `None`, with nothing changed, where
    /// the damage pattern does not compile or an estimate would be asked of
    /// one to three gaps.
    pub fn try_new_game_logs(&mut self, logs: &[String], now: u64) -> (r: Option<Vec<NotifierCommand>>)
        requires
            old(self).last_shot() <= now,
            now <= u64::MAX / 256,
        ensures
            r is Some <==> regex_compiles(COMBAT_PATTERN@) && combat_run_defined(old(self).gaps().len(), old(self).settings_spec(), damage_lines(logs@)),
            r is None ==> final(self).gaps() == old(self).gaps() && final(self).last_shot() == old(self).last_shot(),
            r matches Some(cmds) ==> {
                let run = combat_run(old(self).gaps(), old(self).last_shot(), old(self).settings_spec(), now, damage_lines(logs@));
                &&& final(self).gaps() == run.0
                &&& final(self).last_shot() == run.1
                &&& cmds@ == run.2.map_values(|t: u64| NotifierCommand::WaitUntil(t))
            },
            final(self).settings_spec() == old(self).settings_spec(),
    {
        let damage_regex = match compile(COMBAT_PATTERN) {
            None => return None,
            Some(p) => p,
        };
        let cleaned = to_raw_text(logs);
        let matched = match_all(&damage_regex, cleaned.as_slice());
        proof {
            assert(matched@ =~= damage_lines(logs@));
        }
        if !run_defined(self.last_delays.len(), self.settings, matched.as_slice()) {
            return None;
        }
        Some(self.new_game_logs(logs, now))
    }

    /// Drops the oldest gaps until no more than `num_samples` (the number of
    /// saved samples) are kept.
    pub fn truncate_samples(&mut self)
        ensures
            final(self).gaps() == if old(self).gaps().len() > old(self).settings_spec().num_samples {
                old(self).gaps().skip(old(self).gaps().len() - old(self).settings_spec().num_samples)
            } else {
                old(self).gaps()
            },
            final(self).last_shot() == old(self).last_shot(),
            final(self).settings_spec() == old(self).settings_spec(),
    {
        proof {
            use_type_invariant(&*self);
        }
        let mut delays = std::collections::VecDeque::new();
        std::mem::swap(&mut delays, &mut self.last_delays);
        let ghost before = delays@;
        let limit = self.settings.num_samples;
        while limit < delays.len()
            invariant
                limit == self.settings.num_samples,
                delays@.len() <= before.len(),
                delays@.len() < before.len() ==> delays@.len() >= limit,
                before.len() > limit ==> delays@.len() >= limit,
                delays@ == before.skip(before.len() - delays@.len()),
            decreases delays.len(),
        {
            let ghost prev = delays@;
            delays.pop_front();
            assert(delays@ =~= before.skip(before.len() - delays@.len()));
        }
        proof {
            if before.len() <= limit {
                assert(before.skip(0) =~= before);
                assert(delays@ =~= before);
            } else {
                assert(delays@.len() == limit);
            }
            assert forall|k: int| 0 <= k < delays@.len() implies #[trigger] delays@[k] <= self.last_shot_time by {
                assert(delays@[k] == before[before.len() - delays@.len() + k]);
            }
        }
        self.last_delays = delays;
    }
}


/// Where the timer is: waiting to be enabled, or enabled.
#[derive(Debug, Clone, Copy, PartialEq, Eq, Structural)]
pub enum TimerState {
    Disabled,
    Enabled,
}

/// What the timer's thread does after a command.
#[derive(Debug, Clone, Copy, PartialEq, Eq, Structural)]
pub enum TimerAction {
    /// Wait for the next command.
    AwaitCommand,
    /// Sleep until the given time, then check for a command: if one came,
    /// take it; if none, play the default notification and wait for one.
    SleepThenCheck(u64),
    /// Check for a command now, as after a sleep.
    CheckNow,
}

/// The timer that plays the combat notification: disabled until enabled;
/// once enabled, each time to notify at is slept to, and if no newer command
/// came meanwhile the notification plays.
pub struct CombatTimer {
    pub state: TimerState,
}

impl CombatTimer {
    /// A disabled timer.
    pub fn new() -> (r: Self)
        ensures
            r.state == TimerState::Disabled,
    {
        CombatTimer { state: TimerState::Disabled }
    }

    /// Takes a command (see `timer_step`).
    pub fn on_command(&mut self, cmd: NotifierCommand) -> (r: TimerAction)
        ensures
            (final(self).state, r) == timer_step(old(self).state, cmd),
    {
        match self.state {
            TimerState::Disabled => {
                if cmd == NotifierCommand::Enable {
                    self.state = TimerState::Enabled;
                }
                TimerAction::AwaitCommand
            },
            TimerState::Enabled => match cmd {
                NotifierCommand::Disable => {
                    self.state = TimerState::Disabled;
                    TimerAction::AwaitCommand
                },
                NotifierCommand::Enable => TimerAction::CheckNow,
                NotifierCommand::WaitUntil(t) => TimerAction::SleepThenCheck(t),
            },
        }
    }

    /// Takes what the timer's thread found after `action`: a command, or
    /// `None` when a check found none waiting (see `thread_step`). Hands back
    /// the next action, and, when the notification is to play, the time from
    /// which it plays.
    pub fn on_found(&mut self, action: TimerAction, found: Option<NotifierCommand>) -> (r: (TimerAction, Option<u64>))
        ensures
            (final(self).state, r.0, r.1) == thread_step(old(self).state, action, found),
    {
        match found {
            Some(cmd) => {
                let next = self.on_command(cmd);
                (next, None)
            },
            None => match action {
                TimerAction::AwaitCommand => (TimerAction::AwaitCommand, None),
                TimerAction::SleepThenCheck(t) => (TimerAction::AwaitCommand, Some(t)),
                TimerAction::CheckNow => (TimerAction::AwaitCommand, Some(0)),
            },
        }
    }
}

/// One step of the timer's thread, from `state` while doing `action`, on
/// what it found: a command is taken by the timer's rule (see `timer_step`),
/// and plays nothing; finding none after a sleep to `t` plays the
/// notification from `t` on, after a check at once plays it at once, and the
/// next command is awaited. The new state, the next action, and the time from
/// which the notification plays, if it does.
pub open spec fn thread_step(state: TimerState, action: TimerAction, found: Option<NotifierCommand>) -> (TimerState, TimerAction, Option<u64>) {
    match found {
        Some(cmd) => {
            let (next, act) = timer_step(state, cmd);
            (next, act, None)
        },
        None => match action {
            TimerAction::AwaitCommand => (state, TimerAction::AwaitCommand, None),
            TimerAction::SleepThenCheck(t) => (state, TimerAction::AwaitCommand, Some(t)),
            TimerAction::CheckNow => (state, TimerAction::AwaitCommand, Some(0)),
        },
    }
}

/// The timer's thread over what it finds in turn: the state and action it
/// ends in, and the times from which the notifications it plays play.
pub open spec fn thread_run(state: TimerState, action: TimerAction, founds: Seq<Option<NotifierCommand>>) -> (TimerState, TimerAction, Seq<u64>)
    decreases founds.len(),
{
    if founds.len() == 0 {
        (state, action, Seq::empty())
    } else {
        let (s2, a2, play) = thread_step(state, action, founds[0]);
        let rest = thread_run(s2, a2, founds.drop_first());
        (rest.0, rest.1, match play {
            Some(t) => seq![t] + rest.2,
            None => rest.2,
        })
    }
}

/// Once enabled and told to notify at `t`, a timer that finds no newer
/// command after sleeping to `t` plays the notification exactly once, from `t`
/// on, and then awaits the next command; a newer command found after the
/// sleep plays nothing and is taken instead.
pub proof fn law_wait_plays_once_unless_superseded(t: u64, newer: NotifierCommand)
    ensures
        thread_run(
            TimerState::Disabled,
            TimerAction::AwaitCommand,
            seq![Some(NotifierCommand::Enable), Some(NotifierCommand::WaitUntil(t)), None],
        ) == (TimerState::Enabled, TimerAction::AwaitCommand, seq![t]),
        ({
            let (s, a) = timer_step(TimerState::Enabled, newer);
            thread_run(
                TimerState::Disabled,
                TimerAction::AwaitCommand,
                seq![Some(NotifierCommand::Enable), Some(NotifierCommand::WaitUntil(t)), Some(newer)],
            ) == (s, a, Seq::<u64>::empty())
        }),
{
    reveal_with_fuel(thread_run, 4);
    let f1 = seq![Some(NotifierCommand::Enable), Some(NotifierCommand::WaitUntil(t)), None];
    assert(f1.drop_first() =~= seq![Some(NotifierCommand::WaitUntil(t)), None]);
    assert(f1.drop_first().drop_first() =~= seq![None::<NotifierCommand>]);
    assert(f1.drop_first().drop_first().drop_first() =~= Seq::<Option<NotifierCommand>>::empty());
    assert(seq![t] + Seq::<u64>::empty() =~= seq![t]);
    let f2 = seq![Some(NotifierCommand::Enable), Some(NotifierCommand::WaitUntil(t)), Some(newer)];
    assert(f2.drop_first() =~= seq![Some(NotifierCommand::WaitUntil(t)), Some(newer)]);
    assert(f2.drop_first().drop_first() =~= seq![Some(newer)]);
    assert(f2.drop_first().drop_first().drop_first() =~= Seq::<Option<NotifierCommand>>::empty());
}

/// Between a `Disable` and the next `Enable` nothing plays: a disabled timer
/// awaiting commands stays disabled and silent whatever it finds, as long as
/// no `Enable` comes.
pub proof fn law_silent_while_disabled(founds: Seq<Option<NotifierCommand>>)
    requires
        forall|i: int| 0 <= i < founds.len() ==> founds[i] != Some(NotifierCommand::Enable),
    ensures
        thread_run(TimerState::Disabled, TimerAction::AwaitCommand, founds) == (
            TimerState::Disabled,
            TimerAction::AwaitCommand,
            Seq::<u64>::empty(),
        ),
    decreases founds.len(),
{
    if founds.len() > 0 {
        assert(founds[0] != Some(NotifierCommand::Enable));
        law_silent_while_disabled(founds.drop_first());
    }
}

/// The timer's rule. While disabled, only `Enable` counts: it enables, and
/// the next command is awaited. While enabled, `Disable` disables; `WaitUntil`
/// sleeps to its time and then checks; an `Enable` changes nothing but is
/// checked after at once.
pub open spec fn timer_step(state: TimerState, cmd: NotifierCommand) -> (TimerState, TimerAction) {
    match state {
        TimerState::Disabled => (if cmd == NotifierCommand::Enable {
            TimerState::Enabled
        } else {
            TimerState::Disabled
        }, TimerAction::AwaitCommand),
        TimerState::Enabled => match cmd {
            NotifierCommand::Disable => (TimerState::Disabled, TimerAction::AwaitCommand),
            NotifierCommand::Enable => (TimerState::Enabled, TimerAction::CheckNow),
            NotifierCommand::WaitUntil(t) => (TimerState::Enabled, TimerAction::SleepThenCheck(t)),
        },
    }
}

/// The most gaps kept with `num_samples` asked for: that many, and at least one.
pub open spec fn gap_capacity(num_samples: usize) -> nat {
    if num_samples == 0 {
        1
    } else {
        num_samples as nat
    }
}

/// The kept gaps are always the most recent ones: adding a gap to at most
/// as many gaps as the settings keep gives the newest gaps of the history
/// with the new one at its end, as many as fit (the new gap and, once full,
/// all but the oldest of the others).
pub proof fn law_window_keeps_most_recent(gaps: Seq<u64>, num_samples: usize, gap: u64)
    requires
        gaps.len() <= gap_capacity(num_samples),
    ensures
        ({
            let kept = add_sample(gaps, num_samples, gap);
            let history = gaps.push(gap);
            &&& kept.len() == if history.len() <= gap_capacity(num_samples) {
                history.len()
            } else {
                gap_capacity(num_samples)
            }
            &&& kept == history.skip(history.len() - kept.len())
            &&& kept.last() == gap
        }),
{
    let kept = add_sample(gaps, num_samples, gap);
    let history = gaps.push(gap);
    if gaps.len() >= num_samples && gaps.len() > 0 {
        assert(kept =~= history.skip(1));
    } else {
        assert(kept =~= history.skip(0));
    }
}

/// However many shots come in, the notifier keeps no more gaps than its
/// settings ask for (at least one), once it keeps no more than that.
pub proof fn law_gaps_stay_bounded(gaps: Seq<u64>, last: u64, s: AppSettings, now: u64, matched: Seq<bool>)
    requires
        gaps.len() <= gap_capacity(s.num_samples),
    ensures
        combat_run(gaps, last, s, now, matched).0.len() <= gap_capacity(s.num_samples),
    decreases matched.len(),
{
    if matched.len() > 0 {
        if !matched[0] {
            law_gaps_stay_bounded(gaps, last, s, now, matched.drop_first());
        } else {
            let gap = if now >= last {
                (now - last) as u64
            } else {
                0
            };
            law_gaps_stay_bounded(add_sample(gaps, s.num_samples, gap), now, s, now, matched.drop_first());
        }
    }
}

/// The estimated cycle time is always one of the gaps seen.
pub proof fn law_estimate_is_a_gap(gaps: Seq<u64>, min_num_samples: usize)
    requires
        estimate_defined(gaps, min_num_samples),
    ensures
        expected_cycle(gaps, min_num_samples) matches Some(e) ==> gaps.contains(e),
{
    if gaps.len() >= min_num_samples {
        lemma_leq_u64_total();
        gaps.lemma_sort_by_ensures(leq_u64());
        let sorted = sorted_gaps(gaps);
        assert(sorted.len() == gaps.len()) by {
            assert(sorted.to_multiset().len() == gaps.to_multiset().len());
        }
        assert(sorted.contains(sorted[EXAMPLE_NUM as int]));
        assert(gaps.to_multiset().count(sorted[EXAMPLE_NUM as int]) > 0);
    }
}

/// Once told to stop, the timer sleeps to no time and checks for nothing
/// until it is told to start again: every command but `Enable` leaves a
/// disabled timer disabled and waiting.
pub proof fn law_disabled_timer_stays_quiet(cmds: Seq<NotifierCommand>)
    requires
        forall|i: int| 0 <= i < cmds.len() ==> cmds[i] != NotifierCommand::Enable,
    ensures
        timer_run(TimerState::Disabled, cmds) == (TimerState::Disabled, Seq::new(cmds.len(), |i: int| TimerAction::AwaitCommand)),
    decreases cmds.len(),
{
    if cmds.len() > 0 {
        law_disabled_timer_stays_quiet(cmds.drop_first());
        assert(seq![TimerAction::AwaitCommand] + Seq::new((cmds.len() - 1) as nat, |i: int| TimerAction::AwaitCommand)
            =~= Seq::new(cmds.len(), |i: int| TimerAction::AwaitCommand));
    }
}

/// The state and actions of the timer after the commands `cmds`, by the
/// rules of `CombatTimer::on_command`.
pub open spec fn timer_run(state: TimerState, cmds: Seq<NotifierCommand>) -> (TimerState, Seq<TimerAction>)
    decreases cmds.len(),
{
    if cmds.len() == 0 {
        (state, Seq::empty())
    } else {
        let (next, action) = timer_step(state, cmds[0]);
        let rest = timer_run(next, cmds.drop_first());
        (rest.0, seq![action] + rest.1)
    }
}

} // verus!
