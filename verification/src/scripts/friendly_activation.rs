//! The friendly activation notifier: a sound when someone in fleet chat calls
//! an activation ("fa") on one of the tracked holes.
//!
//! Times are milliseconds on the caller's monotonic clock.
use vstd::prelude::*;
use crate::patterns::{captures, compile, regex_captures, regex_compiles, group_texts};
use crate::scripts::notification::DEFAULT_NOTIFICATION;
use crate::text::{ascii_lower, same_text, texts, to_ascii_lowercase};

verus! {

/// A fleet chat line calling an activation; the `hole` group is the hole.
pub const FA_PATTERN: &'static str = r"^\[.+\] .+ > fa ?(?P<hole>[a-z]( x\d+)?\d*)\s*$";

/// The capture group number of `hole` in `FA_PATTERN`.
pub const HOLE_GROUP: usize = 1;

/// The least time between two notifications, in milliseconds.
pub const MIN_TIME_BETWEEN_NOTIFICATIONS_MS: u64 = 600;

/// A hole being watched for, and the sound for it.
#[derive(Debug)]
pub struct TrackedHoles {
    pub name: String,
    pub notification: String,
}

/// The tracked holes, and the text being typed for a new one.
#[derive(Debug)]
pub struct FriendlyActivationSettings {
    pub tracked_holes: Vec<TrackedHoles>,
    pub hole_text: String,
}

/// The notifier: its settings and when it last played.
#[derive(Debug)]
pub struct FriendlyActivation {
    pub settings: FriendlyActivationSettings,
    pub last_call: Option<u64>,
}

/// A line with its ASCII letters lowercased.
pub open spec fn lowercased(s: Seq<char>) -> Seq<char> {
    s.map_values(|c: char| ascii_lower(c))
}

/// The hole called on `line`, if it calls one.
pub open spec fn called_hole(line: Seq<char>) -> Option<Seq<char>> {
    match regex_captures(FA_PATTERN@, lowercased(line)) {
        Some(groups) => if groups.len() > HOLE_GROUP && groups[HOLE_GROUP as int] is Some {
            groups[HOLE_GROUP as int]
        } else {
            None
        },
        None => None,
    }
}

/// A match, if any, has its `hole` group.
pub open spec fn hole_group_present(caps: Option<Seq<Option<Seq<char>>>>) -> bool {
    caps matches Some(groups) ==> groups.len() > HOLE_GROUP && groups[HOLE_GROUP as int] is Some
}

/// Every line the pattern matches has a hole: it compiles, and its `hole`
/// group takes part in every match.
pub open spec fn fa_lines_readable(logs: Seq<Seq<char>>) -> bool {
    &&& regex_compiles(FA_PATTERN@)
    &&& forall|i: int| 0 <= i < logs.len() ==> hole_group_present(#[trigger] regex_captures(FA_PATTERN@, lowercased(logs[i])))
}

/// Whether a call may be answered at `now`: nothing played yet, or the last
/// sound at least the least time ago.
pub open spec fn may_play(last: Option<u64>, now: u64) -> bool {
    match last {
        None => true,
        Some(t) => t + MIN_TIME_BETWEEN_NOTIFICATIONS_MS <= now,
    }
}

/// Answering a call of `called` against the tracked holes (name, sound), in
/// order: each hole of that name plays its sound if it may; the time of the
/// last sound, and the sounds.
pub open spec fn answer_call(holes: Seq<(Seq<char>, Seq<char>)>, called: Seq<char>, last: Option<u64>, now: u64) -> (Option<u64>, Seq<Seq<char>>)
    decreases holes.len(),
{
    if holes.len() == 0 {
        (last, Seq::empty())
    } else if holes[0].0 == called && may_play(last, now) {
        let r = answer_call(holes.drop_first(), called, Some(now), now);
        (r.0, seq![holes[0].1] + r.1)
    } else {
        answer_call(holes.drop_first(), called, last, now)
    }
}

/// Answering every call among `logs`, in order.
pub open spec fn answer_lines(logs: Seq<Seq<char>>, holes: Seq<(Seq<char>, Seq<char>)>, last: Option<u64>, now: u64) -> (Option<u64>, Seq<Seq<char>>)
    decreases logs.len(),
{
    if logs.len() == 0 {
        (last, Seq::empty())
    } else {
        match called_hole(logs[0]) {
            None => answer_lines(logs.drop_first(), holes, last, now),
            Some(h) => {
                let a = answer_call(holes, h, last, now);
                let r = answer_lines(logs.drop_first(), holes, a.0, now);
                (r.0, a.1 + r.1)
            },
        }
    }
}

/// The tracked holes as (name, sound).
pub open spec fn holes_view(holes: Seq<TrackedHoles>) -> Seq<(Seq<char>, Seq<char>)> {
    holes.map_values(|h: TrackedHoles| (h.name@, h.notification@))
}

impl FriendlyActivation {
    /// No holes tracked, nothing typed, never played.
    pub fn new() -> (r: Self)
        ensures
            r.settings.tracked_holes@.len() == 0,
            r.settings.hole_text@.len() == 0,
            r.last_call is None,
    {
        FriendlyActivation {
            settings: FriendlyActivationSettings { tracked_holes: Vec::new(), hole_text: String::new() },
            last_call: None,
        }
    }

    /// Answers a call of the hole `called` at `now` (see `answer_call`): the
    /// sounds to play.
    pub fn answer(&mut self, called: &str, now: u64) -> (r: Vec<String>)
        requires
            old(self).last_call matches Some(t) ==> t + MIN_TIME_BETWEEN_NOTIFICATIONS_MS <= u64::MAX,
            now + MIN_TIME_BETWEEN_NOTIFICATIONS_MS <= u64::MAX,
        ensures
            (final(self).last_call, texts(r@)) == answer_call(holes_view(old(self).settings.tracked_holes@), called@, old(self).last_call, now),
            final(self).settings == old(self).settings,
            final(self).last_call matches Some(t) ==> t + MIN_TIME_BETWEEN_NOTIFICATIONS_MS <= u64::MAX,
    {
        let ghost holes = holes_view(self.settings.tracked_holes@);
        let ghost start = answer_call(holes, called@, self.last_call, now);
        let mut out: Vec<String> = Vec::new();
        let mut j: usize = 0;
        assert(holes.subrange(0, holes.len() as int) =~= holes);
        while j < self.settings.tracked_holes.len()
            invariant
                j <= self.settings.tracked_holes@.len(),
                holes == holes_view(self.settings.tracked_holes@),
                self.settings == old(self).settings,
                self.last_call matches Some(t) ==> t + MIN_TIME_BETWEEN_NOTIFICATIONS_MS <= u64::MAX,
                now + MIN_TIME_BETWEEN_NOTIFICATIONS_MS <= u64::MAX,
                ({
                    let rest = answer_call(holes.subrange(j as int, holes.len() as int), called@, self.last_call, now);
                    &&& start.0 == rest.0
                    &&& start.1 == texts(out@) + rest.1
                }),
            decreases self.settings.tracked_holes.len() - j,
        {
            let ghost rest = holes.subrange(j as int, holes.len() as int);
            assert(rest.drop_first() =~= holes.subrange(j + 1, holes.len() as int));
            let hole = &self.settings.tracked_holes[j];
            assert(rest[0] == (hole.name@, hole.notification@));
            if same_text(called, hole.name.as_str()) {
                let should_play = match self.last_call {
                    Some(last_ping) => last_ping + MIN_TIME_BETWEEN_NOTIFICATIONS_MS <= now,
                    None => true,
                };
                if should_play {
                    let ghost prev = texts(out@);
                    out.push(hole.notification.clone());
                    self.last_call = Some(now);
                    assert(texts(out@) =~= prev.push(hole.notification@));
                    assert(prev + (seq![hole.notification@] + answer_call(holes.subrange(j + 1, holes.len() as int), called@, self.last_call, now).1)
                        =~= texts(out@) + answer_call(holes.subrange(j + 1, holes.len() as int), called@, self.last_call, now).1);
                }
            }
            j = j + 1;
        }
        assert(holes.subrange(j as int, holes.len() as int) =~= Seq::<(Seq<char>, Seq<char>)>::empty());
        assert(texts(out@) + Seq::<Seq<char>>::empty() =~= texts(out@));
        out
    }

    /// Takes in new fleet chat lines at `now` and gives the sounds to play:
    /// each line that calls an activation (see `called_hole`) plays the sound
    /// of each tracked hole of that name, unless a sound played less than the
    /// least time before.
    pub fn new_fleet_logs(&mut self, logs: &[String], now: u64) -> (r: Vec<String>)
        requires
            fa_lines_readable(texts(logs@)),
            old(self).last_call matches Some(t) ==> t + MIN_TIME_BETWEEN_NOTIFICATIONS_MS <= u64::MAX,
            now + MIN_TIME_BETWEEN_NOTIFICATIONS_MS <= u64::MAX,
        ensures
            (final(self).last_call, texts(r@)) == answer_lines(texts(logs@), holes_view(old(self).settings.tracked_holes@), old(self).last_call, now),
            final(self).settings == old(self).settings,
    {
        let activation_re = compile(FA_PATTERN).unwrap();
        let ghost ls = texts(logs@);
        let ghost holes = holes_view(self.settings.tracked_holes@);
        let ghost start = answer_lines(ls, holes, self.last_call, now);
        let mut out: Vec<String> = Vec::new();
        let mut i: usize = 0;
        assert(ls.subrange(0, ls.len() as int) =~= ls);
        while i < logs.len()
            invariant
                i <= logs@.len(),
                ls == texts(logs@),
                fa_lines_readable(ls),
                activation_re@ == FA_PATTERN@,
                holes == holes_view(self.settings.tracked_holes@),
                self.settings == old(self).settings,
                self.last_call matches Some(t) ==> t + MIN_TIME_BETWEEN_NOTIFICATIONS_MS <= u64::MAX,
                now + MIN_TIME_BETWEEN_NOTIFICATIONS_MS <= u64::MAX,
                ({
                    let rest = answer_lines(ls.subrange(i as int, ls.len() as int), holes, self.last_call, now);
                    &&& start.0 == rest.0
                    &&& start.1 == texts(out@) + rest.1
                }),
            decreases logs.len() - i,
        {
            let ghost rest = ls.subrange(i as int, ls.len() as int);
            assert(rest.drop_first() =~= ls.subrange(i + 1, ls.len() as int));
            assert(rest[0] == ls[i as int]);
            let lower = to_ascii_lowercase(logs[i].as_str());
            let caps = captures(&activation_re, lower.as_str());
            assert(lower@ == lowercased(ls[i as int]));
            if let Some(groups) = caps {
                assert(regex_captures(FA_PATTERN@, lowercased(ls[i as int])) == Some(group_texts(groups@)));
                assert(groups@.len() > HOLE_GROUP);
                let called = match &groups[HOLE_GROUP] {
                    Some(h) => h,
                    None => {
                        assert(group_texts(groups@)[HOLE_GROUP as int] is None);
                        assert(false);
                        return out;
                    },
                };
                assert(called_hole(ls[i as int]) == Some(called@));
                let ghost prev = texts(out@);
                let mut played = self.answer(called.as_str(), now);
                let ghost played_view = texts(played@);
                out.append(&mut played);
                assert(texts(out@) =~= prev + played_view);
                assert(prev + (played_view + answer_lines(ls.subrange(i + 1, ls.len() as int), holes, self.last_call, now).1)
                    =~= texts(out@) + answer_lines(ls.subrange(i + 1, ls.len() as int), holes, self.last_call, now).1);
            }
            i = i + 1;
        }
        assert(ls.subrange(i as int, ls.len() as int) =~= Seq::<Seq<char>>::empty());
        assert(texts(out@) + Seq::<Seq<char>>::empty() =~= texts(out@));
        out
    }


    /// `new_fleet_logs` where every line can be read (see
    /// `fa_lines_readable`); `None`, with nothing changed, where not.
    pub fn try_new_fleet_logs(&mut self, logs: &[String], now: u64) -> (r: Option<Vec<String>>)
        requires
            old(self).last_call matches Some(t) ==> t + MIN_TIME_BETWEEN_NOTIFICATIONS_MS <= u64::MAX,
            now + MIN_TIME_BETWEEN_NOTIFICATIONS_MS <= u64::MAX,
        ensures
            r is Some <==> fa_lines_readable(texts(logs@)),
            r is None ==> final(self).last_call == old(self).last_call,
            r matches Some(sounds) ==> (final(self).last_call, texts(sounds@)) == answer_lines(
                texts(logs@),
                holes_view(old(self).settings.tracked_holes@),
                old(self).last_call,
                now,
            ),
            final(self).settings == old(self).settings,
    {
        let activation_re = match compile(FA_PATTERN) {
            None => return None,
            Some(re) => re,
        };
        let mut i: usize = 0;
        while i < logs.len()
            invariant
                i <= logs@.len(),
                activation_re@ == FA_PATTERN@,
                forall|k: int| 0 <= k < i ==> hole_group_present(#[trigger] regex_captures(FA_PATTERN@, lowercased(texts(logs@)[k]))),
            decreases logs.len() - i,
        {
            let lower = to_ascii_lowercase(logs[i].as_str());
            assert(lower@ == lowercased(texts(logs@)[i as int]));
            match captures(&activation_re, lower.as_str()) {
                None => {},
                Some(groups) => {
                    if groups.len() <= HOLE_GROUP || groups[HOLE_GROUP].is_none() {
                        assert(!hole_group_present(regex_captures(FA_PATTERN@, lowercased(texts(logs@)[i as int]))));
                        return None;
                    }
                },
            }
            i = i + 1;
        }
        Some(self.new_fleet_logs(logs, now))
    }

    /// Stops tracking every hole.
    pub fn clear_tracked_holes(&mut self)
        ensures
            final(self).settings.tracked_holes@.len() == 0,
            final(self).settings.hole_text == old(self).settings.hole_text,
            final(self).last_call == old(self).last_call,
    {
        self.settings.tracked_holes.clear();
    }

    /// Tracks the hole typed, lowercased, with the default sound; the typed
    /// text is taken.
    pub fn track_entered_hole(&mut self)
        ensures
            holes_view(final(self).settings.tracked_holes@) == holes_view(old(self).settings.tracked_holes@).push(
                (lowercased(old(self).settings.hole_text@), DEFAULT_NOTIFICATION@),
            ),
            final(self).settings.hole_text@.len() == 0,
            final(self).last_call == old(self).last_call,
    {
        let mut text = String::new();
        std::mem::swap(&mut text, &mut self.settings.hole_text);
        let hole = TrackedHoles { name: to_ascii_lowercase(text.as_str()), notification: DEFAULT_NOTIFICATION.to_owned() };
        let ghost before = holes_view(self.settings.tracked_holes@);
        self.settings.tracked_holes.push(hole);
        assert(holes_view(self.settings.tracked_holes@) =~= before.push((lowercased(text@), DEFAULT_NOTIFICATION@)));
    }

    /// Stops tracking the hole at position `i`.
    pub fn remove_tracked_hole(&mut self, i: usize)
        requires
            i < old(self).settings.tracked_holes@.len(),
        ensures
            holes_view(final(self).settings.tracked_holes@) == holes_view(old(self).settings.tracked_holes@).remove(i as int),
            final(self).settings.hole_text == old(self).settings.hole_text,
            final(self).last_call == old(self).last_call,
    {
        let ghost before = self.settings.tracked_holes@;
        self.settings.tracked_holes.remove(i);
        assert(holes_view(self.settings.tracked_holes@) =~= holes_view(before).remove(i as int));
    }
}

/// Two sounds for calls never come closer than the least time apart: after a
/// sound at `now`, no further call is answered at `now`.
pub proof fn law_one_answer_per_moment(holes: Seq<(Seq<char>, Seq<char>)>, called: Seq<char>, last: Option<u64>, now: u64)
    ensures
        answer_call(holes, called, last, now).1.len() <= 1,
        answer_call(holes, called, last, now).1.len() == 1 ==> answer_call(holes, called, last, now).0 == Some(now)
            && may_play(last, now),
        answer_call(holes, called, last, now).1.len() == 0 ==> answer_call(holes, called, last, now).0 == last,
    decreases holes.len(),
{
    if holes.len() > 0 {
        if holes[0].0 == called && may_play(last, now) {
            lemma_no_answer_after_now(holes.drop_first(), called, now);
        } else {
            law_one_answer_per_moment(holes.drop_first(), called, last, now);
        }
    }
}

/// No call is answered less than the least time after the last sound: while
/// that time has not passed, no line of fleet chat plays anything.
pub proof fn law_no_sound_too_soon(logs: Seq<Seq<char>>, holes: Seq<(Seq<char>, Seq<char>)>, t: u64, now: u64)
    requires
        now < t + MIN_TIME_BETWEEN_NOTIFICATIONS_MS,
    ensures
        answer_lines(logs, holes, Some(t), now) == (Some(t), Seq::<Seq<char>>::empty()),
    decreases logs.len(),
{
    if logs.len() > 0 {
        match called_hole(logs[0]) {
            None => {},
            Some(h) => {
                lemma_quiet_call(holes, h, t, now);
                assert(Seq::<Seq<char>>::empty() + Seq::<Seq<char>>::empty() =~= Seq::<Seq<char>>::empty());
            },
        }
        law_no_sound_too_soon(logs.drop_first(), holes, t, now);
    }
}

/// A batch of fleet chat lines taken in at one time plays at most one sound;
/// when it plays one, the last sound was long enough before and the time of
/// the sound is recorded; when it plays none, the record stays.
pub proof fn law_one_sound_per_batch(logs: Seq<Seq<char>>, holes: Seq<(Seq<char>, Seq<char>)>, last: Option<u64>, now: u64)
    ensures
        answer_lines(logs, holes, last, now).1.len() <= 1,
        answer_lines(logs, holes, last, now).1.len() == 1 ==> answer_lines(logs, holes, last, now).0 == Some(now)
            && may_play(last, now),
        answer_lines(logs, holes, last, now).1.len() == 0 ==> answer_lines(logs, holes, last, now).0 == last,
    decreases logs.len(),
{
    if logs.len() > 0 {
        match called_hole(logs[0]) {
            None => {
                law_one_sound_per_batch(logs.drop_first(), holes, last, now);
            },
            Some(h) => {
                let a = answer_call(holes, h, last, now);
                law_one_answer_per_moment(holes, h, last, now);
                if a.1.len() == 1 {
                    law_no_sound_too_soon(logs.drop_first(), holes, now, now);
                    assert(a.1 + Seq::<Seq<char>>::empty() =~= a.1);
                } else {
                    law_one_sound_per_batch(logs.drop_first(), holes, last, now);
                    assert(a.1 =~= Seq::<Seq<char>>::empty());
                    let r = answer_lines(logs.drop_first(), holes, last, now);
                    assert(a.1 + r.1 =~= r.1);
                }
            },
        }
    }
}

/// Sounds for calls are never closer than the least time apart: when two
/// batches taken in one after the other both play a sound, the second came at
/// least `MIN_TIME_BETWEEN_NOTIFICATIONS_MS` after the first.
pub proof fn law_sounds_spaced(
    first: Seq<Seq<char>>,
    second: Seq<Seq<char>>,
    holes: Seq<(Seq<char>, Seq<char>)>,
    last: Option<u64>,
    now1: u64,
    now2: u64,
)
    ensures
        ({
            let r1 = answer_lines(first, holes, last, now1);
            let r2 = answer_lines(second, holes, r1.0, now2);
            r1.1.len() == 1 && r2.1.len() == 1 ==> now1 + MIN_TIME_BETWEEN_NOTIFICATIONS_MS <= now2
        }),
{
    law_one_sound_per_batch(first, holes, last, now1);
    let r1 = answer_lines(first, holes, last, now1);
    law_one_sound_per_batch(second, holes, r1.0, now2);
}

/// Times in order, each at least the least time between notifications after
/// the one before it.
pub open spec fn spaced(times: Seq<u64>) -> bool {
    forall|i: int, j: int| 0 <= i < j < times.len() ==> #[trigger] times[i] + MIN_TIME_BETWEEN_NOTIFICATIONS_MS <= #[trigger] times[j]
}

/// Batches of fleet chat lines, each taken in at its time, in turn: the time
/// of the last sound recorded at the end, and the time of each sound played,
/// in order.
pub open spec fn answer_batches(batches: Seq<(Seq<Seq<char>>, u64)>, holes: Seq<(Seq<char>, Seq<char>)>, last: Option<u64>) -> (Option<u64>, Seq<u64>)
    decreases batches.len(),
{
    if batches.len() == 0 {
        (last, Seq::empty())
    } else {
        let now = batches[0].1;
        let r = answer_lines(batches[0].0, holes, last, now);
        let rest = answer_batches(batches.drop_first(), holes, r.0);
        (rest.0, Seq::new(r.1.len(), |i: int| now) + rest.1)
    }
}

/// However many batches of fleet chat lines come in, at times that never go
/// back, any two sounds are at least the least time apart, the first at least
/// that long after the last sound before them, and the time of the last sound
/// is what stays recorded.
pub proof fn law_sounds_spaced_over_calls(batches: Seq<(Seq<Seq<char>>, u64)>, holes: Seq<(Seq<char>, Seq<char>)>, last: Option<u64>)
    requires
        forall|i: int, j: int| 0 <= i < j < batches.len() ==> #[trigger] batches[i].1 <= #[trigger] batches[j].1,
    ensures
        spaced(answer_batches(batches, holes, last).1),
        answer_batches(batches, holes, last).1.len() > 0 ==> answer_batches(batches, holes, last).0 == Some(
            answer_batches(batches, holes, last).1.last(),
        ),
        answer_batches(batches, holes, last).1.len() == 0 ==> answer_batches(batches, holes, last).0 == last,
        answer_batches(batches, holes, last).1.len() > 0 ==> (last matches Some(t) ==> t + MIN_TIME_BETWEEN_NOTIFICATIONS_MS
            <= answer_batches(batches, holes, last).1[0]),
    decreases batches.len(),
{
    if batches.len() > 0 {
        let now = batches[0].1;
        let r = answer_lines(batches[0].0, holes, last, now);
        law_one_sound_per_batch(batches[0].0, holes, last, now);
        let tail = batches.drop_first();
        assert forall|i: int, j: int| 0 <= i < j < tail.len() implies #[trigger] tail[i].1 <= #[trigger] tail[j].1 by {
            assert(batches[i + 1].1 <= batches[j + 1].1);
        }
        law_sounds_spaced_over_calls(tail, holes, r.0);
        let rest = answer_batches(tail, holes, r.0);
        let head = Seq::new(r.1.len(), |i: int| now);
        let plays = head + rest.1;
        assert(answer_batches(batches, holes, last).1 == plays);
        if r.1.len() == 1 {
            assert forall|j: int| 0 <= j < rest.1.len() implies now + MIN_TIME_BETWEEN_NOTIFICATIONS_MS <= #[trigger] rest.1[j] by {
                if j > 0 {
                    assert(rest.1[0] + MIN_TIME_BETWEEN_NOTIFICATIONS_MS <= rest.1[j]);
                }
            }
            assert forall|i: int, j: int| 0 <= i < j < plays.len() implies #[trigger] plays[i] + MIN_TIME_BETWEEN_NOTIFICATIONS_MS <= #[trigger] plays[j] by {
                if i == 0 {
                    assert(plays[j] == rest.1[j - 1]);
                } else {
                    assert(plays[i] == rest.1[i - 1] && plays[j] == rest.1[j - 1]);
                }
            }
            if rest.1.len() > 0 {
                assert(plays.last() == rest.1.last());
            } else {
                assert(plays.last() == now);
            }
        } else {
            assert(head =~= Seq::<u64>::empty());
            assert(plays =~= rest.1);
        }
    }
}

/// Whether a hole named `h` is tracked.
pub open spec fn tracks(holes: Seq<(Seq<char>, Seq<char>)>, h: Seq<char>) -> bool {
    exists|j: int| 0 <= j < holes.len() && #[trigger] holes[j].0 == h
}

/// Whether some line of `logs` calls a tracked hole.
pub open spec fn calls_tracked(logs: Seq<Seq<char>>, holes: Seq<(Seq<char>, Seq<char>)>) -> bool {
    exists|i: int| 0 <= i < logs.len() && (#[trigger] called_hole(logs[i]) matches Some(h) && tracks(holes, h))
}

proof fn lemma_answer_call_tracked(holes: Seq<(Seq<char>, Seq<char>)>, h: Seq<char>, last: Option<u64>, now: u64)
    ensures
        answer_call(holes, h, last, now).1.len() == 1 <==> may_play(last, now) && tracks(holes, h),
        answer_call(holes, h, last, now).1.len() == 1 ==> exists|j: int|
            0 <= j < holes.len() && #[trigger] holes[j].0 == h && answer_call(holes, h, last, now).1[0] == holes[j].1,
    decreases holes.len(),
{
    law_one_answer_per_moment(holes, h, last, now);
    if holes.len() > 0 {
        let tail = holes.drop_first();
        lemma_answer_call_tracked(tail, h, last, now);
        if holes[0].0 == h && may_play(last, now) {
            lemma_no_answer_after_now(tail, h, now);
            assert(holes[0].0 == h);
        } else {
            if tracks(tail, h) {
                let j = choose|j: int| 0 <= j < tail.len() && #[trigger] tail[j].0 == h;
                assert(holes[j + 1].0 == h);
            }
            if tracks(holes, h) && holes[0].0 != h {
                let j = choose|j: int| 0 <= j < holes.len() && #[trigger] holes[j].0 == h;
                assert(tail[j - 1].0 == h);
            }
            if answer_call(holes, h, last, now).1.len() == 1 {
                let j = choose|j: int|
                    0 <= j < tail.len() && #[trigger] tail[j].0 == h && answer_call(tail, h, last, now).1[0] == tail[j].1;
                assert(holes[j + 1].0 == h);
            }
        }
    }
}

/// A batch of fleet chat lines is answered whenever one of its lines calls a
/// tracked hole, wherever in the batch that line stands: the batch plays a
/// sound exactly when some line calls a tracked hole and no sound played in
/// the least time before, and the sound is that of a tracked hole some line
/// calls.
pub proof fn law_batch_answers_tracked_calls(logs: Seq<Seq<char>>, holes: Seq<(Seq<char>, Seq<char>)>, last: Option<u64>, now: u64)
    ensures
        answer_lines(logs, holes, last, now).1.len() == 1 <==> may_play(last, now) && calls_tracked(logs, holes),
        answer_lines(logs, holes, last, now).1.len() == 1 ==> exists|i: int, j: int|
            #![trigger logs[i], holes[j]]
            0 <= i < logs.len() && 0 <= j < holes.len() && called_hole(logs[i]) == Some(holes[j].0)
                && answer_lines(logs, holes, last, now).1[0] == holes[j].1,
    decreases logs.len(),
{
    law_one_sound_per_batch(logs, holes, last, now);
    if logs.len() > 0 {
        let tail = logs.drop_first();
        let res = answer_lines(logs, holes, last, now);
        match called_hole(logs[0]) {
            None => {
                law_batch_answers_tracked_calls(tail, holes, last, now);
                lemma_calls_tracked_shift(logs, holes);
                if res.1.len() == 1 {
                    let (i, j) = choose|i: int, j: int|
                        #![trigger tail[i], holes[j]]
                        0 <= i < tail.len() && 0 <= j < holes.len() && called_hole(tail[i]) == Some(holes[j].0)
                            && answer_lines(tail, holes, last, now).1[0] == holes[j].1;
                    assert(logs[i + 1] == tail[i]);
                }
            },
            Some(h) => {
                let a = answer_call(holes, h, last, now);
                lemma_answer_call_tracked(holes, h, last, now);
                law_one_answer_per_moment(holes, h, last, now);
                lemma_calls_tracked_shift(logs, holes);
                if a.1.len() == 1 {
                    law_no_sound_too_soon(tail, holes, now, now);
                    assert(res.1 =~= a.1);
                    let j = choose|j: int| 0 <= j < holes.len() && #[trigger] holes[j].0 == h && a.1[0] == holes[j].1;
                    assert(called_hole(logs[0]) matches Some(x) && tracks(holes, x));
                } else {
                    assert(a.1 =~= Seq::<Seq<char>>::empty());
                    law_batch_answers_tracked_calls(tail, holes, last, now);
                    let r = answer_lines(tail, holes, last, now);
                    assert(res.1 =~= r.1);
                    if res.1.len() == 1 {
                        let (i, j) = choose|i: int, j: int|
                            #![trigger tail[i], holes[j]]
                            0 <= i < tail.len() && 0 <= j < holes.len() && called_hole(tail[i]) == Some(holes[j].0)
                                && r.1[0] == holes[j].1;
                        assert(logs[i + 1] == tail[i]);
                    }
                }
            },
        }
    }
}

/// Whether a batch calls a tracked hole: its first line does, or the rest does.
proof fn lemma_calls_tracked_shift(logs: Seq<Seq<char>>, holes: Seq<(Seq<char>, Seq<char>)>)
    requires
        logs.len() > 0,
    ensures
        calls_tracked(logs, holes) <==> (called_hole(logs[0]) matches Some(h) && tracks(holes, h)) || calls_tracked(
            logs.drop_first(),
            holes,
        ),
{
    let tail = logs.drop_first();
    if calls_tracked(tail, holes) {
        let i = choose|i: int| 0 <= i < tail.len() && (#[trigger] called_hole(tail[i]) matches Some(h) && tracks(holes, h));
        assert(logs[i + 1] == tail[i]);
        assert(called_hole(logs[i + 1]) matches Some(h) && tracks(holes, h));
    }
    if calls_tracked(logs, holes) {
        let i = choose|i: int| 0 <= i < logs.len() && (#[trigger] called_hole(logs[i]) matches Some(h) && tracks(holes, h));
        if i > 0 {
            assert(tail[i - 1] == logs[i]);
            assert(called_hole(tail[i - 1]) matches Some(h) && tracks(holes, h));
        }
    }
}

proof fn lemma_quiet_call(holes: Seq<(Seq<char>, Seq<char>)>, called: Seq<char>, t: u64, now: u64)
    requires
        now < t + MIN_TIME_BETWEEN_NOTIFICATIONS_MS,
    ensures
        answer_call(holes, called, Some(t), now) == (Some(t), Seq::<Seq<char>>::empty()),
    decreases holes.len(),
{
    if holes.len() > 0 {
        lemma_quiet_call(holes.drop_first(), called, t, now);
    }
}

proof fn lemma_no_answer_after_now(holes: Seq<(Seq<char>, Seq<char>)>, called: Seq<char>, now: u64)
    ensures
        answer_call(holes, called, Some(now), now) == (Some(now), Seq::<Seq<char>>::empty()),
    decreases holes.len(),
{
    if holes.len() > 0 {
        lemma_no_answer_after_now(holes.drop_first(), called, now);
    }
}

} // verus!
