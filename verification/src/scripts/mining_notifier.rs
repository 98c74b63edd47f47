//! The mining notifier: it follows how much ore is in the cargo hold and
//! asks for a notification before the next mining cycles could overfill it.
use vstd::prelude::*;
use crate::patterns::{captures, compile, is_match, regex_captures, regex_compiles, regex_matches};
use crate::scripts::notification::DEFAULT_NOTIFICATION;
use crate::scripts::util::{raw_text, to_raw_text};
use crate::text::{parse_u64, parsed_u64, texts};

verus! {

/// Volume of a unit of raw ore (hundredths of a cubic metre).
pub const GNEISS_SIZE: u64 = 500;

/// Volume of a unit of compressed ore (hundredths of a cubic metre).
pub const COMPRESSED_GNIESS_SIZE: u64 = 5;

/// A mining line: group 3 is there for a critical success, group 4 is the
/// amount, group 5 the ore.
pub const MINED_PATTERN: &'static str = r"\(mining\) ((You mined )|(?P<crit>Critical mining success! You mined an additional ))(?P<amount>\d+) units of (?P<ore>.*)";

/// A line saying that ore was compressed.
pub const COMPRESSED_PATTERN: &'static str = r"\(notify\) Successfully compressed ";

/// The capture group of `MINED_PATTERN` that takes part on a critical success.
pub const CRIT_GROUP: usize = 3;

/// The capture group of `MINED_PATTERN` holding the amount mined.
pub const AMOUNT_GROUP: usize = 4;

/// The capture group of `MINED_PATTERN` holding the ore's name.
pub const ORE_GROUP: usize = 5;

/// The ships the notifier knows.
#[derive(Debug, Clone, Copy, PartialEq, Eq, Structural)]
pub enum Ship {
    Covetor,
}

impl Ship {
    /// The ship's cargo hold (hundredths of a cubic metre).
    pub fn cargo_cap(self) -> (r: u64)
        ensures
            r == ship_cargo_cap(self),
    {
        match self {
            Ship::Covetor => 900000,
        }
    }

    /// The name shown for the ship.
    pub fn name(self) -> (r: &'static str)
        ensures
            r@ == ship_name(self),
    {
        match self {
            Ship::Covetor => "Covetor",
        }
    }
}

/// The ship's cargo hold (hundredths of a cubic metre).
pub open spec fn ship_cargo_cap(ship: Ship) -> u64 {
    match ship {
        Ship::Covetor => 900000,
    }
}

/// The name shown for the ship.
pub open spec fn ship_name(ship: Ship) -> Seq<char> {
    match ship {
        Ship::Covetor => "Covetor"@,
    }
}

/// Whether ore came from an ordinary cycle or a critical success.
#[derive(Debug, Clone, Copy, PartialEq, Eq, Structural)]
pub enum MinedType {
    Normal,
    Crit,
}

/// The notifier's state.
#[derive(Debug)]
pub struct MiningNotifier {
    pub ship: Ship,
    /// Compressed ore in the hold.
    pub compressed_amount: u64,
    /// Raw ore in the hold.
    pub raw_ore_amount: u64,
    /// A notification is playing; no other is asked for meanwhile.
    pub player_active: bool,
    /// The largest ordinary cycle yield seen.
    pub base_cycle_amount: u64,
    pub num_miners: u64,
    pub num_cycle_warning: u64,
    pub notification: String,
}

/// The volume of the hold's content.
pub open spec fn cargo_volume(compressed: int, raw: int) -> int {
    compressed * COMPRESSED_GNIESS_SIZE + raw * GNEISS_SIZE
}

/// The volume the next cycle of all mining lasers could add, critical
/// successes included.
pub open spec fn cycle_volume(base: int, miners: int) -> int {
    base * miners * GNEISS_SIZE * 2
}

/// The hold state the notifier follows: compressed, raw, base cycle
/// yield, and whether a notification is playing.
pub struct HoldState {
    pub compressed: int,
    pub raw: int,
    pub base: int,
    pub player_active: bool,
}

/// What a mining line says.
pub enum MiningEvent {
    /// Ore mined: the amount, and whether by a critical success.
    Mined(u64, bool),
    Compressed,
    Nothing,
    /// A mining line whose amount or ore cannot be read.
    Unreadable,
}

/// What the cleaned line `line` says.
pub open spec fn mining_event(line: Seq<char>) -> MiningEvent {
    match regex_captures(MINED_PATTERN@, line) {
        Some(groups) => if groups.len() > ORE_GROUP && groups[AMOUNT_GROUP as int] is Some && groups[ORE_GROUP as int] is Some {
            match parsed_u64(groups[AMOUNT_GROUP as int]->0) {
                Some(a) => MiningEvent::Mined(a, groups[CRIT_GROUP as int] is Some),
                None => MiningEvent::Unreadable,
            }
        } else {
            MiningEvent::Unreadable
        },
        None => if regex_matches(COMPRESSED_PATTERN@, line) {
            MiningEvent::Compressed
        } else {
            MiningEvent::Nothing
        },
    }
}

/// Whether `x` fits in a `u64`.
pub open spec fn fits(x: int) -> bool {
    0 <= x <= u64::MAX
}

/// The check after ore came in: whether a notification is asked for (the
/// hold could not take the next cycles), and whether the sums fit.
pub open spec fn cargo_check(st: HoldState, miners: int, cap: int) -> (bool, bool) {
    if st.player_active {
        (false, true)
    } else {
        let cur = cargo_volume(st.compressed, st.raw);
        let need = cur + cycle_volume(st.base, miners);
        (need > cap, fits(cur) && fits(cycle_volume(st.base, miners)) && fits(need))
    }
}

/// One event: the state after, whether to notify, and whether the sums fit.
pub open spec fn mining_step(st: HoldState, ev: MiningEvent, miners: int, cap: int) -> (HoldState, bool, bool) {
    match ev {
        MiningEvent::Mined(a, crit) => {
            let base = if !crit && a > st.base {
                a as int
            } else {
                st.base
            };
            let st2 = HoldState { compressed: st.compressed, raw: st.raw + a, base, player_active: st.player_active };
            let c = cargo_check(st2, miners, cap);
            (st2, c.0, fits(st.raw + a) && c.1)
        },
        MiningEvent::Compressed => (
            HoldState { compressed: st.compressed + st.raw, raw: 0, base: st.base, player_active: false },
            false,
            fits(st.compressed + st.raw),
        ),
        MiningEvent::Nothing => (st, false, true),
        MiningEvent::Unreadable => (st, false, false),
    }
}

/// The lines in order: the state after, the sounds to play, and whether every
/// line could be taken in.
pub open spec fn mining_run(st: HoldState, lines: Seq<Seq<char>>, miners: int, cap: int) -> (HoldState, Seq<Seq<char>>, bool)
    decreases lines.len(),
{
    if lines.len() == 0 {
        (st, Seq::empty(), true)
    } else {
        let s = mining_step(st, mining_event(lines[0]), miners, cap);
        let rest = mining_run(s.0, lines.drop_first(), miners, cap);
        (rest.0, if s.1 {
            seq![DEFAULT_NOTIFICATION@] + rest.1
        } else {
            rest.1
        }, s.2 && rest.2)
    }
}

/// Mined ore is counted before the hold is judged: after ore comes in, the
/// raw ore has grown by the amount, an ordinary cycle has raised the base
/// yield to at least the amount, and a notification is asked for exactly when
/// none is playing and the hold with the new ore could not take the next
/// cycles at the new base yield.
pub proof fn law_mined_judged_after_counting(st: HoldState, amount: u64, crit: bool, miners: int, cap: int)
    ensures
        ({
            let (after, notify, _fits) = mining_step(st, MiningEvent::Mined(amount, crit), miners, cap);
            &&& after.raw == st.raw + amount
            &&& after.compressed == st.compressed
            &&& after.base == if !crit && amount > st.base { amount as int } else { st.base }
            &&& (!crit ==> after.base >= amount)
            &&& notify == (!st.player_active && cargo_volume(st.compressed, st.raw + amount) + cycle_volume(
                after.base,
                miners,
            ) > cap)
        }),
{
}

/// Taking in lines never loses ore nor lowers the base cycle yield: the ore
/// in the hold, compressed or raw, only grows, and so does the largest
/// ordinary yield seen.
pub proof fn law_ore_and_yield_never_drop(st: HoldState, lines: Seq<Seq<char>>, miners: int, cap: int)
    requires
        st.raw >= 0,
    ensures
        mining_run(st, lines, miners, cap).0.compressed + mining_run(st, lines, miners, cap).0.raw >= st.compressed + st.raw,
        mining_run(st, lines, miners, cap).0.base >= st.base,
        mining_run(st, lines, miners, cap).0.raw >= 0,
    decreases lines.len(),
{
    if lines.len() > 0 {
        let s = mining_step(st, mining_event(lines[0]), miners, cap);
        law_ore_and_yield_never_drop(s.0, lines.drop_first(), miners, cap);
    }
}

/// The cleaned text of each line.
pub open spec fn cleaned_lines(logs: Seq<String>) -> Seq<Seq<char>> {
    logs.map_values(|l: String| raw_text(l@))
}

proof fn lemma_volume_parts(compressed: int, raw: int, base: int, miners: int)
    requires
        compressed >= 0,
        raw >= 0,
        base >= 0,
        miners >= 0,
    ensures
        compressed * 5 <= cargo_volume(compressed, raw),
        raw * 500 <= cargo_volume(compressed, raw),
        base * miners <= cycle_volume(base, miners),
        base * miners * 500 <= cycle_volume(base, miners),
        0 <= base * miners,
{
    assert(0 <= base * miners) by (nonlinear_arith)
        requires
            base >= 0,
            miners >= 0,
    ;
    assert(base * miners <= base * miners * 500 * 2) by (nonlinear_arith)
        requires
            base * miners >= 0,
    ;
    assert(compressed * 5 >= 0 && raw * 500 >= 0) by (nonlinear_arith)
        requires
            compressed >= 0,
            raw >= 0,
    ;
}

impl MiningNotifier {
    /// The hold state.
    pub open spec fn hold(self) -> HoldState {
        HoldState {
            compressed: self.compressed_amount as int,
            raw: self.raw_ore_amount as int,
            base: self.base_cycle_amount as int,
            player_active: self.player_active,
        }
    }

    /// A Covetor with two lasers, some compressed ore in the hold.
    pub fn new() -> (r: Self)
        ensures
            r.ship == Ship::Covetor,
            r.compressed_amount == 34490,
            r.raw_ore_amount == 0,
            !r.player_active,
            r.base_cycle_amount == 0,
            r.num_miners == 2,
            r.num_cycle_warning == 2,
            r.notification@ == DEFAULT_NOTIFICATION@,
    {
        MiningNotifier {
            ship: Ship::Covetor,
            compressed_amount: 34490,
            raw_ore_amount: 0,
            player_active: false,
            base_cycle_amount: 0,
            num_miners: 2,
            num_cycle_warning: 2,
            notification: DEFAULT_NOTIFICATION.to_owned(),
        }
    }

    /// The volume of the hold's content.
    pub fn estimated_cargo(&self) -> (r: u64)
        requires
            fits(cargo_volume(self.compressed_amount as int, self.raw_ore_amount as int)),
        ensures
            r == cargo_volume(self.compressed_amount as int, self.raw_ore_amount as int),
    {
        proof {
            lemma_volume_parts(self.compressed_amount as int, self.raw_ore_amount as int, 0, 0);
        }
        self.compressed_amount * COMPRESSED_GNIESS_SIZE + self.raw_ore_amount * GNEISS_SIZE
    }

    /// The volume the next cycle could add.
    pub fn cycle_potential(&self) -> (r: u64)
        requires
            fits(cycle_volume(self.base_cycle_amount as int, self.num_miners as int)),
        ensures
            r == cycle_volume(self.base_cycle_amount as int, self.num_miners as int),
    {
        proof {
            lemma_volume_parts(0, 0, self.base_cycle_amount as int, self.num_miners as int);
        }
        self.base_cycle_amount * self.num_miners * GNEISS_SIZE * 2
    }

    /// Whether to notify: not while a notification plays; else when the hold
    /// could not take the next cycle.
    pub fn check_cargo(&self) -> (r: bool)
        requires
            cargo_check(self.hold(), self.num_miners as int, ship_cargo_cap(self.ship) as int).1,
        ensures
            r == cargo_check(self.hold(), self.num_miners as int, ship_cargo_cap(self.ship) as int).0,
    {
        if self.player_active {
            return false;
        }
        let current_cargo_size = self.estimated_cargo();
        let future_cargo_need = current_cargo_size + self.cycle_potential();
        future_cargo_need > self.ship.cargo_cap()
    }

    /// Ore came in: an ordinary cycle may raise the base yield; the raw ore
    /// grows; whether to notify (see `check_cargo`).
    pub fn mined(&mut self, amount: u64, mined_type: MinedType) -> (r: bool)
        requires
            mining_step(old(self).hold(), MiningEvent::Mined(amount, mined_type == MinedType::Crit), old(self).num_miners as int, ship_cargo_cap(old(self).ship) as int).2,
        ensures
            ({
                let s = mining_step(old(self).hold(), MiningEvent::Mined(amount, mined_type == MinedType::Crit), old(self).num_miners as int, ship_cargo_cap(old(self).ship) as int);
                final(self).hold() == s.0 && r == s.1
            }),
            final(self).ship == old(self).ship,
            final(self).num_miners == old(self).num_miners,
    {
        if mined_type == MinedType::Normal {
            if amount > self.base_cycle_amount {
                self.base_cycle_amount = amount;
            }
        }
        self.raw_ore_amount = self.raw_ore_amount + amount;
        self.check_cargo()
    }

    /// The raw ore was compressed: it counts as compressed now, and a playing
    /// notification is over.
    pub fn compressed(&mut self)
        requires
            fits(old(self).compressed_amount + old(self).raw_ore_amount),
        ensures
            final(self).hold() == mining_step(old(self).hold(), MiningEvent::Compressed, old(self).num_miners as int, ship_cargo_cap(old(self).ship) as int).0,
            final(self).ship == old(self).ship,
            final(self).num_miners == old(self).num_miners,
    {
        self.compressed_amount = self.compressed_amount + self.raw_ore_amount;
        self.raw_ore_amount = 0;
        self.player_active = false;
    }

    /// What a cleaned line says (see `mining_event`).
    fn classify(mined_re: &crate::patterns::Pattern, compressed_re: &crate::patterns::Pattern, line: &str) -> (r: MiningEvent)
        requires
            mined_re@ == MINED_PATTERN@,
            compressed_re@ == COMPRESSED_PATTERN@,
        ensures
            r == mining_event(line@),
    {
        match captures(mined_re, line) {
            Some(groups) => {
                if groups.len() <= ORE_GROUP {
                    return MiningEvent::Unreadable;
                }
                let amount = match &groups[AMOUNT_GROUP] {
                    Some(a) => a,
                    None => return MiningEvent::Unreadable,
                };
                if groups[ORE_GROUP].is_none() {
                    return MiningEvent::Unreadable;
                }
                match parse_u64(amount.as_str()) {
                    Some(a) => MiningEvent::Mined(a, groups[CRIT_GROUP].is_some()),
                    None => MiningEvent::Unreadable,
                }
            },
            None => {
                if is_match(compressed_re, line) {
                    MiningEvent::Compressed
                } else {
                    MiningEvent::Nothing
                }
            },
        }
    }

    /// Takes in new game log lines: each mining line adds ore (and may ask
    /// for a notification), each compression line compresses (see
    /// `mining_run` over the cleaned lines). The sounds to play are handed back.
    pub fn new_game_logs(&mut self, logs: &[String]) -> (r: Vec<String>)
        requires
            regex_compiles(MINED_PATTERN@),
            regex_compiles(COMPRESSED_PATTERN@),
            mining_run(old(self).hold(), cleaned_lines(logs@), old(self).num_miners as int, ship_cargo_cap(old(self).ship) as int).2,
        ensures
            ({
                let run = mining_run(old(self).hold(), cleaned_lines(logs@), old(self).num_miners as int, ship_cargo_cap(old(self).ship) as int);
                final(self).hold() == run.0 && texts(r@) == run.1
            }),
            final(self).ship == old(self).ship,
            final(self).num_miners == old(self).num_miners,
    {
        let cleaned = to_raw_text(logs);
        let mined_re = compile(MINED_PATTERN).unwrap();
        let compressed_re = compile(COMPRESSED_PATTERN).unwrap();
        let ghost ls = cleaned_lines(logs@);
        let ghost miners = self.num_miners as int;
        let ghost cap = ship_cargo_cap(self.ship) as int;
        let ghost start = mining_run(self.hold(), ls, miners, cap);
        let mut out: Vec<String> = Vec::new();
        let mut i: usize = 0;
        assert(ls.subrange(0, ls.len() as int) =~= ls);
        while i < cleaned.len()
            invariant
                cleaned@.len() == logs@.len(),
                forall|k: int| 0 <= k < logs@.len() ==> (#[trigger] cleaned@[k])@ == raw_text(logs@[k]@),
                ls == cleaned_lines(logs@),
                i <= logs@.len(),
                mined_re@ == MINED_PATTERN@,
                compressed_re@ == COMPRESSED_PATTERN@,
                miners == self.num_miners as int,
                cap == ship_cargo_cap(self.ship) as int,
                ({
                    let rest = mining_run(self.hold(), ls.subrange(i as int, ls.len() as int), miners, cap);
                    &&& rest.2
                    &&& start.0 == rest.0
                    &&& start.1 == texts(out@) + rest.1
                }),
            decreases cleaned.len() - i,
        {
            let ghost rest = ls.subrange(i as int, ls.len() as int);
            assert(rest.drop_first() =~= ls.subrange(i + 1, ls.len() as int));
            assert(rest[0] == cleaned@[i as int]@);
            let ev = Self::classify(&mined_re, &compressed_re, cleaned[i].as_str());
            match ev {
                MiningEvent::Mined(amount, crit) => {
                    let m_type = if crit {
                        MinedType::Crit
                    } else {
                        MinedType::Normal
                    };
                    let notify = self.mined(amount, m_type);
                    if notify {
                        let ghost prev = texts(out@);
                        out.push(DEFAULT_NOTIFICATION.to_owned());
                        assert(texts(out@) =~= prev.push(DEFAULT_NOTIFICATION@));
                        assert(prev + (seq![DEFAULT_NOTIFICATION@] + mining_run(self.hold(), ls.subrange(i + 1, ls.len() as int), miners, cap).1)
                            =~= texts(out@) + mining_run(self.hold(), ls.subrange(i + 1, ls.len() as int), miners, cap).1);
                    }
                },
                MiningEvent::Compressed => {
                    self.compressed();
                },
                MiningEvent::Nothing => {},
                MiningEvent::Unreadable => {
                    assert(false);
                },
            }
            i = i + 1;
        }
        assert(ls.subrange(i as int, ls.len() as int) =~= Seq::<Seq<char>>::empty());
        assert(texts(out@) + Seq::<Seq<char>>::empty() =~= texts(out@));
        out
    }

    /// Whether the check after ore came in fits (see `cargo_check`), for
    /// hold content `compressed`, `raw` and base yield `base`.
    fn check_fits(&self, compressed: u64, raw: u64, base: u64, player_active: bool) -> (r: bool)
        ensures
            r == cargo_check(
                HoldState { compressed: compressed as int, raw: raw as int, base: base as int, player_active },
                self.num_miners as int,
                ship_cargo_cap(self.ship) as int,
            ).1,
    {
        if player_active {
            return true;
        }
        proof {
            lemma_volume_parts(compressed as int, raw as int, base as int, self.num_miners as int);
        }
        let cur = match compressed.checked_mul(COMPRESSED_GNIESS_SIZE) {
            None => return false,
            Some(a) => match raw.checked_mul(GNEISS_SIZE) {
                None => return false,
                Some(b) => match a.checked_add(b) {
                    None => return false,
                    Some(c) => c,
                },
            },
        };
        let pot = match base.checked_mul(self.num_miners) {
            None => return false,
            Some(a) => match a.checked_mul(GNEISS_SIZE) {
                None => return false,
                Some(b) => match b.checked_mul(2) {
                    None => return false,
                    Some(c) => c,
                },
            },
        };
        cur.checked_add(pot).is_some()
    }

    /// Whether every one of the cleaned lines can be taken in (see
    /// `mining_run`).
    fn run_fits(&self, mined_re: &crate::patterns::Pattern, compressed_re: &crate::patterns::Pattern, cleaned: &[String]) -> (r: bool)
        requires
            mined_re@ == MINED_PATTERN@,
            compressed_re@ == COMPRESSED_PATTERN@,
        ensures
            r == mining_run(self.hold(), texts(cleaned@), self.num_miners as int, ship_cargo_cap(self.ship) as int).2,
    {
        let ghost ls = texts(cleaned@);
        let ghost miners = self.num_miners as int;
        let ghost cap = ship_cargo_cap(self.ship) as int;
        let mut compressed = self.compressed_amount;
        let mut raw = self.raw_ore_amount;
        let mut base = self.base_cycle_amount;
        let mut active = self.player_active;
        let mut i: usize = 0;
        assert(ls.subrange(0, ls.len() as int) =~= ls);
        while i < cleaned.len()
            invariant
                i <= cleaned@.len(),
                ls == texts(cleaned@),
                mined_re@ == MINED_PATTERN@,
                compressed_re@ == COMPRESSED_PATTERN@,
                miners == self.num_miners as int,
                cap == ship_cargo_cap(self.ship) as int,
                mining_run(self.hold(), ls, miners, cap).2 == mining_run(
                    HoldState { compressed: compressed as int, raw: raw as int, base: base as int, player_active: active },
                    ls.subrange(i as int, ls.len() as int),
                    miners,
                    cap,
                ).2,
            decreases cleaned.len() - i,
        {
            let ghost rest = ls.subrange(i as int, ls.len() as int);
            assert(rest.drop_first() =~= ls.subrange(i + 1, ls.len() as int));
            assert(rest[0] == cleaned@[i as int]@);
            let ev = Self::classify(mined_re, compressed_re, cleaned[i].as_str());
            match ev {
                MiningEvent::Mined(amount, crit) => {
                    let raw2 = match raw.checked_add(amount) {
                        None => return false,
                        Some(x) => x,
                    };
                    let base2 = if !crit && amount > base {
                        amount
                    } else {
                        base
                    };
                    if !self.check_fits(compressed, raw2, base2, active) {
                        return false;
                    }
                    raw = raw2;
                    base = base2;
                },
                MiningEvent::Compressed => {
                    compressed = match compressed.checked_add(raw) {
                        None => return false,
                        Some(x) => x,
                    };
                    raw = 0;
                    active = false;
                },
                MiningEvent::Nothing => {},
                MiningEvent::Unreadable => {
                    return false;
                },
            }
            i = i + 1;
        }
        true
    }

    /// `new_game_logs` where every line can be taken in; `None`, with nothing
    /// changed, where a pattern does not compile, a mining line's amount or
    /// ore cannot be read, or a sum would not fit in a `u64`.
    pub fn try_new_game_logs(&mut self, logs: &[String]) -> (r: Option<Vec<String>>)
        ensures
            r is Some <==> regex_compiles(MINED_PATTERN@) && regex_compiles(COMPRESSED_PATTERN@) && mining_run(
                old(self).hold(),
                cleaned_lines(logs@),
                old(self).num_miners as int,
                ship_cargo_cap(old(self).ship) as int,
            ).2,
            r is None ==> final(self).hold() == old(self).hold(),
            r matches Some(sounds) ==> {
                let run = mining_run(old(self).hold(), cleaned_lines(logs@), old(self).num_miners as int, ship_cargo_cap(old(self).ship) as int);
                final(self).hold() == run.0 && texts(sounds@) == run.1
            },
            final(self).ship == old(self).ship,
            final(self).num_miners == old(self).num_miners,
    {
        let mined_re = match compile(MINED_PATTERN) {
            None => return None,
            Some(p) => p,
        };
        let compressed_re = match compile(COMPRESSED_PATTERN) {
            None => return None,
            Some(p) => p,
        };
        let cleaned = to_raw_text(logs);
        proof {
            assert(texts(cleaned@) =~= cleaned_lines(logs@));
        }
        if !self.run_fits(&mined_re, &compressed_re, cleaned.as_slice()) {
            return None;
        }
        Some(self.new_game_logs(logs))
    }
}

} // verus!
