use eve_log_scripts::scripts::combat_notifier::{
    sort_gaps, AppSettings, CombatNotifier, CombatTimer, NotifierCommand, TimerAction, TimerState,
};
use eve_log_scripts::scripts::decloak_notifier::{CharacterSettings as DecloakSettings, DecloakedNotifier};
use eve_log_scripts::scripts::friendly_activation::FriendlyActivation;
use eve_log_scripts::scripts::log_printer::LogPrinter;
use eve_log_scripts::scripts::mentioned_notifier::{message_of, CharacterSettings as MentionSettings, MentionedNotifier};
use eve_log_scripts::scripts::mining_notifier::{MinedType, MiningNotifier, Ship};
use eve_log_scripts::scripts::util::{raw_text_of, to_raw_text};

fn lines(v: &[&str]) -> Vec<String> {
    v.iter().map(|s| s.to_string()).collect()
}

const HIT: &str = "[ 2024.01.02 03:04:06 ] (combat) <color=0xff00ffff><b>123</b> <color=0x77ffffff><font size=10>to</font> <b><color=0xffffffff>Guristas Rat</b><font size=10><color=0x77ffffff> - Heavy Missile - Hits";

// ---------------------------------------------------------------------------
// Cleaning lines
// ---------------------------------------------------------------------------

#[test]
fn raw_text_drops_timestamp_and_tags() {
    assert_eq!(raw_text_of("[ 12:00 ] <b>hi</b> there"), " hi there");
    assert_eq!(raw_text_of("no bracket at all"), "");
    assert_eq!(raw_text_of("[ x ] a > b"), " a  b");
    assert_eq!(raw_text_of("[ x ] a <unclosed"), " a ");
    assert_eq!(raw_text_of("[ x ]"), "");
    for line in [HIT, "[ x ] a > b < c > d", "[ <x> ] <<a>> b"] {
        let cleaned = raw_text_of(line);
        assert!(!cleaned.contains('<') && !cleaned.contains('>'));
        assert!(cleaned.chars().count() <= line.chars().count());
    }
    assert_eq!(
        to_raw_text(&lines(&[HIT, "[ t ] plain"])),
        vec![" (combat) 123 to Guristas Rat - Heavy Missile - Hits", " plain"]
    );
}

// ---------------------------------------------------------------------------
// Combat notifier
// ---------------------------------------------------------------------------

#[test]
fn gaps_sort_ascending() {
    assert_eq!(sort_gaps(&[5, 1, 4, 1, 3]), vec![1, 1, 3, 4, 5]);
    assert!(sort_gaps(&[]).is_empty());
}

#[test]
fn combat_default_settings() {
    let s = AppSettings::default_settings();
    assert_eq!(s, AppSettings { num_cycles: 3, sample_num: 4, num_samples: 10, min_num_samples: 6 });
}

#[test]
fn combat_estimates_from_the_fourth_smallest_gap() {
    let mut n = CombatNotifier::new(AppSettings::default_settings(), 0);
    let times = [100u64, 300, 600, 1000, 1500];
    for t in times {
        assert!(n.shots(&[true], t).is_empty());
        assert_eq!(n.expected_cycle_duration(), None);
    }
    // Gaps 100, 200, 300, 400, 500, 600: the fourth smallest is 400.
    assert_eq!(n.shots(&[false, true, false], 2100), vec![NotifierCommand::WaitUntil(2100 + 400 * 3)]);
    assert_eq!(n.expected_cycle_duration(), Some(400));
    assert_eq!(n.num_gaps(), 6);
    // A batch of shots at one time adds gaps of 0.
    assert_eq!(
        n.shots(&[true, true], 2200),
        vec![NotifierCommand::WaitUntil(2200 + 300 * 3), NotifierCommand::WaitUntil(2200 + 200 * 3)]
    );
    assert!(n.shots(&[false, false], 3000).is_empty());
}

#[test]
fn combat_keeps_only_the_last_samples() {
    let settings = AppSettings { num_cycles: 2, sample_num: 4, num_samples: 4, min_num_samples: 4 };
    let mut n = CombatNotifier::new(settings, 0);
    for t in [10u64, 30, 60] {
        assert!(n.shots(&[true], t).is_empty());
    }
    // Gaps 10, 20, 30, 40.
    assert_eq!(n.shots(&[true], 100), vec![NotifierCommand::WaitUntil(100 + 40 * 2)]);
    // The oldest (10) goes: 20, 30, 40, 1000.
    assert_eq!(n.shots(&[true], 1100), vec![NotifierCommand::WaitUntil(1100 + 1000 * 2)]);
    assert_eq!(n.num_gaps(), 4);
    n.truncate_samples();
    assert_eq!(n.num_gaps(), 4);
    n.set_settings(AppSettings { num_samples: 2, ..settings });
    n.truncate_samples();
    assert_eq!(n.num_gaps(), 2);
    // The two newest gaps, 40 and 1000, are kept.
    n.set_settings(settings);
    assert!(n.shots(&[true], 1200).is_empty());
    assert_eq!(n.num_gaps(), 3);
    assert_eq!(n.shots(&[true], 1300), vec![NotifierCommand::WaitUntil(1300 + 1000 * 2)]);
}

#[test]
fn combat_reads_damage_lines() {
    let settings = AppSettings { num_cycles: 3, sample_num: 4, num_samples: 10, min_num_samples: 4 };
    let mut n = CombatNotifier::new(settings, 0);
    let logs = lines(&[HIT, "[ t ] (notify) nothing", HIT]);
    assert!(n.new_game_logs(&logs, 50).is_empty());
    assert_eq!(n.num_gaps(), 2);
    assert!(n.new_game_logs(&lines(&[HIT]), 80).is_empty());
    // Gaps 50, 0, 30, 20: the fourth smallest is 50.
    assert_eq!(n.new_game_logs(&lines(&[HIT]), 100), vec![NotifierCommand::WaitUntil(100 + 50 * 3)]);
    assert_eq!(n.try_new_game_logs(&lines(&["[ t ] (combat) misses"]), 120), Some(vec![]));
}

#[test]
fn combat_refuses_estimates_from_too_few_gaps() {
    let settings = AppSettings { num_cycles: 3, sample_num: 1, num_samples: 10, min_num_samples: 2 };
    let mut n = CombatNotifier::new(settings, 0);
    assert_eq!(n.try_new_game_logs(&lines(&[HIT]), 10), Some(vec![]));
    assert_eq!(n.try_new_game_logs(&lines(&[HIT]), 20), None);
    assert_eq!(n.num_gaps(), 1);
    let mut m = CombatNotifier::new(settings, 0);
    m.set_settings(AppSettings::default_settings());
    assert_eq!(m.settings(), AppSettings::default_settings());
}

#[test]
fn combat_timer_follows_commands() {
    let mut timer = CombatTimer::new();
    assert_eq!(timer.state, TimerState::Disabled);
    assert_eq!(timer.on_command(NotifierCommand::WaitUntil(5)), TimerAction::AwaitCommand);
    assert_eq!(timer.on_command(NotifierCommand::Disable), TimerAction::AwaitCommand);
    assert_eq!(timer.state, TimerState::Disabled);
    assert_eq!(timer.on_command(NotifierCommand::Enable), TimerAction::AwaitCommand);
    assert_eq!(timer.state, TimerState::Enabled);
    assert_eq!(timer.on_command(NotifierCommand::WaitUntil(5)), TimerAction::SleepThenCheck(5));
    assert_eq!(timer.on_command(NotifierCommand::Enable), TimerAction::CheckNow);
    assert_eq!(timer.on_command(NotifierCommand::Disable), TimerAction::AwaitCommand);
    assert_eq!(timer.state, TimerState::Disabled);
    assert_eq!(timer.on_command(NotifierCommand::WaitUntil(9)), TimerAction::AwaitCommand);
}

// ---------------------------------------------------------------------------
// Decloak notifier
// ---------------------------------------------------------------------------

const DECLOAK: &str = "[ 2024.01.02 03:04:06 ] (notify) Your cloak deactivates due to proximity to a nearby object.";

#[test]
fn decloak_plays_default_without_settings() {
    let n = DecloakedNotifier::new();
    let logs = lines(&[DECLOAK, "[ t ] (notify) other", DECLOAK]);
    assert_eq!(n.new_game_logs(&logs, "Alice"), vec!["Default", "Default"]);
    assert_eq!(n.try_new_game_logs(&logs, "Alice"), Some(vec!["Default".to_string(), "Default".to_string()]));
    assert!(n.new_game_logs(&lines(&["[ t ] (notify) other"]), "Alice").is_empty());
}

#[test]
fn decloak_follows_character_settings() {
    let mut n = DecloakedNotifier::new();
    n.ensure_character("Alice");
    assert_eq!(n.ui_settings.get("Alice").unwrap().notification, "Default");
    assert!(n.ui_settings.get("Alice").unwrap().enabled);
    n.ui_settings.insert("Alice".to_string(), DecloakSettings { notification: "Bell".to_string(), enabled: true });
    n.ensure_character("Alice");
    assert_eq!(n.new_game_logs(&lines(&[DECLOAK]), "Alice"), vec!["Bell"]);
    n.ui_settings.insert("Alice".to_string(), DecloakSettings { notification: "Bell".to_string(), enabled: false });
    assert!(n.new_game_logs(&lines(&[DECLOAK, DECLOAK]), "Alice").is_empty());
    assert_eq!(n.new_game_logs(&lines(&[DECLOAK]), "Bob"), vec!["Default"]);
    assert_eq!(n.sounds_for_decloaks(&[true, false, true], "Bob"), vec!["Default", "Default"]);
    assert!(n.sounds_for_decloaks(&[true], "Alice").is_empty());
}

// ---------------------------------------------------------------------------
// Friendly activation
// ---------------------------------------------------------------------------

#[test]
fn fa_answers_calls_on_tracked_holes() {
    let mut fa = FriendlyActivation::new();
    fa.settings.hole_text = "A1".to_string();
    fa.track_entered_hole();
    assert_eq!(fa.settings.hole_text, "");
    assert_eq!(fa.settings.tracked_holes.len(), 1);
    assert_eq!(fa.settings.tracked_holes[0].name, "a1");
    assert_eq!(fa.settings.tracked_holes[0].notification, "Default");
    fa.settings.tracked_holes[0].notification = "Bell".to_string();
    let logs = lines(&["[ 2024.01.02 03:04:06 ] Bob Pilot > FA A1", "[ 2024.01.02 03:04:06 ] Bob Pilot > fa b2"]);
    assert_eq!(fa.new_fleet_logs(&logs, 1000), vec!["Bell"]);
    assert_eq!(fa.last_call, Some(1000));
    // Too soon after the last sound.
    assert!(fa.new_fleet_logs(&logs, 1599).is_empty());
    assert_eq!(fa.last_call, Some(1000));
    assert_eq!(fa.new_fleet_logs(&lines(&["[ t ] Bob > fa a1   "]), 1600), vec!["Bell"]);
    assert_eq!(fa.try_new_fleet_logs(&lines(&["[ t ] Bob > faa1"]), 2200), Some(vec!["Bell".to_string()]));
    assert_eq!(fa.try_new_fleet_logs(&lines(&["[ t ] Bob > fa a1 please"]), 5000), Some(vec![]));
    assert_eq!(fa.try_new_fleet_logs(&lines(&["Bob > fa a1"]), 5000), Some(vec![]));
}

#[test]
fn fa_holes_with_wormhole_counts() {
    let mut fa = FriendlyActivation::new();
    fa.settings.hole_text = "C x2".to_string();
    fa.track_entered_hole();
    assert_eq!(fa.new_fleet_logs(&lines(&["[ t ] Bob > FA C X2"]), 10), vec!["Default"]);
    assert_eq!(fa.answer("c x2", 700), vec!["Default"]);
    assert!(fa.answer("c x2", 800).is_empty());
    assert!(fa.answer("d", 5000).is_empty());
    fa.remove_tracked_hole(0);
    assert!(fa.settings.tracked_holes.is_empty());
    fa.settings.hole_text = "a".to_string();
    fa.track_entered_hole();
    fa.settings.hole_text = "a".to_string();
    fa.track_entered_hole();
    // Two entries for one hole: only one sound per moment.
    assert_eq!(fa.answer("a", 10000), vec!["Default"]);
    fa.clear_tracked_holes();
    assert!(fa.settings.tracked_holes.is_empty());
    assert_eq!(fa.last_call, Some(10000));
}

// ---------------------------------------------------------------------------
// Mention notifier
// ---------------------------------------------------------------------------

#[test]
fn message_is_after_the_first_gt() {
    assert_eq!(message_of("[ t ] Bob > hi > there"), " hi > there");
    assert_eq!(message_of(">"), "");
}

#[test]
fn mentions_need_an_alias_list() {
    let n = MentionedNotifier::new();
    assert_eq!(n.try_new_fleet_logs(&lines(&["[ t ] Bob > hi Alice"]), "Alice"), None);
}

#[test]
fn mentions_play_for_names_and_aliases() {
    let mut n = MentionedNotifier::new();
    n.ensure_character("Alice Smith");
    assert_eq!(n.ui_settings.get("Alice Smith").unwrap().notification, "Default");
    n.set_settings("Alice Smith", MentionSettings { alias_entry: "Ali".to_string(), notification: "Bell".to_string() });
    n.commit_alias_entry("Alice Smith");
    assert_eq!(n.alias.get("Alice Smith").unwrap(), &vec!["Ali".to_string()]);
    assert_eq!(n.ui_settings.get("Alice Smith").unwrap().alias_entry, "");
    n.commit_alias_entry("Alice Smith");
    assert_eq!(n.alias.get("Alice Smith").unwrap().len(), 1);
    let logs = lines(&["[ t ] Bob > hey Alice Smith!", "[ t ] Bob > ali, Ali? Alien", "[ t ] Ali > nothing here"]);
    // Aliases first, then the name itself; each with its own sound.
    assert_eq!(n.new_fleet_logs(&logs, "Alice Smith"), vec!["Default", "Bell"]);
    assert_eq!(n.mention_sound_for("Alice Smith"), "Bell");
    assert_eq!(n.mention_sound_for("Ali"), "Default");
    n.remove_alias("Alice Smith", 0);
    assert!(n.alias.get("Alice Smith").unwrap().is_empty());
    assert_eq!(n.try_new_fleet_logs(&logs, "Alice Smith"), Some(vec!["Bell".to_string()]));
    assert_eq!(n.try_new_fleet_logs(&lines(&["no marker"]), "Alice Smith"), None);
}

#[test]
fn mention_names_are_taken_literally() {
    let mut n = MentionedNotifier::new();
    n.alias.insert("x".to_string(), vec!["a.b+c".to_string()]);
    let logs = lines(&["[ t ] Bob > see a.b+c now", "[ t ] Bob > see axb+c now", "[ t ] Bob > see a.bbc now"]);
    assert_eq!(n.new_fleet_logs(&logs, "x"), vec!["Default"]);
}

// ---------------------------------------------------------------------------
// Mining notifier
// ---------------------------------------------------------------------------

#[test]
fn mining_ship_and_start() {
    assert_eq!(Ship::Covetor.cargo_cap(), 900000);
    assert_eq!(Ship::Covetor.name(), "Covetor");
    let n = MiningNotifier::new();
    assert_eq!(n.compressed_amount, 34490);
    assert_eq!(n.estimated_cargo(), 34490 * 5);
    assert_eq!(n.cycle_potential(), 0);
    assert!(!n.check_cargo());
}

#[test]
fn mining_warns_before_the_hold_fills() {
    let mut n = MiningNotifier::new();
    assert!(!n.mined(100, MinedType::Normal));
    assert_eq!(n.base_cycle_amount, 100);
    assert_eq!(n.estimated_cargo(), 172450 + 50000);
    assert_eq!(n.cycle_potential(), 200000);
    assert!(!n.mined(600, MinedType::Crit));
    assert_eq!(n.base_cycle_amount, 100);
    assert!(n.mined(400, MinedType::Normal));
    assert_eq!(n.raw_ore_amount, 1100);
    n.compressed();
    assert_eq!(n.compressed_amount, 35590);
    assert_eq!(n.raw_ore_amount, 0);
    assert!(!n.player_active);
}

#[test]
fn mining_reads_game_lines() {
    let mut n = MiningNotifier::new();
    let logs = lines(&[
        "[ t ] (mining) You mined <color=#ff8dc169>100</color> units of <color=#ffffffff><font size=12>Gneiss</font></color>",
        "[ t ] (mining) Critical mining success! You mined an additional <color=#ff8dc169>600</color> units of Gneiss",
        "[ t ] (notify) something else",
        "[ t ] (mining) You mined 400 units of Gneiss",
        "[ t ] (notify) Successfully compressed Gneiss into 11 Compressed Gneiss",
    ]);
    assert_eq!(n.new_game_logs(&logs), vec!["Default"]);
    assert_eq!(n.base_cycle_amount, 400);
    assert_eq!(n.raw_ore_amount, 0);
    assert_eq!(n.compressed_amount, 35590);
    let mut m = MiningNotifier::new();
    assert_eq!(m.try_new_game_logs(&logs), Some(vec!["Default".to_string()]));
    let huge = lines(&["[ t ] (mining) You mined 99999999999999999999999 units of Gneiss"]);
    assert_eq!(m.try_new_game_logs(&huge), None);
    assert_eq!(m.compressed_amount, 35590);
}

// ---------------------------------------------------------------------------
// Log printer
// ---------------------------------------------------------------------------

#[test]
fn log_printer_shows_what_is_enabled() {
    let mut p = LogPrinter::new();
    assert!(p.fleet_logs && p.game_logs && !p.clean_game_logs);
    let logs = lines(&["[ t ] <b>x</b>", "[ t ] y"]);
    assert_eq!(p.new_fleet_logs(&logs), Some(logs.clone()));
    assert_eq!(p.new_game_logs(&logs), Some(logs.clone()));
    p.clean_game_logs = true;
    assert_eq!(p.new_game_logs(&logs), Some(vec![" x".to_string(), " y".to_string()]));
    p.fleet_logs = false;
    p.game_logs = false;
    assert_eq!(p.new_fleet_logs(&logs), None);
    assert_eq!(p.new_game_logs(&logs), None);
}

#[test]
fn combat_timer_plays_only_when_nothing_newer_came() {
    let mut timer = CombatTimer::new();
    assert_eq!(timer.on_found(TimerAction::AwaitCommand, None), (TimerAction::AwaitCommand, None));
    assert_eq!(timer.on_found(TimerAction::AwaitCommand, Some(NotifierCommand::WaitUntil(3))), (TimerAction::AwaitCommand, None));
    assert_eq!(timer.state, TimerState::Disabled);
    assert_eq!(timer.on_found(TimerAction::AwaitCommand, Some(NotifierCommand::Enable)), (TimerAction::AwaitCommand, None));
    let (action, play) = timer.on_found(TimerAction::AwaitCommand, Some(NotifierCommand::WaitUntil(40)));
    assert_eq!((action, play), (TimerAction::SleepThenCheck(40), None));
    // Nothing newer after the sleep: the notification plays from 40 on.
    assert_eq!(timer.on_found(action, None), (TimerAction::AwaitCommand, Some(40)));
    // A newer command after the sleep is taken and nothing plays.
    assert_eq!(
        timer.on_found(TimerAction::SleepThenCheck(40), Some(NotifierCommand::WaitUntil(90))),
        (TimerAction::SleepThenCheck(90), None)
    );
    assert_eq!(timer.on_found(TimerAction::CheckNow, None), (TimerAction::AwaitCommand, Some(0)));
    assert_eq!(timer.on_found(TimerAction::AwaitCommand, Some(NotifierCommand::Disable)), (TimerAction::AwaitCommand, None));
    assert_eq!(timer.state, TimerState::Disabled);
}

#[test]
fn fa_plays_at_most_once_per_batch() {
    let mut fa = FriendlyActivation::new();
    fa.settings.hole_text = "a1".to_string();
    fa.track_entered_hole();
    let calls = lines(&["[ t ] Bob > fa a1", "[ t ] Ann > FA A1", "[ t ] Cid > fa a1"]);
    assert_eq!(fa.new_fleet_logs(&calls, 5000), vec!["Default"]);
    assert_eq!(fa.last_call, Some(5000));
    assert!(fa.new_fleet_logs(&calls, 5599).is_empty());
    assert_eq!(fa.new_fleet_logs(&calls, 5600), vec!["Default"]);
}
