//! The decloak notifier: a sound when a character's cloak drops.
use vstd::prelude::*;
use crate::patterns::{compile, is_match, regex_compiles, regex_matches};
use crate::scripts::notification::DEFAULT_NOTIFICATION;
use crate::text::texts;
use crate::text_map::TextMap;

verus! {

/// A game log line saying that the cloak went off.
pub const DECLOAK_PATTERN: &'static str = r" \(notify\) Your cloak deactivates due to ";

/// A character's choice: whether to be notified, and with which sound.
#[derive(Debug)]
pub struct CharacterSettings {
    pub notification: String,
    pub enabled: bool,
}

/// The sound for a decloak of `character`: the character's chosen sound if
/// enabled, nothing if disabled, the default sound for a character with no
/// settings.
pub open spec fn decloak_sound(settings: Map<Seq<char>, CharacterSettings>, character: Seq<char>) -> Option<Seq<char>> {
    if settings.contains_key(character) {
        if settings[character].enabled {
            Some(settings[character].notification@)
        } else {
            None
        }
    } else {
        Some(DEFAULT_NOTIFICATION@)
    }
}

/// Which of `logs` say that the cloak went off.
pub open spec fn decloak_lines(logs: Seq<Seq<char>>) -> Seq<bool> {
    logs.map_values(|l: Seq<char>| regex_matches(DECLOAK_PATTERN@, l))
}

/// The sounds to play for a batch of lines of `character`, `matched` telling
/// which of them are decloak lines: one for each decloak line, in order,
/// while the character is to be notified.
pub open spec fn decloak_sounds_of(matched: Seq<bool>, settings: Map<Seq<char>, CharacterSettings>, character: Seq<char>) -> Seq<Seq<char>>
    decreases matched.len(),
{
    if matched.len() == 0 {
        Seq::empty()
    } else {
        let prev = decloak_sounds_of(matched.drop_last(), settings, character);
        if matched.last() && decloak_sound(settings, character) is Some {
            prev.push(decloak_sound(settings, character)->0)
        } else {
            prev
        }
    }
}

/// The sounds to play for `logs` of `character` (see `decloak_sounds_of`).
pub open spec fn decloak_sounds(logs: Seq<Seq<char>>, settings: Map<Seq<char>, CharacterSettings>, character: Seq<char>) -> Seq<Seq<char>> {
    decloak_sounds_of(decloak_lines(logs), settings, character)
}

/// The decloak notifier's settings, by character.
pub struct DecloakedNotifier {
    pub ui_settings: TextMap<CharacterSettings>,
}

impl DecloakedNotifier {
    /// No settings: every character gets the default sound.
    pub fn new() -> (r: Self)
        ensures
            r.ui_settings.as_map() == Map::<Seq<char>, CharacterSettings>::empty(),
    {
        DecloakedNotifier { ui_settings: TextMap::new() }
    }

    /// The sounds to play for a batch of lines of `character`, `matched`
    /// telling which are decloak lines (see `decloak_sounds_of`).
    pub fn sounds_for_decloaks(&self, matched: &[bool], character: &str) -> (r: Vec<String>)
        ensures
            texts(r@) == decloak_sounds_of(matched@, self.ui_settings.as_map(), character@),
    {
        let ghost settings = self.ui_settings.as_map();
        let mut out: Vec<String> = Vec::new();
        let mut i: usize = 0;
        assert(matched@.take(0) =~= Seq::<bool>::empty());
        while i < matched.len()
            invariant
                i <= matched@.len(),
                settings == self.ui_settings.as_map(),
                texts(out@) == decloak_sounds_of(matched@.take(i as int), settings, character@),
            decreases matched.len() - i,
        {
            assert(matched@.take(i + 1).drop_last() =~= matched@.take(i as int));
            assert(matched@.take(i + 1).last() == matched@[i as int]);
            if matched[i] {
                let notification: Option<String> = match self.ui_settings.get(character) {
                    Some(c) => if c.enabled {
                        Some(c.notification.clone())
                    } else {
                        None
                    },
                    None => Some(DEFAULT_NOTIFICATION.to_owned()),
                };
                if let Some(not) = notification {
                    let ghost prev = texts(out@);
                    out.push(not);
                    assert(texts(out@) =~= prev.push(decloak_sound(settings, character@)->0));
                }
            }
            i = i + 1;
        }
        assert(matched@.take(matched@.len() as int) =~= matched@);
        out
    }

    /// The sounds to play for new game log lines of `character` (see
    /// `decloak_sounds`).
    pub fn new_game_logs(&self, logs: &[String], character: &str) -> (r: Vec<String>)
        requires
            regex_compiles(DECLOAK_PATTERN@),
        ensures
            texts(r@) == decloak_sounds(texts(logs@), self.ui_settings.as_map(), character@),
    {
        let re = compile(DECLOAK_PATTERN).unwrap();
        let mut matched: Vec<bool> = Vec::new();
        let mut i: usize = 0;
        while i < logs.len()
            invariant
                i <= logs@.len(),
                re@ == DECLOAK_PATTERN@,
                matched@ == decloak_lines(texts(logs@).take(i as int)),
            decreases logs.len() - i,
        {
            matched.push(is_match(&re, logs[i].as_str()));
            i = i + 1;
            assert(matched@ =~= decloak_lines(texts(logs@).take(i as int)));
        }
        assert(texts(logs@).take(logs@.len() as int) =~= texts(logs@));
        self.sounds_for_decloaks(matched.as_slice(), character)
    }

    /// `new_game_logs` where the decloak pattern compiles; `None` where not.
    pub fn try_new_game_logs(&self, logs: &[String], character: &str) -> (r: Option<Vec<String>>)
        ensures
            r is Some <==> regex_compiles(DECLOAK_PATTERN@),
            r matches Some(sounds) ==> texts(sounds@) == decloak_sounds(texts(logs@), self.ui_settings.as_map(), character@),
    {
        match compile(DECLOAK_PATTERN) {
            None => None,
            Some(_) => Some(self.new_game_logs(logs, character)),
        }
    }

    /// Gives `character` settings, enabled with the default sound, unless it
    /// has some.
    pub fn ensure_character(&mut self, character: &str)
        ensures
            old(self).ui_settings.as_map().contains_key(character@) ==> final(self).ui_settings.as_map()
                == old(self).ui_settings.as_map(),
            !old(self).ui_settings.as_map().contains_key(character@) ==> {
                let m = final(self).ui_settings.as_map();
                &&& m.dom() == old(self).ui_settings.as_map().dom().insert(character@)
                &&& forall|k: Seq<char>| k != character@ && #[trigger] old(self).ui_settings.as_map().contains_key(k) ==> m[k] == old(self).ui_settings.as_map()[k]
                &&& m[character@].notification@ == DEFAULT_NOTIFICATION@
                &&& m[character@].enabled
            },
    {
        if !self.ui_settings.contains_key(character) {
            let key = crate::text::string_from_chars(crate::text::chars_of(character).as_slice());
            let ghost before = self.ui_settings.as_map();
            self.ui_settings.insert(key, CharacterSettings { notification: DEFAULT_NOTIFICATION.to_owned(), enabled: true });
            assert(self.ui_settings.as_map().dom() =~= before.dom().insert(character@));
        }
    }
}

/// A disabled character is never notified, a decloak of a character with
/// no settings always plays the default sound, and no batch plays more sounds
/// than it has lines.
pub proof fn law_decloak_sounds_follow_settings(matched: Seq<bool>, settings: Map<Seq<char>, CharacterSettings>, character: Seq<char>)
    ensures
        settings.contains_key(character) && !settings[character].enabled ==> decloak_sounds_of(matched, settings, character).len() == 0,
        !settings.contains_key(character) ==> forall|i: int| 0 <= i < decloak_sounds_of(matched, settings, character).len()
            ==> #[trigger] decloak_sounds_of(matched, settings, character)[i] == DEFAULT_NOTIFICATION@,
        decloak_sounds_of(matched, settings, character).len() <= matched.len(),
    decreases matched.len(),
{
    if matched.len() > 0 {
        law_decloak_sounds_follow_settings(matched.drop_last(), settings, character);
    }
}

} // verus!
