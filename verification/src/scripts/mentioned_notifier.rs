//! The mention notifier: a sound when a character, or one of its other
//! names, is mentioned in fleet chat.
use vstd::prelude::*;
use crate::patterns::{compile, escape, escaped, is_match, regex_compiles, regex_matches};
use crate::scripts::notification::DEFAULT_NOTIFICATION;
use crate::text::{chars_of, string_from_chars, texts};
use crate::text_map::TextMap;

verus! {

/// A character's settings: the other name being typed, and its sound.
#[derive(Debug)]
pub struct CharacterSettings {
    pub alias_entry: String,
    pub notification: String,
}

/// The other names of each character, and each character's settings.
#[derive(Debug)]
pub struct MentionedNotifier {
    pub alias: TextMap<Vec<String>>,
    pub ui_settings: TextMap<CharacterSettings>,
}

/// The message of a chat line: what follows its first `>`.
pub open spec fn after_first_gt(s: Seq<char>) -> Seq<char>
    decreases s.len(),
{
    if s.len() == 0 {
        s
    } else if s[0] == '>' {
        s.drop_first()
    } else {
        after_first_gt(s.drop_first())
    }
}

/// The pattern for a mention of `name`: whitespace, then the name as written,
/// then a word boundary.
pub open spec fn mention_pattern(name: Seq<char>) -> Seq<char> {
    "\\s"@ + escaped(name) + "\\b"@
}

/// The sound for a mention of `name`: its settings' sound, or the default.
pub open spec fn mention_sound(settings: Map<Seq<char>, CharacterSettings>, name: Seq<char>) -> Seq<char> {
    if settings.contains_key(name) {
        settings[name].notification@
    } else {
        DEFAULT_NOTIFICATION@
    }
}

/// The sounds for mentions of `name` in `logs`, in order.
pub open spec fn sounds_for_name(name: Seq<char>, logs: Seq<Seq<char>>, settings: Map<Seq<char>, CharacterSettings>) -> Seq<Seq<char>>
    decreases logs.len(),
{
    if logs.len() == 0 {
        Seq::empty()
    } else {
        let prev = sounds_for_name(name, logs.drop_last(), settings);
        if regex_matches(mention_pattern(name), after_first_gt(logs.last())) {
            prev.push(mention_sound(settings, name))
        } else {
            prev
        }
    }
}

/// The sounds for mentions in `logs` of each of `names`: name by name, and
/// for each name line by line.
pub open spec fn mention_sounds(names: Seq<Seq<char>>, logs: Seq<Seq<char>>, settings: Map<Seq<char>, CharacterSettings>) -> Seq<Seq<char>>
    decreases names.len(),
{
    if names.len() == 0 {
        Seq::empty()
    } else {
        mention_sounds(names.drop_last(), logs, settings) + sounds_for_name(names.last(), logs, settings)
    }
}

/// The names watched for `character`: its other names, then its own.
pub open spec fn watched_names(alias: Map<Seq<char>, Vec<String>>, character: Seq<char>) -> Seq<Seq<char>> {
    texts(alias[character]@).push(character)
}

/// The lines and names can be read: the character has a list of other
/// names, every line has a `>`, and every watched name's pattern compiles.
pub open spec fn mentions_readable(alias: Map<Seq<char>, Vec<String>>, character: Seq<char>, logs: Seq<Seq<char>>) -> bool {
    &&& alias.contains_key(character)
    &&& forall|i: int| 0 <= i < logs.len() ==> (#[trigger] logs[i]).contains('>')
    &&& forall|i: int| 0 <= i < watched_names(alias, character).len() ==> regex_compiles(
        mention_pattern(#[trigger] watched_names(alias, character)[i]),
    )
}

proof fn lemma_after_first_gt_skip(s: Seq<char>, i: int)
    requires
        0 <= i < s.len(),
        s[i] == '>',
        forall|k: int| 0 <= k < i ==> #[trigger] s[k] != '>',
    ensures
        after_first_gt(s) == s.subrange(i + 1, s.len() as int),
    decreases i,
{
    if i > 0 {
        lemma_after_first_gt_skip(s.drop_first(), i - 1);
        assert(s.drop_first().subrange(i, s.drop_first().len() as int) =~= s.subrange(i + 1, s.len() as int));
    }
}

/// The message of a chat line (see `after_first_gt`); the line must hold a `>`.
pub fn message_of(line: &str) -> (r: String)
    requires
        line@.contains('>'),
    ensures
        r@ == after_first_gt(line@),
{
    let cs = chars_of(line);
    let mut i: usize = 0;
    while i < cs.len() && cs[i] != '>'
        invariant
            cs@ == line@,
            i <= cs.len(),
            forall|k: int| 0 <= k < i ==> #[trigger] cs@[k] != '>',
        decreases cs.len() - i,
    {
        i = i + 1;
    }
    proof {
        if i == cs.len() {
            let j = choose|j: int| 0 <= j < line@.len() && line@[j] == '>';
            assert(cs@[j] != '>');
        }
        lemma_after_first_gt_skip(cs@, i as int);
    }
    let mut out: Vec<char> = Vec::new();
    let mut k: usize = i + 1;
    while k < cs.len()
        invariant
            i < cs.len(),
            i + 1 <= k <= cs.len(),
            out@ == cs@.subrange(i + 1, k as int),
        decreases cs.len() - k,
    {
        out.push(cs[k]);
        k = k + 1;
        assert(out@ =~= cs@.subrange(i + 1, k as int));
    }
    string_from_chars(out.as_slice())
}

/// The pattern for a mention of `name` (see `mention_pattern`).
fn pattern_for(name: &str) -> (r: String)
    ensures
        r@ == mention_pattern(name@),
{
    let mut p = r"\s".to_owned();
    p.append(escape(name).as_str());
    p.append(r"\b");
    p
}

impl MentionedNotifier {
    /// No other names, no settings.
    pub fn new() -> (r: Self)
        ensures
            r.alias.as_map() == Map::<Seq<char>, Vec<String>>::empty(),
            r.ui_settings.as_map() == Map::<Seq<char>, CharacterSettings>::empty(),
    {
        MentionedNotifier { alias: TextMap::new(), ui_settings: TextMap::new() }
    }

    /// The sound for a mention of `name` (see `mention_sound`).
    pub fn mention_sound_for(&self, name: &str) -> (r: String)
        ensures
            r@ == mention_sound(self.ui_settings.as_map(), name@),
    {
        match self.ui_settings.get(name) {
            Some(setting) => setting.notification.clone(),
            None => DEFAULT_NOTIFICATION.to_owned(),
        }
    }

    /// The sounds for mentions of `name` in `logs` (see `sounds_for_name`).
    fn sounds_for(&self, name: &str, logs: &[String]) -> (r: Vec<String>)
        requires
            regex_compiles(mention_pattern(name@)),
            forall|i: int| 0 <= i < logs@.len() ==> (#[trigger] texts(logs@)[i]).contains('>'),
        ensures
            texts(r@) == sounds_for_name(name@, texts(logs@), self.ui_settings.as_map()),
    {
        let ghost settings = self.ui_settings.as_map();
        let ghost ls = texts(logs@);
        let pattern = pattern_for(name);
        let mentioned = compile(pattern.as_str()).unwrap();
        let mut out: Vec<String> = Vec::new();
        let mut i: usize = 0;
        assert(ls.take(0) =~= Seq::<Seq<char>>::empty());
        while i < logs.len()
            invariant
                i <= logs@.len(),
                ls == texts(logs@),
                settings == self.ui_settings.as_map(),
                mentioned@ == mention_pattern(name@),
                forall|k: int| 0 <= k < ls.len() ==> (#[trigger] ls[k]).contains('>'),
                texts(out@) == sounds_for_name(name@, ls.take(i as int), settings),
            decreases logs.len() - i,
        {
            assert(ls[i as int] == logs@[i as int]@);
            let raw_message = message_of(logs[i].as_str());
            assert(ls.take(i + 1).drop_last() =~= ls.take(i as int));
            assert(ls.take(i + 1).last() == ls[i as int]);
            if is_match(&mentioned, raw_message.as_str()) {
                let notification = self.mention_sound_for(name);
                let ghost o = texts(out@);
                out.push(notification);
                assert(texts(out@) =~= o.push(mention_sound(settings, name@)));
            }
            i = i + 1;
        }
        assert(ls.take(ls.len() as int) =~= ls);
        out
    }

    /// The sounds to play for new fleet chat lines heard by `character` (see
    /// `mention_sounds` over `watched_names`).
    pub fn new_fleet_logs(&self, logs: &[String], character: &str) -> (r: Vec<String>)
        requires
            mentions_readable(self.alias.as_map(), character@, texts(logs@)),
        ensures
            texts(r@) == mention_sounds(watched_names(self.alias.as_map(), character@), texts(logs@), self.ui_settings.as_map()),
    {
        let aliases = self.alias.get(character).unwrap();
        let ghost names = watched_names(self.alias.as_map(), character@);
        let ghost settings = self.ui_settings.as_map();
        let ghost ls = texts(logs@);
        let mut out: Vec<String> = Vec::new();
        let mut n: usize = 0;
        assert(names.take(0) =~= Seq::<Seq<char>>::empty());
        while n < aliases.len()
            invariant
                names == texts(aliases@).push(character@),
                n <= aliases@.len(),
                ls == texts(logs@),
                settings == self.ui_settings.as_map(),
                forall|i: int| 0 <= i < ls.len() ==> (#[trigger] ls[i]).contains('>'),
                forall|i: int| 0 <= i < names.len() ==> regex_compiles(mention_pattern(#[trigger] names[i])),
                texts(out@) == mention_sounds(names.take(n as int), ls, settings),
            decreases aliases.len() - n,
        {
            let name = aliases[n].as_str();
            assert(name@ == names[n as int]);
            let ghost prev = texts(out@);
            let mut found = self.sounds_for(name, logs);
            let ghost fv = texts(found@);
            out.append(&mut found);
            assert(texts(out@) =~= prev + fv);
            assert(names.take(n + 1).drop_last() =~= names.take(n as int));
            n = n + 1;
        }
        assert(names[n as int] == character@);
        let ghost prev = texts(out@);
        let mut found = self.sounds_for(character, logs);
        let ghost fv = texts(found@);
        out.append(&mut found);
        assert(texts(out@) =~= prev + fv);
        assert(names.take(n + 1).drop_last() =~= names.take(n as int));
        assert(names.take(n + 1) =~= names);
        out
    }

    /// `new_fleet_logs` where the lines and names can be read (see
    /// `mentions_readable`); `None` where not.
    pub fn try_new_fleet_logs(&self, logs: &[String], character: &str) -> (r: Option<Vec<String>>)
        ensures
            r is Some <==> mentions_readable(self.alias.as_map(), character@, texts(logs@)),
            r matches Some(sounds) ==> texts(sounds@) == mention_sounds(
                watched_names(self.alias.as_map(), character@),
                texts(logs@),
                self.ui_settings.as_map(),
            ),
    {
        let aliases = match self.alias.get(character) {
            None => return None,
            Some(a) => a,
        };
        let ghost names = watched_names(self.alias.as_map(), character@);
        let mut i: usize = 0;
        while i < logs.len()
            invariant
                i <= logs@.len(),
                forall|k: int| 0 <= k < i ==> (#[trigger] texts(logs@)[k]).contains('>'),
            decreases logs.len() - i,
        {
            let cs = chars_of(logs[i].as_str());
            let mut j: usize = 0;
            while j < cs.len() && cs[j] != '>'
                invariant
                    j <= cs.len(),
                    forall|m: int| 0 <= m < j ==> cs@[m] != '>',
                decreases cs.len() - j,
            {
                j = j + 1;
            }
            if j == cs.len() {
                assert(!texts(logs@)[i as int].contains('>')) by {
                    assert(texts(logs@)[i as int] == cs@);
                }
                return None;
            }
            assert(texts(logs@)[i as int][j as int] == '>');
            i = i + 1;
        }
        let mut n: usize = 0;
        while n < aliases.len()
            invariant
                names == texts(aliases@).push(character@),
                names == watched_names(self.alias.as_map(), character@),
                n <= aliases@.len(),
                forall|k: int| 0 <= k < n ==> regex_compiles(mention_pattern(#[trigger] names[k])),
            decreases aliases.len() - n,
        {
            let name = aliases[n].as_str();
            assert(name@ == names[n as int]);
            if compile(pattern_for(name).as_str()).is_none() {
                assert(!regex_compiles(mention_pattern(names[n as int])));
                return None;
            }
            n = n + 1;
        }
        if compile(pattern_for(character).as_str()).is_none() {
            assert(!regex_compiles(mention_pattern(names[n as int])));
            return None;
        }
        assert forall|k: int| 0 <= k < names.len() implies regex_compiles(mention_pattern(#[trigger] names[k])) by {
            if k == n {
                assert(names[k] == character@);
            }
        }
        Some(self.new_fleet_logs(logs, character))
    }

    /// Gives `character` settings, with nothing typed and the default sound,
    /// unless it has some.
    pub fn ensure_character(&mut self, character: &str)
        ensures
            final(self).alias == old(self).alias,
            old(self).ui_settings.as_map().contains_key(character@) ==> final(self).ui_settings.as_map()
                == old(self).ui_settings.as_map(),
            !old(self).ui_settings.as_map().contains_key(character@) ==> {
                let m = final(self).ui_settings.as_map();
                &&& m.dom() == old(self).ui_settings.as_map().dom().insert(character@)
                &&& forall|k: Seq<char>| k != character@ && #[trigger] old(self).ui_settings.as_map().contains_key(k) ==> m[k] == old(self).ui_settings.as_map()[k]
                &&& m[character@].alias_entry@.len() == 0
                &&& m[character@].notification@ == DEFAULT_NOTIFICATION@
            },
    {
        if !self.ui_settings.contains_key(character) {
            let key = string_from_chars(chars_of(character).as_slice());
            let ghost before = self.ui_settings.as_map();
            self.ui_settings.insert(key, CharacterSettings { alias_entry: String::new(), notification: DEFAULT_NOTIFICATION.to_owned() });
            assert(self.ui_settings.as_map().dom() =~= before.dom().insert(character@));
        }
    }

    /// Replaces `character`'s settings.
    pub fn set_settings(&mut self, character: &str, settings: CharacterSettings)
        ensures
            final(self).alias == old(self).alias,
            final(self).ui_settings.as_map() == old(self).ui_settings.as_map().insert(character@, settings),
    {
        let key = string_from_chars(chars_of(character).as_slice());
        self.ui_settings.insert(key, settings);
    }

    /// Moves the other name typed for `character`, if any was, to the end of
    /// its list of other names.
    pub fn commit_alias_entry(&mut self, character: &str)
        requires
            old(self).ui_settings.as_map().contains_key(character@),
        ensures
            old(self).ui_settings.as_map()[character@].alias_entry@.len() == 0 ==> final(self).alias == old(self).alias
                && final(self).ui_settings == old(self).ui_settings,
            old(self).ui_settings.as_map()[character@].alias_entry@.len() > 0 ==> {
                let entry = old(self).ui_settings.as_map()[character@].alias_entry@;
                let before = if old(self).alias.as_map().contains_key(character@) {
                    texts(old(self).alias.as_map()[character@]@)
                } else {
                    Seq::empty()
                };
                &&& final(self).alias.as_map().dom() == old(self).alias.as_map().dom().insert(character@)
                &&& texts(final(self).alias.as_map()[character@]@) == before.push(entry)
                &&& forall|k: Seq<char>| k != character@ && #[trigger] old(self).alias.as_map().contains_key(k) ==> final(self).alias.as_map()[k] == old(self).alias.as_map()[k]
                &&& final(self).ui_settings.as_map().dom() == old(self).ui_settings.as_map().dom()
                &&& final(self).ui_settings.as_map()[character@].alias_entry@.len() == 0
                &&& final(self).ui_settings.as_map()[character@].notification == old(self).ui_settings.as_map()[character@].notification
                &&& forall|k: Seq<char>| k != character@ && #[trigger] old(self).ui_settings.as_map().contains_key(k) ==> final(self).ui_settings.as_map()[k] == old(self).ui_settings.as_map()[k]
            },
    {
        let current = self.ui_settings.get(character).unwrap();
        if current.alias_entry.as_str().is_empty() {
            return;
        }
        let ghost old_settings = self.ui_settings.as_map();
        let ghost old_alias = self.alias.as_map();
        let mut cs = self.ui_settings.remove(character).unwrap();
        let mut entry = String::new();
        std::mem::swap(&mut entry, &mut cs.alias_entry);
        let key = string_from_chars(chars_of(character).as_slice());
        self.ui_settings.insert(key, cs);
        let mut list = match self.alias.remove(character) {
            Some(l) => l,
            None => Vec::new(),
        };
        let ghost before_list = texts(list@);
        list.push(entry);
        let key2 = string_from_chars(chars_of(character).as_slice());
        self.alias.insert(key2, list);
        proof {
            assert(self.ui_settings.as_map().dom() =~= old_settings.dom());
            assert(self.alias.as_map().dom() =~= old_alias.dom().insert(character@));
            assert(texts(self.alias.as_map()[character@]@) =~= before_list.push(old_settings[character@].alias_entry@));
        }
    }

    /// Removes the `i`th other name of `character`.
    pub fn remove_alias(&mut self, character: &str, i: usize)
        requires
            old(self).alias.as_map().contains_key(character@),
            i < old(self).alias.as_map()[character@]@.len(),
        ensures
            final(self).ui_settings == old(self).ui_settings,
            final(self).alias.as_map().dom() == old(self).alias.as_map().dom(),
            texts(final(self).alias.as_map()[character@]@) == texts(old(self).alias.as_map()[character@]@).remove(i as int),
            forall|k: Seq<char>| k != character@ && #[trigger] old(self).alias.as_map().contains_key(k) ==> final(self).alias.as_map()[k] == old(self).alias.as_map()[k],
    {
        let ghost old_alias = self.alias.as_map();
        let mut list = self.alias.remove(character).unwrap();
        let ghost before = list@;
        list.remove(i);
        let key = string_from_chars(chars_of(character).as_slice());
        self.alias.insert(key, list);
        proof {
            assert(self.alias.as_map().dom() =~= old_alias.dom());
            assert(texts(self.alias.as_map()[character@]@) =~= texts(before).remove(i as int));
        }
    }
}

/// A mention is looked for in exactly the part of a line after its first
/// `>`, as it stands (leading space included): a line made of a speaker part
/// with no `>`, a `>`, and a message adds the name's sound exactly when the
/// name's pattern matches that message, after the sounds of the lines before.
pub proof fn law_mention_matched_in_message(
    name: Seq<char>,
    logs: Seq<Seq<char>>,
    speaker: Seq<char>,
    message: Seq<char>,
    settings: Map<Seq<char>, CharacterSettings>,
)
    requires
        !speaker.contains('>'),
    ensures
        sounds_for_name(name, logs.push(speaker + seq!['>'] + message), settings) == if regex_matches(
            mention_pattern(name),
            message,
        ) {
            sounds_for_name(name, logs, settings).push(mention_sound(settings, name))
        } else {
            sounds_for_name(name, logs, settings)
        },
{
    let line = speaker + seq!['>'] + message;
    let all = logs.push(line);
    assert(all.drop_last() =~= logs);
    assert(all.last() == line);
    assert forall|k: int| 0 <= k < speaker.len() implies #[trigger] line[k] != '>' by {
        assert(line[k] == speaker[k]);
        if speaker[k] == '>' {
            assert(speaker.contains('>'));
        }
    }
    lemma_after_first_gt_skip(line, speaker.len() as int);
    assert(line.subrange(speaker.len() + 1 as int, line.len() as int) =~= message);
}

} // verus!
