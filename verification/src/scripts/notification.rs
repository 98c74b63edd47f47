//! The notification sounds: which are known under which name, which one is
//! the default, and what a request to play one resolves to.
use vstd::prelude::*;
use crate::text::{same_text, texts};
use crate::text_map::TextMap;

verus! {

/// The name that stands for whatever sound is the default.
pub const DEFAULT_NOTIFICATION: &'static str = "Default";

/// Why a sound could not be played.
#[derive(Debug, Clone, Copy, PartialEq, Eq, Structural)]
pub enum NotificationError {
    /// No sound is known under the name asked for.
    UnknownSound,
    /// The player could not be reached.
    InternalError,
    /// The default sound was asked for and none is set.
    DefaultInvalid,
}

/// Where a sound comes from: built into the program, or a file.
#[derive(Debug, Clone)]
pub enum Notification {
    BuiltIn(&'static [u8]),
    Custom(String),
}

/// The known sounds by name, each with what the player needs of it (`V`),
/// and the name of the default one.
pub struct NotificationRegistry<V> {
    notifications: TextMap<V>,
    default: String,
}

/// The name a request for `sound` looks up: the default's name for
/// `DEFAULT_NOTIFICATION`, else `sound` itself.
pub open spec fn lookup_name(sound: Seq<char>, default: Seq<char>) -> Seq<char> {
    if sound == DEFAULT_NOTIFICATION@ {
        default
    } else {
        sound
    }
}

impl<V> NotificationRegistry<V> {
    /// The known sounds by name.
    pub closed spec fn sounds(self) -> Map<Seq<char>, V> {
        self.notifications.as_map()
    }

    /// The name of the default sound; empty when none is set.
    pub closed spec fn default_name(self) -> Seq<char> {
        self.default@
    }

    /// No sounds, no default.
    pub fn new() -> (r: Self)
        ensures
            r.sounds() == Map::<Seq<char>, V>::empty(),
            r.default_name() == Seq::<char>::empty(),
    {
        NotificationRegistry { notifications: TextMap::new(), default: String::new() }
    }

    /// The default sound's name.
    pub fn default(&self) -> (r: &String)
        ensures
            r@ == self.default_name(),
    {
        &self.default
    }

    /// Whether a sound is known under `name`.
    pub fn contains(&self, name: &str) -> (r: bool)
        ensures
            r == self.sounds().contains_key(name@),
    {
        self.notifications.contains_key(name)
    }

    /// The sound known under `name`, if any.
    pub fn get(&self, name: &str) -> (r: Option<&V>)
        ensures
            r == if self.sounds().contains_key(name@) {
                Some(&self.sounds()[name@])
            } else {
                None
            },
    {
        self.notifications.get(name)
    }

    /// Forgets the sound known under `name`; the default's name stays.
    pub fn remove(&mut self, name: &str) -> (r: Option<V>)
        ensures
            final(self).sounds() == old(self).sounds().remove(name@),
            final(self).default_name() == old(self).default_name(),
            r == if old(self).sounds().contains_key(name@) {
                Some(old(self).sounds()[name@])
            } else {
                None
            },
    {
        self.notifications.remove(name)
    }

    /// Knows `notification` under `name` from now on, replacing what was
    /// known under it; the default's name stays as it is.
    pub fn insert_sound(&mut self, name: String, notification: V)
        ensures
            final(self).sounds() == old(self).sounds().insert(name@, notification),
            final(self).default_name() == old(self).default_name(),
    {
        self.notifications.insert(name, notification);
    }

    /// The names of the known sounds, in ascending order, each once.
    pub fn names(&self) -> (r: Vec<String>)
        ensures
            crate::text_map::strictly_sorted(texts(r@)),
            forall|k: Seq<char>| self.sounds().contains_key(k) <==> #[trigger] texts(r@).contains(k),
    {
        let r = self.notifications.keys();
        proof {
            assert(texts(r@) =~= self.notifications.key_seq());
        }
        r
    }
}

/// Makes `default` the default sound's name.
pub fn set_default<V>(registry: &mut NotificationRegistry<V>, default: String)
    ensures
        final(registry).default_name() == default@,
        final(registry).sounds() == old(registry).sounds(),
{
    registry.default = default;
}

/// Knows `notification` under `name` from now on, replacing what was known
/// under it. The first sound registered while no default is set becomes the
/// default.
pub fn register_notification<V>(registry: &mut NotificationRegistry<V>, name: String, notification: V)
    ensures
        final(registry).sounds() == old(registry).sounds().insert(name@, notification),
        final(registry).default_name() == if old(registry).default_name().len() == 0 {
            name@
        } else {
            old(registry).default_name()
        },
{
    let update_default = registry.default.as_str().is_empty();
    if update_default {
        let d = name.clone();
        set_default(registry, d);
    }
    registry.notifications.insert(name, notification);
}

/// What a request to play `sound` resolves to: the default sound for
/// `DEFAULT_NOTIFICATION` (an error when no default is set), else the sound
/// of that name; an error when no sound is known under the name.
pub fn play_notification<'a, V>(registry: &'a NotificationRegistry<V>, sound: &str) -> (r: Result<&'a V, NotificationError>)
    ensures
        sound@ == DEFAULT_NOTIFICATION@ && registry.default_name().len() == 0 ==> r
            == Err::<&V, NotificationError>(NotificationError::DefaultInvalid),
        !(sound@ == DEFAULT_NOTIFICATION@ && registry.default_name().len() == 0) ==> {
            let key = lookup_name(sound@, registry.default_name());
            if registry.sounds().contains_key(key) {
                r == Ok::<&V, NotificationError>(&registry.sounds()[key])
            } else {
                r == Err::<&V, NotificationError>(NotificationError::UnknownSound)
            }
        },
{
    let to_find: &str;
    if same_text(sound, DEFAULT_NOTIFICATION) {
        to_find = registry.default.as_str();
        if to_find.is_empty() {
            return Err(NotificationError::DefaultInvalid);
        }
    } else {
        to_find = sound;
    }
    match registry.notifications.get(to_find) {
        Some(n) => Ok(n),
        None => Err(NotificationError::UnknownSound),
    }
}

/// Playing what was just registered: once a sound is registered under a name,
/// a request for that name resolves to it; and when no default was set, a
/// request for the default resolves to it too.
pub proof fn law_register_then_play<V>(before: NotificationRegistry<V>, after: NotificationRegistry<V>, name: Seq<char>, v: V)
    requires
        after.sounds() == before.sounds().insert(name, v),
        after.default_name() == if before.default_name().len() == 0 {
            name
        } else {
            before.default_name()
        },
        name != DEFAULT_NOTIFICATION@,
    ensures
        after.sounds().contains_key(lookup_name(name, after.default_name())),
        after.sounds()[lookup_name(name, after.default_name())] == v,
        before.default_name().len() == 0 ==> after.sounds().contains_key(lookup_name(DEFAULT_NOTIFICATION@, after.default_name()))
            && after.sounds()[lookup_name(DEFAULT_NOTIFICATION@, after.default_name())] == v,
{
}

/// Removing undoes registering: once the sound known under a name is
/// removed, a request for that name finds nothing.
pub proof fn law_remove_then_unknown<V>(before: NotificationRegistry<V>, after: NotificationRegistry<V>, name: Seq<char>)
    requires
        after.sounds() == before.sounds().remove(name),
        after.default_name() == before.default_name(),
        name != DEFAULT_NOTIFICATION@,
    ensures
        !after.sounds().contains_key(lookup_name(name, after.default_name())),
{
}

/// The form for adding a custom sound: the file picked, the name typed, and
/// the message shown when the name cannot be used.
pub struct NotificationUi {
    pub path_entry: Option<String>,
    pub name: String,
    pub error_msg: String,
}

impl NotificationUi {
    /// An empty form.
    pub fn new() -> (r: Self)
        ensures
            r.path_entry is None,
            r.name@ == Seq::<char>::empty(),
            r.error_msg@ == Seq::<char>::empty(),
    {
        NotificationUi { path_entry: None, name: String::new(), error_msg: String::new() }
    }

    /// Submits the form once a file is picked. An empty name is refused with
    /// "Enter a name", a name already in use with "<name> already exists";
    /// both leave the form otherwise as it was. Else the name and file are
    /// taken out of the form, the message is cleared, and they are handed
    /// back to be registered.
    pub fn submit<V>(&mut self, registry: &NotificationRegistry<V>) -> (r: Option<(String, String)>)
        requires
            old(self).path_entry is Some,
        ensures
            old(self).name@.len() == 0 ==> r is None && final(self).error_msg@ == "Enter a name"@
                && final(self).name == old(self).name && final(self).path_entry == old(self).path_entry,
            old(self).name@.len() > 0 && registry.sounds().contains_key(old(self).name@) ==> r is None
                && final(self).error_msg@ == old(self).name@ + " already exists"@
                && final(self).name == old(self).name && final(self).path_entry == old(self).path_entry,
            old(self).name@.len() > 0 && !registry.sounds().contains_key(old(self).name@) ==> (r matches Some((n, p))
                && n@ == old(self).name@ && Some(p) == old(self).path_entry
                && final(self).error_msg@.len() == 0 && final(self).name@.len() == 0 && final(self).path_entry is None),
    {
        if self.name.as_str().is_empty() {
            self.error_msg = "Enter a name".to_owned();
            return None;
        }
        if registry.contains(self.name.as_str()) {
            let mut msg = self.name.clone();
            msg.append(" already exists");
            self.error_msg = msg;
            return None;
        }
        self.error_msg = String::new();
        let mut name = String::new();
        std::mem::swap(&mut name, &mut self.name);
        let mut path = None;
        std::mem::swap(&mut path, &mut self.path_entry);
        Some((name, path.unwrap()))
    }
}

} // verus!
