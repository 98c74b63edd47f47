use eve_log_scripts::scripts::notification::{
    play_notification, register_notification, set_default, Notification, NotificationError, NotificationRegistry,
    NotificationUi, DEFAULT_NOTIFICATION,
};

#[test]
fn default_needs_a_registered_sound() {
    let registry: NotificationRegistry<u32> = NotificationRegistry::new();
    assert_eq!(DEFAULT_NOTIFICATION, "Default");
    assert_eq!(play_notification(&registry, DEFAULT_NOTIFICATION), Err(NotificationError::DefaultInvalid));
    assert_eq!(play_notification(&registry, "Cake"), Err(NotificationError::UnknownSound));
    assert_eq!(registry.default(), "");
}

#[test]
fn first_registered_sound_becomes_default() {
    let mut registry: NotificationRegistry<u32> = NotificationRegistry::new();
    register_notification(&mut registry, "Cake".to_string(), 1);
    register_notification(&mut registry, "Bell".to_string(), 2);
    assert_eq!(registry.default(), "Cake");
    assert_eq!(play_notification(&registry, DEFAULT_NOTIFICATION), Ok(&1));
    assert_eq!(play_notification(&registry, "Bell"), Ok(&2));
    assert_eq!(play_notification(&registry, "Cake"), Ok(&1));
    assert_eq!(play_notification(&registry, "Ding"), Err(NotificationError::UnknownSound));
    assert_eq!(registry.names(), vec!["Bell", "Cake"]);
}

#[test]
fn registering_again_replaces_the_sound() {
    let mut registry: NotificationRegistry<u32> = NotificationRegistry::new();
    register_notification(&mut registry, "Cake".to_string(), 1);
    register_notification(&mut registry, "Cake".to_string(), 7);
    assert_eq!(play_notification(&registry, "Cake"), Ok(&7));
    assert_eq!(registry.names(), vec!["Cake"]);
}

#[test]
fn default_can_be_changed_or_dangle() {
    let mut registry: NotificationRegistry<u32> = NotificationRegistry::new();
    register_notification(&mut registry, "Cake".to_string(), 1);
    register_notification(&mut registry, "Bell".to_string(), 2);
    set_default(&mut registry, "Bell".to_string());
    assert_eq!(play_notification(&registry, DEFAULT_NOTIFICATION), Ok(&2));
    assert_eq!(registry.remove("Bell"), Some(2));
    assert_eq!(registry.remove("Bell"), None);
    assert_eq!(registry.default(), "Bell");
    assert_eq!(play_notification(&registry, "Bell"), Err(NotificationError::UnknownSound));
    assert_eq!(play_notification(&registry, DEFAULT_NOTIFICATION), Err(NotificationError::UnknownSound));
    set_default(&mut registry, String::new());
    assert_eq!(play_notification(&registry, DEFAULT_NOTIFICATION), Err(NotificationError::DefaultInvalid));
    register_notification(&mut registry, "Ding".to_string(), 3);
    assert_eq!(registry.default(), "Ding");
    assert!(registry.contains("Cake"));
    assert!(!registry.contains("Bell"));
    assert_eq!(registry.get("Ding"), Some(&3));
}

#[test]
fn notifications_hold_their_source() {
    let mut registry: NotificationRegistry<Notification> = NotificationRegistry::new();
    register_notification(&mut registry, "Custom".to_string(), Notification::Custom("/sounds/a.mp3".to_string()));
    register_notification(&mut registry, "Built".to_string(), Notification::BuiltIn(&[1, 2, 3]));
    match play_notification(&registry, DEFAULT_NOTIFICATION) {
        Ok(Notification::Custom(p)) => assert_eq!(p, "/sounds/a.mp3"),
        other => panic!("unexpected {:?}", other),
    }
    match play_notification(&registry, "Built") {
        Ok(Notification::BuiltIn(bytes)) => assert_eq!(*bytes, [1, 2, 3]),
        other => panic!("unexpected {:?}", other),
    }
}

#[test]
fn notification_form_needs_a_name() {
    let registry: NotificationRegistry<u32> = NotificationRegistry::new();
    let mut form = NotificationUi::new();
    assert!(form.path_entry.is_none());
    form.path_entry = Some("/sounds/a.mp3".to_string());
    assert_eq!(form.submit(&registry), None);
    assert_eq!(form.error_msg, "Enter a name");
    assert_eq!(form.path_entry.as_deref(), Some("/sounds/a.mp3"));
}

#[test]
fn notification_form_refuses_names_in_use() {
    let mut registry: NotificationRegistry<u32> = NotificationRegistry::new();
    register_notification(&mut registry, "Cake".to_string(), 1);
    let mut form = NotificationUi::new();
    form.path_entry = Some("/sounds/a.mp3".to_string());
    form.name = "Cake".to_string();
    assert_eq!(form.submit(&registry), None);
    assert_eq!(form.error_msg, "Cake already exists");
    assert_eq!(form.name, "Cake");
    form.name = "Horn".to_string();
    assert_eq!(form.submit(&registry), Some(("Horn".to_string(), "/sounds/a.mp3".to_string())));
    assert_eq!(form.error_msg, "");
    assert_eq!(form.name, "");
    assert!(form.path_entry.is_none());
}

#[test]
fn registered_sound_plays_by_name_and_as_default() {
    let mut registry: NotificationRegistry<&str> = NotificationRegistry::new();
    register_notification(&mut registry, "Horn".to_string(), "horn");
    assert_eq!(play_notification(&registry, "Horn"), Ok(&"horn"));
    assert_eq!(play_notification(&registry, DEFAULT_NOTIFICATION), Ok(&"horn"));
}

#[test]
fn insert_sound_keeps_the_default() {
    let mut registry: NotificationRegistry<u32> = NotificationRegistry::new();
    registry.insert_sound("Cake".to_string(), 1);
    assert_eq!(registry.default(), "");
    assert_eq!(play_notification(&registry, "Cake"), Ok(&1));
    assert_eq!(play_notification(&registry, DEFAULT_NOTIFICATION), Err(NotificationError::DefaultInvalid));
    register_notification(&mut registry, "Bell".to_string(), 2);
    registry.insert_sound("Bell".to_string(), 5);
    assert_eq!(registry.default(), "Bell");
    assert_eq!(play_notification(&registry, DEFAULT_NOTIFICATION), Ok(&5));
}
