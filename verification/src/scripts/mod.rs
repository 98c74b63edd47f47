//! The log scripts: what each one does with new log lines.
pub mod util;
pub mod notification;
pub mod combat_notifier;
pub mod decloak_notifier;
pub mod friendly_activation;
pub mod mentioned_notifier;
pub mod mining_notifier;
pub mod log_printer;
