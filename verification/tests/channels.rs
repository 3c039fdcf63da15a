use image_notify_bot::channels::{
    channel_add, channel_add_reply, channel_list, channel_remove, channel_remove_reply,
    MonitoredChannels,
};
use std::collections::{BTreeMap, BTreeSet};

#[test]
fn add_then_watched() {
    let mut m = MonitoredChannels::new();
    assert!(!m.is_monitored(Some(1), 10));
    assert!(channel_add(&mut m, Some(1), 10));
    assert!(m.is_monitored(Some(1), 10));
    assert!(!m.is_monitored(Some(2), 10));
    assert!(!m.is_monitored(Some(1), 11));
    assert!(!m.is_monitored(None, 10));
}

#[test]
fn adding_twice_changes_nothing() {
    let mut m = MonitoredChannels::new();
    assert!(channel_add(&mut m, Some(1), 10));
    let before = m.guilds.clone();
    assert!(!channel_add(&mut m, Some(1), 10));
    assert_eq!(m.guilds, before);
}

#[test]
fn remove_undoes_add() {
    let mut m = MonitoredChannels::new();
    channel_add(&mut m, Some(1), 10);
    channel_add(&mut m, Some(2), 20);
    let before = m.guilds.clone();
    assert!(channel_add(&mut m, Some(1), 11));
    assert!(channel_remove(&mut m, Some(1), 11));
    assert_eq!(m.guilds, before);
    assert!(channel_add(&mut m, Some(3), 30));
    assert!(channel_remove(&mut m, Some(3), 30));
    assert_eq!(m.guilds, before);
}

#[test]
fn remove_cases() {
    let mut m = MonitoredChannels::new();
    // A guild that is not registered: success, nothing changes.
    assert!(channel_remove(&mut m, Some(5), 50));
    assert!(m.guilds.is_empty());
    channel_add(&mut m, Some(5), 50);
    channel_add(&mut m, Some(5), 51);
    // A registered guild without that channel: refused.
    assert!(!channel_remove(&mut m, Some(5), 52));
    assert!(channel_remove(&mut m, Some(5), 50));
    assert!(!m.is_monitored(Some(5), 50));
    assert!(m.is_monitored(Some(5), 51));
    // The last channel leaves, and the guild with it.
    assert!(channel_remove(&mut m, Some(5), 51));
    assert!(!m.guilds.contains_key(&Some(5)));
}

#[test]
fn empty_guild_set_is_left_alone() {
    let mut guilds = BTreeMap::new();
    guilds.insert(Some(9u64), BTreeSet::new());
    let mut m = MonitoredChannels { guilds };
    assert!(!channel_remove(&mut m, Some(9), 1));
    assert!(m.guilds.contains_key(&Some(9)));
}

#[test]
fn listing() {
    let mut m = MonitoredChannels::new();
    assert_eq!(
        channel_list(&m, None),
        "This command is not available outside guilds..."
    );
    assert_eq!(
        channel_list(&m, Some(1)),
        "There's no monitored channel in the server yet..."
    );
    channel_add(&mut m, Some(1), 300);
    channel_add(&mut m, Some(1), 7);
    channel_add(&mut m, Some(1), 1066602611303780393);
    channel_add(&mut m, None, 5);
    assert_eq!(channel_list(&m, Some(1)), "<#7>\n<#300>\n<#1066602611303780393>\n");
    assert_eq!(
        channel_list(&m, None),
        "This command is not available outside guilds..."
    );
    let mut guilds = BTreeMap::new();
    guilds.insert(Some(2u64), BTreeSet::new());
    let empty = MonitoredChannels { guilds };
    assert_eq!(
        channel_list(&empty, Some(2)),
        "There's no monitored channel in the server yet..."
    );
}

#[test]
fn command_replies() {
    assert_eq!(channel_add_reply(true), "Success...");
    assert_eq!(channel_add_reply(false), "Channel is already monitored...");
    assert_eq!(channel_remove_reply(true), "Success...");
    assert_eq!(channel_remove_reply(false), "Channel is already not monitored...");
}
