use tavern::guild::{strip_mention, GuildDescription};

#[test]
fn strip_mention_test() {
    let a = strip_mention("<@123>");
    assert_eq!(a, "123");
}

#[test]
fn strip_mention_test_2() {
    let a = strip_mention("123");
    assert_eq!(a, "123");
}

#[test]
fn strip_mention_role_ping() {
    assert_eq!(strip_mention("<@&987654321>"), "987654321");
}

#[test]
fn strip_mention_edge_cases() {
    assert_eq!(strip_mention("<@&>"), "");
    assert_eq!(strip_mention("<@>"), "");
    assert_eq!(strip_mention("<@&12"), "<@&12");
    assert_eq!(strip_mention("<#55>"), "<#55>");
    assert_eq!(strip_mention(""), "");
}

fn sample_guild() -> GuildDescription {
    GuildDescription::from_record(
        "42".to_string(),
        Some("7".to_string()),
        None,
        None,
        vec!["beer".to_string(), "wine".to_string()],
    )
}

#[test]
fn new_registered_guild_has_placeholders() {
    let g = GuildDescription::new_registered("99");
    assert_eq!(g.get_guild_id(), "99");
    assert_eq!(g.get_moderated_role_id(), Some("ERR"));
    assert_eq!(g.get_basic_role_id(), Some("ERR"));
    assert_eq!(g.get_log_channel_id(), None);
    assert!(g.get_banned_words().is_empty());
}

#[test]
fn settings_are_set_and_cleared() {
    let mut g = sample_guild();
    g.create_basic_role("11".to_string());
    g.create_log_channel("12".to_string());
    assert_eq!(g.get_basic_role_id(), Some("11"));
    assert_eq!(g.get_log_channel_id(), Some("12"));
    g.delete_moderated_role();
    assert_eq!(g.get_moderated_role_id(), None);
    g.create_moderated_role("13".to_string());
    assert_eq!(g.get_moderated_role_id(), Some("13"));
    g.delete_basic_role();
    g.delete_log_channel();
    assert_eq!(g.get_basic_role_id(), None);
    assert_eq!(g.get_log_channel_id(), None);
    assert_eq!(g.get_guild_id(), "42");
}

#[test]
fn add_then_remove_word_restores_list() {
    let mut g = sample_guild();
    g.add_word_to_moderate("rum".to_string());
    assert_eq!(g.get_banned_words(), &vec!["beer".to_string(), "wine".to_string(), "rum".to_string()]);
    g.remove_word_from_moderation("rum");
    assert_eq!(g.get_banned_words(), &vec!["beer".to_string(), "wine".to_string()]);
}

#[test]
fn remove_word_removes_first_occurrence_only() {
    let mut g = GuildDescription::from_record(
        "1".to_string(),
        None,
        None,
        None,
        vec!["a".to_string(), "b".to_string(), "a".to_string()],
    );
    g.remove_word_from_moderation("a");
    assert_eq!(g.get_banned_words(), &vec!["b".to_string(), "a".to_string()]);
    g.remove_word_from_moderation("zzz");
    assert_eq!(g.get_banned_words(), &vec!["b".to_string(), "a".to_string()]);
}

#[test]
fn guild_description_message_with_words() {
    let g = sample_guild();
    assert_eq!(
        g.guild_description_msg(),
        "Guild id: **42**\nId of moderated role: **7**\nId of basic role: _None_\nList of banned words: \n> **beer**\n> **wine**\n"
    );
}

#[test]
fn guild_description_message_without_words() {
    let g = GuildDescription::from_record("5".to_string(), None, Some("6".to_string()), None, vec![]);
    assert_eq!(
        g.guild_description_msg(),
        "Guild id: **5**\nId of moderated role: _None_\nId of basic role: **6**\nList of banned words: \n_None_\n"
    );
}

#[test]
fn show_messages() {
    let g = sample_guild();
    assert_eq!(g.moderated_role_message(), "Moderated role: **7**");
    assert_eq!(g.basic_role_message(), "Basic role: _None_");
    assert_eq!(g.log_channel_message(), "Log channel: _None_");
    assert_eq!(g.banned_words_message(), "List of banned words: \n> **beer**\n> **wine**\n");
}
