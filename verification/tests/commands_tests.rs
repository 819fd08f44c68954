use tavern::commands::{
    banned_words_usage, basic_role_set_message, basic_role_taken_message, basic_role_usage,
    log_channel_set_message, log_channel_taken_message, logs_usage, moderated_role_set_message,
    moderated_role_taken_message, moderated_role_usage, parse_id_argument, plan_assignment,
    sandwich_message, say_message, server_usage, unknown_command_message, AssignmentPlan,
};

#[test]
fn usage_texts() {
    assert_eq!(
        banned_words_usage(),
        "You need to specify what you want to do, dumbass!\nYou can use:\n> banned_words **add {words}**\n> banned_words **remove {words}**\n> banned_words **show**\n"
    );
    assert_eq!(
        moderated_role_usage(),
        "You need to specify what to do, dumbass!\nYou can use:\n> moderated_role **add {role id/role ping}**\n> moderated_role **remove {role id/role ping}**\n"
    );
    assert_eq!(
        basic_role_usage(),
        "You need to specify what to do, dumbass!\nYou can use:\n> basic_role **add {role id/role ping}**\n> basic_role **remove {role id/role ping}**\n> basic_role **show {role id/role ping}**\n"
    );
    assert_eq!(
        logs_usage(),
        "You need to specify what to do, dumbass!\nYou can use:\n> logs **add {channel id/channel ping}**\n> logs **remove {channel id/channel ping}**\n> logs **show {channel id/channel ping}**\n"
    );
    assert_eq!(
        server_usage(),
        "You need to specify what you want to do, dumbass!\nYou can use:\n> server **describe**\n"
    );
}

#[test]
fn plan_keeps_existing_setting() {
    match plan_assignment(Some("77"), Some("88")) {
        AssignmentPlan::AlreadyAssigned(id) => assert_eq!(id, "77"),
        _ => panic!("an existing setting must be kept"),
    }
}

#[test]
fn plan_without_argument() {
    assert!(matches!(plan_assignment(None, None), AssignmentPlan::MissingArgument));
}

#[test]
fn plan_with_invalid_id() {
    assert!(matches!(plan_assignment(None, Some("abc")), AssignmentPlan::InvalidId));
    assert!(matches!(plan_assignment(None, Some("<#123>")), AssignmentPlan::InvalidId));
}

#[test]
fn plan_with_id_or_ping() {
    assert!(matches!(plan_assignment(None, Some("123")), AssignmentPlan::Assign(123)));
    assert!(matches!(plan_assignment(None, Some("<@&456>")), AssignmentPlan::Assign(456)));
    assert!(matches!(plan_assignment(None, Some("<@789>")), AssignmentPlan::Assign(789)));
}

#[test]
fn id_arguments() {
    assert_eq!(parse_id_argument("<@&18446744073709551615>"), Some(u64::MAX));
    assert_eq!(parse_id_argument("+5"), Some(5));
    assert_eq!(parse_id_argument("<@&x>"), None);
}

#[test]
fn role_and_channel_replies() {
    assert_eq!(moderated_role_taken_message("5"), "Guild already has one role to moderate!: **5**");
    assert_eq!(basic_role_taken_message("ERR"), "Guild already has basic role: **ERR**");
    assert_eq!(log_channel_taken_message("9"), "Guild already has log channel: **9**");
    assert_eq!(moderated_role_set_message(5), "Role <@&5> is now under surveilence");
    assert_eq!(basic_role_set_message(6), "Role <@&6> is now a basic role.");
    assert_eq!(log_channel_set_message(7), "I will now send logs on channel <#7>");
}

#[test]
fn mention_round_trip() {
    let ping = moderated_role_set_message(31337);
    let mention = &ping["Role ".len()..ping.len() - " is now under surveilence".len()];
    assert_eq!(mention, "<@&31337>");
    assert_eq!(parse_id_argument(mention), Some(31337));
}

#[test]
fn general_replies() {
    assert_eq!(sandwich_message(12), "<@12>** Here is your sandwich**");
    assert_eq!(unknown_command_message(3), "<@3> stop mumbling. I don't understand.");
    assert_eq!(say_message(&vec!["hi".to_string(), "there".to_string()]), " hi there");
    assert_eq!(say_message(&vec![]), "");
}
