use tavern::database::{parse_descriptions, CommandDescriptions};

#[test]
fn descriptions_are_parsed() {
    let parsed = parse_descriptions(';', "say;Repeats you\nhelp;Lists commands;really\n", "d.txt").unwrap();
    assert_eq!(
        parsed,
        vec![
            ("say".to_string(), "Repeats you".to_string()),
            ("help".to_string(), "Lists commands;really".to_string()),
        ]
    );
}

#[test]
fn descriptions_syntax_error() {
    let err = parse_descriptions(';', "say;Repeats you\nbroken line\n", "descriptions.txt").unwrap_err();
    assert_eq!(err, "Syntax error while retrieving a hashmap from a file, descriptions.txt");
}

#[test]
fn descriptions_other_separator_error_on_first_line() {
    let err = parse_descriptions('#', "no separator here", "f").unwrap_err();
    assert_eq!(err, "Syntax error while retrieving a hashmap from a file, f");
}

#[test]
fn help_lists_each_command_once_with_last_description() {
    let d = CommandDescriptions::new(vec![
        ("say".to_string(), "old".to_string()),
        ("help".to_string(), "Lists commands".to_string()),
        ("say".to_string(), "new".to_string()),
    ]);
    assert_eq!(
        d.help_message(),
        "These are command descriptions: \nsay: **new**\nhelp: **Lists commands**\n"
    );
}

#[test]
fn help_without_commands() {
    let d = CommandDescriptions::new(vec![]);
    assert_eq!(d.help_message(), "These are command descriptions: \n");
}
