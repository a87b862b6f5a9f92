use dotme::cli::{ArgumentCommands, Arguments, LogLevel};

fn arguments(commands: Option<ArgumentCommands>) -> Arguments {
    Arguments { debug: false, disable_banner: false, config: None, commands }
}

#[test]
fn without_a_command_the_status_is_shown() {
    assert_eq!(arguments(None).command(), ArgumentCommands::Status);
}

#[test]
fn a_given_command_is_carried_out() {
    let add = ArgumentCommands::Add {
        source: "/src/a".to_string(),
        target: None,
        path: Some("/home/u".to_string()),
        folders: Some(vec!["dev".to_string(), "geek".to_string()]),
        dry_run: true,
    };
    assert_eq!(arguments(Some(add.clone())).command(), add);
    for command in [
        ArgumentCommands::Init,
        ArgumentCommands::Update { dry_run: false },
        ArgumentCommands::Status,
        ArgumentCommands::Remove { source: None },
        ArgumentCommands::Remove { source: Some("/src/a".to_string()) },
        ArgumentCommands::List,
    ] {
        assert_eq!(arguments(Some(command.clone())).command(), command);
    }
}

#[test]
fn details_are_logged_on_request() {
    let mut given = arguments(None);
    assert_eq!(given.log_level(), LogLevel::Info);
    given.debug = true;
    assert_eq!(given.log_level(), LogLevel::Debug);
}

#[test]
fn the_banner_is_shown_unless_disabled() {
    let mut given = arguments(None);
    assert!(given.shows_banner());
    given.disable_banner = true;
    assert!(!given.shows_banner());
}
