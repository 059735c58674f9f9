use vault::cli::{complete_command, parse_cli_command, Command as CliCommand, VaultHelper};
use vault::command::{parse_command, Command};

#[test]
fn parses_each_command() {
    assert!(matches!(parse_command("unlock personal"), Some(Command::Unlock(v)) if v == "personal"));
    assert!(matches!(parse_command("lock"), Some(Command::Lock)));
    assert!(matches!(parse_command("ls"), Some(Command::List)));
    assert!(matches!(parse_command("get github"), Some(Command::Get(s)) if s == "github"));
    assert!(matches!(parse_command("create work"), Some(Command::Create(v)) if v == "work"));
    assert!(matches!(parse_command("commit"), Some(Command::Commit)));
    assert!(matches!(parse_command("rm github"), Some(Command::Remove(s)) if s == "github"));
    assert!(matches!(parse_command("exit"), Some(Command::Exit)));
    assert!(matches!(parse_command("help"), Some(Command::Help)));
    match parse_command("add github alice s3cret") {
        Some(Command::Add { service, username, password }) => {
            assert_eq!(service, "github");
            assert_eq!(username, "alice");
            assert_eq!(password, "s3cret");
        }
        _ => panic!("add not parsed"),
    }
}

#[test]
fn white_space_separates_words() {
    assert!(matches!(parse_command("  get \t github  extra\n"), Some(Command::Get(s)) if s == "github"));
    assert!(matches!(parse_command("get\u{3000}münchen"), Some(Command::Get(s)) if s == "münchen"));
}

#[test]
fn missing_arguments_and_unknown_words_give_none() {
    assert!(parse_command("").is_none());
    assert!(parse_command("   ").is_none());
    assert!(parse_command("unlock").is_none());
    assert!(parse_command("add a b").is_none());
    assert!(parse_command("edit x").is_none());
    assert!(parse_command("LOCK").is_none());
    assert!(parse_command("list").is_none());
}

#[test]
fn parses_interactive_commands() {
    assert!(matches!(parse_cli_command("list"), Some(CliCommand::List)));
    assert!(matches!(parse_cli_command("ls"), Some(CliCommand::List)));
    assert!(matches!(parse_cli_command("clear"), Some(CliCommand::Clear)));
    assert!(matches!(parse_cli_command("lock"), Some(CliCommand::Lock)));
    assert!(matches!(parse_cli_command("commit"), Some(CliCommand::Commit)));
    assert!(matches!(parse_cli_command("help"), Some(CliCommand::Help)));
    assert!(matches!(parse_cli_command("exit"), Some(CliCommand::Exit)));
    assert!(matches!(parse_cli_command("unlock v"), Some(CliCommand::Unlock(v)) if v == "v"));
    assert!(matches!(parse_cli_command("create v"), Some(CliCommand::Create(v)) if v == "v"));
    assert!(matches!(parse_cli_command("get s"), Some(CliCommand::Get(s)) if s == "s"));
    assert!(matches!(parse_cli_command("rm s"), Some(CliCommand::Remove(s)) if s == "s"));
    match parse_cli_command("add github alice") {
        Some(CliCommand::Add { service, username }) => {
            assert_eq!(service, "github");
            assert_eq!(username, "alice");
        }
        _ => panic!("add not parsed"),
    }
    assert!(parse_cli_command("add github").is_none());
    assert!(parse_cli_command("nope").is_none());
}

#[test]
fn completion_keeps_commands_with_the_prefix_in_order() {
    let cmds: Vec<String> = ["create", "unlock", "lock", "list", "ls", "commit", "clear"]
        .iter()
        .map(|s| s.to_string())
        .collect();
    assert_eq!(complete_command(&cmds, "l"), vec!["lock", "list", "ls"]);
    assert_eq!(complete_command(&cmds, "c"), vec!["create", "commit", "clear"]);
    assert_eq!(complete_command(&cmds, ""), cmds);
    assert!(complete_command(&cmds, "x").is_empty());
    assert!(complete_command(&cmds, "locked").is_empty());
}

#[test]
fn helper_completes_its_commands() {
    let helper = VaultHelper::new(vec!["create", "commit", "lock"]);
    assert_eq!(helper.complete("co"), vec!["commit"]);
    assert_eq!(helper.complete("c"), vec!["create", "commit"]);
    assert!(helper.complete("z").is_empty());
}
