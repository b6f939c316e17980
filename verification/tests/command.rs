use haskell_lib::cmd::{read_command, Command};

#[test]
fn source_path_reads_a_file() {
    assert_eq!(
        read_command(Some("main.mk".to_owned()), None),
        Command::FileRead("main.mk".to_owned())
    );
}

#[test]
fn inline_code_is_run() {
    assert_eq!(
        read_command(None, Some("1 + 2".to_owned())),
        Command::RunInlineCode("1 + 2".to_owned())
    );
}

#[test]
fn source_path_wins_over_inline_code() {
    assert_eq!(
        read_command(Some("main.mk".to_owned()), Some("1 + 2".to_owned())),
        Command::FileRead("main.mk".to_owned())
    );
}

#[test]
fn no_option_is_no_command() {
    assert_eq!(read_command(None, None), Command::Noop);
}
