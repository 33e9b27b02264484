use woodpecker::cpu::Command;
use woodpecker::error::ParseError;
use woodpecker::parse::parse_program;

#[test]
fn from_str_reads_bare_mnemonics() {
    assert_eq!(Command::from_str("INC"), Ok(Command::Inc(1)));
    assert_eq!(Command::from_str("INV"), Ok(Command::Inv));
    assert_eq!(Command::from_str("LOAD"), Ok(Command::Load));
    assert_eq!(Command::from_str("CDEC"), Ok(Command::Cdec(1)));
}

#[test]
fn from_str_reads_repetition_counts() {
    assert_eq!(Command::from_str("INC 5"), Ok(Command::Inc(5)));
    assert_eq!(Command::from_str("CDEC 12"), Ok(Command::Cdec(12)));
    assert_eq!(Command::from_str("INC 4294967295"), Ok(Command::Inc(4294967295)));
}

#[test]
fn from_str_ignores_surrounding_blanks() {
    assert_eq!(Command::from_str("  LOAD  "), Ok(Command::Load));
    assert_eq!(Command::from_str("\tINC\t7\t"), Ok(Command::Inc(7)));
}

#[test]
fn from_str_is_case_sensitive() {
    let err = Command::from_str("inc").unwrap_err();
    assert_eq!(err.command_text, "inc");
    let err = Command::from_str("Load").unwrap_err();
    assert_eq!(err.command_text, "Load");
}

#[test]
fn from_str_rejects_bad_counts_with_a_note() {
    let err = Command::from_str("INC x").unwrap_err();
    assert_eq!(err.command_text, "INC x: invalid repetition count");
    let err = Command::from_str("CDEC 12a").unwrap_err();
    assert_eq!(err.command_text, "CDEC 12a: invalid repetition count");
    let err = Command::from_str("INC 4294967296").unwrap_err();
    assert_eq!(err.command_text, "INC 4294967296: invalid repetition count");
}

#[test]
fn from_str_rejects_extra_tokens() {
    let err = Command::from_str("INC 1 2").unwrap_err();
    assert_eq!(err.command_text, "INC 1 2");
    let err = Command::from_str("LOAD 1").unwrap_err();
    assert_eq!(err.command_text, "LOAD 1");
}

#[test]
fn from_str_rejects_blank_lines() {
    let err = Command::from_str("").unwrap_err();
    assert_eq!(err.command_text, "");
    let err = Command::from_str("   ").unwrap_err();
    assert_eq!(err.command_text, "   ");
}

#[test]
fn parse_program_reads_commands() {
    let lines = vec!["INC 2".to_string(), "INV".to_string(), "LOAD".to_string()];
    let (size, cmds) = parse_program(&lines).unwrap();
    assert_eq!(size, None);
    assert_eq!(cmds, vec![Command::Inc(2), Command::Inv, Command::Load]);
}

#[test]
fn parse_program_reads_a_size_declaration() {
    let lines = vec!["bits: 64".to_string(), "INC".to_string()];
    let (size, cmds) = parse_program(&lines).unwrap();
    assert_eq!(size, Some(64));
    assert_eq!(cmds, vec![Command::Inc(1)]);
}

#[test]
fn parse_program_rejects_bad_size_declarations() {
    assert_eq!(
        parse_program(&vec!["bits: x".to_string()]),
        Err(ParseError::BitCountParseError)
    );
    assert_eq!(
        parse_program(&vec!["bits: 0".to_string()]),
        Err(ParseError::BitCountParseError)
    );
    assert_eq!(
        parse_program(&vec!["bits:".to_string()]),
        Err(ParseError::BitCountParseError)
    );
}

#[test]
fn parse_program_reports_the_failing_line() {
    let lines = vec!["INC".to_string(), "oops".to_string(), "INV".to_string()];
    match parse_program(&lines) {
        Err(ParseError::CommandParseError { cmd, line }) => {
            assert_eq!(cmd, "oops");
            assert_eq!(line, 1);
        }
        other => panic!("unexpected result: {:?}", other),
    }
}

#[test]
fn parse_program_counts_lines_after_the_declaration() {
    let lines = vec!["mem: 32".to_string(), "INC".to_string(), "nope".to_string()];
    match parse_program(&lines) {
        Err(ParseError::CommandParseError { cmd, line }) => {
            assert_eq!(cmd, "nope");
            assert_eq!(line, 2);
        }
        other => panic!("unexpected result: {:?}", other),
    }
}

#[test]
fn parse_error_messages() {
    assert_eq!(
        ParseError::BitCountParseError.message(),
        "invalid bit count specification"
    );
    let e = ParseError::CommandParseError { cmd: "oops".to_string(), line: 17 };
    assert_eq!(e.message(), "invalid command 'oops' at line 17");
}

#[test]
fn command_to_text_prints_source_form() {
    assert_eq!(Command::Inc(3).to_text(), "INC 3");
    assert_eq!(Command::Inc(1).to_text(), "INC 1");
    assert_eq!(Command::Inv.to_text(), "INV");
    assert_eq!(Command::Load.to_text(), "LOAD");
    assert_eq!(Command::Cdec(40).to_text(), "CDEC 40");
}
