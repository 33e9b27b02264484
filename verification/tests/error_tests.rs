use woodpecker::challenge::ChallengeError;
use woodpecker::error::{CpuError, ExecutionError, ParseError};

#[test]
fn execution_errors_wrap_their_causes() {
    let e: ExecutionError = ParseError::BitCountParseError.into();
    assert_eq!(e, ExecutionError::ParseError(ParseError::BitCountParseError));
    let e: ExecutionError = CpuError::OutOfMemory.into();
    assert_eq!(e, ExecutionError::CpuError(CpuError::OutOfMemory));
    let e: ExecutionError = ChallengeError::InvalidChallenge.into();
    assert_eq!(e, ExecutionError::ChallengeError(ChallengeError::InvalidChallenge));
}

#[test]
fn execution_errors_carry_their_texts() {
    let e = ExecutionError::IoError("file vanished".to_string());
    assert_eq!(e.message(), "file vanished");
    let e = ExecutionError::ParseError(ParseError::CommandParseError {
        cmd: "INC x: invalid repetition count".to_string(),
        line: 3,
    });
    assert_eq!(
        e.message(),
        "invalid command 'INC x: invalid repetition count' at line 3"
    );
    let e = ExecutionError::CpuError(CpuError::NegativeAddr);
    assert_eq!(e.message(), "attempted to move below address 0");
    let e = ExecutionError::ChallengeError(ChallengeError::InvalidChallenge);
    assert_eq!(e.message(), "no such challenge exists");
}
