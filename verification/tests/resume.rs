use umwelt_runtime::{
    resume_started, ClaudeSessionResumer, ResumeError, ResumedSession, SessionResumer,
    UnsupportedResumer,
};

#[test]
fn claude_resume_arguments_reuse_identity_without_forking() {
    let resumer = ClaudeSessionResumer::new("harness", "profile.json", "auto", "transcript.ndjson");

    let arguments = resumer.arguments("session-1", "next text", "7");

    assert!(arguments
        .windows(2)
        .any(|pair| pair == ["--resume", "session-1"]));
    assert!(!arguments
        .iter()
        .any(|argument| argument == "--fork-session"));
    assert_eq!(arguments.last().map(String::as_str), Some("next text"));
}

#[test]
fn resume_arguments_are_the_whole_command_line() {
    let resumer = ClaudeSessionResumer::new("bin/harness", "profile.json", "auto", "out.ndjson");

    assert_eq!(*resumer.executable(), "bin/harness");
    assert_eq!(*resumer.transcript(), "out.ndjson");
    assert_eq!(
        resumer.arguments("session-1", "next text", "40"),
        [
            "--print",
            "--resume",
            "session-1",
            "--settings",
            "profile.json",
            "--permission-mode",
            "auto",
            "--output-format",
            "stream-json",
            "--verbose",
            "--max-turns",
            "40",
            "next text",
        ]
    );
}

#[test]
fn a_process_that_does_not_start_is_a_refusal_in_its_own_words() {
    let refused: Result<ResumedSession<u32>, ResumeError> =
        resume_started(Err("no such file".to_owned()));
    let error = refused.expect_err("a start that failed");
    assert_eq!(error, ResumeError::Harness("no such file".to_owned()));
    assert_eq!(error.message(), "no such file");
    assert_eq!(
        ResumeError::Unsupported.message(),
        "the harness cannot resume headlessly"
    );
    assert!(resume_started(Ok(7u32)).is_ok());
    assert_eq!(error.clone(), error);
    assert_eq!(ResumeError::Unsupported.clone(), ResumeError::Unsupported);
}

#[test]
fn a_harness_that_cannot_resume_refuses_every_time() {
    let mut resumer = UnsupportedResumer::<u32>::new();
    for text in ["first", "second"] {
        let error = resumer.resume("session-1", text).expect_err("a refusal");
        assert_eq!(error, ResumeError::Unsupported);
    }
}
