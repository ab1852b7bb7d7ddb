//! Starting the next turn of a session that has ended its last one.

use std::marker::PhantomData;

use vstd::prelude::*;

verus! {

/// Failure to start a harness session resume.
#[derive(Debug, PartialEq, Eq)]
pub enum ResumeError {
    /// This harness cannot resume a session headlessly.
    Unsupported,
    /// The harness refused or failed to start the resume.
    Harness(String),
}

/// What a [`ResumeError`] says.
pub enum Refusal {
    Unsupported,
    Harness(Seq<char>),
}

impl View for ResumeError {
    type V = Refusal;

    open spec fn view(&self) -> Refusal {
        match *self {
            ResumeError::Unsupported => Refusal::Unsupported,
            ResumeError::Harness(words) => Refusal::Harness(words@),
        }
    }
}

impl Clone for ResumeError {
    fn clone(&self) -> (copy: ResumeError)
        ensures
            copy@ == self@,
    {
        match self {
            ResumeError::Unsupported => ResumeError::Unsupported,
            ResumeError::Harness(words) => ResumeError::Harness(words.clone()),
        }
    }
}

impl ResumeError {
    /// The failure in words.
    pub fn message(&self) -> (words: String)
        ensures
            words@ == match self@ {
                Refusal::Unsupported => "the harness cannot resume headlessly"@,
                Refusal::Harness(reason) => reason,
            },
    {
        match self {
            ResumeError::Unsupported => "the harness cannot resume headlessly".to_owned(),
            ResumeError::Harness(reason) => reason.clone(),
        }
    }
}

/// Proof that a resumed harness process has started. `H` is the handle by
/// which its owner waits for it.
#[derive(Debug)]
pub struct ResumedSession<H> {
    child: Option<H>,
}

impl<H> ResumedSession<H> {
    /// The handle that came with the start, if this process holds it.
    pub closed spec fn handle(&self) -> Option<H> {
        self.child
    }

    /// Record a start whose process is `child`.
    pub fn child(child: H) -> (started: Self)
        ensures
            started.handle() == Some(child),
    {
        ResumedSession { child: Some(child) }
    }

    /// Record a successful start managed outside this process.
    #[must_use]
    pub fn externally_managed() -> (started: Self)
        ensures
            started.handle() is None,
    {
        ResumedSession { child: None }
    }

    pub(crate) fn into_handle(self) -> (child: Option<H>)
        ensures
            child == self.handle(),
    {
        self.child
    }
}

/// One request to resume, and how it was answered.
pub struct Asked<H> {
    pub session_id: Seq<char>,
    pub text: Seq<char>,
    pub answer: Result<Option<H>, Refusal>,
}

/// What the result of a resume says: the handle of the process that started, or
/// why none did.
pub open spec fn answer_of<H>(result: Result<ResumedSession<H>, ResumeError>) -> Result<
    Option<H>,
    Refusal,
> {
    match result {
        Ok(started) => Ok(started.handle()),
        Err(error) => Err(error@),
    }
}

/// Starts the next headless turn of an existing harness session.
pub trait SessionResumer: Send + Sync {
    /// By what the owner of a started process waits for it.
    type Handle;

    /// Every resume this was ever asked for, with its answer. It stands for the
    /// history of calls, which a resumer does not have to keep.
    closed spec fn asked(&self) -> Seq<Asked<Self::Handle>> {
        arbitrary()
    }

    /// Start `text` as the next user turn of `session_id`.
    fn resume(&mut self, session_id: &str, text: &str) -> (result: Result<
        ResumedSession<Self::Handle>,
        ResumeError,
    >)
        ensures
            final(self).asked() == old(self).asked().push(
                Asked { session_id: session_id@, text: text@, answer: answer_of(result) },
            ),
    ;
}

/// Stands for a harness that cannot resume headlessly.
pub struct UnsupportedResumer<H> {
    /// The sessions and texts that it was asked to resume.
    turns: Ghost<Seq<(Seq<char>, Seq<char>)>>,
    handle: PhantomData<H>,
}

impl<H: Send + Sync> UnsupportedResumer<H> {
    pub fn new() -> (resumer: Self)
        ensures
            resumer.asked() == Seq::<Asked<H>>::empty(),
    {
        let resumer = UnsupportedResumer { turns: Ghost(Seq::empty()), handle: PhantomData };
        assert(resumer.asked() =~= Seq::<Asked<H>>::empty());
        resumer
    }
}

impl<H: Send + Sync> SessionResumer for UnsupportedResumer<H> {
    type Handle = H;

    closed spec fn asked(&self) -> Seq<Asked<H>> {
        Seq::new(
            self.turns@.len(),
            |i: int|
                Asked {
                    session_id: self.turns@[i].0,
                    text: self.turns@[i].1,
                    answer: Err(Refusal::Unsupported),
                },
        )
    }

    fn resume(&mut self, session_id: &str, text: &str) -> (result: Result<
        ResumedSession<H>,
        ResumeError,
    >)
        ensures
            answer_of(result) == Err::<Option<H>, Refusal>(Refusal::Unsupported),
    {
        self.turns = Ghost(self.turns@.push((session_id@, text@)));
        assert(self.asked() =~= old(self).asked().push(
            Asked { session_id: session_id@, text: text@, answer: Err(Refusal::Unsupported) },
        ));
        Err(ResumeError::Unsupported)
    }
}

/// Whatever an [`UnsupportedResumer`] was asked to resume, it refused as
/// unsupported.
pub proof fn law_unsupported_resumer_only_refuses<H: Send + Sync>(resumer: UnsupportedResumer<H>)
    ensures
        forall|i: int|
            0 <= i < resumer.asked().len() ==> (#[trigger] resumer.asked()[i]).answer == Err::<
                Option<H>,
                Refusal,
            >(Refusal::Unsupported),
{
}

/// What a resume reports once its process was to start: a started process is
/// handed on, a failure to start it is the harness's refusal in the same words.
pub fn resume_started<H>(started: Result<H, String>) -> (result: Result<
    ResumedSession<H>,
    ResumeError,
>)
    ensures
        answer_of(result) == match started {
            Ok(child) => Ok::<Option<H>, Refusal>(Some(child)),
            Err(words) => Err::<Option<H>, Refusal>(Refusal::Harness(words@)),
        },
{
    match started {
        Ok(child) => Ok(ResumedSession::child(child)),
        Err(words) => Err(ResumeError::Harness(words)),
    }
}

/// Resumes sessions of a command-line harness headlessly. `P` is a path.
#[derive(Debug)]
pub struct ClaudeSessionResumer<P> {
    executable: P,
    profile: String,
    permission_mode: String,
    transcript: P,
}

/// The command line that resumes `session_id` with `text`.
pub open spec fn resume_arguments(
    profile: Seq<char>,
    permission_mode: Seq<char>,
    session_id: Seq<char>,
    text: Seq<char>,
    max_turns: Seq<char>,
) -> Seq<Seq<char>> {
    seq![
        "--print"@,
        "--resume"@,
        session_id,
        "--settings"@,
        profile,
        "--permission-mode"@,
        permission_mode,
        "--output-format"@,
        "stream-json"@,
        "--verbose"@,
        "--max-turns"@,
        max_turns,
        text,
    ]
}

impl<P> ClaudeSessionResumer<P> {
    /// The program that is run.
    pub closed spec fn program(&self) -> P {
        self.executable
    }

    /// The settings profile, as it is shown on the command line.
    pub closed spec fn settings(&self) -> Seq<char> {
        self.profile@
    }

    pub closed spec fn mode(&self) -> Seq<char> {
        self.permission_mode@
    }

    /// The file that a resumed process writes to.
    pub closed spec fn output(&self) -> P {
        self.transcript
    }

    #[must_use]
    pub fn new(executable: P, profile: &str, permission_mode: &str, transcript: P) -> (resumer: Self)
        ensures
            resumer.program() == executable,
            resumer.settings() == profile@,
            resumer.mode() == permission_mode@,
            resumer.output() == transcript,
    {
        ClaudeSessionResumer {
            executable,
            profile: profile.to_owned(),
            permission_mode: permission_mode.to_owned(),
            transcript,
        }
    }

    /// The program to run.
    pub fn executable(&self) -> (executable: &P)
        ensures
            *executable == self.program(),
    {
        &self.executable
    }

    /// The file that takes what the program prints.
    pub fn transcript(&self) -> (transcript: &P)
        ensures
            *transcript == self.output(),
    {
        &self.transcript
    }

    /// The arguments that make `text` the next turn of `session_id`.
    ///
    /// There is no `--fork-session` among them: resuming a session that is still
    /// running starts a copy of it, which would fork the work and bill for both.
    /// That is why a steer waits for its process to end normally.
    pub fn arguments(&self, session_id: &str, text: &str, max_turns: &str) -> (arguments: Vec<
        String,
    >)
        ensures
            arguments.deep_view() == resume_arguments(
                self.settings(),
                self.mode(),
                session_id@,
                text@,
                max_turns@,
            ),
    {
        let arguments: Vec<String> = vec![
            "--print".to_owned(),
            "--resume".to_owned(),
            session_id.to_owned(),
            "--settings".to_owned(),
            self.profile.clone(),
            "--permission-mode".to_owned(),
            self.permission_mode.clone(),
            "--output-format".to_owned(),
            "stream-json".to_owned(),
            "--verbose".to_owned(),
            "--max-turns".to_owned(),
            max_turns.to_owned(),
            text.to_owned(),
        ];
        assert(arguments.deep_view() =~= resume_arguments(
            self.settings(),
            self.mode(),
            session_id@,
            text@,
            max_turns@,
        ));
        arguments
    }
}

/// A resume names its session right behind `--resume`, ends in the text of the
/// turn, and never asks for a fork: no argument is `--fork-session` unless a
/// caller's own words are.
pub proof fn law_resume_reuses_the_session(
    profile: Seq<char>,
    permission_mode: Seq<char>,
    session_id: Seq<char>,
    text: Seq<char>,
    max_turns: Seq<char>,
)
    ensures
        ({
            let arguments = resume_arguments(
                profile,
                permission_mode,
                session_id,
                text,
                max_turns,
            );
            &&& arguments[1] == "--resume"@
            &&& arguments[2] == session_id
            &&& arguments.last() == text
            &&& arguments.contains("--fork-session"@) ==> {
                ||| profile == "--fork-session"@
                ||| permission_mode == "--fork-session"@
                ||| session_id == "--fork-session"@
                ||| text == "--fork-session"@
                ||| max_turns == "--fork-session"@
            }
        }),
{
    reveal_strlit("--fork-session");
    reveal_strlit("--print");
    reveal_strlit("--resume");
    reveal_strlit("--settings");
    reveal_strlit("--permission-mode");
    reveal_strlit("--output-format");
    reveal_strlit("stream-json");
    reveal_strlit("--verbose");
    reveal_strlit("--max-turns");
    let fork = "--fork-session"@;
    assert(fork[2] == 'f' && "--output-format"@[2] == 'o');
    assert(fork.len() == 14);
}

/// The whole command line of a resume, whatever the words in it: the flags that it needs,
/// each with the value that it was given, and the text of the turn last.
pub proof fn law_resume_command_line(
    profile: Seq<char>,
    permission_mode: Seq<char>,
    session_id: Seq<char>,
    text: Seq<char>,
    max_turns: Seq<char>,
)
    ensures
        ({
            let line = resume_arguments(profile, permission_mode, session_id, text, max_turns);
            &&& line.len() == 13
            &&& line[0] == "--print"@
            &&& line[1] == "--resume"@ && line[2] == session_id
            &&& line[3] == "--settings"@ && line[4] == profile
            &&& line[5] == "--permission-mode"@ && line[6] == permission_mode
            &&& line[7] == "--output-format"@ && line[8] == "stream-json"@
            &&& line[9] == "--verbose"@
            &&& line[10] == "--max-turns"@ && line[11] == max_turns
            &&& line[12] == text
        }),
{
}

/// What is said of a refusal is which one it is, and a harness's words unchanged.
pub proof fn law_refusal_shows_its_words(error: ResumeError)
    ensures
        match error {
            ResumeError::Unsupported => error@ == Refusal::Unsupported,
            ResumeError::Harness(words) => error@ == Refusal::Harness(words@),
        },
{
}

/// The answer to a resume tells whether a process started: its handle where one did, and
/// the refusal where none did.
pub proof fn law_answer_tells_whether_a_process_started<H>(
    result: Result<ResumedSession<H>, ResumeError>,
)
    ensures
        match result {
            Ok(started) => answer_of(result) == Ok::<Option<H>, Refusal>(started.handle()),
            Err(ResumeError::Unsupported) => answer_of(result) == Err::<Option<H>, Refusal>(
                Refusal::Unsupported,
            ),
            Err(ResumeError::Harness(words)) => answer_of(result) == Err::<Option<H>, Refusal>(
                Refusal::Harness(words@),
            ),
        },
{
}

} // verus!
