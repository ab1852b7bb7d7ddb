use std::cell::Cell;
use std::sync::{Arc, Mutex};

use umwelt_runtime::{
    excerpt, ControlAppliedPayload, ControlAppliedReason, ControlError, ControlKind,
    ControlRequestedPayload, EventDraft, EventPayload, MemorySink, ProcessExit, ResumeError,
    ResumedSession, RunCaps, RunControl, SessionResumer, Sink, UnsupportedResumer, Watchdog,
    CONTROL_APPLIED, CONTROL_REQUESTED, RUN_FINISHED,
};

const MAX_EXCERPT_SCALARS: usize = 4_000;

#[derive(Clone, Copy, Debug, PartialEq)]
enum RunOutcome {
    Completed,
    Failed,
    Interrupted,
}

#[derive(Clone, Debug, PartialEq)]
struct RunFinishedPayload {
    outcome: RunOutcome,
    duration_ms: u64,
}

type Draft = EventDraft<RunFinishedPayload>;

#[derive(Clone)]
struct RecordingResumer {
    calls: Arc<Mutex<Vec<(String, String)>>>,
    error: Option<String>,
    unsupported: bool,
    child: Option<u32>,
}

impl RecordingResumer {
    fn succeeding() -> Self {
        RecordingResumer {
            calls: Arc::new(Mutex::new(Vec::new())),
            error: None,
            unsupported: false,
            child: None,
        }
    }

    fn unsupported() -> Self {
        RecordingResumer {
            unsupported: true,
            ..RecordingResumer::succeeding()
        }
    }

    fn refusing(words: &str) -> Self {
        RecordingResumer {
            error: Some(words.to_owned()),
            ..RecordingResumer::succeeding()
        }
    }

    fn calls(&self) -> Vec<(String, String)> {
        self.calls.lock().expect("resumer calls lock").clone()
    }
}

impl SessionResumer for RecordingResumer {
    type Handle = u32;

    fn resume(&mut self, session_id: &str, text: &str) -> Result<ResumedSession<u32>, ResumeError> {
        self.calls
            .lock()
            .expect("resumer calls lock")
            .push((session_id.to_owned(), text.to_owned()));
        if self.unsupported {
            return Err(ResumeError::Unsupported);
        }
        match (&self.error, self.child) {
            (Some(words), _) => Err(ResumeError::Harness(words.clone())),
            (None, Some(child)) => Ok(ResumedSession::child(child)),
            (None, None) => Ok(ResumedSession::externally_managed()),
        }
    }
}

/// Takes every draft but the ones at the given places.
#[derive(Default)]
struct FaultySink {
    drafts: Vec<Draft>,
    offers: usize,
    refusing: Vec<usize>,
}

impl FaultySink {
    fn refusing(places: &[usize]) -> Self {
        FaultySink {
            refusing: places.to_vec(),
            ..FaultySink::default()
        }
    }

    fn types(&self) -> Vec<&str> {
        self.drafts
            .iter()
            .map(|draft| draft.event_type.as_str())
            .collect()
    }
}

impl Sink<RunFinishedPayload> for FaultySink {
    type Fault = String;

    fn append(&mut self, _run_id: &str, draft: Draft) -> Result<(), String> {
        let place = self.offers;
        self.offers += 1;
        if self.refusing.contains(&place) {
            return Err(format!("refused {place}"));
        }
        self.drafts.push(draft);
        Ok(())
    }
}

/// Knows which tool calls are open, in the order in which they were opened.
#[derive(Default)]
struct OpenCalls(Vec<String>);

impl OpenCalls {
    fn tool_use(&mut self, id: &str) {
        self.0.push(id.to_owned());
    }

    fn tool_result(&mut self, id: &str) {
        self.0.retain(|open| open != id);
    }
}

impl Watchdog<RunFinishedPayload> for OpenCalls {
    fn most_recent_open_tool_call(&self) -> Option<String> {
        self.0.last().cloned()
    }

    fn interrupted_payload(&self) -> RunFinishedPayload {
        finished(RunOutcome::Interrupted)
    }
}

fn request(control_id: &str, kind: ControlKind, text: Option<&str>) -> ControlRequestedPayload {
    ControlRequestedPayload {
        control_id: control_id.to_owned(),
        kind,
        decision_id: None,
        option_id: None,
        text: text.map(str::to_owned),
        truncated: text.map(|_| false),
        by: "operator".to_owned(),
        extra: Vec::new(),
    }
}

/// What the vocabulary of events says of the requests in these tests.
fn validated(request: &ControlRequestedPayload) -> Result<(), String> {
    match &request.kind {
        ControlKind::Unknown(kind) => Err(format!("kind: unknown value: {kind}")),
        ControlKind::Steer if request.text.as_deref().unwrap_or_default().is_empty() => {
            Err("text: a steer needs text".to_owned())
        }
        _ => Ok(()),
    }
}

fn finished(outcome: RunOutcome) -> RunFinishedPayload {
    RunFinishedPayload {
        outcome,
        duration_ms: 12,
    }
}

fn run(resumer: RecordingResumer) -> RunControl<RecordingResumer> {
    RunControl::new(
        "run-1",
        Some("session-1".to_owned()),
        RunCaps::default(),
        MAX_EXCERPT_SCALARS,
        resumer,
    )
}

fn steer<R: SessionResumer, S: Sink<RunFinishedPayload>>(
    control: &mut RunControl<R>,
    request: ControlRequestedPayload,
    sink: &mut S,
) -> Result<(), ControlError<S::Fault>> {
    let validated = validated(&request);
    control.steer(request, validated, sink)
}

fn interrupt<R: SessionResumer, S: Sink<RunFinishedPayload>>(
    control: &mut RunControl<R>,
    control_id: &str,
    watchdog: &OpenCalls,
    sink: &mut S,
) -> Result<(), ControlError<S::Fault>> {
    let request = request(control_id, ControlKind::Interrupt, None);
    control.interrupt_with(request, Ok(()), watchdog, sink, |_, _| Ok(()))
}

fn types(sink: &MemorySink<RunFinishedPayload>) -> Vec<&str> {
    sink.events()
        .iter()
        .map(|(_, draft)| draft.event_type.as_str())
        .collect()
}

fn applied(draft: &Draft) -> &ControlAppliedPayload {
    let EventPayload::Applied(answer) = &draft.payload else {
        panic!("expected an answer");
    };
    answer
}

fn ending(draft: &Draft) -> &RunFinishedPayload {
    let EventPayload::Finished(payload) = &draft.payload else {
        panic!("expected the end of the run");
    };
    payload
}

#[test]
fn interrupt_emits_requested_applied_and_finished_in_order() {
    let mut sink = MemorySink::new();
    let observed_grace = Cell::new(None);
    let mut control = run(RecordingResumer::succeeding());

    control
        .interrupt_with(
            request("control-1", ControlKind::Interrupt, None),
            Ok(()),
            &OpenCalls::default(),
            &mut sink,
            |grace, _| {
                observed_grace.set(Some(grace));
                Ok(())
            },
        )
        .expect("interrupt");

    assert_eq!(observed_grace.get(), Some(10_000));
    assert_eq!(types(&sink), [CONTROL_REQUESTED, CONTROL_APPLIED, RUN_FINISHED]);
    assert!(applied(&sink.events()[1].1).ok);
    assert_eq!(ending(&sink.events()[2].1).outcome, RunOutcome::Interrupted);
}

#[test]
fn process_exit_after_interrupt_does_not_emit_a_second_terminal() {
    let mut sink = MemorySink::new();
    let mut control = run(RecordingResumer::succeeding());

    interrupt(&mut control, "control-1", &OpenCalls::default(), &mut sink).expect("interrupt");
    control
        .process_exited(ProcessExit::Abnormal, finished(RunOutcome::Failed), &mut sink)
        .expect("observe interrupted child exit");

    assert_eq!(
        types(&sink)
            .iter()
            .filter(|event_type| **event_type == RUN_FINISHED)
            .count(),
        1
    );
}

#[test]
fn interrupt_rejects_queued_steers_before_finishing() {
    let mut sink = MemorySink::new();
    let mut control = run(RecordingResumer::succeeding());
    steer(
        &mut control,
        request("steer-1", ControlKind::Steer, Some("next text")),
        &mut sink,
    )
    .expect("queue steer");

    interrupt(&mut control, "interrupt-1", &OpenCalls::default(), &mut sink).expect("interrupt");

    assert_eq!(
        types(&sink),
        [
            CONTROL_REQUESTED,
            CONTROL_REQUESTED,
            CONTROL_APPLIED,
            CONTROL_APPLIED,
            RUN_FINISHED,
        ]
    );
    let interrupt_applied = applied(&sink.events()[2].1);
    assert_eq!(interrupt_applied.control_id, "interrupt-1");
    assert!(interrupt_applied.ok);
    let steer_applied = applied(&sink.events()[3].1);
    assert_eq!(steer_applied.control_id, "steer-1");
    assert!(!steer_applied.ok);
    assert_eq!(steer_applied.reason, Some(ControlAppliedReason::NotLive));
}

#[test]
fn interrupt_lands_in_most_recent_still_open_tool_call() {
    let mut sink = MemorySink::new();
    let mut watchdog = OpenCalls::default();
    watchdog.tool_use("tool-1");
    watchdog.tool_use("tool-2");
    watchdog.tool_use("tool-3");
    watchdog.tool_result("tool-3");
    let mut control = run(RecordingResumer::succeeding());

    interrupt(&mut control, "control-1", &watchdog, &mut sink).expect("interrupt");

    assert_eq!(
        applied(&sink.events()[1].1).landed_in.as_deref(),
        Some("tool-2")
    );
}

#[test]
fn interrupt_outside_a_tool_call_has_no_landed_in() {
    let mut sink = MemorySink::new();
    let mut control = run(RecordingResumer::succeeding());

    interrupt(&mut control, "control-1", &OpenCalls::default(), &mut sink).expect("interrupt");

    assert_eq!(applied(&sink.events()[1].1).landed_in, None);
}

#[test]
fn interrupt_against_non_live_run_fails_without_another_finished_event() {
    let mut control = run(RecordingResumer::succeeding());
    let mut refusing = FaultySink::refusing(&[0]);
    control
        .process_exited(ProcessExit::Normal, finished(RunOutcome::Completed), &mut refusing)
        .expect_err("the sink refuses the terminal event");
    assert!(!control.is_live());
    let mut sink = MemorySink::new();

    control
        .interrupt_with(
            request("control-1", ControlKind::Interrupt, None),
            Ok(()),
            &OpenCalls::default(),
            &mut sink,
            |_, _| panic!("non-live interrupt must not terminate"),
        )
        .expect("non-live reply");

    assert_eq!(sink.events().len(), 2);
    assert!(!types(&sink).contains(&RUN_FINISHED));
    let answer = applied(&sink.events()[1].1);
    assert!(!answer.ok);
    assert_eq!(answer.reason, Some(ControlAppliedReason::NotLive));
}

#[test]
fn steer_while_live_queues_without_spawning_or_applying() {
    let mut sink = MemorySink::new();
    let resumer = RecordingResumer::succeeding();
    let calls = resumer.clone();
    let mut control = run(resumer);

    steer(
        &mut control,
        request("control-1", ControlKind::Steer, Some("take the next turn")),
        &mut sink,
    )
    .expect("queue steer");

    assert_eq!(calls.calls(), []);
    assert_eq!(control.pending_steers(), 1);
    assert_eq!(types(&sink), [CONTROL_REQUESTED]);
}

#[test]
fn unknown_control_kind_is_rejected_without_appending() {
    let mut sink = MemorySink::new();
    let mut control = run(RecordingResumer::succeeding());

    let error = steer(
        &mut control,
        request(
            "control-1",
            ControlKind::Unknown("teleport".to_owned()),
            None,
        ),
        &mut sink,
    )
    .expect_err("unknown kind must be rejected");

    let ControlError::InvalidRequest(message) = error else {
        panic!("expected request validation error");
    };
    assert!(message.contains("unknown value: teleport"));
    assert!(sink.events().is_empty());
}

#[test]
fn steer_without_text_is_rejected_without_appending() {
    let mut sink = MemorySink::new();
    let mut control = run(RecordingResumer::succeeding());

    let error = steer(
        &mut control,
        request("control-1", ControlKind::Steer, None),
        &mut sink,
    )
    .expect_err("textless steer must be rejected");

    assert!(matches!(error, ControlError::InvalidRequest(_)));
    assert!(sink.events().is_empty());
}

#[test]
fn steer_with_empty_text_is_rejected_without_appending() {
    let mut sink = MemorySink::new();
    let mut control = run(RecordingResumer::succeeding());

    let error = steer(
        &mut control,
        request("control-1", ControlKind::Steer, Some("")),
        &mut sink,
    )
    .expect_err("empty steer must be rejected");

    assert!(matches!(error, ControlError::InvalidRequest(_)));
    assert!(sink.events().is_empty());
}

#[test]
fn normal_exit_with_queued_steer_resumes_same_session_then_applies() {
    let mut sink = MemorySink::new();
    let resumer = RecordingResumer::succeeding();
    let calls = resumer.clone();
    let mut control = run(resumer);
    steer(
        &mut control,
        request("control-1", ControlKind::Steer, Some("next text")),
        &mut sink,
    )
    .expect("queue steer");

    control
        .process_exited(ProcessExit::Normal, finished(RunOutcome::Completed), &mut sink)
        .expect("resume queued steer");

    assert_eq!(
        calls.calls(),
        [("session-1".to_owned(), "next text".to_owned())]
    );
    assert_eq!(types(&sink), [CONTROL_REQUESTED, CONTROL_APPLIED]);
    assert!(applied(&sink.events()[1].1).ok);
    assert!(control.is_live());
}

#[test]
fn controls_after_finished_return_not_live_without_appending() {
    let mut sink = MemorySink::new();
    let resumer = RecordingResumer::succeeding();
    let calls = resumer.clone();
    let mut control = run(resumer);
    control
        .process_exited(ProcessExit::Normal, finished(RunOutcome::Completed), &mut sink)
        .expect("finish run");
    let event_count = sink.events().len();

    let interrupt_error = control
        .interrupt(
            request("interrupt-1", ControlKind::Interrupt, None),
            Ok(()),
            None::<fn(u64, &MemorySink<RunFinishedPayload>)>,
            &OpenCalls::default(),
            &mut sink,
        )
        .expect_err("terminal interrupt must be refused synchronously");
    let steer_error = steer(
        &mut control,
        request("steer-1", ControlKind::Steer, Some("too late")),
        &mut sink,
    )
    .expect_err("terminal steer must be refused synchronously");

    assert!(matches!(interrupt_error, ControlError::NotLive));
    assert!(matches!(steer_error, ControlError::NotLive));
    assert_eq!(calls.calls(), []);
    assert_eq!(sink.events().len(), event_count);
    assert_eq!(sink.events().len(), 1);
    assert_eq!(sink.events()[0].1.event_type, RUN_FINISHED);
}

#[test]
fn unsupported_resume_is_reported_and_run_finishes() {
    let mut sink = MemorySink::new();
    let mut control = run(RecordingResumer::unsupported());
    steer(
        &mut control,
        request("control-1", ControlKind::Steer, Some("next text")),
        &mut sink,
    )
    .expect("queue steer");

    control
        .process_exited(ProcessExit::Normal, finished(RunOutcome::Completed), &mut sink)
        .expect("unsupported reply");

    assert_eq!(types(&sink), [CONTROL_REQUESTED, CONTROL_APPLIED, RUN_FINISHED]);
    let answer = applied(&sink.events()[1].1);
    assert!(!answer.ok);
    assert_eq!(answer.reason, Some(ControlAppliedReason::Unsupported));
    assert!(!control.is_live());
}

#[test]
fn harness_resume_failure_reports_excerpted_diagnostic_with_truncation() {
    let mut sink = MemorySink::new();
    let diagnostic = "harness refused to resume:".repeat(1_000);
    assert_eq!(diagnostic.len(), 26_000);
    let mut resumer = RecordingResumer::refusing(&diagnostic);
    let error = resumer
        .resume("session-1", "next text")
        .expect_err("resume fails");
    assert_eq!(error, ResumeError::Harness(diagnostic.clone()));
    let mut control = run(resumer);
    steer(
        &mut control,
        request("control-1", ControlKind::Steer, Some("next text")),
        &mut sink,
    )
    .expect("queue steer");

    control
        .process_exited(ProcessExit::Normal, finished(RunOutcome::Completed), &mut sink)
        .expect("harness failure reply");

    assert_eq!(types(&sink), [CONTROL_REQUESTED, CONTROL_APPLIED, RUN_FINISHED]);
    let answer = applied(&sink.events()[1].1);
    assert!(!answer.ok);
    let Some(ControlAppliedReason::Unknown(retained)) = &answer.reason else {
        panic!("expected the harness diagnostic as an unknown reason");
    };
    assert_eq!(retained.chars().count(), MAX_EXCERPT_SCALARS);
    assert_eq!(
        retained,
        &diagnostic
            .chars()
            .take(MAX_EXCERPT_SCALARS)
            .collect::<String>()
    );
    assert_eq!(answer.truncated, Some(true));
    assert!(answer.extra.is_empty());
    assert_eq!(error, ResumeError::Harness(diagnostic));
    assert!(!control.is_live());
}

#[test]
fn harness_resume_failure_reports_short_diagnostic_without_truncation() {
    let mut sink = MemorySink::new();
    let diagnostic = "harness could not open the session";
    assert!(diagnostic.chars().count() < MAX_EXCERPT_SCALARS);
    let mut control = run(RecordingResumer::refusing(diagnostic));
    steer(
        &mut control,
        request("control-1", ControlKind::Steer, Some("next text")),
        &mut sink,
    )
    .expect("queue steer");
    control
        .process_exited(ProcessExit::Normal, finished(RunOutcome::Completed), &mut sink)
        .expect("harness failure reply");

    let answer = applied(&sink.events()[1].1);
    assert!(!answer.ok);
    assert_eq!(
        answer.reason,
        Some(ControlAppliedReason::Unknown(diagnostic.to_owned()))
    );
    assert_eq!(answer.truncated, None);
    assert!(!control.is_live());
}

#[test]
fn abnormal_exit_prevents_a_queued_steer_from_landing() {
    let mut sink = MemorySink::new();
    let resumer = RecordingResumer::succeeding();
    let calls = resumer.clone();
    let mut control = run(resumer);
    steer(
        &mut control,
        request("control-1", ControlKind::Steer, Some("next text")),
        &mut sink,
    )
    .expect("queue steer");

    control
        .process_exited(ProcessExit::Abnormal, finished(RunOutcome::Failed), &mut sink)
        .expect("abnormal exit");

    assert_eq!(calls.calls(), []);
    let answer = applied(&sink.events()[1].1);
    assert_eq!(answer.reason, Some(ControlAppliedReason::NotLive));
}

#[test]
fn every_event_carries_what_was_asked_and_nothing_made_up() {
    let mut sink = MemorySink::new();
    let mut watchdog = OpenCalls::default();
    watchdog.tool_use("tool-1");
    let mut control = run(RecordingResumer::succeeding());
    interrupt(&mut control, "control-1", &watchdog, &mut sink).expect("interrupt");

    assert_eq!(
        *sink.events(),
        vec![
            (
                "run-1".to_owned(),
                EventDraft {
                    event_type: "control.requested".to_owned(),
                    payload: EventPayload::Requested(request(
                        "control-1",
                        ControlKind::Interrupt,
                        None
                    )),
                    captured_at: None,
                }
            ),
            (
                "run-1".to_owned(),
                EventDraft {
                    event_type: "control.applied".to_owned(),
                    payload: EventPayload::Applied(ControlAppliedPayload {
                        control_id: "control-1".to_owned(),
                        ok: true,
                        by: None,
                        reason: None,
                        truncated: None,
                        landed_in: Some("tool-1".to_owned()),
                        extra: Vec::new(),
                    }),
                    captured_at: None,
                }
            ),
            (
                "run-1".to_owned(),
                EventDraft {
                    event_type: "run.finished".to_owned(),
                    payload: EventPayload::Finished(finished(RunOutcome::Interrupted)),
                    captured_at: None,
                }
            ),
        ]
    );
}

#[test]
fn an_exit_without_queued_steers_finishes_with_the_payload_it_was_given() {
    for exit in [ProcessExit::Normal, ProcessExit::Abnormal] {
        let mut sink = MemorySink::new();
        let mut control = run(RecordingResumer::succeeding());
        assert!(control.is_live());
        control
            .process_exited(exit, finished(RunOutcome::Completed), &mut sink)
            .expect("finish run");
        assert_eq!(types(&sink), [RUN_FINISHED]);
        assert_eq!(*ending(&sink.events()[0].1), finished(RunOutcome::Completed));
        assert!(!control.is_live());
    }
}

#[test]
fn steers_land_in_the_order_in_which_they_wait() {
    let mut sink = MemorySink::new();
    let resumer = RecordingResumer {
        child: Some(41),
        ..RecordingResumer::succeeding()
    };
    let calls = resumer.clone();
    let mut control = run(resumer);
    for (id, text) in [("steer-1", "first"), ("steer-2", "second")] {
        steer(&mut control, request(id, ControlKind::Steer, Some(text)), &mut sink)
            .expect("queue steer");
    }
    assert_eq!(control.take_resumed_child(), None);
    for waiting in [1, 0] {
        control
            .process_exited(ProcessExit::Normal, finished(RunOutcome::Completed), &mut sink)
            .expect("land steer");
        assert_eq!(control.pending_steers(), waiting);
        assert!(control.is_live());
        assert_eq!(control.take_resumed_child(), Some(41));
        assert_eq!(control.take_resumed_child(), None);
    }
    control
        .process_exited(ProcessExit::Normal, finished(RunOutcome::Completed), &mut sink)
        .expect("finish run");

    assert_eq!(
        calls.calls(),
        [
            ("session-1".to_owned(), "first".to_owned()),
            ("session-1".to_owned(), "second".to_owned()),
        ]
    );
    assert_eq!(
        types(&sink),
        [
            CONTROL_REQUESTED,
            CONTROL_REQUESTED,
            CONTROL_APPLIED,
            CONTROL_APPLIED,
            RUN_FINISHED,
        ]
    );
    assert_eq!(applied(&sink.events()[2].1).control_id, "steer-1");
    assert_eq!(applied(&sink.events()[3].1).control_id, "steer-2");
}

#[test]
fn every_recorded_request_is_answered_once_when_a_refused_resume_closes_the_run() {
    let mut sink = MemorySink::new();
    let mut control = run(RecordingResumer::refusing("no"));
    for id in ["steer-1", "steer-2", "steer-3"] {
        steer(&mut control, request(id, ControlKind::Steer, Some("go")), &mut sink)
            .expect("queue steer");
    }
    control
        .process_exited(ProcessExit::Normal, finished(RunOutcome::Failed), &mut sink)
        .expect("refused resume");

    let answers: Vec<(&str, Option<&ControlAppliedReason>)> = sink.events()[3..6]
        .iter()
        .map(|(_, draft)| (applied(draft).control_id.as_str(), applied(draft).reason.as_ref()))
        .collect();
    assert_eq!(
        answers,
        [
            ("steer-1", Some(&ControlAppliedReason::Unknown("no".to_owned()))),
            ("steer-2", Some(&ControlAppliedReason::NotLive)),
            ("steer-3", Some(&ControlAppliedReason::NotLive)),
        ]
    );
    assert_eq!(types(&sink)[6..], [RUN_FINISHED]);
    assert_eq!(control.pending_steers(), 0);
}

#[test]
fn a_run_without_a_session_cannot_resume() {
    let mut sink = MemorySink::new();
    let resumer = RecordingResumer::succeeding();
    let calls = resumer.clone();
    let mut control = RunControl::new("run-1", None, RunCaps { kill_grace_ms: 5 }, 10, resumer);
    steer(
        &mut control,
        request("steer-1", ControlKind::Steer, Some("go")),
        &mut sink,
    )
    .expect("queue steer");
    control
        .process_exited(ProcessExit::Normal, finished(RunOutcome::Completed), &mut sink)
        .expect("finish run");

    assert_eq!(calls.calls(), []);
    assert_eq!(
        applied(&sink.events()[1].1).reason,
        Some(ControlAppliedReason::Unsupported)
    );
    assert_eq!(types(&sink), [CONTROL_REQUESTED, CONTROL_APPLIED, RUN_FINISHED]);
}

#[test]
fn a_harness_that_cannot_resume_is_reported_as_unsupported() {
    let mut sink = MemorySink::new();
    let mut control = RunControl::new(
        "run-1",
        Some("session-1".to_owned()),
        RunCaps::default(),
        MAX_EXCERPT_SCALARS,
        UnsupportedResumer::<u32>::new(),
    );
    steer(
        &mut control,
        request("steer-1", ControlKind::Steer, Some("go")),
        &mut sink,
    )
    .expect("queue steer");
    control
        .process_exited(ProcessExit::Normal, finished(RunOutcome::Completed), &mut sink)
        .expect("finish run");
    assert_eq!(
        applied(&sink.events()[1].1).reason,
        Some(ControlAppliedReason::Unsupported)
    );
}

#[test]
fn a_control_of_the_other_kind_is_refused_without_appending() {
    let mut sink = MemorySink::new();
    let mut control = run(RecordingResumer::succeeding());
    let steer_error = control
        .steer(
            request("control-1", ControlKind::Interrupt, None),
            Ok(()),
            &mut sink,
        )
        .expect_err("an interrupt is no steer");
    assert_eq!(steer_error, ControlError::WrongKind { expected: "steer" });
    assert_eq!(
        steer_error.message().as_deref(),
        Some("expected a steer control request")
    );
    for kind in [ControlKind::Steer, ControlKind::Answer] {
        let error = control
            .interrupt_with(
                request("control-1", kind, Some("text")),
                Ok(()),
                &OpenCalls::default(),
                &mut sink,
                |_, _| panic!("nothing to end"),
            )
            .expect_err("no interrupt");
        assert_eq!(error, ControlError::WrongKind { expected: "interrupt" });
    }
    let invalid = control
        .interrupt_with(
            request("control-1", ControlKind::Interrupt, None),
            Err("too long".to_owned()),
            &OpenCalls::default(),
            &mut sink,
            |_, _| panic!("nothing to end"),
        )
        .expect_err("invalid request");
    assert_eq!(
        invalid.message().as_deref(),
        Some("invalid control request: too long")
    );
    assert!(sink.events().is_empty());
    assert!(control.is_live());
    assert_eq!(control.pending_steers(), 0);
}

#[test]
fn an_interrupt_ends_the_process_that_its_caller_holds() {
    let mut sink = MemorySink::new();
    let ended = Cell::new(None);
    let mut control = RunControl::new(
        "run-1",
        None,
        RunCaps { kill_grace_ms: 250 },
        MAX_EXCERPT_SCALARS,
        RecordingResumer::succeeding(),
    );
    control
        .interrupt(
            request("control-1", ControlKind::Interrupt, None),
            Ok(()),
            Some(|grace, _: &MemorySink<RunFinishedPayload>| ended.set(Some(grace))),
            &OpenCalls::default(),
            &mut sink,
        )
        .expect("interrupt");
    assert_eq!(ended.get(), Some(250));
    assert_eq!(types(&sink), [CONTROL_REQUESTED, CONTROL_APPLIED, RUN_FINISHED]);
    assert!(!control.is_live());
}

#[test]
fn the_process_is_ended_between_the_request_and_its_answer() {
    let mut sink = MemorySink::new();
    let mut control = run(RecordingResumer::succeeding());
    let seen = Cell::new(0);
    control
        .interrupt_with(
            request("control-1", ControlKind::Interrupt, None),
            Ok(()),
            &OpenCalls::default(),
            &mut sink,
            |_, sink: &MemorySink<RunFinishedPayload>| {
                assert_eq!(types(sink), [CONTROL_REQUESTED]);
                seen.set(seen.get() + 1);
                Ok(())
            },
        )
        .expect("interrupt");
    assert_eq!(seen.get(), 1);
    assert_eq!(types(&sink), [CONTROL_REQUESTED, CONTROL_APPLIED, RUN_FINISHED]);
}

#[test]
fn a_held_process_is_left_alone_unless_the_run_is_live_and_the_request_recorded() {
    let watchdog = OpenCalls::default();
    let left_alone = |_: u64, _: &FaultySink| panic!("nothing to end");
    let interrupt = || request("control-1", ControlKind::Interrupt, None);

    let mut sink = FaultySink::refusing(&[0, 2]);
    let mut control = run(RecordingResumer::succeeding());
    assert_eq!(
        control.interrupt(interrupt(), Ok(()), Some(left_alone), &watchdog, &mut sink),
        Err(ControlError::Sink("refused 0".to_owned()))
    );
    assert_eq!(
        control.interrupt(
            interrupt(),
            Err("no".to_owned()),
            Some(left_alone),
            &watchdog,
            &mut sink
        ),
        Err(ControlError::InvalidRequest("no".to_owned()))
    );
    assert_eq!(
        control.interrupt(
            request("control-1", ControlKind::Steer, Some("go")),
            Ok(()),
            Some(left_alone),
            &watchdog,
            &mut sink
        ),
        Err(ControlError::WrongKind { expected: "interrupt" })
    );
    assert!(control.is_live());
    assert_eq!(sink.offers, 1);

    steer(&mut control, request("steer-1", ControlKind::Steer, Some("go")), &mut sink)
        .expect("queue steer");
    control
        .process_exited(ProcessExit::Abnormal, finished(RunOutcome::Failed), &mut sink)
        .expect_err("the sink refuses the answer");
    assert!(!control.is_live());
    control
        .interrupt(interrupt(), Ok(()), Some(left_alone), &watchdog, &mut sink)
        .expect("answered as not live");
    assert_eq!(
        sink.types(),
        [CONTROL_REQUESTED, CONTROL_REQUESTED, CONTROL_APPLIED]
    );

    control
        .process_exited(ProcessExit::Abnormal, finished(RunOutcome::Failed), &mut sink)
        .expect("finish run");
    assert_eq!(
        control.interrupt(interrupt(), Ok(()), Some(left_alone), &watchdog, &mut sink),
        Err(ControlError::NotLive)
    );
}

#[test]
fn as_many_steers_wait_as_were_accepted_and_not_answered() {
    let mut sink = MemorySink::new();
    let mut control = run(RecordingResumer::succeeding());
    let mut accepted = 0;
    for id in ["steer-1", "steer-2", "steer-3"] {
        steer(&mut control, request(id, ControlKind::Steer, Some("go")), &mut sink)
            .expect("queue steer");
        accepted += 1;
        // Another producer writes to the same sink.
        sink.append(
            "run-2",
            EventDraft {
                event_type: RUN_FINISHED.to_owned(),
                payload: EventPayload::Finished(finished(RunOutcome::Completed)),
                captured_at: None,
            },
        )
        .expect("event of another run");
    }
    for exit in [ProcessExit::Normal, ProcessExit::Abnormal] {
        let live = exit == ProcessExit::Normal;
        control
            .process_exited(exit, finished(RunOutcome::Completed), &mut sink)
            .expect("end of a process");
        let answered = types(&sink)
            .iter()
            .filter(|event_type| **event_type == CONTROL_APPLIED)
            .count();
        assert_eq!(control.pending_steers(), accepted - answered);
        assert_eq!(control.is_live(), live);
    }
    assert_eq!(control.pending_steers(), 0);
}

#[test]
fn an_interrupt_without_a_process_is_recorded_and_leaves_the_run_live() {
    let mut sink = MemorySink::new();
    let mut control = run(RecordingResumer::succeeding());
    let error = control
        .interrupt(
            request("control-1", ControlKind::Interrupt, None),
            Ok(()),
            None::<fn(u64, &MemorySink<RunFinishedPayload>)>,
            &OpenCalls::default(),
            &mut sink,
        )
        .expect_err("no process to end");
    assert_eq!(error, ControlError::MissingLiveProcess);
    assert_eq!(
        error.message().as_deref(),
        Some("a live process handle is required to interrupt a live run")
    );
    assert_eq!(types(&sink), [CONTROL_REQUESTED]);
    assert!(control.is_live());
}

#[test]
fn failures_have_words_except_those_of_a_sink() {
    assert_eq!(
        ControlError::<String>::NotLive.message().as_deref(),
        Some("run has already emitted its terminal event")
    );
    assert_eq!(ControlError::Sink("full".to_owned()).message(), None);
}

#[test]
fn a_refused_request_is_neither_queued_nor_acted_on() {
    let mut sink = FaultySink::refusing(&[0, 1]);
    let mut control = run(RecordingResumer::succeeding());
    assert_eq!(
        steer(
            &mut control,
            request("steer-1", ControlKind::Steer, Some("go")),
            &mut sink
        ),
        Err(ControlError::Sink("refused 0".to_owned()))
    );
    assert_eq!(control.pending_steers(), 0);
    let refused = control.interrupt_with(
        request("control-1", ControlKind::Interrupt, None),
        Ok(()),
        &OpenCalls::default(),
        &mut sink,
        |_, _| panic!("nothing to end"),
    );
    assert_eq!(refused, Err(ControlError::Sink("refused 1".to_owned())));
    assert!(control.is_live());
    assert_eq!(sink.offers, 2);
}

#[test]
fn a_run_whose_terminal_event_was_refused_stays_open_and_answers_not_live() {
    let mut sink = FaultySink::refusing(&[0]);
    let mut control = run(RecordingResumer::succeeding());
    assert_eq!(
        control.process_exited(ProcessExit::Normal, finished(RunOutcome::Completed), &mut sink),
        Err(ControlError::Sink("refused 0".to_owned()))
    );
    assert!(!control.is_live());
    steer(
        &mut control,
        request("steer-1", ControlKind::Steer, Some("go")),
        &mut sink,
    )
    .expect("answered");
    assert_eq!(sink.types(), [CONTROL_REQUESTED, CONTROL_APPLIED]);
    assert_eq!(
        applied(&sink.drafts[1]).reason,
        Some(ControlAppliedReason::NotLive)
    );
    assert_eq!(control.pending_steers(), 0);
    control
        .process_exited(ProcessExit::Normal, finished(RunOutcome::Completed), &mut sink)
        .expect("finish run");
    assert_eq!(
        sink.types(),
        [CONTROL_REQUESTED, CONTROL_APPLIED, RUN_FINISHED]
    );
}

#[test]
fn a_refusal_among_the_rejections_stops_there_and_keeps_the_later_steers() {
    let mut sink = FaultySink::refusing(&[6]);
    let mut control = run(RecordingResumer::succeeding());
    for id in ["steer-1", "steer-2", "steer-3"] {
        steer(&mut control, request(id, ControlKind::Steer, Some("go")), &mut sink)
            .expect("queue steer");
    }
    assert_eq!(
        interrupt(&mut control, "control-1", &OpenCalls::default(), &mut sink),
        Err(ControlError::Sink("refused 6".to_owned()))
    );
    assert_eq!(control.pending_steers(), 1);
    assert!(!control.is_live());
    assert!(!sink.types().contains(&RUN_FINISHED));
    control
        .process_exited(ProcessExit::Abnormal, finished(RunOutcome::Failed), &mut sink)
        .expect("finish run");
    assert_eq!(control.pending_steers(), 0);
    assert_eq!(sink.types().last(), Some(&RUN_FINISHED));
    assert_eq!(applied(&sink.drafts[6]).control_id, "steer-3");
}

#[test]
fn a_resumed_run_is_live_even_where_its_answer_was_refused() {
    let mut sink = FaultySink::refusing(&[1]);
    let mut control = run(RecordingResumer::succeeding());
    steer(
        &mut control,
        request("steer-1", ControlKind::Steer, Some("go")),
        &mut sink,
    )
    .expect("queue steer");
    assert_eq!(
        control.process_exited(ProcessExit::Normal, finished(RunOutcome::Completed), &mut sink),
        Err(ControlError::Sink("refused 1".to_owned()))
    );
    assert!(control.is_live());
    assert_eq!(control.pending_steers(), 0);
}

#[test]
fn an_excerpt_counts_scalars_and_tells_whether_it_cut() {
    let words = "a\u{E9}\u{1F600}z";
    let whole = excerpt(words, 4);
    assert_eq!((whole.text.as_str(), whole.truncated), (words, false));
    let cut = excerpt(words, 3);
    assert_eq!((cut.text.as_str(), cut.truncated), ("a\u{E9}\u{1F600}", true));
    let none = excerpt(words, 0);
    assert_eq!((none.text.as_str(), none.truncated), ("", true));
    let empty = excerpt("", 0);
    assert_eq!((empty.text.as_str(), empty.truncated), ("", false));
}
