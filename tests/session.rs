use engraver::normalize::normalize;
use engraver::session::{Action, Phase, Session, SessionSupervisor};

fn start(program: &str, size: usize, token: &str) -> (Session, Action) {
    Session::start(
        program,
        size,
        "gcode".to_string(),
        "gcode/next".to_string(),
        token.to_string(),
    )
}

fn payload(a: &Action) -> Option<String> {
    match a {
        Action::Publish { topic, payload } => {
            assert_eq!(topic, "gcode");
            Some(payload.clone())
        }
        _ => None,
    }
}

#[test]
fn end_to_end_five_lines_in_chunks_of_two() {
    let program = normalize("G0 X1\nG1 X2.3456\nG1 X3 ; c\nM5\nG0 Y0.5", 500);
    assert_eq!(program, "G1 X1 F500\nG1 X2.34\nG1 X3 \nM5\nG1 Y0.5 F500");
    let (mut s, first) = start(&program, 2, "next");
    assert_eq!(payload(&first).unwrap(), "G1 X1 F500\nG1 X2.34");
    s.on_publish_result(true);
    let a = s.on_message("next");
    assert_eq!(payload(&a).unwrap(), "G1 X3 \nM5");
    s.on_publish_result(true);
    let a = s.on_message("next");
    assert_eq!(payload(&a).unwrap(), "G1 Y0.5 F500");
    s.on_publish_result(true);
    let a = s.on_message("next");
    assert!(matches!(a, Action::Stop));
    assert_eq!(s.phase(), Phase::Completed);
    let a = s.on_message("next");
    assert!(matches!(a, Action::Nothing));
}

#[test]
fn other_messages_are_ignored() {
    let (mut s, _) = start("a\nb\nc", 1, "next");
    s.on_publish_result(true);
    assert!(matches!(s.on_message("Next"), Action::Nothing));
    assert!(matches!(s.on_message("next "), Action::Nothing));
    assert!(matches!(s.on_message(""), Action::Nothing));
    assert_eq!(payload(&s.on_message("next")).unwrap(), "b");
}

#[test]
fn empty_program_completes_without_publishing() {
    let (mut s, first) = start("", 2, "next");
    assert!(matches!(first, Action::Nothing));
    assert_eq!(s.phase(), Phase::Completed);
    assert!(matches!(s.on_message("next"), Action::Nothing));
}

#[test]
fn failed_publish_is_retried_before_advancing() {
    let (mut s, _) = start("a\nb\nc", 1, "next");
    s.on_publish_result(true);
    assert_eq!(payload(&s.on_message("next")).unwrap(), "b");
    s.on_publish_result(false);
    assert_eq!(payload(&s.on_message("next")).unwrap(), "b");
    s.on_publish_result(true);
    assert_eq!(payload(&s.on_message("next")).unwrap(), "c");
}

#[test]
fn cancelled_session_stays_silent() {
    let (mut a, _) = start("a\nb\nc", 1, "next");
    a.on_publish_result(true);
    a.cancel();
    assert_eq!(a.phase(), Phase::Cancelled);
    for _ in 0..4 {
        assert!(matches!(a.on_message("next"), Action::Nothing));
    }
}

#[test]
fn new_session_supersedes_the_old_one() {
    let mut sup = SessionSupervisor::new();
    assert!(sup.active_phase().is_none());
    let (a, _) = start("a1\na2\na3", 1, "next");
    assert!(sup.activate(a).is_none());
    sup.on_publish_result(true);
    let (b, first) = start("b1\nb2", 1, "next");
    assert_eq!(payload(&first).unwrap(), "b1");
    let mut prev = sup.activate(b).unwrap();
    assert_eq!(prev.phase(), Phase::Cancelled);
    assert!(matches!(prev.on_message("next"), Action::Nothing));
    sup.on_publish_result(true);
    assert_eq!(payload(&sup.on_message("next")).unwrap(), "b2");
    sup.on_publish_result(true);
    assert!(matches!(sup.on_message("next"), Action::Stop));
    assert!(sup.active_phase().is_none());
    assert!(matches!(sup.on_message("next"), Action::Nothing));
}

#[test]
fn replace_returns_previous_unchanged() {
    let mut sup = SessionSupervisor::new();
    let (a, _) = start("a", 1, "next");
    assert!(sup.replace(a).is_none());
    let (b, _) = start("b", 1, "next");
    let prev = sup.replace(b).unwrap();
    assert_eq!(prev.phase(), Phase::AwaitingAdvance);
}

#[test]
fn retire_cancels_the_active_session() {
    let mut sup = SessionSupervisor::new();
    assert!(sup.retire().is_none());
    let (a, _) = start("a\nb", 1, "next");
    sup.activate(a);
    let prev = sup.retire().unwrap();
    assert_eq!(prev.phase(), Phase::Cancelled);
    assert!(sup.active_phase().is_none());
    assert!(matches!(sup.on_message("next"), Action::Nothing));
}
