use voice_relay::admission::{Admission, AdmitDecision, MIN_SPACING_MS};
use voice_relay::context::ContextWindow;
use voice_relay::session::{AudioOutcome, ChatReply, Session, TextOutcome};

#[test]
fn admission_spacing_and_ceiling() {
    let mut a = Admission::new(0);
    // The opening instant counts as a request start: too soon at two seconds.
    assert_eq!(a.try_admit(2_000), AdmitDecision::TooSoon(3));
    // Admitted once the full spacing has passed.
    assert_eq!(a.try_admit(6_000), AdmitDecision::Admit);
    a.release();
    // Two seconds after an accepted request: rejected with three seconds left.
    assert_eq!(a.try_admit(8_000), AdmitDecision::TooSoon(3));
    // Six seconds after: admitted.
    assert_eq!(a.try_admit(12_000), AdmitDecision::Admit);
    a.release();
    assert_eq!(MIN_SPACING_MS, 5_000);
}

#[test]
fn admission_single_flight() {
    let mut a = Admission::new(0);
    assert_eq!(a.try_admit(6_000), AdmitDecision::Admit);
    // While the first call runs, a second request is busy, not queued.
    assert_eq!(a.try_admit(20_000), AdmitDecision::Busy);
    a.release();
    assert_eq!(a.try_admit(20_000), AdmitDecision::Admit);
}

#[test]
fn history_is_bounded_and_fifo() {
    let mut w = ContextWindow::new();
    for i in 0..51u32 {
        w.append(format!("in{}", i), format!("out{}", i));
    }
    assert_eq!(w.len(), 50);
    let ctx = w.build_prompt_context();
    // The oldest pair was evicted; the newest survives.
    assert_eq!(ctx.last().unwrap().0, "in50");
}

#[test]
fn prompt_context_is_last_five_in_order() {
    let mut w = ContextWindow::new();
    for i in 0..7u32 {
        w.append(format!("q{}", i), format!("a{}", i));
    }
    let ctx = w.build_prompt_context();
    assert_eq!(ctx.len(), 5);
    for (k, pair) in ctx.iter().enumerate() {
        assert_eq!(pair.0, format!("q{}", k + 2));
        assert_eq!(pair.1, format!("a{}", k + 2));
    }
}

#[test]
fn clear_empties_history() {
    let mut w = ContextWindow::new();
    w.append("q".to_string(), "a".to_string());
    w.clear();
    assert_eq!(w.len(), 0);
    assert!(w.build_prompt_context().is_empty());
}

#[test]
fn ping_answers_without_touching_state() {
    let mut s = Session::new(0);
    assert!(matches!(s.handle_text("ping", 100), TextOutcome::Pong));
    assert!(matches!(s.handle_text("ping", 100), TextOutcome::Pong));
}

#[test]
fn clear_context_confirms() {
    let mut s = Session::new(0);
    assert!(matches!(s.handle_text("clear_context", 100), TextOutcome::ContextCleared));
    assert_eq!(s.history.len(), 0);
}

#[test]
fn unroutable_text_is_ignored() {
    let mut s = Session::new(0);
    assert!(matches!(s.handle_text("hello", 100), TextOutcome::Ignored));
}

#[test]
fn text_request_roundtrip_with_context() {
    let mut s = Session::new(0);
    match s.handle_text("text:привет", 6_000) {
        TextOutcome::StartChat { input, .. } => assert_eq!(input, "привет"),
        _ => panic!("expected an admitted request"),
    }
    match s.finish_chat("привет".to_string(), Some("здравствуй".to_string())) {
        ChatReply::Answer(a) => assert_eq!(a, "здравствуй"),
        _ => panic!("expected an answer"),
    }
    assert_eq!(s.history.len(), 1);
    // Two seconds later: too soon, three whole seconds left.
    match s.handle_text("text:ещё", 8_000) {
        TextOutcome::Rejected { decision } => assert_eq!(decision, AdmitDecision::TooSoon(3)),
        _ => panic!("expected a rejection"),
    }
    // After the spacing: admitted again.
    assert!(matches!(s.handle_text("text:ещё", 11_000), TextOutcome::StartChat { .. }));
}

#[test]
fn busy_while_in_flight() {
    let mut s = Session::new(0);
    assert!(matches!(s.handle_text("text:a", 6_000), TextOutcome::StartChat { .. }));
    match s.handle_text("text:b", 20_000) {
        TextOutcome::Rejected { decision } => assert_eq!(decision, AdmitDecision::Busy),
        _ => panic!("expected busy"),
    }
}

#[test]
fn backend_failure_keeps_history_and_releases() {
    let mut s = Session::new(0);
    assert!(matches!(s.handle_text("text:a", 6_000), TextOutcome::StartChat { .. }));
    assert!(matches!(s.finish_chat("a".to_string(), None), ChatReply::BackendFailed));
    assert_eq!(s.history.len(), 0);
    // Admission was released: the next spaced request is admitted.
    assert!(matches!(s.handle_text("text:b", 12_000), TextOutcome::StartChat { .. }));
}

#[test]
fn morse_request_decodes_then_gates() {
    let mut s = Session::new(0);
    match s.handle_text("morse:.- -... .", 6_000) {
        TextOutcome::StartChat { input, .. } => assert_eq!(input, "АБЕ"),
        _ => panic!("expected an admitted decoded request"),
    }
}

#[test]
fn morse_request_obeys_the_same_admission() {
    let mut s = Session::new(0);
    // Too soon right after the connection opened.
    match s.handle_text("morse:.-", 2_000) {
        TextOutcome::Rejected { decision } => assert_eq!(decision, AdmitDecision::TooSoon(3)),
        _ => panic!("expected a rejection"),
    }
    // Busy while an admitted text request is still running.
    assert!(matches!(s.handle_text("text:a", 6_000), TextOutcome::StartChat { .. }));
    match s.handle_text("morse:.-", 20_000) {
        TextOutcome::Rejected { decision } => assert_eq!(decision, AdmitDecision::Busy),
        _ => panic!("expected busy"),
    }
}

#[test]
fn morse_decode_failure_skips_gate_and_history() {
    let mut s = Session::new(0);
    match s.handle_text("morse:x", 6_000) {
        TextOutcome::MorseDecodeFailed { code } => assert_eq!(code, "x"),
        _ => panic!("expected a decode failure"),
    }
    // Admission was never touched: a plain request right after is admitted.
    assert!(matches!(s.handle_text("text:a", 6_000), TextOutcome::StartChat { .. }));
}

#[test]
fn assembler_splits_at_sentinel() {
    let mut s = Session::new(0);
    assert!(!s.handle_binary(b"abc"));
    let mut tail = b"de".to_vec();
    tail.extend_from_slice(b"END_STREAM");
    tail.extend_from_slice(b"zz");
    assert!(s.handle_binary(&tail));
    match s.end_recording(6_000) {
        AudioOutcome::StartTranscribe { pcm } => assert_eq!(pcm.as_slice(), b"abcde"),
        _ => panic!("expected an admitted recording"),
    }
}

#[test]
fn empty_recording_reports_no_data() {
    let mut s = Session::new(0);
    assert!(s.handle_binary(b"END_STREAM..."));
    assert!(matches!(s.end_recording(6_000), AudioOutcome::NoData));
    // NoData left admission alone.
    assert!(matches!(s.handle_text("text:a", 6_000), TextOutcome::StartChat { .. }));
}

#[test]
fn rejected_recording_discards_buffer() {
    let mut s = Session::new(0);
    assert!(s.handle_binary(b"abEND_STREAM"));
    match s.end_recording(2_000) {
        AudioOutcome::Rejected { decision } => assert_eq!(decision, AdmitDecision::TooSoon(3)),
        _ => panic!("expected a rejection"),
    }
    // The buffer was reset: the next recording starts empty.
    assert!(s.handle_binary(b"END_STREAM"));
    assert!(matches!(s.end_recording(6_000), AudioOutcome::NoData));
}
