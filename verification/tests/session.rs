use bible_presenter::session::{
    assemble_transcript, is_noise, publish_transcript, SessionOrchestrator, SessionState,
    StartAction, SessionError, OVERLAP, WINDOW_MIN, WINDOW_MAX,
};

#[test]
fn first_start_loads_models() {
    let mut s = SessionOrchestrator::new();
    assert_eq!(s.state(), SessionState::Idle);
    assert_eq!(s.start_session().unwrap(), StartAction::LoadModels);
    assert_eq!(s.state(), SessionState::Loading);
    assert!(s.model_load_finished(true));
    assert_eq!(s.state(), SessionState::Running);
}

#[test]
fn second_start_fails_and_state_stays_running() {
    let mut s = SessionOrchestrator::new();
    s.start_session().unwrap();
    s.model_load_finished(true);
    assert_eq!(s.state(), SessionState::Running);
    let err = s.start_session().unwrap_err();
    assert_eq!(err, SessionError::AlreadyRunning);
    assert_eq!(err.message(), "A session is already running. Click STOP first.");
    assert_eq!(s.state(), SessionState::Running);
}

#[test]
fn failed_model_load_enters_error_and_start_can_be_retried() {
    let mut s = SessionOrchestrator::new();
    s.start_session().unwrap();
    assert!(!s.model_load_finished(false));
    assert_eq!(s.state(), SessionState::Error);
    // A later start is allowed again.
    assert_eq!(s.start_session().unwrap(), StartAction::LoadModels);
}

#[test]
fn models_stay_resident_for_later_sessions() {
    let mut s = SessionOrchestrator::new();
    s.start_session().unwrap();
    s.model_load_finished(true);
    s.stop_session();
    assert_eq!(s.start_session().unwrap(), StartAction::BeginCapture);
    assert_eq!(s.state(), SessionState::Running);
}

#[test]
fn only_first_termination_announces() {
    let mut s = SessionOrchestrator::new();
    s.start_session().unwrap();
    s.model_load_finished(true);
    assert!(s.stop_session());
    // The read loop's natural end afterwards stays silent.
    assert!(!s.stream_ended());
    // And the other way round.
    s.start_session().unwrap();
    assert!(s.stream_ended());
    assert!(!s.stop_session());
}

#[test]
fn window_dispatch_retains_overlap_tail() {
    let mut s = SessionOrchestrator::new();
    s.start_session().unwrap();
    s.model_load_finished(true);
    // Window size 16000 samples, overlap 4000 samples.
    s.set_window_size(16000);
    let chunk: Vec<u32> = (0..16000u32).collect();
    let window = s.push_chunk(&chunk).expect("a full window must dispatch");
    // The whole buffered audio is dispatched...
    assert_eq!(window.len(), 16000);
    assert_eq!(window[0], 0);
    assert_eq!(window[15999], 15999);
    // ...and the buffer keeps the trailing overlap: of the 16000 buffered
    // samples, len - 4000 leave and the last 4000 remain for the next cycle.
    assert_eq!(OVERLAP, 4000);
    let next = s.push_chunk(&(0..12000u32).collect::<Vec<u32>>()).unwrap();
    // 4000 retained + 12000 new = a full 16000-sample window whose head is
    // the previous window's tail.
    assert_eq!(next.len(), 16000);
    assert_eq!(next[0], 12000);
    assert_eq!(next[3999], 15999);
    assert_eq!(next[4000], 0);
}

#[test]
fn short_chunks_accumulate_without_dispatch() {
    let mut s = SessionOrchestrator::new();
    s.set_window_size(16000);
    let chunk = vec![7u32; 6000];
    assert!(s.push_chunk(&chunk).is_none());
    assert!(s.push_chunk(&chunk).is_none());
    // Third chunk crosses the window size: 18000 samples dispatch.
    let window = s.push_chunk(&chunk).unwrap();
    assert_eq!(window.len(), 18000);
}

#[test]
fn paused_loop_drains_buffer_without_dispatch() {
    let mut s = SessionOrchestrator::new();
    s.set_window_size(16000);
    s.set_paused(true);
    let chunk = vec![1u32; 20000];
    assert!(s.push_chunk(&chunk).is_none());
    s.set_paused(false);
    // Only the 8000-sample context tail survived the pause drain, so another
    // 6000 samples do not reach the window size yet.
    assert!(s.push_chunk(&vec![2u32; 6000]).is_none());
    let window = s.push_chunk(&vec![3u32; 6000]).unwrap();
    // 8000 retained from the pause drain plus the two 6000-sample chunks.
    assert_eq!(window.len(), 20000);
}

#[test]
fn window_size_is_clamped() {
    let mut s = SessionOrchestrator::new();
    s.set_window_size(100);
    // Too small: clamped up.
    assert!(s.push_chunk(&vec![0u32; WINDOW_MIN - 1]).is_none());
    assert!(s.push_chunk(&vec![0u32; 1]).is_some());
    let mut s2 = SessionOrchestrator::new();
    s2.set_window_size(1_000_000);
    let w = s2.push_chunk(&vec![0u32; WINDOW_MAX]).unwrap();
    assert_eq!(w.len(), WINDOW_MAX);
}

#[test]
fn blank_audio_is_suppressed() {
    assert!(is_noise("[blank_audio]"));
}

#[test]
fn noise_markers_and_whitespace_are_suppressed() {
    assert!(is_noise(""));
    assert!(is_noise("   "));
    assert!(is_noise("[SILENCE]"));
    assert!(is_noise("  [Music] "));
    assert!(is_noise("something [inaudible] here"));
    assert!(is_noise("(silence)"));
    assert!(is_noise("[ silence ]"));
}

#[test]
fn speech_is_published() {
    assert!(!is_noise("For God so loved the world"));
    assert!(!is_noise("John 3:16"));
    assert!(!is_noise("silence is golden"));
}

#[test]
fn transcript_assembly_concatenates_and_trims() {
    let segments = vec![" For God".to_string(), " so loved".to_string(), " the world ".to_string()];
    assert_eq!(assemble_transcript(&segments), "For God so loved the world");
    assert_eq!(assemble_transcript(&vec![]), "");
    assert_eq!(assemble_transcript(&vec!["   ".to_string()]), "");
}

#[test]
fn noise_transcript_publishes_no_result() {
    assert!(publish_transcript("[blank_audio]".to_string(), None, 0).is_none());
    assert!(publish_transcript("  ".to_string(), None, 900).is_none());
}

#[test]
fn speech_transcript_publishes_with_auto_source() {
    let u = publish_transcript("john three sixteen".to_string(), None, 450).unwrap();
    assert_eq!(u.text, "john three sixteen");
    assert!(u.item.is_none());
    assert_eq!(u.confidence_milli, 450);
    assert_eq!(u.source, "auto");
}
