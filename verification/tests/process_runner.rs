use hyprdisjust::process::{deadline_error, run_step, Capture, RunStep};

#[test]
fn a_capture_keeps_the_beginning_of_a_stream() {
    let mut capture = Capture::new(64);
    for _ in 0..1000 {
        capture.push(b"x");
    }
    let (retained, truncated) = capture.finish();
    assert_eq!(retained, vec![b'x'; 64]);
    assert!(truncated);

    let mut capture = Capture::new(4);
    capture.push(b"abc");
    capture.push(b"d");
    assert_eq!(capture.finish(), (b"abcd".to_vec(), false));

    let mut capture = Capture::new(4);
    capture.push(b"abc");
    capture.push(b"def");
    assert_eq!(capture.finish(), (b"abcd".to_vec(), true));
}

#[test]
fn a_command_is_given_up_at_its_deadline() {
    assert_eq!(run_step(false, false, false, 49, 50), RunStep::Wait);
    assert_eq!(run_step(false, false, false, 50, 50), RunStep::GiveUp);
    // A descendant that holds a stream open counts too.
    assert_eq!(run_step(true, true, false, 51, 50), RunStep::GiveUp);
    assert_eq!(run_step(true, true, false, 1, 50), RunStep::Wait);
    // A command that has ended in the meantime has not failed.
    assert_eq!(run_step(true, true, true, 51, 50), RunStep::Finish);
}

#[test]
fn a_missed_deadline_is_told() {
    let error = deadline_error("synthetic hanging query", "50ms", "\"sh\" \"-c\" \"sleep 30\"");
    assert_eq!(
        error.to_string(),
        "synthetic hanging query exceeded its 50ms deadline; process group was terminated and \
         reaped; command: \"sh\" \"-c\" \"sleep 30\""
    );
}
