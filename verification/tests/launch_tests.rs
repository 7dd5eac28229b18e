use qwley_launcher::launch::{
    admin_launch_unsupported, launch_outcome, launch_preflight, overlay_present, pipe_name_wide,
    pipe_poll_step, qwley_already_running, require_installed, start_as_admin, tasklist_mentions_qwley,
    try_connect_pipe, wide_nul, PollStep, PIPE_NAME,
};

#[test]
fn shell_results_above_32_are_success() {
    assert_eq!(start_as_admin(33), Ok(()));
    assert_eq!(start_as_admin(42), Ok(()));
    assert_eq!(start_as_admin(5), Err("Administrator launch was cancelled or failed (5).".to_string()));
    assert_eq!(start_as_admin(32), Err("Administrator launch was cancelled or failed (32).".to_string()));
    assert_eq!(start_as_admin(0), Err("Administrator launch was cancelled or failed (0).".to_string()));
    assert_eq!(admin_launch_unsupported(), Err("This launcher is for Windows.".to_string()));
}

#[test]
fn the_pipe_is_reached_unless_the_handle_is_invalid() {
    assert!(try_connect_pipe(false));
    assert!(!try_connect_pipe(true));
}

#[test]
fn wide_strings_are_utf16_with_a_final_zero() {
    assert_eq!(wide_nul("runas"), vec![114, 117, 110, 97, 115, 0]);
    assert_eq!(wide_nul(""), vec![0]);
    assert_eq!(wide_nul("é😀"), vec![0xE9, 0xD83D, 0xDE00, 0]);
    let expected: Vec<u16> = PIPE_NAME.encode_utf16().chain(std::iter::once(0)).collect();
    assert_eq!(pipe_name_wide(), expected);
}

#[test]
fn the_process_list_is_searched_without_case() {
    let out = b"\r\nImage Name   PID\r\nQwleyShade.EXE   1234 Console\r\n";
    assert!(qwley_already_running(out));
    assert!(!qwley_already_running(b"INFO: No tasks are running which match the specified criteria.\r\n"));
    assert!(qwley_already_running(b"\xffqwleyshade.exe\xfe"));
    assert!(tasklist_mentions_qwley("x QWLEYSHADE.EXE y"));
    assert!(!tasklist_mentions_qwley("qwleyshade"));
}

#[test]
fn a_launch_needs_both_programs_and_no_running_instance() {
    assert_eq!(launch_preflight(true, true, true), Err("QWLEY SHADE is already running.".to_string()));
    assert_eq!(
        launch_preflight(false, false, false),
        Err("qwleyshade.exe was not found in Desktop\\qwleyshade.".to_string())
    );
    assert_eq!(
        launch_preflight(false, true, false),
        Err("eurotrucks2.exe was not found in Desktop\\qwleyshade.".to_string())
    );
    assert_eq!(launch_preflight(false, true, true), Ok(()));
    assert_eq!(overlay_present(true), Ok(()));
    assert_eq!(overlay_present(false), Err("eurotrucks2.exe was not found in Desktop\\qwleyshade.".to_string()));
}

#[test]
fn the_pipe_wait_lasts_three_seconds_in_steps_of_100_ms() {
    assert!(matches!(pipe_poll_step(true, 5000), PollStep::Injected));
    assert!(matches!(pipe_poll_step(false, 0), PollStep::Wait(100)));
    assert!(matches!(pipe_poll_step(false, 2999), PollStep::Wait(100)));
    assert!(matches!(pipe_poll_step(false, 3000), PollStep::GiveUp));
}

#[test]
fn launch_results_and_installation_checks() {
    assert_eq!(launch_outcome(true), Ok(()));
    assert_eq!(launch_outcome(false), Err("Injection failed: pipe not available".to_string()));
    assert_eq!(require_installed(true), Ok(()));
    assert_eq!(
        require_installed(false),
        Err("QWLEY SHADE is not installed. Run QWLEY SHADE Installer first.".to_string())
    );
}
