use dropsync::watch::is_watch_settled;
use dropsync::watch::update_watch_countdown;
use dropsync::watch::WATCH_DIR_MAX_SECONDS;

#[test]
fn test_countdown_grows_while_the_watch_dir_stays_quiet() {
    assert_eq!(update_watch_countdown(0, false), 1);
    assert_eq!(update_watch_countdown(1, false), 2);
    assert_eq!(update_watch_countdown(2, false), 3);
}

#[test]
fn test_countdown_resets_when_a_watched_process_runs() {
    assert_eq!(update_watch_countdown(0, true), 0);
    assert_eq!(update_watch_countdown(2, true), 0);
}

#[test]
fn test_watch_settles_after_enough_quiet_seconds() {
    assert!(!is_watch_settled(0));
    assert!(!is_watch_settled(WATCH_DIR_MAX_SECONDS - 1));
    assert!(is_watch_settled(WATCH_DIR_MAX_SECONDS));
}

#[test]
fn test_watch_loop_needs_three_consecutive_quiet_seconds() {
    let activity = [false, false, true, false, false, false];
    let mut seconds: u64 = 0;
    let mut ticks = 0;
    for busy in activity {
        if is_watch_settled(seconds) {
            break;
        }
        seconds = update_watch_countdown(seconds, busy);
        ticks += 1;
    }
    assert!(is_watch_settled(seconds));
    assert_eq!(ticks, 6);
}
