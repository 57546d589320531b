use omavision_core::status::{
    count_label, enrich_progress, from_cache, no_key, playback_failed, player_exited, row_note, row_number, scan_complete,
    scan_failed,
};

#[test]
fn status_lines_read_as_the_window_shows_them() {
    assert_eq!(scan_complete(130), "130 items · scan complete");
    assert_eq!(from_cache(0), "0 items from cache · scanning…");
    assert_eq!(enrich_progress(3, 10, 130), "fetching metadata 3/10");
    assert_eq!(enrich_progress(10, 10, 130), "130 items · metadata complete");
}

#[test]
fn rows_are_numbered_on_three_digits_and_noted() {
    assert_eq!(row_number(7), "007");
    assert_eq!(row_number(1234), "1234");
    assert_eq!(row_note(true, false, 24), "24 ep.");
    assert_eq!(row_note(false, true, 24), "24 episodes");
    assert_eq!(row_note(false, false, 24), "");
    assert_eq!(count_label(false, 3, 5), "3 / 5");
    assert_eq!(count_label(true, 3, 24), "24 episodes");
}

#[test]
fn playback_and_scan_outcomes_are_worded() {
    assert_eq!(player_exited(true, "exit status: 0"), "player exited");
    assert_eq!(player_exited(false, "exit status: 2"), "player exited with exit status: 2");
    assert_eq!(playback_failed("mpv: not found"), "playback failed: mpv: not found");
    assert_eq!(scan_failed("no such directory"), "scan failed: no such directory");
}

#[test]
fn a_missing_key_is_added_to_the_status_line() {
    assert_eq!(
        no_key("12 items · scan complete", "/home/me/.config/omavision/tmdb.key"),
        "12 items · scan complete · no TMDB key in env or /home/me/.config/omavision/tmdb.key"
    );
}

#[test]
fn a_season_heading_row_number_is_zero_padded() {
    assert_eq!(row_number(0), "000");
}
