use blockfetch::progress::{build_succedent, print_progress, print_progress_fallback, progress_bar, room_for_bar};

#[test]
fn text_behind_the_bar() {
    assert_eq!(build_succedent("12.5", "1.0 KiB/s", "05s"), "] 12.5% 1.0 KiB/s ETA 05s");
}

#[test]
fn room_on_the_line() {
    // 17 characters before the bar, 10 behind it, 4 left free
    assert_eq!(room_for_bar(Some(32), "0123456789"), Some(1));
    assert_eq!(room_for_bar(Some(31), "0123456789"), None);
    assert_eq!(room_for_bar(Some(80), "0123456789"), Some(49));
    assert_eq!(room_for_bar(Some(0), "0123456789"), None);
    assert_eq!(room_for_bar(None, "0123456789"), None);
}

#[test]
fn line_with_bar() {
    assert_eq!(progress_bar(5, 2, "] x"), "\r=> Downloading: [>>---] x");
    assert_eq!(progress_bar(3, 3, "]"), "\r=> Downloading: [>>>]");
    assert_eq!(progress_bar(3, 4, "]"), "\r=> Downloading: [>>>>]");
    assert_eq!(progress_bar(0, 0, "]"), "\r=> Downloading: []");
}

#[test]
fn line_fits_the_terminal() {
    let succedent = build_succedent("50.0", "2.0 MiB/s", "01m00s");
    let room = room_for_bar(Some(100), &succedent).unwrap();
    assert_eq!(progress_bar(room, room / 2, &succedent).len(), 1 + 96);
}

#[test]
fn line_without_bar() {
    assert_eq!(print_progress_fallback("12.34"), "\r=> Progress: 12.34%");
}

#[test]
fn either_line() {
    assert_eq!(print_progress(Some(2), 1, "]", "50.00"), "\r=> Downloading: [>-]");
    assert_eq!(print_progress(None, 1, "]", "50.00"), "\r=> Progress: 50.00%");
}
