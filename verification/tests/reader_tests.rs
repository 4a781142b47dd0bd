use chess_ttm::args::Args;
use chess_ttm::errors::CorruptValue;
use chess_ttm::reader::{time_control_params, GameReader};

fn args_with(time_control: &str) -> Args {
    Args {
        input: String::new(),
        output: String::new(),
        time_control: time_control.to_string(),
        max_games: None,
        min_rating: None,
        max_rating: None,
        resolution: None,
        quartiles: false,
        all: false,
        averages: false,
        residuals: false,
        one_var: false,
        overlay_regression: false,
        svg: false,
    }
}

#[test]
fn time_control_labels() {
    assert_eq!(time_control_params("600+0"), Some((600, 0)));
    assert_eq!(time_control_params("180+2"), Some((180, 2)));
    assert_eq!(time_control_params("600"), None);
    assert_eq!(time_control_params(""), None);
    assert_eq!(time_control_params("abc+0"), None);
    assert_eq!(time_control_params("600+-1"), None);
    assert_eq!(time_control_params("600+2+9"), Some((600, 2)));
    // the largest configurable dataset, and one just past it
    assert_eq!(time_control_params("1073741823+0"), Some((1073741823, 0)));
    assert_eq!(time_control_params("1073741823+1"), None);
}

#[test]
fn rating_headers_past_the_second_are_ignored() {
    let mut args = args_with("600+0");
    args.min_rating = Some(1500);
    let mut gr = GameReader::new(&args);
    gr.begin_game();
    gr.read_header(b"TimeControl", b"600+0").unwrap();
    gr.read_header(b"WhiteElo", b"1600").unwrap();
    gr.read_header(b"BlackElo", b"1600").unwrap();
    // a stray duplicate must not re-open the filter decision
    gr.read_header(b"WhiteElo", b"100").unwrap();
    assert!(!gr.end_headers());
}

#[test]
fn bucket_count_is_base_plus_increment_plus_one() {
    let gr = GameReader::new(&args_with("600+0"));
    assert_eq!(gr.time_data.len(), 601);
    assert_eq!(gr.max_allowed_time, 600);

    let gr = GameReader::new(&args_with("180+2"));
    assert_eq!(gr.time_data.len(), 183);
    assert_eq!(gr.max_allowed_time, 182);

    let gr = GameReader::new(&args_with("0+0"));
    assert_eq!(gr.time_data.len(), 1);
}

#[test]
fn single_game_end_to_end() {
    // one game at "600+0", both players rated 1500, no rating bounds set
    let args = args_with("600+0");
    let mut gr = GameReader::new(&args);
    gr.begin_game();
    gr.read_header(b"TimeControl", b"600+0").unwrap();
    gr.read_header(b"WhiteElo", b"1500").unwrap();
    gr.read_header(b"BlackElo", b"1500").unwrap();
    assert!(!gr.end_headers());
    gr.read_comment(b"[%clk 0:10:00]").unwrap();
    gr.read_comment(b"[%clk 0:09:50]").unwrap();
    gr.read_comment(b"[%clk 0:09:30]").unwrap();
    gr.read_comment(b"[%clk 0:09:00]").unwrap();
    gr.end_game();
    assert_eq!(gr.time_data[570], vec![30]);
    assert_eq!(gr.time_data[540], vec![50]);
    assert_eq!(gr.moves_analyzed, 2);
    assert_eq!(gr.games_analyzed, 1);
    assert_eq!(gr.total_games, 1);
}

#[test]
fn two_readings_leave_no_sample() {
    let mut gr = GameReader::new(&args_with("600+0"));
    gr.begin_game();
    gr.read_header(b"TimeControl", b"600+0").unwrap();
    assert!(!gr.end_headers());
    gr.read_comment(b"[%clk 0:10:00]").unwrap();
    gr.read_comment(b"[%clk 0:09:55]").unwrap();
    gr.end_game();
    assert_eq!(gr.moves_analyzed, 0);
    assert!(gr.time_data.iter().all(|bucket| bucket.is_empty()));
}

#[test]
fn overrange_reading_is_dropped_without_perturbing_the_window() {
    let mut gr = GameReader::new(&args_with("600+0"));
    gr.begin_game();
    gr.read_header(b"TimeControl", b"600+0").unwrap();
    assert!(!gr.end_headers());
    gr.read_comment(b"[%clk 0:10:00]").unwrap();
    gr.read_comment(b"[%clk 0:09:50]").unwrap();
    // 2:00:00 is 7200 seconds, over the 600-second cap: corrupt telemetry
    gr.read_comment(b"[%clk 2:00:00]").unwrap();
    gr.read_comment(b"[%clk 0:09:30]").unwrap();
    assert_eq!(gr.time_data[570], vec![30]);
    assert_eq!(gr.moves_analyzed, 1);
}

#[test]
fn increment_is_added_back_to_deltas() {
    let mut gr = GameReader::new(&args_with("180+2"));
    gr.begin_game();
    gr.read_header(b"TimeControl", b"180+2").unwrap();
    assert!(!gr.end_headers());
    gr.read_comment(b"[%clk 0:03:00]").unwrap();
    gr.read_comment(b"[%clk 0:03:01]").unwrap();
    gr.read_comment(b"[%clk 0:02:52]").unwrap();
    // delta = 180 - (172 - 2) = 10
    assert_eq!(gr.time_data[172], vec![10]);
    assert_eq!(gr.moves_analyzed, 1);
}

#[test]
fn several_markers_in_one_comment() {
    let mut gr = GameReader::new(&args_with("60+0"));
    gr.begin_game();
    gr.read_header(b"TimeControl", b"60+0").unwrap();
    assert!(!gr.end_headers());
    gr.read_comment(b"[%clk 0:01:00] [%clk 0:00:50] [%clk 0:00:45]").unwrap();
    assert_eq!(gr.time_data[45], vec![15]);
    assert_eq!(gr.moves_analyzed, 1);
}

#[test]
fn wrong_time_control_skips_the_game() {
    let mut gr = GameReader::new(&args_with("600+0"));
    gr.begin_game();
    gr.read_header(b"TimeControl", b"300+0").unwrap();
    assert!(gr.end_headers());
    gr.read_comment(b"[%clk 0:05:00]").unwrap();
    gr.read_comment(b"[%clk 0:04:50]").unwrap();
    gr.read_comment(b"[%clk 0:04:30]").unwrap();
    gr.end_game();
    assert_eq!(gr.moves_analyzed, 0);
    assert_eq!(gr.games_analyzed, 0);
    assert_eq!(gr.total_games, 1);
}

#[test]
fn rating_average_filter_uses_both_ratings() {
    let mut args = args_with("600+0");
    args.min_rating = Some(1500);
    let mut gr = GameReader::new(&args);

    // average 1550 >= 1500: accepted
    gr.begin_game();
    gr.read_header(b"TimeControl", b"600+0").unwrap();
    gr.read_header(b"WhiteElo", b"1400").unwrap();
    gr.read_header(b"BlackElo", b"1700").unwrap();
    assert!(!gr.end_headers());

    // average 1450 < 1500: rejected
    gr.begin_game();
    gr.read_header(b"TimeControl", b"600+0").unwrap();
    gr.read_header(b"WhiteElo", b"1400").unwrap();
    gr.read_header(b"BlackElo", b"1500").unwrap();
    assert!(gr.end_headers());

    assert_eq!(gr.games_analyzed, 1);
    assert_eq!(gr.total_games, 2);
}

#[test]
fn rating_maximum_filter() {
    let mut args = args_with("600+0");
    args.max_rating = Some(1600);
    let mut gr = GameReader::new(&args);
    gr.begin_game();
    gr.read_header(b"TimeControl", b"600+0").unwrap();
    gr.read_header(b"WhiteElo", b"1700").unwrap();
    gr.read_header(b"BlackElo", b"1600").unwrap();
    assert!(gr.end_headers());
    assert_eq!(gr.games_analyzed, 0);
}

#[test]
fn lone_rating_header_does_not_reject() {
    let mut args = args_with("600+0");
    args.min_rating = Some(1500);
    let mut gr = GameReader::new(&args);
    gr.begin_game();
    gr.read_header(b"TimeControl", b"600+0").unwrap();
    gr.read_header(b"WhiteElo", b"1000").unwrap();
    assert!(!gr.end_headers());
    assert_eq!(gr.games_analyzed, 1);
}

#[test]
fn unreadable_rating_is_reported_and_skipped() {
    let mut args = args_with("600+0");
    args.min_rating = Some(1500);
    let mut gr = GameReader::new(&args);
    gr.begin_game();
    assert_eq!(gr.read_header(b"WhiteElo", b"unknown"), Err(CorruptValue::Rating));
    // the bad header changed nothing; the game goes on
    gr.read_header(b"TimeControl", b"600+0").unwrap();
    assert!(!gr.end_headers());
}

#[test]
fn rating_headers_ignored_without_bounds() {
    let mut gr = GameReader::new(&args_with("600+0"));
    gr.begin_game();
    // without a configured bound the value is not even parsed
    gr.read_header(b"WhiteElo", b"unknown").unwrap();
    gr.read_header(b"TimeControl", b"600+0").unwrap();
    assert!(!gr.end_headers());
}

#[test]
fn unrelated_headers_are_ignored() {
    let mut gr = GameReader::new(&args_with("600+0"));
    gr.begin_game();
    gr.read_header(b"Event", b"Casual game").unwrap();
    gr.read_header(b"Result", b"1-0").unwrap();
    gr.read_header(b"TimeControl", b"600+0").unwrap();
    assert!(!gr.end_headers());
}

#[test]
fn max_games_cap_stops_accepting() {
    let mut args = args_with("600+0");
    args.max_games = Some(1);
    let mut gr = GameReader::new(&args);

    gr.begin_game();
    gr.read_header(b"TimeControl", b"600+0").unwrap();
    assert!(!gr.end_headers());

    gr.begin_game();
    gr.read_header(b"TimeControl", b"600+0").unwrap();
    assert!(gr.end_headers());

    assert_eq!(gr.games_analyzed, 1);
    assert_eq!(gr.total_games, 2);
}

#[test]
fn malformed_duration_skips_the_rest_of_the_comment() {
    let mut gr = GameReader::new(&args_with("600+0"));
    gr.begin_game();
    gr.read_header(b"TimeControl", b"600+0").unwrap();
    assert!(!gr.end_headers());
    gr.read_comment(b"[%clk 0:10:00]").unwrap();
    gr.read_comment(b"[%clk 0:09:50]").unwrap();
    // the first marker records its delta, the bad one aborts the comment
    assert_eq!(
        gr.read_comment(b"[%clk 0:09:30] [%clk oops] [%clk 0:09:10]"),
        Err(CorruptValue::ClockTime)
    );
    assert_eq!(gr.time_data[570], vec![30]);
    assert_eq!(gr.moves_analyzed, 1);
}

#[test]
fn trailing_marker_is_an_error() {
    let mut gr = GameReader::new(&args_with("600+0"));
    gr.begin_game();
    gr.read_header(b"TimeControl", b"600+0").unwrap();
    assert!(!gr.end_headers());
    assert_eq!(gr.read_comment(b"something %clk"), Err(CorruptValue::ClockTime));
    assert_eq!(gr.moves_analyzed, 0);
}

#[test]
fn comments_without_markers_do_nothing() {
    let mut gr = GameReader::new(&args_with("600+0"));
    gr.begin_game();
    gr.read_header(b"TimeControl", b"600+0").unwrap();
    assert!(!gr.end_headers());
    gr.read_comment(b"").unwrap();
    gr.read_comment(b"a fine positional idea").unwrap();
    gr.read_comment(b"[%eval 0.41]").unwrap();
    assert_eq!(gr.moves_analyzed, 0);
}

#[test]
fn comments_of_skipped_games_are_ignored() {
    let mut args = args_with("600+0");
    args.max_games = Some(0);
    let mut gr = GameReader::new(&args);
    gr.begin_game();
    gr.read_header(b"TimeControl", b"600+0").unwrap();
    assert!(gr.end_headers());
    gr.read_comment(b"[%clk 0:10:00] [%clk 0:09:50] [%clk 0:09:30] [%clk not-a-time]").unwrap();
    assert_eq!(gr.moves_analyzed, 0);
    assert!(gr.time_data.iter().all(|bucket| bucket.is_empty()));
}

#[test]
fn window_resets_between_games() {
    let mut gr = GameReader::new(&args_with("600+0"));

    gr.begin_game();
    gr.read_header(b"TimeControl", b"600+0").unwrap();
    assert!(!gr.end_headers());
    gr.read_comment(b"[%clk 0:10:00]").unwrap();
    gr.read_comment(b"[%clk 0:09:50]").unwrap();
    gr.end_game();

    gr.begin_game();
    gr.read_header(b"TimeControl", b"600+0").unwrap();
    assert!(!gr.end_headers());
    gr.read_comment(b"[%clk 0:09:40]").unwrap();
    assert_eq!(gr.moves_analyzed, 0);
    assert!(gr.time_data.iter().all(|bucket| bucket.is_empty()));
}
