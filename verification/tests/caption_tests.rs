use chess_ttm::args::Args;
use chess_ttm::caption::{generate_caption, GraphType};
use chess_ttm::reader::GameReader;

fn caption_args(time_control: &str) -> Args {
    Args {
        input: String::new(),
        output: String::new(),
        time_control: time_control.to_string(),
        max_games: None,
        min_rating: None,
        max_rating: None,
        resolution: None,
        quartiles: false,
        all: false,
        averages: false,
        residuals: false,
        one_var: false,
        overlay_regression: false,
        svg: false,
    }
}

#[test]
fn caption_without_rating_bounds() {
    let gr = GameReader::new(&caption_args("600+0"));
    assert_eq!(
        generate_caption(GraphType::Average, &gr),
        "Average TTM (No ELO Limit, 600+0 seconds, 0 Games)"
    );
}

#[test]
fn caption_with_both_rating_bounds() {
    let mut args = caption_args("180+2");
    args.min_rating = Some(1000);
    args.max_rating = Some(2000);
    let mut gr = GameReader::new(&args);
    gr.games_analyzed = 41;
    assert_eq!(
        generate_caption(GraphType::All, &gr),
        "All (1000-2000 ELO*, 180+2 seconds, 41 Games)"
    );
}

#[test]
fn caption_with_one_rating_bound() {
    let mut args = caption_args("60+0");
    args.min_rating = Some(800);
    let gr = GameReader::new(&args);
    assert_eq!(
        generate_caption(GraphType::RelativeFrequencyX, &gr),
        "RF of Time Left (800- ELO*, 60+0 seconds, 0 Games)"
    );
}

#[test]
fn caption_titles_name_each_chart() {
    let gr = GameReader::new(&caption_args("300+3"));
    assert!(generate_caption(GraphType::RelativeFrequencyY, &gr).starts_with("RF of TTM ("));
    assert!(generate_caption(GraphType::Average, &gr).starts_with("Average TTM ("));
}
