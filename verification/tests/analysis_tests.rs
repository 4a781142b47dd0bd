use chess_ttm::args::Args;
use chess_ttm::reader::GameReader;

#[test]
fn split_nested() {
    let data = [[0, 1, 2], [3, 4, 5], [6, 7, 8]];
    let (x_values, y_values): (Vec<i32>, Vec<i32>) = data
        .iter()
        .enumerate()
        .flat_map(|(x, row)| row.iter().map(move |&y| (x as i32, y)))
        .unzip();
    assert_eq!(x_values.len(), 9);
    assert_eq!(x_values, [0, 0, 0, 1, 1, 1, 2, 2, 2]);
    assert_eq!(y_values.len(), 9);
}

fn plain_args(time_control: &str) -> Args {
    Args {
        input: String::new(),
        output: String::new(),
        time_control: time_control.to_string(),
        max_games: None,
        min_rating: None,
        max_rating: None,
        resolution: None,
        quartiles: false,
        all: false,
        averages: false,
        residuals: false,
        one_var: false,
        overlay_regression: false,
        svg: false,
    }
}

#[test]
fn sample_pairs_flatten_in_bucket_order() {
    let args = plain_args("5+0");
    let mut gr = GameReader::new(&args);
    gr.time_data[1] = vec![7, 8];
    gr.time_data[4] = vec![-2];
    let (xs, ys) = gr.sample_pairs();
    assert_eq!(xs, vec![1, 1, 4]);
    assert_eq!(ys, vec![7, 8, -2]);
}

#[test]
fn sample_pairs_empty_dataset() {
    let args = plain_args("3+1");
    let gr = GameReader::new(&args);
    let (xs, ys) = gr.sample_pairs();
    assert!(xs.is_empty());
    assert!(ys.is_empty());
}
