//! Chart captions: the one piece of the presentation layer with actual
//! content — composing the chart title, the rating-filter text, the
//! time-control label and the accepted-game count into a caption string.

use vstd::prelude::*;

use crate::reader::GameReader;
use vstd::string::StringExecFns;

verus! {

/// Which chart a caption is for.
pub enum GraphType {
    /// The average time-to-move chart.
    Average,
    /// The all-moves scatterplot.
    All,
    /// The relative-frequency histogram of time left.
    RelativeFrequencyX,
    /// The relative-frequency histogram of time to move.
    RelativeFrequencyY,
}

/// The character of a single decimal digit.
pub open spec fn digit_char(d: int) -> char {
    if d == 0 {
        '0'
    } else if d == 1 {
        '1'
    } else if d == 2 {
        '2'
    } else if d == 3 {
        '3'
    } else if d == 4 {
        '4'
    } else if d == 5 {
        '5'
    } else if d == 6 {
        '6'
    } else if d == 7 {
        '7'
    } else if d == 8 {
        '8'
    } else {
        '9'
    }
}

/// Decimal text of a non-negative number, most significant digit first.
pub open spec fn spec_decimal(n: int) -> Seq<char>
    decreases n when n >= 0
{
    if n < 10 {
        seq![digit_char(n)]
    } else {
        spec_decimal(n / 10).push(digit_char(n % 10))
    }
}

/// Decimal text of any integer: a minus sign before the magnitude.
pub open spec fn spec_int_decimal(n: int) -> Seq<char> {
    if n < 0 {
        seq!['-'] + spec_decimal(-n)
    } else {
        spec_decimal(n)
    }
}

/// The one-digit strings.
fn digit_str(d: u64) -> (r: &'static str)
    requires
        d < 10,
    ensures
        r@ == seq![digit_char(d as int)],
{
    proof {
        reveal_strlit("0");
        reveal_strlit("1");
        reveal_strlit("2");
        reveal_strlit("3");
        reveal_strlit("4");
        reveal_strlit("5");
        reveal_strlit("6");
        reveal_strlit("7");
        reveal_strlit("8");
        reveal_strlit("9");
    }
    match d {
        0 => "0",
        1 => "1",
        2 => "2",
        3 => "3",
        4 => "4",
        5 => "5",
        6 => "6",
        7 => "7",
        8 => "8",
        _ => "9",
    }
}

/// Renders a non-negative number in decimal.
fn decimal_string(n: u64) -> (s: String)
    ensures
        s@ == spec_decimal(n as int),
    decreases n,
{
    if n < 10 {
        String::from_str(digit_str(n))
    } else {
        let mut s = decimal_string(n / 10);
        s.append(digit_str(n % 10));
        s
    }
}

/// Renders a signed 32-bit number in decimal.
fn int_decimal_string(n: i32) -> (s: String)
    ensures
        s@ == spec_int_decimal(n as int),
{
    if n >= 0 {
        decimal_string(n as u64)
    } else {
        let mag: u64 = (-(n as i64)) as u64;
        let mut s = String::from_str("-");
        let digits = decimal_string(mag);
        s.append(digits.as_str());
        proof {
            reveal_strlit("-");
            assert(s@ =~= spec_int_decimal(n as int));
        }
        s
    }
}

/// The title of a chart.
pub open spec fn spec_title(g: GraphType) -> Seq<char> {
    match g {
        GraphType::All => "All"@,
        GraphType::Average => "Average TTM"@,
        GraphType::RelativeFrequencyX => "RF of Time Left"@,
        GraphType::RelativeFrequencyY => "RF of TTM"@,
    }
}

/// The rating-filter part of a caption: the configured bounds around a
/// dash, or a fixed text when no bound is set.
pub open spec fn spec_elo_text(min: Option<i32>, max: Option<i32>) -> Seq<char> {
    if min is None && max is None {
        "No ELO Limit"@
    } else {
        (match min {
            Some(lo) => spec_int_decimal(lo as int),
            None => Seq::empty(),
        }) + "-"@ + (match max {
            Some(hi) => spec_int_decimal(hi as int),
            None => Seq::empty(),
        }) + " ELO*"@
    }
}

/// The whole caption: title, rating filter, time-control label and the
/// number of games analyzed.
pub open spec fn spec_caption(
    g: GraphType,
    min: Option<i32>,
    max: Option<i32>,
    label: Seq<char>,
    games: int,
) -> Seq<char> {
    spec_title(g) + " ("@ + spec_elo_text(min, max) + ", "@ + label + " seconds, "@ + spec_decimal(
        games,
    ) + " Games)"@
}

/// Composes the caption of a chart from the run configuration and the
/// number of games analyzed so far.
pub fn generate_caption(graph_type: GraphType, game_reader: &GameReader) -> (r: String)
    ensures
        r@ == spec_caption(
            graph_type,
            game_reader.args.min_rating,
            game_reader.args.max_rating,
            game_reader.args.time_control@,
            game_reader.games_analyzed as int,
        ),
{
    let elo_text: String = if game_reader.args.min_rating.is_none()
        && game_reader.args.max_rating.is_none() {
        String::from_str("No ELO Limit")
    } else {
        let mut t = String::new();
        if let Some(lo) = game_reader.args.min_rating {
            let lo_text = int_decimal_string(lo);
            t.append(lo_text.as_str());
        }
        t.append("-");
        if let Some(hi) = game_reader.args.max_rating {
            let hi_text = int_decimal_string(hi);
            t.append(hi_text.as_str());
        }
        t.append(" ELO*");
        proof {
            assert(t@ =~= spec_elo_text(game_reader.args.min_rating, game_reader.args.max_rating));
        }
        t
    };
    let mut s = match graph_type {
        GraphType::All => String::from_str("All"),
        GraphType::Average => String::from_str("Average TTM"),
        GraphType::RelativeFrequencyX => String::from_str("RF of Time Left"),
        GraphType::RelativeFrequencyY => String::from_str("RF of TTM"),
    };
    s.append(" (");
    s.append(elo_text.as_str());
    s.append(", ");
    s.append(game_reader.args.time_control.as_str());
    s.append(" seconds, ");
    let games_text = decimal_string(game_reader.games_analyzed as u64);
    s.append(games_text.as_str());
    s.append(" Games)");
    proof {
        assert(s@ =~= spec_caption(
            graph_type,
            game_reader.args.min_rating,
            game_reader.args.max_rating,
            game_reader.args.time_control@,
            game_reader.games_analyzed as int,
        ));
    }
    s
}

} // verus!
