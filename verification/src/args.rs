//! The run configuration, as handed over by the command-line layer.

use vstd::prelude::*;

verus! {

/// Configuration of one corpus pass: which file to read, where to put the
/// charts, the exact time-control label to keep, the optional rating and
/// game-count filters, and the chart toggles.
pub struct Args {
    /// Path of the game-record file to read.
    pub input: String,
    /// Directory the chart output is placed under.
    pub output: String,
    /// Exact time-control label to keep, formatted `"<base>+<increment>"`,
    /// both in seconds.
    pub time_control: String,
    /// Largest number of games to collect data from, if set.
    pub max_games: Option<usize>,
    /// Smallest accepted average rating of the two players, if set.
    pub min_rating: Option<i32>,
    /// Largest accepted average rating of the two players, if set.
    pub max_rating: Option<i32>,
    /// Output image resolution, if set.
    pub resolution: Option<i32>,
    /// Whether to draw the quartile chart.
    pub quartiles: bool,
    /// Whether to draw the all-moves scatterplot.
    pub all: bool,
    /// Whether to draw the average time-to-move chart.
    pub averages: bool,
    /// Whether to draw the residual chart.
    pub residuals: bool,
    /// Whether to print the one-variable analysis.
    pub one_var: bool,
    /// Whether to overlay the fitted curve on the average chart.
    pub overlay_regression: bool,
    /// Whether to also write SVG charts.
    pub svg: bool,
}

impl Clone for Args {
    /// A clone carries exactly the same configuration.
    fn clone(&self) -> (r: Self)
        ensures
            r == *self,
    {
        let r = Args {
            input: self.input.clone(),
            output: self.output.clone(),
            time_control: self.time_control.clone(),
            max_games: self.max_games,
            min_rating: self.min_rating,
            max_rating: self.max_rating,
            resolution: self.resolution,
            quartiles: self.quartiles,
            all: self.all,
            averages: self.averages,
            residuals: self.residuals,
            one_var: self.one_var,
            overlay_regression: self.overlay_regression,
            svg: self.svg,
        };
        r
    }
}

} // verus!
