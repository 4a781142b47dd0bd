//! The extraction state machine: consumes game-record events (game start,
//! header, end of headers, comment, game end), applies the per-game
//! filters, and collects per-move time deltas into the bucketed dataset.
//!
//! The machine is modelled by [`ReaderModel`], a ghost value holding the
//! dataset, the two-slot window of recent clock readings, the per-game
//! filter state and the run counters. Every event handler states exactly
//! which model transition it performs.

use vstd::prelude::*;

use crate::args::Args;
use crate::bytes::{
    dec_value, eq_bytes, int_value, lemma_dec_value_digits, lemma_split_on_len, parse_i32,
    split_bytes, split_on,
};
use crate::clock::{duration_seconds, parse_clock};
use crate::errors::CorruptValue;
use vstd::utf8::encode_utf8;

verus! {

/// Largest bucket index the dataset can track. With base time plus
/// increment bounded by this value, every time delta the machine can
/// compute lies strictly inside the 32-bit integer range.
pub const MAX_TRACKED_SECONDS: i32 = 1073741823;

/// Ghost model of the extraction state machine.
#[verifier::ext_equal]
pub ghost struct ReaderModel {
    /// `buckets[i]` holds, in order of arrival, the time deltas observed
    /// with `i` seconds left on the mover's clock.
    pub buckets: Seq<Seq<int>>,
    /// First slot of the rolling window: the clock reading against which
    /// the next delta is measured (the same player's previous reading).
    /// `-1` while unset.
    pub prev1: int,
    /// Second slot of the rolling window: the most recent accepted clock
    /// reading. `-1` while unset.
    pub prev2: int,
    /// Whether the game being read has been rejected by a filter.
    pub skipping: bool,
    /// First rating header value seen in the current game, if any.
    pub rating_first: Option<int>,
    /// Second rating header value seen in the current game, if any.
    pub rating_second: Option<int>,
    /// Games whose headers were completely read, accepted or not.
    pub total_games: int,
    /// Games accepted by every filter.
    pub games_analyzed: int,
    /// Delta samples recorded in the dataset.
    pub moves_analyzed: int,
    /// Largest bucket index: configured base time plus increment.
    pub max_time: int,
    /// Configured per-move increment, added back when computing deltas.
    pub offset: int,
    /// Configured time-control label, as bytes.
    pub label: Seq<u8>,
    /// Smallest accepted average rating, if set.
    pub min_rating: Option<int>,
    /// Largest accepted average rating, if set.
    pub max_rating: Option<int>,
    /// Cap on accepted games, if set.
    pub max_games: Option<int>,
}

/// An `i32` option, widened to mathematical integers.
pub open spec fn opt_int(v: Option<i32>) -> Option<int> {
    match v {
        Some(x) => Some(x as int),
        None => None,
    }
}

/// A `usize` option, widened to mathematical integers.
pub open spec fn opt_count(v: Option<usize>) -> Option<int> {
    match v {
        Some(x) => Some(x as int),
        None => None,
    }
}

/// Base and increment seconds denoted by a time-control label: the label is
/// split on `+`, the first two fields are read as unsigned decimal numbers
/// and later fields are ignored. `None` when there are fewer than two
/// fields or a field is empty, not all digits, or over `i32::MAX`.
pub open spec fn spec_time_control(s: Seq<u8>) -> Option<(int, int)> {
    let fields = split_on(s, 43);
    if fields.len() < 2 {
        None
    } else {
        match (dec_value(fields[0]), dec_value(fields[1])) {
            (Some(base), Some(inc)) => if base <= i32::MAX && inc <= i32::MAX {
                Some((base, inc))
            } else {
                None
            },
            _ => None,
        }
    }
}

/// A label the machine can be configured with: it parses, and base plus
/// increment is small enough that every delta fits a 32-bit integer.
pub open spec fn valid_time_control(s: Seq<u8>) -> bool {
    match spec_time_control(s) {
        Some((base, inc)) => base + inc <= MAX_TRACKED_SECONDS,
        None => false,
    }
}

/// Reads a time-control label, accepting exactly the labels the machine
/// can be configured with.
pub fn time_control_params(label: &str) -> (r: Option<(i32, i32)>)
    ensures
        match r {
            Some(p) => p.0 >= 0 && p.1 >= 0 && valid_time_control(encode_utf8(label@))
                && spec_time_control(encode_utf8(label@)) == Some((p.0 as int, p.1 as int)),
            None => !valid_time_control(encode_utf8(label@)),
        },
{
    let bs = label.as_bytes();
    let fields = split_bytes(bs, 43);
    if fields.len() < 2 {
        return None;
    }
    proof {
        assert(fields.deep_view()[0] == fields@[0]@);
        assert(fields.deep_view()[1] == fields@[1]@);
        lemma_dec_value_digits(split_on(bs@, 43)[0]);
        lemma_dec_value_digits(split_on(bs@, 43)[1]);
    }
    let base = match crate::bytes::parse_u31(fields[0].as_slice()) {
        Some(v) => v,
        None => {
            return None;
        },
    };
    let inc = match crate::bytes::parse_u31(fields[1].as_slice()) {
        Some(v) => v,
        None => {
            return None;
        },
    };
    if (base as i64) + (inc as i64) > MAX_TRACKED_SECONDS as i64 {
        None
    } else {
        Some((base, inc))
    }
}

/// The extraction state machine together with the dataset it owns. One
/// instance lives for one full corpus pass.
pub struct GameReader {
    /// Games accepted by every filter.
    pub games_analyzed: usize,
    /// Games whose headers were completely read, accepted or not.
    pub total_games: usize,
    /// Delta samples recorded in the dataset.
    pub moves_analyzed: usize,
    /// The bucketed dataset: `time_data[i]` holds the deltas observed with
    /// `i` seconds left on the mover's clock.
    pub time_data: Vec<Vec<i32>>,
    /// The run configuration this machine was built from.
    pub args: Args,
    /// Configured per-move increment, in seconds.
    pub time_control_offset: i32,
    /// Largest bucket index: configured base time plus increment.
    pub max_allowed_time: i32,
    /// Whether the game being read has been rejected by a filter.
    pub is_skipping: bool,
    /// First slot of the rolling window (`-1` while unset).
    pub prev_time_1: i32,
    /// Second slot of the rolling window (`-1` while unset).
    pub prev_time_2: i32,
    /// First rating header value seen in the current game.
    pub rating_first: Option<i32>,
    /// Second rating header value seen in the current game.
    pub rating_second: Option<i32>,
}

impl View for GameReader {
    type V = ReaderModel;

    open spec fn view(&self) -> ReaderModel {
        ReaderModel {
            buckets: Seq::new(
                self.time_data@.len(),
                |i: int| Seq::new(self.time_data@[i]@.len(), |j: int| self.time_data@[i]@[j] as int),
            ),
            prev1: self.prev_time_1 as int,
            prev2: self.prev_time_2 as int,
            skipping: self.is_skipping,
            rating_first: opt_int(self.rating_first),
            rating_second: opt_int(self.rating_second),
            total_games: self.total_games as int,
            games_analyzed: self.games_analyzed as int,
            moves_analyzed: self.moves_analyzed as int,
            max_time: self.max_allowed_time as int,
            offset: self.time_control_offset as int,
            label: encode_utf8(self.args.time_control@),
            min_rating: opt_int(self.args.min_rating),
            max_rating: opt_int(self.args.max_rating),
            max_games: opt_count(self.args.max_games),
        }
    }
}

impl GameReader {
    /// Well-formedness of the machine: the dataset has one bucket per
    /// trackable second, the configuration is consistent with the stored
    /// label, and the window only holds the sentinel or in-range readings.
    pub open spec fn wf(&self) -> bool {
        &&& self.time_data@.len() == self.max_allowed_time + 1
        &&& 0 <= self.time_control_offset
        &&& self.time_control_offset <= self.max_allowed_time
        &&& self.max_allowed_time <= MAX_TRACKED_SECONDS
        &&& (self.prev_time_1 == -1 || (0 <= self.prev_time_1 && self.prev_time_1
            <= self.max_allowed_time))
        &&& (self.prev_time_2 == -1 || (0 <= self.prev_time_2 && self.prev_time_2
            <= self.max_allowed_time))
        &&& self.games_analyzed <= self.total_games
        &&& valid_time_control(encode_utf8(self.args.time_control@))
        &&& spec_time_control(encode_utf8(self.args.time_control@)) == Some(
            ((self.max_allowed_time - self.time_control_offset) as int,
            self.time_control_offset as int),
        )
    }

    /// The model a fresh machine starts from: an all-empty dataset with
    /// one bucket per trackable second, a sentinel window, zero counters,
    /// and the configured filters.
    pub open spec fn initial_model(args: Args) -> ReaderModel {
        let tc = spec_time_control(encode_utf8(args.time_control@))->Some_0;
        ReaderModel {
            buckets: Seq::new((tc.0 + tc.1 + 1) as nat, |i: int| Seq::<int>::empty()),
            prev1: -1,
            prev2: -1,
            skipping: false,
            rating_first: None,
            rating_second: None,
            total_games: 0,
            games_analyzed: 0,
            moves_analyzed: 0,
            max_time: tc.0 + tc.1,
            offset: tc.1,
            label: encode_utf8(args.time_control@),
            min_rating: opt_int(args.min_rating),
            max_rating: opt_int(args.max_rating),
            max_games: opt_count(args.max_games),
        }
    }

    /// Builds the machine for one corpus pass. The dataset gets exactly
    /// `base + increment + 1` buckets, indexed `0..=base + increment`.
    pub fn new(args: &Args) -> (r: GameReader)
        requires
            valid_time_control(encode_utf8(args.time_control@)),
        ensures
            r.wf(),
            r@ == GameReader::initial_model(*args),
            r.args == *args,
            r.games_analyzed == 0,
            r.total_games == 0,
            r.moves_analyzed == 0,
            r.time_data@.len() == r.max_allowed_time + 1,
            r@.buckets.len() == spec_time_control(encode_utf8(args.time_control@))->Some_0.0
                + spec_time_control(encode_utf8(args.time_control@))->Some_0.1 + 1,
    {
        let tc = time_control_params(self_label(args));
        let (base, inc) = match tc {
            Some(p) => p,
            None => vstd::pervasive::unreached(),
        };
        let max = base + inc;
        let mut time_data: Vec<Vec<i32>> = Vec::new();
        let target: usize = (max as usize) + 1;
        while time_data.len() < target
            invariant
                time_data@.len() <= target,
                forall|i: int| 0 <= i < time_data@.len() ==> time_data@[i]@.len() == 0,
            decreases target - time_data@.len(),
        {
            time_data.push(Vec::new());
        }
        let r = GameReader {
            games_analyzed: 0,
            total_games: 0,
            moves_analyzed: 0,
            time_data,
            args: args.clone(),
            time_control_offset: inc,
            max_allowed_time: max,
            is_skipping: false,
            prev_time_1: -1,
            prev_time_2: -1,
            rating_first: None,
            rating_second: None,
        };
        proof {
            assert(r@.buckets =~~= GameReader::initial_model(*args).buckets);
            assert(r@ =~~= GameReader::initial_model(*args));
        }
        r
    }
}

/// The configured label of a run, as a string slice.
fn self_label(args: &Args) -> (r: &str)
    ensures
        r@ == args.time_control@,
{
    args.time_control.as_str()
}

/// The time-control header key.
pub open spec fn time_control_key() -> Seq<u8> {
    encode_utf8("TimeControl"@)
}

/// The white player's rating header key.
pub open spec fn white_rating_key() -> Seq<u8> {
    encode_utf8("WhiteElo"@)
}

/// The black player's rating header key.
pub open spec fn black_rating_key() -> Seq<u8> {
    encode_utf8("BlackElo"@)
}

/// Whether a rating bound is configured; without one, rating headers are
/// not even parsed.
pub open spec fn rating_filter_active(m: ReaderModel) -> bool {
    m.min_rating is Some || m.max_rating is Some
}

/// Files a parsed rating value into the first free per-game slot; values
/// past the second are ignored.
pub open spec fn store_rating(m: ReaderModel, v: int) -> ReaderModel {
    if m.rating_first is None {
        ReaderModel { rating_first: Some(v), ..m }
    } else if m.rating_second is None {
        ReaderModel { rating_second: Some(v), ..m }
    } else {
        m
    }
}

/// The game-start transition: reset the window and the per-game rating
/// slots, and skip the game outright when the accepted-game cap is already
/// reached.
pub open spec fn begin_game_step(m: ReaderModel) -> ReaderModel {
    ReaderModel {
        prev1: -1,
        prev2: -1,
        rating_first: None,
        rating_second: None,
        skipping: match m.max_games {
            Some(cap) => m.games_analyzed >= cap,
            None => false,
        },
        ..m
    }
}

/// The header transition. Once the game is being skipped nothing is read.
/// A time-control header that does not lexically equal the configured
/// label rejects the game. A rating header is parsed (only while a rating
/// bound is configured) and filed; an unreadable rating value changes
/// nothing.
pub open spec fn header_step(m: ReaderModel, key: Seq<u8>, value: Seq<u8>) -> ReaderModel {
    if m.skipping {
        m
    } else if key == time_control_key() {
        if value != m.label {
            ReaderModel { skipping: true, ..m }
        } else {
            m
        }
    } else if (key == white_rating_key() || key == black_rating_key()) && rating_filter_active(m) {
        match int_value(value) {
            Some(v) => if i32::MIN <= v <= i32::MAX {
                store_rating(m, v)
            } else {
                m
            },
            None => m,
        }
    } else {
        m
    }
}

/// Whether a header event reads cleanly: everything does, except a rating
/// header whose value is not a decimal integer in `i32` range, read while
/// a rating bound is configured and the game is not being skipped.
pub open spec fn header_ok(m: ReaderModel, key: Seq<u8>, value: Seq<u8>) -> bool {
    if m.skipping {
        true
    } else if key == time_control_key() {
        true
    } else if (key == white_rating_key() || key == black_rating_key()) && rating_filter_active(m) {
        match int_value(value) {
            Some(v) => i32::MIN <= v <= i32::MAX,
            None => false,
        }
    } else {
        true
    }
}

/// Whether the rating filter rejects the game at end of headers: both
/// ratings must be known, and the game is rejected exactly when their
/// average lies below the configured minimum or above the configured
/// maximum (stated over the sum, to avoid fractions).
pub open spec fn rating_reject(m: ReaderModel) -> bool {
    match (m.rating_first, m.rating_second) {
        (Some(a), Some(b)) => (match m.min_rating {
            Some(lo) => a + b < 2 * lo,
            None => false,
        } || match m.max_rating {
            Some(hi) => a + b > 2 * hi,
            None => false,
        }),
        _ => false,
    }
}

/// The end-of-headers transition: the rating filter is evaluated now that
/// both ratings can be known; every game counts as seen, and only a game
/// that passed every filter counts as accepted.
pub open spec fn end_headers_step(m: ReaderModel) -> ReaderModel {
    let skip = m.skipping || rating_reject(m);
    ReaderModel {
        skipping: skip,
        total_games: m.total_games + 1,
        games_analyzed: if skip {
            m.games_analyzed
        } else {
            m.games_analyzed + 1
        },
        ..m
    }
}

impl GameReader {
    /// Starts a new game: resets the rolling window and the per-game
    /// rating slots, and decides the game-cap filter.
    pub fn begin_game(&mut self)
        requires
            old(self).wf(),
        ensures
            final(self).wf(),
            final(self)@ == begin_game_step(old(self)@),
    {
        self.is_skipping = false;
        self.prev_time_1 = -1;
        self.prev_time_2 = -1;
        self.rating_first = None;
        self.rating_second = None;
        if let Some(cap) = self.args.max_games {
            if self.games_analyzed >= cap {
                self.is_skipping = true;
            }
        }
        proof {
            assert(self@ =~~= begin_game_step(old(self)@));
        }
    }

    /// Reads one header. Only the time-control and the two rating headers
    /// matter; every other key is ignored. The error reports a rating
    /// value that could not be read, which skips that single header.
    pub fn read_header(&mut self, key: &[u8], value: &[u8]) -> (r: Result<(), CorruptValue>)
        requires
            old(self).wf(),
        ensures
            final(self).wf(),
            final(self)@ == header_step(old(self)@, key@, value@),
            r is Ok <==> header_ok(old(self)@, key@, value@),
            r is Err ==> r->Err_0 == CorruptValue::Rating,
    {
        if self.is_skipping {
            return Ok(());
        }
        if eq_bytes(key, "TimeControl".as_bytes()) {
            if !eq_bytes(value, self_label(&self.args).as_bytes()) {
                self.is_skipping = true;
                proof {
                    assert(self@ =~~= header_step(old(self)@, key@, value@));
                }
            }
            return Ok(());
        }
        if (eq_bytes(key, "WhiteElo".as_bytes()) || eq_bytes(key, "BlackElo".as_bytes())) && (
        self.args.min_rating.is_some() || self.args.max_rating.is_some()) {
            match parse_i32(value) {
                Some(v) => {
                    if self.rating_first.is_none() {
                        self.rating_first = Some(v);
                    } else if self.rating_second.is_none() {
                        self.rating_second = Some(v);
                    }
                    proof {
                        assert(self@ =~~= header_step(old(self)@, key@, value@));
                    }
                    Ok(())
                },
                None => Err(CorruptValue::Rating),
            }
        } else {
            Ok(())
        }
    }

    /// Ends the headers of a game: evaluates the rating filter, counts the
    /// game, and returns whether the rest of the game is to be skipped.
    pub fn end_headers(&mut self) -> (skip: bool)
        requires
            old(self).wf(),
            old(self).total_games < usize::MAX,
        ensures
            final(self).wf(),
            final(self)@ == end_headers_step(old(self)@),
            skip == final(self)@.skipping,
    {
        if !self.is_skipping {
            if let (Some(a), Some(b)) = (self.rating_first, self.rating_second) {
                let sum: i64 = (a as i64) + (b as i64);
                if let Some(lo) = self.args.min_rating {
                    if sum < 2 * (lo as i64) {
                        self.is_skipping = true;
                    }
                }
                if let Some(hi) = self.args.max_rating {
                    if sum > 2 * (hi as i64) {
                        self.is_skipping = true;
                    }
                }
            }
        }
        if !self.is_skipping {
            self.games_analyzed = self.games_analyzed + 1;
        }
        self.total_games = self.total_games + 1;
        proof {
            assert(self@ =~~= end_headers_step(old(self)@));
        }
        self.is_skipping
    }

    /// Ends a game. The delta rule already did all persistent work, so the
    /// machine only returns to waiting for the next game.
    pub fn end_game(&mut self)
        requires
            old(self).wf(),
        ensures
            final(self).wf(),
            final(self)@ == old(self)@,
    {
    }
}

/// The `(bucket index, delta)` pairs of the first `i` buckets, flattened
/// in bucket order, each bucket's deltas in order of arrival.
pub open spec fn pairs_upto(buckets: Seq<Seq<int>>, i: int) -> Seq<(int, int)>
    decreases i,
{
    if i <= 0 {
        Seq::empty()
    } else {
        pairs_upto(buckets, i - 1) + Seq::new(
            buckets[i - 1].len(),
            |j: int| (i - 1, buckets[i - 1][j]),
        )
    }
}

/// The whole dataset flattened to `(bucket index, delta)` pairs: one pair
/// per stored delta.
pub open spec fn flattened_pairs(buckets: Seq<Seq<int>>) -> Seq<(int, int)> {
    pairs_upto(buckets, buckets.len() as int)
}

impl GameReader {
    /// Flattens the dataset into paired sample vectors: one
    /// `(seconds remaining, delta)` pair per stored delta, in bucket order.
    /// This is the form the regression and statistics consumers read.
    pub fn sample_pairs(&self) -> (r: (Vec<i32>, Vec<i32>))
        requires
            self.wf(),
        ensures
            r.0@.len() == r.1@.len(),
            Seq::new(r.0@.len(), |t: int| (r.0@[t] as int, r.1@[t] as int)) == flattened_pairs(
                self@.buckets,
            ),
    {
        let mut xs: Vec<i32> = Vec::new();
        let mut ys: Vec<i32> = Vec::new();
        let n = self.time_data.len();
        let mut i: usize = 0;
        while i < n
            invariant
                self.wf(),
                n == self.time_data@.len(),
                0 <= i <= n,
                xs@.len() == ys@.len(),
                Seq::new(xs@.len(), |t: int| (xs@[t] as int, ys@[t] as int)) == pairs_upto(
                    self@.buckets,
                    i as int,
                ),
            decreases n - i,
        {
            let row_len = self.time_data[i].len();
            let mut j: usize = 0;
            while j < row_len
                invariant
                    self.wf(),
                    n == self.time_data@.len(),
                    0 <= i < n,
                    row_len == self.time_data@[i as int]@.len(),
                    0 <= j <= row_len,
                    xs@.len() == ys@.len(),
                    Seq::new(xs@.len(), |t: int| (xs@[t] as int, ys@[t] as int)) == pairs_upto(
                        self@.buckets,
                        i as int,
                    ) + Seq::new(j as nat, |t: int| (i as int, self@.buckets[i as int][t])),
                decreases row_len - j,
            {
                let ghost before = Seq::new(xs@.len(), |t: int| (xs@[t] as int, ys@[t] as int));
                xs.push(i as i32);
                ys.push(self.time_data[i][j]);
                proof {
                    let after = Seq::new(xs@.len(), |t: int| (xs@[t] as int, ys@[t] as int));
                    assert(after =~= before.push(
                        (i as int, self@.buckets[i as int][j as int]),
                    ));
                    assert(before.push((i as int, self@.buckets[i as int][j as int]))
                        =~= pairs_upto(self@.buckets, i as int) + Seq::new(
                        (j + 1) as nat,
                        |t: int| (i as int, self@.buckets[i as int][t]),
                    ));
                }
                j += 1;
            }
            proof {
                assert(pairs_upto(self@.buckets, i + 1 as int) == pairs_upto(self@.buckets, i as int)
                    + Seq::new(
                    self@.buckets[i as int].len(),
                    |t: int| (i as int, self@.buckets[i as int][t]),
                ));
                assert(Seq::new(j as nat, |t: int| (i as int, self@.buckets[i as int][t])) =~= Seq::new(
                    self@.buckets[i as int].len(),
                    |t: int| (i as int, self@.buckets[i as int][t]),
                ));
            }
            i += 1;
        }
        proof {
            assert(self@.buckets.len() == n);
        }
        (xs, ys)
    }
}

/// One clock reading fed through the delta rule. A reading over the
/// largest trackable time is corrupt telemetry: it is dropped without
/// touching the window. The first two accepted readings only fill the
/// window. After that, each reading `r` records `prev1 - (r - offset)`
/// into bucket `r` — the time the mover spent, increment added back — and
/// shifts the window.
pub open spec fn reading_step(m: ReaderModel, r: int) -> ReaderModel {
    if r > m.max_time {
        m
    } else if m.prev1 == -1 {
        ReaderModel { prev1: r, ..m }
    } else if m.prev2 == -1 {
        ReaderModel { prev2: r, ..m }
    } else {
        ReaderModel {
            buckets: m.buckets.update(r, m.buckets[r].push(m.prev1 - (r - m.offset))),
            moves_analyzed: m.moves_analyzed + 1,
            prev1: m.prev2,
            prev2: r,
            ..m
        }
    }
}

/// A whole sequence of clock readings fed through the delta rule, in
/// order.
pub open spec fn run_readings(m: ReaderModel, rs: Seq<int>) -> ReaderModel
    decreases rs.len(),
{
    if rs.len() == 0 {
        m
    } else {
        run_readings(reading_step(m, rs[0]), rs.skip(1))
    }
}

/// Feeding one more reading is one more step.
pub proof fn lemma_run_push(m: ReaderModel, rs: Seq<int>, r: int)
    ensures
        run_readings(m, rs.push(r)) == reading_step(run_readings(m, rs), r),
    decreases rs.len(),
{
    if rs.len() == 0 {
        assert(rs.push(r)[0] == r);
        assert(rs.push(r).skip(1) =~= Seq::<int>::empty());
        assert(run_readings(m, rs.push(r)) == run_readings(
            reading_step(m, r),
            Seq::<int>::empty(),
        ));
        assert(run_readings(m, rs) == m);
    } else {
        assert(rs.push(r)[0] == rs[0]);
        assert(rs.push(r).skip(1) =~= rs.skip(1).push(r));
        assert(run_readings(m, rs.push(r)) == run_readings(
            reading_step(m, rs[0]),
            rs.skip(1).push(r),
        ));
        lemma_run_push(reading_step(m, rs[0]), rs.skip(1), r);
        assert(run_readings(m, rs) == run_readings(reading_step(m, rs[0]), rs.skip(1)));
    }
}

/// A run of `n` readings records at most `n` samples.
pub proof fn lemma_run_moves_le(m: ReaderModel, rs: Seq<int>)
    ensures
        run_readings(m, rs).moves_analyzed <= m.moves_analyzed + rs.len(),
    decreases rs.len(),
{
    if rs.len() > 0 {
        lemma_run_moves_le(reading_step(m, rs[0]), rs.skip(1));
    }
}

/// Bytes kept when a comment is cleaned: everything but `[` and `]`.
pub open spec fn keep_byte(b: u8) -> bool {
    b != 91 && b != 93
}

/// A comment with its brackets stripped, as the scanner sees it.
pub open spec fn cleaned_comment(c: Seq<u8>) -> Seq<u8>
    decreases c.len(),
{
    if c.len() == 0 {
        Seq::empty()
    } else {
        let rest = cleaned_comment(c.drop_last());
        if keep_byte(c.last()) {
            rest.push(c.last())
        } else {
            rest
        }
    }
}

/// Cleaning never lengthens a comment.
pub proof fn lemma_cleaned_len(c: Seq<u8>)
    ensures
        cleaned_comment(c).len() <= c.len(),
    decreases c.len(),
{
    if c.len() > 0 {
        lemma_cleaned_len(c.drop_last());
    }
}

/// The tokens a comment is scanned as: the cleaned text split on spaces.
pub open spec fn comment_tokens(c: Seq<u8>) -> Seq<Seq<u8>> {
    split_on(cleaned_comment(c), 32)
}

/// The clock marker token.
pub open spec fn clock_marker() -> Seq<u8> {
    encode_utf8("%clk"@)
}

/// The clock readings found among the first `i` tokens, with a flag that
/// is false once a marker was followed by a missing or unreadable
/// duration; scanning stops there, as the whole rest of the comment is
/// then skipped.
pub open spec fn scan_readings(toks: Seq<Seq<u8>>, i: int) -> (Seq<int>, bool)
    decreases i,
{
    if i <= 0 {
        (Seq::<int>::empty(), true)
    } else {
        let prev = scan_readings(toks, i - 1);
        if !prev.1 {
            prev
        } else if toks[i - 1] == clock_marker() {
            if i >= toks.len() {
                (prev.0, false)
            } else {
                match duration_seconds(toks[i]) {
                    Some(r) => (prev.0.push(r), true),
                    None => (prev.0, false),
                }
            }
        } else {
            prev
        }
    }
}

/// The readings a whole comment yields, and whether it read cleanly.
pub open spec fn comment_readings(c: Seq<u8>) -> (Seq<int>, bool) {
    scan_readings(comment_tokens(c), comment_tokens(c).len() as int)
}

/// Once the scan has failed it stays failed, keeping the readings it had.
pub proof fn lemma_scan_error_stable(toks: Seq<Seq<u8>>, j: int, j2: int)
    requires
        0 <= j <= j2,
        !scan_readings(toks, j).1,
    ensures
        scan_readings(toks, j2) == scan_readings(toks, j),
    decreases j2 - j,
{
    if j2 > j {
        lemma_scan_error_stable(toks, j, j2 - 1);
    }
}

/// At most one reading per scanned token.
pub proof fn lemma_scan_count_le(toks: Seq<Seq<u8>>, i: int)
    requires
        i >= 0,
    ensures
        scan_readings(toks, i).0.len() <= i,
    decreases i,
{
    if i > 0 {
        lemma_scan_count_le(toks, i - 1);
    }
}

/// Copies a comment with `[` and `]` left out.
fn strip_brackets(c: &[u8]) -> (out: Vec<u8>)
    ensures
        out@ == cleaned_comment(c@),
{
    let mut out: Vec<u8> = Vec::new();
    let mut i: usize = 0;
    while i < c.len()
        invariant
            0 <= i <= c@.len(),
            out@ == cleaned_comment(c@.take(i as int)),
        decreases c@.len() - i,
    {
        let b = c[i];
        proof {
            assert(c@.take(i + 1 as int).drop_last() =~= c@.take(i as int));
            assert(c@.take(i + 1 as int).last() == c@[i as int]);
        }
        if b != 91 && b != 93 {
            out.push(b);
        }
        i += 1;
    }
    proof {
        assert(c@.take(c@.len() as int) =~= c@);
    }
    out
}

impl GameReader {
    /// Scans one comment for clock markers and feeds every reading found
    /// through the delta rule, in order of appearance. A comment of a game
    /// being skipped does nothing. The error reports a marker followed by
    /// a missing or unreadable duration; the rest of that comment is then
    /// skipped, keeping what was already recorded.
    pub fn read_comment(&mut self, comment: &[u8]) -> (r: Result<(), CorruptValue>)
        requires
            old(self).wf(),
            old(self).moves_analyzed + comment@.len() <= usize::MAX,
        ensures
            final(self).wf(),
            final(self)@ == (if old(self)@.skipping {
                old(self)@
            } else {
                run_readings(old(self)@, comment_readings(comment@).0)
            }),
            r is Ok <==> (old(self)@.skipping || comment_readings(comment@).1),
            r is Err ==> r->Err_0 == CorruptValue::ClockTime,
    {
        if self.is_skipping {
            return Ok(());
        }
        let cleaned = strip_brackets(comment);
        let toks = split_bytes(cleaned.as_slice(), 32);
        let ghost gtoks = comment_tokens(comment@);
        proof {
            lemma_cleaned_len(comment@);
            lemma_split_on_len(cleaned_comment(comment@), 32);
        }
        let n = toks.len();
        let mut i: usize = 0;
        while i < n
            invariant
                self.wf(),
                old(self).wf(),
                n == toks@.len(),
                toks.deep_view() == gtoks,
                gtoks == comment_tokens(comment@),
                gtoks.len() <= comment@.len() + 1,
                old(self).moves_analyzed + comment@.len() <= usize::MAX,
                0 <= i <= n,
                !old(self)@.skipping,
                scan_readings(gtoks, i as int).1,
                self@ == run_readings(old(self)@, scan_readings(gtoks, i as int).0),
            decreases n - i,
        {
            let ghost m_cur = self@;
            let ghost pr = scan_readings(gtoks, i as int);
            proof {
                assert(gtoks[i as int] == toks@[i as int]@);
            }
            if eq_bytes(toks[i].as_slice(), "%clk".as_bytes()) {
                if i + 1 >= n {
                    proof {
                        assert(!scan_readings(gtoks, i + 1 as int).1);
                        lemma_scan_error_stable(gtoks, i + 1 as int, gtoks.len() as int);
                    }
                    return Err(CorruptValue::ClockTime);
                }
                proof {
                    assert(gtoks[i + 1 as int] == toks@[i + 1 as int]@);
                }
                match parse_clock(toks[i + 1].as_slice()) {
                    None => {
                        proof {
                            assert(!scan_readings(gtoks, i + 1 as int).1);
                            lemma_scan_error_stable(gtoks, i + 1 as int, gtoks.len() as int);
                        }
                        return Err(CorruptValue::ClockTime);
                    },
                    Some(rd) => {
                        proof {
                            lemma_scan_count_le(gtoks, i as int);
                            lemma_run_moves_le(old(self)@, pr.0);
                        }
                        if rd <= self.max_allowed_time {
                            if self.prev_time_1 == -1 {
                                self.prev_time_1 = rd;
                            } else if self.prev_time_2 == -1 {
                                self.prev_time_2 = rd;
                            } else {
                                let delta = self.prev_time_1 - (rd - self.time_control_offset);
                                let idx = rd as usize;
                                self.time_data[idx].push(delta);
                                self.moves_analyzed = self.moves_analyzed + 1;
                                self.prev_time_1 = self.prev_time_2;
                                self.prev_time_2 = rd;
                            }
                        }
                        proof {
                            assert(self@ =~~= reading_step(m_cur, rd as int));
                            lemma_run_push(old(self)@, pr.0, rd as int);
                            assert(scan_readings(gtoks, i + 1 as int).0 == pr.0.push(rd as int));
                        }
                    },
                }
            }
            i += 1;
        }
        Ok(())
    }
}

} // verus!
