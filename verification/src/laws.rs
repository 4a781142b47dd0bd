//! The general laws of the delta rule, proved once and for all over the
//! machine's model: what any sequence of clock readings does to the
//! bucketed dataset.

use vstd::prelude::*;

use crate::reader::{reading_step, run_readings, ReaderModel};

verus! {

/// Feeding readings one after the other is the same as feeding their
/// concatenation.
pub proof fn lemma_run_concat(m: ReaderModel, a: Seq<int>, b: Seq<int>)
    ensures
        run_readings(m, a + b) == run_readings(run_readings(m, a), b),
    decreases a.len(),
{
    if a.len() == 0 {
        assert(a + b =~= b);
    } else {
        assert((a + b)[0] == a[0]);
        assert((a + b).skip(1) =~= a.skip(1) + b);
        lemma_run_concat(reading_step(m, a[0]), a.skip(1), b);
    }
}

/// A run of readings never changes the configuration, the filter state or
/// the game counters; it only touches the dataset, the window and the
/// sample counter.
pub proof fn lemma_run_preserves_config(m: ReaderModel, rs: Seq<int>)
    ensures
        run_readings(m, rs).max_time == m.max_time,
        run_readings(m, rs).offset == m.offset,
        run_readings(m, rs).skipping == m.skipping,
        run_readings(m, rs).label == m.label,
        run_readings(m, rs).total_games == m.total_games,
        run_readings(m, rs).games_analyzed == m.games_analyzed,
    decreases rs.len(),
{
    if rs.len() > 0 {
        lemma_run_preserves_config(reading_step(m, rs[0]), rs.skip(1));
    }
}

/// A game with fewer than three clock readings never contributes a delta
/// sample: from a freshly reset window, the first two readings at most
/// fill the window, so the dataset and the sample counter are untouched.
pub proof fn lemma_short_game_no_samples(m: ReaderModel, rs: Seq<int>)
    requires
        m.prev1 == -1,
        m.prev2 == -1,
        rs.len() < 3,
    ensures
        run_readings(m, rs).buckets == m.buckets,
        run_readings(m, rs).moves_analyzed == m.moves_analyzed,
{
    if rs.len() > 0 {
        let m1 = reading_step(m, rs[0]);
        assert(run_readings(m, rs) == run_readings(m1, rs.skip(1)));
        if rs.len() > 1 {
            let m2 = reading_step(m1, rs.skip(1)[0]);
            assert(rs.skip(1).skip(1) =~= Seq::<int>::empty());
            assert(run_readings(m1, rs.skip(1)) == run_readings(m2, rs.skip(1).skip(1)));
        } else {
            assert(rs.skip(1) =~= Seq::<int>::empty());
        }
    }
}

/// A reading over the largest trackable time is dropped without a trace:
/// the readings around it behave exactly as if it were never seen, so it
/// does not perturb the window used for subsequent deltas.
pub proof fn lemma_overrange_reading_dropped(
    m: ReaderModel,
    before: Seq<int>,
    r: int,
    after: Seq<int>,
)
    requires
        r > m.max_time,
    ensures
        run_readings(m, before + seq![r] + after) == run_readings(m, before + after),
{
    lemma_run_preserves_config(m, before);
    let mb = run_readings(m, before);
    lemma_run_concat(m, before, seq![r] + after);
    assert((before + (seq![r] + after)) =~= (before + seq![r] + after));
    assert((seq![r] + after)[0] == r);
    assert((seq![r] + after).skip(1) =~= after);
    assert(run_readings(mb, seq![r] + after) == run_readings(reading_step(mb, r), after));
    assert(reading_step(mb, r) == mb);
    lemma_run_concat(m, before, after);
}

/// The deltas that the readings `rs[i], rs[i + 1], ...` (for `i >= 2`)
/// record into bucket `j`, in order: reading `rs[t]` records
/// `rs[t - 2] - (rs[t] - k)` into bucket `rs[t]`, where `k` is the
/// configured increment.
pub open spec fn game_deltas(rs: Seq<int>, k: int, j: int, i: int) -> Seq<int>
    decreases rs.len() - i when i >= 2
{
    if 2 <= i < rs.len() {
        let rest = game_deltas(rs, k, j, i + 1);
        if rs[i] == j {
            seq![rs[i - 2] - (rs[i] - k)] + rest
        } else {
            rest
        }
    } else {
        Seq::empty()
    }
}

/// The deltas recorded into bucket `j` by a run starting from the full
/// window `(prev1, prev2)`: the first reading records `prev1 - (r - k)`,
/// and the window then slides along the readings.
pub open spec fn window_deltas(prev1: int, prev2: int, rs: Seq<int>, k: int, j: int) -> Seq<int>
    decreases rs.len(),
{
    if rs.len() == 0 {
        Seq::empty()
    } else {
        let rest = window_deltas(prev2, rs[0], rs.skip(1), k, j);
        if rs[0] == j {
            seq![prev1 - (rs[0] - k)] + rest
        } else {
            rest
        }
    }
}

/// A run over a full window with in-range readings records one sample per
/// reading, and appends exactly `window_deltas` to every bucket.
pub proof fn lemma_run_full_window(m: ReaderModel, rs: Seq<int>, j: int)
    requires
        m.prev1 != -1,
        m.prev2 != -1,
        forall|t: int| 0 <= t < rs.len() ==> 0 <= #[trigger] rs[t] <= m.max_time,
        m.buckets.len() == m.max_time + 1,
        0 <= j < m.buckets.len(),
    ensures
        run_readings(m, rs).moves_analyzed == m.moves_analyzed + rs.len(),
        run_readings(m, rs).buckets[j] == m.buckets[j] + window_deltas(
            m.prev1,
            m.prev2,
            rs,
            m.offset,
            j,
        ),
    decreases rs.len(),
{
    if rs.len() == 0 {
        assert(m.buckets[j] + window_deltas(m.prev1, m.prev2, rs, m.offset, j) =~= m.buckets[j]);
    } else {
        let r = rs[0];
        let m1 = reading_step(m, r);
        let d = m.prev1 - (r - m.offset);
        assert(m1.buckets == m.buckets.update(r, m.buckets[r].push(d)));
        lemma_run_full_window(m1, rs.skip(1), j);
        let rest = window_deltas(m.prev2, r, rs.skip(1), m.offset, j);
        if r == j {
            assert(m1.buckets[j] == m.buckets[j].push(d));
            assert(m.buckets[j].push(d) + rest =~= m.buckets[j] + (seq![d] + rest));
        } else {
            assert(m1.buckets[j] == m.buckets[j]);
            assert(m.buckets[j] + rest =~= m.buckets[j] + window_deltas(
                m.prev1,
                m.prev2,
                rs,
                m.offset,
                j,
            ));
        }
    }
}

/// Sliding the window along the readings: starting the window at
/// `(rs[i - 2], rs[i - 1])` and running the rest gives exactly the
/// per-index deltas of `game_deltas`.
pub proof fn lemma_window_deltas_indexed(rs: Seq<int>, k: int, j: int, i: int)
    requires
        2 <= i <= rs.len(),
    ensures
        window_deltas(rs[i - 2], rs[i - 1], rs.skip(i), k, j) == game_deltas(rs, k, j, i),
    decreases rs.len() - i,
{
    if i < rs.len() {
        assert(rs.skip(i)[0] == rs[i]);
        assert(rs.skip(i).skip(1) =~= rs.skip(i + 1));
        lemma_window_deltas_indexed(rs, k, j, i + 1);
    }
}

/// For a game with `n >= 3` ordered in-range clock readings
/// `rs[0], ..., rs[n - 1]` and increment `k`, starting from a freshly
/// reset window: exactly `n - 2` samples are recorded, and bucket `j`
/// receives, in order, the deltas `rs[i - 2] - (rs[i] - k)` of exactly
/// the readings `rs[i]` (`i >= 2`) with `rs[i] == j`.
pub proof fn lemma_full_game_samples(m: ReaderModel, rs: Seq<int>, j: int)
    requires
        m.prev1 == -1,
        m.prev2 == -1,
        rs.len() >= 3,
        forall|t: int| 0 <= t < rs.len() ==> 0 <= #[trigger] rs[t] <= m.max_time,
        m.buckets.len() == m.max_time + 1,
        0 <= j < m.buckets.len(),
    ensures
        run_readings(m, rs).moves_analyzed == m.moves_analyzed + rs.len() - 2,
        run_readings(m, rs).buckets[j] == m.buckets[j] + game_deltas(rs, m.offset, j, 2),
{
    let m1 = reading_step(m, rs[0]);
    assert(m1 == ReaderModel { prev1: rs[0], ..m });
    assert(run_readings(m, rs) == run_readings(m1, rs.skip(1)));
    assert(rs.skip(1)[0] == rs[1]);
    let m2 = reading_step(m1, rs[1]);
    assert(m2 == ReaderModel { prev1: rs[0], prev2: rs[1], ..m });
    assert(rs.skip(1).skip(1) =~= rs.skip(2));
    assert(run_readings(m1, rs.skip(1)) == run_readings(m2, rs.skip(2)));
    assert(forall|t: int| 0 <= t < rs.skip(2).len() ==> 0 <= #[trigger] rs.skip(2)[t]
        <= m2.max_time);
    lemma_run_full_window(m2, rs.skip(2), j);
    lemma_window_deltas_indexed(rs, m.offset, j, 2);
}

} // verus!
