//! The category decoder: turn a batch of per-class score rows into one
//! class index per row, the column of the greatest score.
//!
//! A score is handed in already reduced to what the decoder compares:
//! either it is not finite — it can never win — or it is finite and
//! carries a `u64` key whose order is the order of the underlying
//! scores (for IEEE floating-point scores the usual monotone bit
//! encoding gives such a key).

use vstd::prelude::*;

verus! {

/// Why a batch of score rows could not be decoded.
#[derive(Debug, Clone, Copy, PartialEq, Eq, Structural)]
pub enum DecodeError {
    /// A row has zero columns, so its maximum is undefined.
    EmptyRow,
    /// A row has columns but no finite score, so nothing can win.
    NoFiniteScore,
}

/// One per-class score, reduced to what the decoder compares.
#[derive(Debug, Clone, Copy, PartialEq, Eq, Structural)]
pub enum Score {
    /// A score that can never win the maximum.
    NonFinite,
    /// A finite score; the key's order is the order of the scores.
    Finite(u64),
}

/// The first index that attains the greatest finite score of `row`, or
/// None when no entry is finite: a later entry displaces the running
/// winner only with a strictly greater finite key, so ties go to the
/// earlier column.
pub open spec fn first_max_index(row: Seq<Score>) -> Option<int>
    decreases row.len(),
{
    if row.len() == 0 {
        None
    } else {
        let last = row.last();
        match first_max_index(row.drop_last()) {
            None => if last is Finite {
                Some(row.len() - 1)
            } else {
                None
            },
            Some(i) => if last is Finite && last->Finite_0 > row[i]->Finite_0 {
                Some(row.len() - 1)
            } else {
                Some(i)
            },
        }
    }
}

/// What one row decodes to: its first maximal column, or the error that
/// names how it is degenerate.
pub open spec fn row_spec(row: Seq<Score>) -> Result<int, DecodeError> {
    if row.len() == 0 {
        Err(DecodeError::EmptyRow)
    } else {
        match first_max_index(row) {
            None => Err(DecodeError::NoFiniteScore),
            Some(i) => Ok(i),
        }
    }
}

/// What a batch decodes to: the rows decoded in order, stopped at the
/// first row that fails.
pub open spec fn decode_spec(rows: Seq<Seq<Score>>) -> Result<Seq<int>, DecodeError>
    decreases rows.len(),
{
    if rows.len() == 0 {
        Ok(Seq::empty())
    } else {
        match decode_spec(rows.drop_last()) {
            Err(e) => Err(e),
            Ok(s) => match row_spec(rows.last()) {
                Err(e) => Err(e),
                Ok(i) => Ok(s.push(i)),
            },
        }
    }
}

/// The view of a batch of rows as a sequence of score sequences.
pub open spec fn rows_view(rows: Seq<Vec<Score>>) -> Seq<Seq<Score>> {
    rows.map_values(|r: Vec<Score>| r@)
}

/// The decoded column is the first column attaining the row's greatest
/// finite score: every finite entry is at most the winner, and every
/// finite entry before the winner is strictly below it.
pub proof fn lemma_first_max_characterization(row: Seq<Score>, i: int)
    requires
        first_max_index(row) == Some(i),
    ensures
        0 <= i < row.len(),
        row[i] is Finite,
        forall|j: int|
            0 <= j < row.len() && (#[trigger] row[j]) is Finite ==> row[j]->Finite_0
                <= row[i]->Finite_0,
        forall|j: int|
            0 <= j < i && (#[trigger] row[j]) is Finite ==> row[j]->Finite_0
                < row[i]->Finite_0,
    decreases row.len(),
{
    if row.len() > 0 {
        let prefix = row.drop_last();
        assert(forall|j: int|
            #![trigger prefix[j]]
            #![trigger row[j]]
            0 <= j < prefix.len() ==> prefix[j] == row[j]);
        assert(row.last() == row[row.len() - 1]);
        match first_max_index(prefix) {
            None => {
                lemma_no_finite(prefix);
            },
            Some(p) => {
                lemma_first_max_characterization(prefix, p);
            },
        }
    }
}

/// A row has no winning column exactly when none of its entries is
/// finite.
pub proof fn lemma_no_finite(row: Seq<Score>)
    ensures
        first_max_index(row) is None <==> (forall|j: int|
            0 <= j < row.len() ==> !((#[trigger] row[j]) is Finite)),
    decreases row.len(),
{
    if row.len() > 0 {
        let prefix = row.drop_last();
        assert(forall|j: int|
            #![trigger prefix[j]]
            #![trigger row[j]]
            0 <= j < prefix.len() ==> prefix[j] == row[j]);
        assert(row.last() == row[row.len() - 1]);
        lemma_no_finite(prefix);
    }
}

/// When an earlier part of a batch already fails, the whole batch fails
/// the same way.
proof fn lemma_decode_prefix_error(rows: Seq<Seq<Score>>, j: int)
    requires
        0 <= j <= rows.len(),
        decode_spec(rows.take(j)) is Err,
    ensures
        decode_spec(rows) == decode_spec(rows.take(j)),
    decreases rows.len() - j,
{
    if j == rows.len() {
        assert(rows.take(j) =~= rows);
    } else {
        assert(rows.take(j + 1).drop_last() =~= rows.take(j));
        lemma_decode_prefix_error(rows, j + 1);
    }
}

/// The column of `row` with the greatest finite score, ties to the
/// lower column; `EmptyRow` on a row with no columns, `NoFiniteScore`
/// on one with columns but nothing finite.
pub fn best_column(row: &Vec<Score>) -> (r: Result<u8, DecodeError>)
    requires
        row@.len() <= 256,
    ensures
        match r {
            Ok(c) => first_max_index(row@) == Some(c as int),
            Err(e) => row_spec(row@) == Err::<int, DecodeError>(e),
        },
{
    let n = row.len();
    if n == 0 {
        return Err(DecodeError::EmptyRow);
    }
    let mut best: Option<(usize, u64)> = None;
    let mut i: usize = 0;
    while i < n
        invariant
            i <= n == row@.len() <= 256,
            match best {
                Some(b) => first_max_index(row@.take(i as int)) == Some(b.0 as int) && b.0 < i
                    && row@[b.0 as int] == Score::Finite(b.1),
                None => first_max_index(row@.take(i as int)) is None,
            },
        decreases n - i,
    {
        proof {
            assert(row@.take(i as int + 1).drop_last() =~= row@.take(i as int));
            assert(row@.take(i as int + 1).last() == row@[i as int]);
        }
        match row[i] {
            Score::NonFinite => {},
            Score::Finite(k) => {
                match best {
                    None => {
                        best = Some((i, k));
                    },
                    Some((_, bk)) => {
                        if k > bk {
                            best = Some((i, k));
                        }
                    },
                }
            },
        }
        i += 1;
    }
    proof {
        assert(row@.take(n as int) =~= row@);
    }
    match best {
        None => Err(DecodeError::NoFiniteScore),
        Some((b, _)) => Ok(b as u8),
    }
}

/// Decodes a batch of score rows to one class per row: the column of
/// the greatest finite score, ties to the lower column. Rows may hold
/// at most 256 columns, so that a winning column always fits the `u8`
/// class index.
pub fn decode_predictions(scores: &Vec<Vec<Score>>) -> (r: Result<Vec<u8>, DecodeError>)
    requires
        forall|i: int| 0 <= i < scores@.len() ==> (#[trigger] scores@[i])@.len() <= 256,
    ensures
        match r {
            Ok(out) => decode_spec(rows_view(scores@)) == Ok::<_, DecodeError>(
                out@.map_values(|c: u8| c as int),
            ),
            Err(e) => decode_spec(rows_view(scores@)) == Err::<Seq<int>, _>(e),
        },
{
    let n = scores.len();
    let mut out: Vec<u8> = Vec::new();
    let mut i: usize = 0;
    proof {
        assert(rows_view(scores@).take(0) =~= Seq::<Seq<Score>>::empty());
        assert(out@.map_values(|c: u8| c as int) =~= Seq::<int>::empty());
    }
    while i < n
        invariant
            i <= n == scores@.len(),
            forall|k: int| 0 <= k < scores@.len() ==> (#[trigger] scores@[k])@.len() <= 256,
            decode_spec(rows_view(scores@).take(i as int)) == Ok::<_, DecodeError>(
                out@.map_values(|c: u8| c as int),
            ),
        decreases n - i,
    {
        proof {
            assert(rows_view(scores@).take(i as int + 1).drop_last() =~= rows_view(
                scores@,
            ).take(i as int));
            assert(rows_view(scores@).take(i as int + 1).last() == scores@[i as int]@);
        }
        let ghost prev = out@;
        match best_column(&scores[i]) {
            Err(e) => {
                proof {
                    lemma_decode_prefix_error(rows_view(scores@), i as int + 1);
                }
                return Err(e);
            },
            Ok(c) => {
                out.push(c);
                proof {
                    assert(out@.map_values(|c: u8| c as int) =~= prev.map_values(
                        |c: u8| c as int,
                    ).push(c as int));
                }
            },
        }
        i += 1;
    }
    proof {
        assert(rows_view(scores@).take(n as int) =~= rows_view(scores@));
    }
    Ok(out)
}

} // verus!
