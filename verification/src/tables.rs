//! Lookups and selections on the rows of a table, as mathematics.

use vstd::prelude::*;

verus! {

/// The first row of `rows` that `wanted` holds of.
pub open spec fn first_match<T>(rows: Seq<T>, wanted: spec_fn(T) -> bool) -> Option<T>
    decreases rows.len(),
{
    if rows.len() == 0 {
        None
    } else if wanted(rows[0]) {
        Some(rows[0])
    } else {
        first_match(rows.drop_first(), wanted)
    }
}

/// The rows of `rows` that `wanted` holds of, in their order.
pub open spec fn kept<T>(rows: Seq<T>, wanted: spec_fn(T) -> bool) -> Seq<T>
    decreases rows.len(),
{
    if rows.len() == 0 {
        Seq::empty()
    } else if wanted(rows.last()) {
        kept(rows.drop_last(), wanted).push(rows.last())
    } else {
        kept(rows.drop_last(), wanted)
    }
}

/// The rows of `rows` that `wanted` holds of, the last of them first.
pub open spec fn kept_backwards<T>(rows: Seq<T>, wanted: spec_fn(T) -> bool) -> Seq<T>
    decreases rows.len(),
{
    if rows.len() == 0 {
        Seq::empty()
    } else if wanted(rows.last()) {
        seq![rows.last()] + kept_backwards(rows.drop_last(), wanted)
    } else {
        kept_backwards(rows.drop_last(), wanted)
    }
}

/// The number of leading rows that `ahead` holds of.
pub open spec fn lead<T>(rows: Seq<T>, ahead: spec_fn(T) -> bool) -> int
    decreases rows.len(),
{
    if rows.len() == 0 || !ahead(rows[0]) {
        0
    } else {
        1 + lead(rows.drop_first(), ahead)
    }
}

/// The row at `at` is the first match when nothing before it matches.
pub proof fn lemma_first_match_at<T>(rows: Seq<T>, wanted: spec_fn(T) -> bool, at: int)
    requires
        0 <= at < rows.len(),
        wanted(rows[at]),
        forall|j: int| 0 <= j < at ==> !wanted(#[trigger] rows[j]),
    ensures
        first_match(rows, wanted) == Some(rows[at]),
    decreases at,
{
    if at > 0 {
        let rest = rows.drop_first();
        assert forall|j: int| 0 <= j < at - 1 implies !wanted(#[trigger] rest[j]) by {
            assert(rest[j] == rows[j + 1]);
        }
        lemma_first_match_at(rest, wanted, at - 1);
    }
}

/// There is a first match exactly when some row matches, and it is a row
/// that matches.
pub proof fn lemma_first_match<T>(rows: Seq<T>, wanted: spec_fn(T) -> bool)
    ensures
        first_match(rows, wanted) is None <==> forall|j: int|
            0 <= j < rows.len() ==> !wanted(#[trigger] rows[j]),
        first_match(rows, wanted) matches Some(row) ==> wanted(row) && rows.contains(row),
    decreases rows.len(),
{
    if rows.len() > 0 {
        let rest = rows.drop_first();
        lemma_first_match(rest, wanted);
        if wanted(rows[0]) {
        } else {
            if first_match(rest, wanted) is None {
                assert forall|j: int| 0 <= j < rows.len() implies !wanted(#[trigger] rows[j]) by {
                    if j > 0 {
                        assert(rest[j - 1] == rows[j]);
                    }
                }
            } else {
                let row = first_match(rest, wanted)->0;
                let k = choose|k: int| 0 <= k < rest.len() && rest[k] == row;
                assert(rows[k + 1] == row);
            }
        }
    }
}

/// Adding a row at the end keeps the first match, and makes the new row the
/// match where there was none.
pub proof fn lemma_first_match_push<T>(rows: Seq<T>, wanted: spec_fn(T) -> bool, row: T)
    ensures
        first_match(rows.push(row), wanted) == if first_match(rows, wanted) is Some {
            first_match(rows, wanted)
        } else if wanted(row) {
            Some(row)
        } else {
            None
        },
    decreases rows.len(),
{
    if rows.len() == 0 {
        assert(rows.push(row).drop_first() =~= rows);
    } else {
        assert(rows.push(row).drop_first() =~= rows.drop_first().push(row));
        lemma_first_match_push(rows.drop_first(), wanted, row);
    }
}

/// Putting a row anywhere into rows of which none matches makes it the match
/// if it matches itself.
pub proof fn lemma_first_match_insert_new<T>(
    rows: Seq<T>,
    wanted: spec_fn(T) -> bool,
    at: int,
    row: T,
)
    requires
        0 <= at <= rows.len(),
        first_match(rows, wanted) is None,
    ensures
        first_match(rows.insert(at, row), wanted) == if wanted(row) {
            Some(row)
        } else {
            None
        },
{
    lemma_first_match(rows, wanted);
    let after = rows.insert(at, row);
    if wanted(row) {
        assert forall|j: int| 0 <= j < at implies !wanted(#[trigger] after[j]) by {
            assert(after[j] == rows[j]);
        }
        lemma_first_match_at(after, wanted, at);
    } else {
        assert forall|j: int| 0 <= j < after.len() implies !wanted(#[trigger] after[j]) by {
            if j < at {
                assert(after[j] == rows[j]);
            } else if j > at {
                assert(after[j] == rows[j - 1]);
            }
        }
        lemma_first_match(after, wanted);
    }
}

/// Putting a row that does not match anywhere into the rows keeps the first
/// match.
pub proof fn lemma_first_match_insert_other<T>(
    rows: Seq<T>,
    wanted: spec_fn(T) -> bool,
    at: int,
    row: T,
)
    requires
        0 <= at <= rows.len(),
        !wanted(row),
    ensures
        first_match(rows.insert(at, row), wanted) == first_match(rows, wanted),
    decreases rows.len(),
{
    let after = rows.insert(at, row);
    if at == 0 {
        assert(after.drop_first() =~= rows);
    } else {
        assert(after[0] == rows[0]);
        assert(after.drop_first() =~= rows.drop_first().insert(at - 1, row));
        if !wanted(rows[0]) {
            lemma_first_match_insert_other(rows.drop_first(), wanted, at - 1, row);
        }
    }
}

/// What is kept of the first `upto + 1` rows, from what is kept of the first
/// `upto`.
pub proof fn lemma_kept_step<T>(rows: Seq<T>, wanted: spec_fn(T) -> bool, upto: int)
    requires
        0 <= upto < rows.len(),
    ensures
        kept(rows.take(upto + 1), wanted) == if wanted(rows[upto]) {
            kept(rows.take(upto), wanted).push(rows[upto])
        } else {
            kept(rows.take(upto), wanted)
        },
{
    assert(rows.take(upto + 1).drop_last() =~= rows.take(upto));
}

/// A row is kept exactly when it is a row that matches.
pub proof fn lemma_kept_contains<T>(rows: Seq<T>, wanted: spec_fn(T) -> bool, row: T)
    ensures
        kept(rows, wanted).contains(row) <==> rows.contains(row) && wanted(row),
    decreases rows.len(),
{
    if rows.len() > 0 {
        let rest = rows.drop_last();
        lemma_kept_contains(rest, wanted, row);
        let all = kept(rows, wanted);
        let part = kept(rest, wanted);
        if rows.contains(row) && wanted(row) {
            let k = choose|k: int| 0 <= k < rows.len() && rows[k] == row;
            if k == rows.len() - 1 {
                assert(all[all.len() - 1] == row);
            } else {
                assert(rest[k] == row);
                let m = choose|m: int| 0 <= m < part.len() && part[m] == row;
                assert(all[m] == row);
            }
        }
        if all.contains(row) {
            let m = choose|m: int| 0 <= m < all.len() && all[m] == row;
            if m < part.len() {
                assert(part[m] == row);
                let k = choose|k: int| 0 <= k < rest.len() && rest[k] == row;
                assert(rows[k] == row);
            } else {
                assert(rows[rows.len() - 1] == row);
            }
        }
    }
}

/// The rows counted by [`lead`] are the first `at` rows when `ahead` holds of
/// each of them and not of the row at `at`.
pub proof fn lemma_lead_at<T>(rows: Seq<T>, ahead: spec_fn(T) -> bool, at: int)
    requires
        0 <= at <= rows.len(),
        forall|j: int| 0 <= j < at ==> ahead(#[trigger] rows[j]),
        at < rows.len() ==> !ahead(rows[at]),
    ensures
        lead(rows, ahead) == at,
    decreases at,
{
    if at > 0 {
        let rest = rows.drop_first();
        assert(ahead(rows[0]));
        assert forall|j: int| 0 <= j < at - 1 implies ahead(#[trigger] rest[j]) by {
            assert(rest[j] == rows[j + 1]);
        }
        lemma_lead_at(rest, ahead, at - 1);
    }
}

/// [`lead`] counts rows of the table, `ahead` holds of each of them, and not
/// of the row behind them.
pub proof fn lemma_lead<T>(rows: Seq<T>, ahead: spec_fn(T) -> bool)
    ensures
        0 <= lead(rows, ahead) <= rows.len(),
        forall|j: int| 0 <= j < lead(rows, ahead) ==> ahead(#[trigger] rows[j]),
        lead(rows, ahead) < rows.len() ==> !ahead(rows[lead(rows, ahead)]),
    decreases rows.len(),
{
    if rows.len() > 0 && ahead(rows[0]) {
        let rest = rows.drop_first();
        lemma_lead(rest, ahead);
        assert forall|j: int| 0 <= j < lead(rows, ahead) implies ahead(#[trigger] rows[j]) by {
            if j > 0 {
                assert(rest[j - 1] == rows[j]);
            }
        }
    }
}

} // verus!
