//! The indexing orchestrator's decision logic: extracting symbols from
//! many files, partitioning them into batches, and committing embedded
//! pairs into the store — with every failure isolated to the file or the
//! symbol it concerns.
use vstd::prelude::*;

use crate::embedding::embedding_ok;
use crate::errors::ParseError;
use crate::errors::StoreError;
use crate::store::DB;
use crate::store::RecordV;
use crate::symbols::enumerate_symbols_in_file;
use crate::symbols::extraction_ok;
use crate::symbols::Symbol;

verus! {

/// How persisting one symbol ended.
#[derive(Debug, Clone, Copy, PartialEq, Eq, Structural)]
pub enum InsertOutcome {
    /// The pair was persisted.
    Inserted,
    /// The embedding's length differs from the store's dimension.
    WrongDimension,
    /// An embedding component lies outside the fixed-point range.
    OutOfRange,
    /// The storage engine refused the pair.
    Failed,
}

/// The records that a batch run with these outcomes appended to the store:
/// one per `Inserted` outcome among the first `n` pairs, in order.
pub open spec fn inserted_records(
    pairs: Seq<(Symbol, Vec<i64>)>,
    outs: Seq<InsertOutcome>,
    n: int,
) -> Seq<RecordV>
    decreases n,
{
    if n <= 0 {
        Seq::empty()
    } else {
        inserted_records(pairs, outs, n - 1) + if outs[n - 1] == InsertOutcome::Inserted {
            seq![RecordV { symbol: pairs[n - 1].0@, emb: pairs[n - 1].1@ }]
        } else {
            Seq::empty()
        }
    }
}

proof fn lemma_inserted_records_prefix(
    pairs: Seq<(Symbol, Vec<i64>)>,
    o1: Seq<InsertOutcome>,
    o2: Seq<InsertOutcome>,
    n: int,
)
    requires
        forall|t: int| 0 <= t < n ==> o1[t] == o2[t],
    ensures
        inserted_records(pairs, o1, n) == inserted_records(pairs, o2, n),
    decreases n,
{
    if n > 0 {
        lemma_inserted_records_prefix(pairs, o1, o2, n - 1);
    }
}

/// Persists one batch of symbol–embedding pairs.  Every pair is attempted
/// exactly once and failures stay with their pair: the store gains, in
/// order, exactly the pairs whose outcome reports success, and an invalid
/// or refused pair never stops the rest of the batch.
pub fn index_symbols(db: &mut DB, pairs: &Vec<(Symbol, Vec<i64>)>) -> (outcomes: Vec<
    InsertOutcome,
>)
    requires
        old(db).wf(),
    ensures
        final(db).wf(),
        final(db)@.dim == old(db)@.dim,
        outcomes@.len() == pairs@.len(),
        forall|i: int|
            0 <= i < pairs@.len() ==> ((#[trigger] outcomes@[i]) == InsertOutcome::WrongDimension
                <==> pairs@[i].1@.len() != old(db)@.dim),
        forall|i: int|
            0 <= i < pairs@.len() ==> ((#[trigger] outcomes@[i]) == InsertOutcome::OutOfRange
                <==> (pairs@[i].1@.len() == old(db)@.dim && !embedding_ok(pairs@[i].1@))),
        final(db)@.records == old(db)@.records + inserted_records(
            pairs@,
            outcomes@,
            pairs@.len() as int,
        ),
{
    let n = pairs.len();
    let mut outcomes: Vec<InsertOutcome> = Vec::new();
    let mut i: usize = 0;
    proof {
        assert(db@.records =~= old(db)@.records + inserted_records(pairs@, outcomes@, 0));
    }
    while i < n
        invariant
            0 <= i <= n,
            n == pairs@.len(),
            db.wf(),
            db@.dim == old(db)@.dim,
            outcomes@.len() == i,
            forall|t: int|
                0 <= t < i ==> ((#[trigger] outcomes@[t]) == InsertOutcome::WrongDimension <==> pairs@[t].1@.len()
                    != old(db)@.dim),
            forall|t: int|
                0 <= t < i ==> ((#[trigger] outcomes@[t]) == InsertOutcome::OutOfRange <==> (
                pairs@[t].1@.len() == old(db)@.dim && !embedding_ok(pairs@[t].1@))),
            db@.records == old(db)@.records + inserted_records(pairs@, outcomes@, i as int),
        decreases n - i,
    {
        let pair = &pairs[i];
        let ghost prev_records = db@.records;
        let ghost prev_out = outcomes@;
        let res = db.insert_symbol(&pair.0, &pair.1);
        let out = match res {
            Ok(_) => InsertOutcome::Inserted,
            Err(e) => match e {
                StoreError::DimensionMismatch => InsertOutcome::WrongDimension,
                StoreError::ComponentOutOfRange => InsertOutcome::OutOfRange,
                _ => InsertOutcome::Failed,
            },
        };
        outcomes.push(out);
        proof {
            lemma_inserted_records_prefix(pairs@, prev_out, outcomes@, i as int);
            assert(inserted_records(pairs@, outcomes@, i + 1 as int) == inserted_records(
                pairs@,
                outcomes@,
                i as int,
            ) + if outcomes@[i as int] == InsertOutcome::Inserted {
                seq![RecordV { symbol: pairs@[i as int].0@, emb: pairs@[i as int].1@ }]
            } else {
                Seq::<RecordV>::empty()
            });
            if out == InsertOutcome::Inserted {
                assert(db@.records =~= old(db)@.records + inserted_records(
                    pairs@,
                    outcomes@,
                    i + 1 as int,
                ));
            } else {
                assert(db@.records =~= old(db)@.records + inserted_records(
                    pairs@,
                    outcomes@,
                    i + 1 as int,
                ));
            }
        }
        i = i + 1;
    }
    outcomes
}

/// Extracts symbols from many files.  Every file is attempted exactly
/// once, and one file's parse failure leaves every other file's result
/// intact: each slot of the answer carries its own file's full extraction
/// contract and depends on that file alone.
pub fn extract_all(files: &Vec<(String, Vec<u8>)>) -> (r: Vec<Result<Vec<Symbol>, ParseError>>)
    ensures
        r@.len() == files@.len(),
        forall|i: int|
            0 <= i < files@.len() ==> extraction_ok(#[trigger] r@[i], files@[i].0@, files@[i].1@),
{
    let n = files.len();
    let mut r: Vec<Result<Vec<Symbol>, ParseError>> = Vec::new();
    let mut i: usize = 0;
    while i < n
        invariant
            0 <= i <= n,
            n == files@.len(),
            r@.len() == i,
            forall|t: int|
                0 <= t < i ==> extraction_ok(#[trigger] r@[t], files@[t].0@, files@[t].1@),
        decreases n - i,
    {
        let f = &files[i];
        let res = enumerate_symbols_in_file(f.0.as_str(), f.1.as_slice());
        r.push(res);
        i = i + 1;
    }
    r
}

/// Partitions `n` items into consecutive batches of at most `batch` items:
/// the bounds tile `0..n` in order, and every batch is non-empty.
pub fn chunk_bounds(n: usize, batch: usize) -> (r: Vec<(usize, usize)>)
    requires
        batch >= 1,
    ensures
        n == 0 ==> r@.len() == 0,
        n > 0 ==> r@.len() >= 1 && (r@[0].0 == 0 && r@[r@.len() - 1].1 == n),
        forall|i: int|
            0 <= i < r@.len() ==> ((#[trigger] r@[i]).0 < r@[i].1 <= n && r@[i].1 - r@[i].0
                <= batch),
        forall|i: int| 0 <= i < r@.len() - 1 ==> (#[trigger] r@[i]).1 == r@[i + 1].0,
{
    let mut r: Vec<(usize, usize)> = Vec::new();
    let mut start: usize = 0;
    while start < n
        invariant
            0 <= start <= n,
            batch >= 1,
            start == 0 ==> r@.len() == 0,
            start > 0 ==> r@.len() >= 1 && (r@[0].0 == 0 && r@[r@.len() - 1].1 == start),
            forall|i: int|
                0 <= i < r@.len() ==> ((#[trigger] r@[i]).0 < r@[i].1 <= n && r@[i].1 - r@[i].0
                    <= batch),
            forall|i: int| 0 <= i < r@.len() - 1 ==> (#[trigger] r@[i]).1 == r@[i + 1].0,
        decreases n - start,
    {
        let remaining = n - start;
        let end = if remaining <= batch {
            n
        } else {
            start + batch
        };
        r.push((start, end));
        start = end;
    }
    r
}

} // verus!
