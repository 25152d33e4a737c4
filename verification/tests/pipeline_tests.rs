use cearch::pipeline::chunk_bounds;
use cearch::pipeline::extract_all;
use cearch::pipeline::index_symbols;
use cearch::pipeline::InsertOutcome;
use cearch::store::DB;
use cearch::symbols::Symbol;
use cearch::symbols::SymbolKind;

fn sym(name: &str) -> Symbol {
    Symbol {
        path: "a.py".to_string(),
        line: 1,
        kind: SymbolKind::Function,
        name: name.to_string(),
        code: format!("def {}(): pass", name),
    }
}

#[test]
fn batches_tile_the_range() {
    assert_eq!(chunk_bounds(10, 3), vec![(0, 3), (3, 6), (6, 9), (9, 10)]);
    assert_eq!(chunk_bounds(0, 64), Vec::<(usize, usize)>::new());
    assert_eq!(chunk_bounds(5, 64), vec![(0, 5)]);
    assert_eq!(chunk_bounds(6, 3), vec![(0, 3), (3, 6)]);
}

#[test]
fn one_bad_pair_does_not_stop_the_batch() {
    let mut db = DB::open_with_dim_at(":memory:", 2).unwrap();
    let pairs: Vec<(Symbol, Vec<i64>)> = vec![
        (sym("first"), vec![1, 1]),
        (sym("wrong_len"), vec![1, 2, 3]),
        (sym("huge"), vec![0, 0x10_0001]),
        (sym("last"), vec![2, 2]),
    ];
    let outcomes = index_symbols(&mut db, &pairs);
    assert_eq!(
        outcomes,
        vec![
            InsertOutcome::Inserted,
            InsertOutcome::WrongDimension,
            InsertOutcome::OutOfRange,
            InsertOutcome::Inserted,
        ]
    );
    assert_eq!(db.len(), 2);
    let hits = db.knn(&vec![2, 2], 10).unwrap();
    assert_eq!(hits.len(), 2);
    assert_eq!(hits[0].name, "last");
    assert_eq!(hits[1].name, "first");
}

#[test]
fn one_files_content_does_not_affect_the_others() {
    let files: Vec<(String, Vec<u8>)> = vec![
        ("a.py".to_string(), b"def foo():\n    return 1\n".to_vec()),
        ("junk.py".to_string(), vec![0, 1, 2, 255, 254]),
        ("b.rs".to_string(), b"fn baz() {}\n".to_vec()),
        ("skip.txt".to_string(), b"not code".to_vec()),
    ];
    let results = extract_all(&files);
    assert_eq!(results.len(), 4);
    let a = results[0].as_ref().unwrap();
    assert_eq!(a.len(), 1);
    assert_eq!(a[0].name, "foo");
    let b = results[2].as_ref().unwrap();
    assert_eq!(b.len(), 1);
    assert_eq!(b[0].name, "baz");
    let skipped = results[3].as_ref().unwrap();
    assert_eq!(skipped.len(), 0);
}
