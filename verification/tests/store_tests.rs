use cearch::errors::StoreError;
use cearch::store::DB;
use cearch::symbols::Symbol;
use cearch::symbols::SymbolKind;

fn sym(path: &str, line: usize, kind: SymbolKind, name: &str, code: &str) -> Symbol {
    Symbol {
        path: path.to_string(),
        line,
        kind,
        name: name.to_string(),
        code: code.to_string(),
    }
}

#[test]
fn open_rejects_unusable_dimensions() {
    assert!(matches!(DB::open_with_dim_at(":memory:", 0), Err(StoreError::BadDimension)));
    assert!(matches!(
        DB::open_with_dim_at(":memory:", 0x1_0001),
        Err(StoreError::BadDimension)
    ));
}

#[test]
fn open_reports_backend_failures() {
    let r = DB::open_with_dim_at("/cearch_no_such_dir_a8d1/index.sqlite", 4);
    assert!(matches!(r, Err(StoreError::Backend(_))));
}

#[test]
fn open_read_of_missing_index_is_not_found() {
    let r = DB::open_read_at("/tmp/cearch_absent_dir_a8d1/index.sqlite");
    assert!(matches!(r, Err(StoreError::NotFound)));
    let r2 = DB::open_read("/tmp/cearch_absent_dir_a8d1");
    assert!(matches!(r2, Err(StoreError::NotFound)));
}

#[test]
fn insert_of_wrong_dimension_fails_and_writes_nothing() {
    let mut db = DB::open_with_dim_at(":memory:", 3).unwrap();
    let s = sym("a.py", 1, SymbolKind::Function, "foo", "def foo(): pass");
    let r = db.insert_symbol(&s, &vec![1, 2]);
    assert!(matches!(r, Err(StoreError::DimensionMismatch)));
    assert_eq!(db.len(), 0);
    let r2 = db.insert_symbol(&s, &vec![1, 2, 3, 4]);
    assert!(matches!(r2, Err(StoreError::DimensionMismatch)));
    assert_eq!(db.len(), 0);
    let ok = db.insert_symbol(&s, &vec![1, 2, 3]);
    assert!(ok.is_ok());
    assert_eq!(db.len(), 1);
}

#[test]
fn insert_of_out_of_range_component_fails() {
    let mut db = DB::open_with_dim_at(":memory:", 1).unwrap();
    let s = sym("a.py", 1, SymbolKind::Function, "foo", "def foo(): pass");
    let r = db.insert_symbol(&s, &vec![0x10_0001]);
    assert!(matches!(r, Err(StoreError::ComponentOutOfRange)));
    assert_eq!(db.len(), 0);
}

#[test]
fn knn_round_trip_returns_inserted_symbol_at_distance_zero() {
    let mut db = DB::open_with_dim_at(":memory:", 2).unwrap();
    db.insert_symbol(&sym("a.py", 1, SymbolKind::Function, "foo", "def foo(): pass"), &vec![5, 5])
        .unwrap();
    db.insert_symbol(&sym("a.py", 4, SymbolKind::Class, "Bar", "class Bar: pass"), &vec![-7, 2])
        .unwrap();
    let hits = db.knn(&vec![-7, 2], 1).unwrap();
    assert_eq!(hits.len(), 1);
    assert_eq!(hits[0].dist, 0);
    assert_eq!(hits[0].name, "Bar");
    assert_eq!(hits[0].path, "a.py");
    assert_eq!(hits[0].line, 4);
}

#[test]
fn knn_returns_min_of_k_and_n_sorted_by_distance() {
    let mut db = DB::open_with_dim_at(":memory:", 2).unwrap();
    db.insert_symbol(&sym("a.py", 1, SymbolKind::Function, "origin", "0"), &vec![0, 0]).unwrap();
    db.insert_symbol(&sym("a.py", 2, SymbolKind::Function, "far", "1"), &vec![3, 4]).unwrap();
    db.insert_symbol(&sym("a.py", 3, SymbolKind::Function, "near", "2"), &vec![1, 1]).unwrap();
    db.insert_symbol(&sym("a.py", 4, SymbolKind::Function, "farthest", "3"), &vec![10, 0])
        .unwrap();

    let all = db.knn(&vec![0, 0], 10).unwrap();
    assert_eq!(all.len(), 4);
    let names: Vec<&str> = all.iter().map(|h| h.name.as_str()).collect();
    assert_eq!(names, vec!["origin", "near", "far", "farthest"]);
    let dists: Vec<u64> = all.iter().map(|h| h.dist).collect();
    assert_eq!(dists, vec![0, 2, 25, 100]);

    let two = db.knn(&vec![0, 0], 2).unwrap();
    assert_eq!(two.len(), 2);
    assert_eq!(two[0].name, "origin");
    assert_eq!(two[1].name, "near");

    let none = db.knn(&vec![0, 0], 0).unwrap();
    assert_eq!(none.len(), 0);
}

#[test]
fn knn_rejects_bad_query_vectors() {
    let mut db = DB::open_with_dim_at(":memory:", 2).unwrap();
    db.insert_symbol(&sym("a.py", 1, SymbolKind::Function, "foo", "x"), &vec![1, 2]).unwrap();
    assert!(matches!(db.knn(&vec![1], 1), Err(StoreError::DimensionMismatch)));
    assert!(matches!(db.knn(&vec![1, 0x10_0001], 1), Err(StoreError::ComponentOutOfRange)));
}

#[test]
fn knn_on_empty_store_returns_nothing() {
    let db = DB::open_with_dim_at(":memory:", 2).unwrap();
    let hits = db.knn(&vec![0, 0], 5).unwrap();
    assert_eq!(hits.len(), 0);
}

#[test]
fn store_persists_across_reopen() {
    let path = "/tmp/cearch_test_persist.sqlite";
    let before = match DB::open_read_at(path) {
        Ok(db) => db.len(),
        Err(_) => 0,
    };
    let mut db = DB::open_with_dim_at(path, 2).unwrap();
    assert_eq!(db.len(), before);
    db.insert_symbol(&sym("b.rs", 1, SymbolKind::Function, "baz", "fn baz() {}"), &vec![4, 4])
        .unwrap();
    assert_eq!(db.len(), before + 1);
    drop(db);
    let re = DB::open_read_at(path).unwrap();
    assert_eq!(re.len(), before + 1);
    let hits = re.knn(&vec![4, 4], 1).unwrap();
    assert_eq!(hits.len(), 1);
    assert_eq!(hits[0].name, "baz");
    assert_eq!(hits[0].dist, 0);
}

#[test]
fn reopening_with_another_dimension_is_refused() {
    let path = "/tmp/cearch_test_dim.sqlite";
    let first = DB::open_with_dim_at(path, 3);
    assert!(first.is_ok());
    drop(first);
    let again = DB::open_with_dim_at(path, 3);
    assert!(again.is_ok());
    let other = DB::open_with_dim_at(path, 4);
    assert!(matches!(other, Err(StoreError::SchemaMismatch)));
}

#[test]
fn dimension_reports_the_configured_width() {
    let db = DB::open_with_dim_at(":memory:", 7).unwrap();
    assert_eq!(db.dimension(), 7);
}

#[test]
fn equal_distances_keep_insertion_order() {
    let mut db = DB::open_with_dim_at(":memory:", 2).unwrap();
    db.insert_symbol(&sym("a.py", 1, SymbolKind::Function, "first", "x"), &vec![1, 0]).unwrap();
    db.insert_symbol(&sym("a.py", 2, SymbolKind::Function, "second", "y"), &vec![1, 0]).unwrap();
    db.insert_symbol(&sym("a.py", 3, SymbolKind::Function, "third", "z"), &vec![0, 1]).unwrap();
    let hits = db.knn(&vec![1, 0], 3).unwrap();
    assert_eq!(hits.len(), 3);
    assert_eq!(hits[0].name, "first");
    assert_eq!(hits[0].dist, 0);
    assert_eq!(hits[1].name, "second");
    assert_eq!(hits[1].dist, 0);
    assert_eq!(hits[2].name, "third");
    assert_eq!(hits[2].dist, 2);
}
