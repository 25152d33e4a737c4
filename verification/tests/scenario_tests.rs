use cearch::pipeline::extract_all;
use cearch::pipeline::index_symbols;
use cearch::pipeline::InsertOutcome;
use cearch::store::DB;
use cearch::symbols::Symbol;
use cearch::symbols::SymbolKind;

const DIM: usize = 8;

/// A deterministic stand-in for the embedding model: a fixed-dimension
/// vector computed from the snippet's bytes alone, so that equal snippets
/// embed equally and our distinct snippets embed distinctly.
fn fake_embed(code: &str) -> Vec<i64> {
    let bytes = code.as_bytes();
    let mut v = vec![0i64; DIM];
    v[0] = bytes.len() as i64;
    for (j, b) in bytes.iter().enumerate() {
        let slot = 1 + (j % (DIM - 1));
        v[slot] = (v[slot] + (*b as i64) * (j as i64 + 1)) % 100_000;
    }
    v
}

#[test]
fn two_file_repository_indexes_three_symbols_and_answers_exactly() {
    let a_py = "def foo():\n    return 1\n\nclass Bar:\n    pass\n";
    let b_rs = "fn baz() -> i32 {\n    42\n}\n";
    let files: Vec<(String, Vec<u8>)> = vec![
        ("a.py".to_string(), a_py.as_bytes().to_vec()),
        ("b.rs".to_string(), b_rs.as_bytes().to_vec()),
    ];

    let extracted = extract_all(&files);
    assert_eq!(extracted.len(), 2);
    let mut symbols: Vec<Symbol> = Vec::new();
    for r in extracted {
        symbols.extend(r.unwrap());
    }
    assert_eq!(symbols.len(), 3);

    let foo = symbols.iter().find(|s| s.name == "foo").expect("foo");
    assert_eq!(foo.kind, SymbolKind::Function);
    assert_eq!(foo.path, "a.py");
    let bar = symbols.iter().find(|s| s.name == "Bar").expect("Bar");
    assert_eq!(bar.kind, SymbolKind::Class);
    let baz = symbols.iter().find(|s| s.name == "baz").expect("baz");
    assert_eq!(baz.kind, SymbolKind::Function);
    assert_eq!(baz.path, "b.rs");
    let baz_line = baz.line;
    let baz_code = baz.code.clone();

    let e_foo = fake_embed(&foo.code);
    let e_bar = fake_embed(&bar.code);
    let e_baz = fake_embed(&baz_code);
    assert_ne!(e_foo, e_bar);
    assert_ne!(e_foo, e_baz);
    assert_ne!(e_bar, e_baz);

    let mut db = DB::open_with_dim_at(":memory:", DIM).unwrap();
    let pairs: Vec<(Symbol, Vec<i64>)> = symbols
        .into_iter()
        .map(|s| {
            let e = fake_embed(&s.code);
            (s, e)
        })
        .collect();
    let outcomes = index_symbols(&mut db, &pairs);
    assert!(outcomes.iter().all(|o| *o == InsertOutcome::Inserted));
    assert_eq!(db.len(), 3);

    let hits = db.knn(&fake_embed(&baz_code), 1).unwrap();
    assert_eq!(hits.len(), 1);
    assert_eq!(hits[0].path, "b.rs");
    assert_eq!(hits[0].line, baz_line);
    assert_eq!(hits[0].name, "baz");
    assert_eq!(hits[0].dist, 0);
}
