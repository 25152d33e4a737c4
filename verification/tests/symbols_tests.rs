use cearch::symbols::enumerate_symbols_in_file;
use cearch::symbols::SymbolKind;

const PY_SOURCE: &str = "def foo():\n    return 1\n\nclass Bar:\n    def method(self):\n        pass\n";
const RS_SOURCE: &str = "fn baz() -> i32 {\n    42\n}\n\nfn qux() {}\n";

#[test]
fn unsupported_extension_yields_empty_not_error() {
    let r = enumerate_symbols_in_file("notes.txt", b"anything at all").unwrap();
    assert_eq!(r.len(), 0);
    let r = enumerate_symbols_in_file("README", b"def foo(): pass").unwrap();
    assert_eq!(r.len(), 0);
    let r = enumerate_symbols_in_file(".gitignore", b"def foo(): pass").unwrap();
    assert_eq!(r.len(), 0);
    let r = enumerate_symbols_in_file("dir.py/file", b"def foo(): pass").unwrap();
    assert_eq!(r.len(), 0);
}

#[test]
fn python_functions_and_classes_are_extracted() {
    let syms = enumerate_symbols_in_file("pkg/a.py", PY_SOURCE.as_bytes()).unwrap();
    let foo = syms
        .iter()
        .find(|s| s.name == "foo")
        .expect("foo extracted");
    assert_eq!(foo.kind, SymbolKind::Function);
    assert_eq!(foo.line, 1);
    assert_eq!(foo.path, "pkg/a.py");
    assert!(foo.code.starts_with("def foo():"));
    assert!(foo.code.contains("return 1"));

    let bar = syms
        .iter()
        .find(|s| s.name == "Bar")
        .expect("Bar extracted");
    assert_eq!(bar.kind, SymbolKind::Class);
    assert_eq!(bar.line, 4);
    assert!(bar.code.starts_with("class Bar:"));

    let method = syms
        .iter()
        .find(|s| s.name == "method")
        .expect("method extracted");
    assert_eq!(method.kind, SymbolKind::Function);
    assert_eq!(method.line, 5);
}

#[test]
fn rust_functions_are_extracted() {
    let syms = enumerate_symbols_in_file("src/b.rs", RS_SOURCE.as_bytes()).unwrap();
    assert_eq!(syms.len(), 2);
    assert_eq!(syms[0].name, "baz");
    assert_eq!(syms[0].kind, SymbolKind::Function);
    assert_eq!(syms[0].line, 1);
    assert_eq!(syms[0].code, "fn baz() -> i32 {\n    42\n}");
    assert_eq!(syms[1].name, "qux");
    assert_eq!(syms[1].line, 5);
}

#[test]
fn empty_source_yields_no_symbols() {
    let syms = enumerate_symbols_in_file("a.py", b"").unwrap();
    assert_eq!(syms.len(), 0);
}

#[test]
fn garbled_source_still_yields_a_result() {
    let r = enumerate_symbols_in_file("bad.py", b"\x00\x01\x02 not python ((((");
    assert!(r.is_ok());
}

#[test]
fn function_symbols_precede_class_symbols() {
    let syms = enumerate_symbols_in_file("pkg/a.py", PY_SOURCE.as_bytes()).unwrap();
    let names: Vec<&str> = syms.iter().map(|s| s.name.as_str()).collect();
    assert_eq!(names, vec!["foo", "method", "Bar"]);
    let kinds: Vec<SymbolKind> = syms.iter().map(|s| s.kind).collect();
    assert_eq!(kinds, vec![SymbolKind::Function, SymbolKind::Function, SymbolKind::Class]);
}
