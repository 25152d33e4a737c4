//! Structural symbol extraction from source text.
//!
//! A static registry maps file-name extensions to a grammar and one pattern
//! query per symbol kind.  Extraction parses the file's text with the
//! grammar and turns every query match into a `Symbol` whose `code` is the
//! whole definition body (so that what gets embedded carries the structural
//! signal, not just an identifier) and whose `line` is the definition's own
//! 1-based starting line.  What the engine matches is named by
//! `ts_captures_of` and `ts_slot_of`, and the extractor's result is pinned
//! to the symbols derived from those names.
use vstd::prelude::*;
use vstd::slice::slice_subrange;
use vstd::string::StringExecFns;

use crate::errors::ParseError;
use crate::text::bytes_to_string_lossy;
use crate::text::chars_eq;
use crate::text::chars_subrange;
use crate::text::last_index_of;
use crate::text::rfind_char;
use crate::text::str_to_chars;
use crate::text::utf8_lossy;
use crate::tsq::ts_captures_of;
use crate::tsq::ts_query_matches;
use crate::tsq::ts_query_slot;
use crate::tsq::ts_slot_of;
use crate::tsq::TsCapture;

verus! {

/// What kind of definition a symbol is.
#[derive(Debug, Clone, Copy, PartialEq, Eq, Structural)]
pub enum SymbolKind {
    Function,
    Class,
}

/// One structural definition found in source text.
#[derive(Debug)]
pub struct Symbol {
    pub path: String,
    pub line: usize,
    pub kind: SymbolKind,
    pub name: String,
    pub code: String,
}

/// Mathematical image of a `Symbol`.
pub struct SymbolV {
    pub path: Seq<char>,
    pub line: int,
    pub kind: SymbolKind,
    pub name: Seq<char>,
    pub code: Seq<char>,
}

impl View for Symbol {
    type V = SymbolV;

    open spec fn view(&self) -> SymbolV {
        SymbolV {
            path: self.path@,
            line: self.line as int,
            kind: self.kind,
            name: self.name@,
            code: self.code@,
        }
    }
}

impl Symbol {
    /// Field-by-field copy.
    pub fn duplicate(&self) -> (r: Symbol)
        ensures
            r@ == self@,
    {
        Symbol {
            path: self.path.clone(),
            line: self.line,
            kind: self.kind,
            name: self.name.clone(),
            code: self.code.clone(),
        }
    }
}

/// Identifies a supported language grammar.
#[derive(Debug, Clone, Copy, PartialEq, Eq, Structural)]
pub enum LangId {
    Python,
    Rust,
}

/// Per-language configuration: which file-name extensions select the
/// language, and the pattern query per symbol kind (a language without
/// class-like definitions has no class query).
pub(crate) struct LanguageConfig {
    pub lang: LangId,
    pub extensions: Vec<String>,
    pub function_query: String,
    pub class_query: Option<String>,
}

/// The file-name extension of a path: the text after the last `.` of the
/// last path component, unless the component has no dot or only a leading
/// one.
pub open spec fn extension_seq(p: Seq<char>) -> Option<Seq<char>> {
    let comp = p.subrange(last_index_of(p, '/') + 1, p.len() as int);
    let d = last_index_of(comp, '.');
    if d <= 0 {
        None
    } else {
        Some(comp.subrange(d + 1, comp.len() as int))
    }
}

/// The supported language selected by a path's extension, if any.
pub open spec fn lang_for_path(p: Seq<char>) -> Option<LangId> {
    match extension_seq(p) {
        None => None,
        Some(e) => if e == "py"@ {
            Some(LangId::Python)
        } else if e == "rs"@ {
            Some(LangId::Rust)
        } else {
            None
        },
    }
}

/// Extracts a path's extension, following `extension_seq`.
fn extension_of(p: &Vec<char>) -> (r: Option<Vec<char>>)
    ensures
        r is Some <==> extension_seq(p@) is Some,
        r matches Some(e) ==> extension_seq(p@) matches Some(es) && e@ == es,
{
    let plen = p.len();
    let comp_start: usize = match rfind_char(p, '/') {
        Some(i) => i + 1,
        None => 0,
    };
    let comp = chars_subrange(p, comp_start, plen);
    match rfind_char(&comp, '.') {
        None => None,
        Some(d) => {
            if d == 0 {
                None
            } else {
                Some(chars_subrange(&comp, d + 1, comp.len()))
            }
        },
    }
}

/// The static language registry: one configuration per supported language,
/// with its query texts pinned.
pub(crate) fn language_registry() -> (r: Vec<LanguageConfig>)
    ensures
        r@.len() == 2,
        r@[0].lang == LangId::Python,
        r@[0].extensions@.len() == 1 && r@[0].extensions@[0]@ == "py"@,
        r@[0].function_query@ == "(function_definition name: (identifier) @name) @node"@,
        r@[0].class_query matches Some(q) && q@ == "(class_definition name: (identifier) @name) @node"@,
        r@[1].lang == LangId::Rust,
        r@[1].extensions@.len() == 1 && r@[1].extensions@[0]@ == "rs"@,
        r@[1].function_query@ == "(function_item name: (identifier) @name) @node"@,
        r@[1].class_query is None,
{
    let mut py_ext: Vec<String> = Vec::new();
    py_ext.push(String::from_str("py"));
    let py = LanguageConfig {
        lang: LangId::Python,
        extensions: py_ext,
        function_query: String::from_str("(function_definition name: (identifier) @name) @node"),
        class_query: Some(String::from_str("(class_definition name: (identifier) @name) @node")),
    };
    let mut rs_ext: Vec<String> = Vec::new();
    rs_ext.push(String::from_str("rs"));
    let rs = LanguageConfig {
        lang: LangId::Rust,
        extensions: rs_ext,
        function_query: String::from_str("(function_item name: (identifier) @name) @node"),
        class_query: None,
    };
    let mut r: Vec<LanguageConfig> = Vec::new();
    r.push(py);
    r.push(rs);
    r
}

/// The configuration is, field for field, the registry's entry for its
/// language.
pub(crate) open spec fn config_is_registry_entry(cfg: LanguageConfig) -> bool {
    &&& (cfg.lang == LangId::Python ==> {
        &&& cfg.extensions@.len() == 1 && cfg.extensions@[0]@ == "py"@
        &&& cfg.function_query@ == "(function_definition name: (identifier) @name) @node"@
        &&& (cfg.class_query matches Some(q) && q@
            == "(class_definition name: (identifier) @name) @node"@)
    })
    &&& (cfg.lang == LangId::Rust ==> {
        &&& cfg.extensions@.len() == 1 && cfg.extensions@[0]@ == "rs"@
        &&& cfg.function_query@ == "(function_item name: (identifier) @name) @node"@
        &&& cfg.class_query is None
    })
}

/// Looks a path's extension up in the language registry.
#[verifier::loop_isolation(false)]
pub(crate) fn language_config_for_path(path: &str) -> (r: Option<LanguageConfig>)
    ensures
        r is Some <==> lang_for_path(path@) is Some,
        r matches Some(cfg) ==> lang_for_path(path@) matches Some(l) && cfg.lang == l,
        r matches Some(cfg) ==> config_is_registry_entry(cfg),
{
    let pchars = str_to_chars(path);
    let ext = match extension_of(&pchars) {
        None => {
            return None;
        },
        Some(e) => e,
    };
    let mut registry = language_registry();
    let n = registry.len();
    let mut found: Option<usize> = None;
    let mut i: usize = 0;
    while i < n
        invariant
            0 <= i <= n,
            found is None ==> forall|k: int, j: int|
                0 <= k < i && 0 <= j < registry@[k].extensions@.len() ==> ext@
                    != registry@[k].extensions@[j]@,
            found matches Some(fi) ==> ((fi == 0 && ext@ == "py"@) || (fi == 1 && ext@ == "rs"@)),
        decreases n - i,
    {
        let m = registry[i].extensions.len();
        let mut j: usize = 0;
        while j < m
            invariant
                0 <= j <= m,
                found is None ==> forall|k: int, jj: int|
                    0 <= k < i && 0 <= jj < registry@[k].extensions@.len() ==> ext@
                        != registry@[k].extensions@[jj]@,
                found is None ==> forall|jj: int|
                    0 <= jj < j ==> ext@ != registry@[i as int].extensions@[jj]@,
                found matches Some(fi) ==> ((fi == 0 && ext@ == "py"@) || (fi == 1 && ext@
                    == "rs"@)),
            decreases m - j,
        {
            if found.is_none() {
                let entry = str_to_chars(registry[i].extensions[j].as_str());
                if chars_eq(&ext, &entry) {
                    found = Some(i);
                }
            }
            j = j + 1;
        }
        i = i + 1;
    }
    match found {
        None => {
            proof {
                assert(ext@ != registry@[0].extensions@[0]@);
                assert(ext@ != registry@[1].extensions@[0]@);
            }
            None
        },
        Some(fi) => {
            let cfg = registry.remove(fi);
            proof {
                // The two registered extensions are distinct literals, so a
                // match pins the language down.
                reveal_strlit("py");
                reveal_strlit("rs");
                assert("py"@[0] == 'p' && "rs"@[0] == 'r');
                assert("py"@ != "rs"@);
            }
            Some(cfg)
        },
    }
}

/// A symbol extracted from `src` under the path `path`: it carries that
/// path, a 1-based line within the file, and a name and code decoded from
/// spans of the source bytes.
pub open spec fn symbol_wf(s: SymbolV, path: Seq<char>, src: Seq<u8>) -> bool {
    &&& s.path == path
    &&& 1 <= s.line <= src.len()
    &&& exists|a: int, b: int|
        0 <= a <= b <= src.len() && s.name == utf8_lossy(#[trigger] src.subrange(a, b))
    &&& exists|a: int, b: int|
        0 <= a <= b <= src.len() && s.code == utf8_lossy(#[trigger] src.subrange(a, b))
}

/// A capture fills the wanted slot with a span that lies within the source
/// and, where a row is needed, starts on a row inside it.
pub open spec fn capture_fits(c: TsCapture, slot: u32, src_len: int, need_row: bool) -> bool {
    &&& c.index == slot
    &&& c.start <= c.end <= src_len
    &&& (need_row ==> c.row < src_len)
}

/// The first capture of one match that fits the slot.
pub open spec fn first_fitting(
    caps: Seq<TsCapture>,
    slot: u32,
    src_len: int,
    need_row: bool,
) -> Option<TsCapture>
    decreases caps.len(),
{
    if caps.len() == 0 {
        None
    } else if capture_fits(caps[0], slot, src_len, need_row) {
        Some(caps[0])
    } else {
        first_fitting(caps.drop_first(), slot, src_len, need_row)
    }
}

/// The symbol one match yields: name and code are the verbatim source
/// spans of the first captures fitting the name and definition slots, and
/// the line is the definition's 1-based starting row; no symbol when a
/// fitting capture is missing.
pub open spec fn match_symbol(
    caps: Seq<TsCapture>,
    name_slot: u32,
    node_slot: u32,
    path: Seq<char>,
    src: Seq<u8>,
    kind: SymbolKind,
) -> Option<SymbolV> {
    match (first_fitting(caps, name_slot, src.len() as int, false), first_fitting(
        caps,
        node_slot,
        src.len() as int,
        true,
    )) {
        (Some(nc), Some(dc)) => Some(
            SymbolV {
                path: path,
                line: dc.row + 1,
                kind: kind,
                name: utf8_lossy(src.subrange(nc.start as int, nc.end as int)),
                code: utf8_lossy(src.subrange(dc.start as int, dc.end as int)),
            },
        ),
        _ => None,
    }
}

/// The symbols of the first `n` matches, in match order.
pub open spec fn symbols_of_matches(
    ms: Seq<Seq<TsCapture>>,
    n: int,
    name_slot: u32,
    node_slot: u32,
    path: Seq<char>,
    src: Seq<u8>,
    kind: SymbolKind,
) -> Seq<SymbolV>
    decreases n,
{
    if n <= 0 {
        Seq::empty()
    } else {
        symbols_of_matches(ms, n - 1, name_slot, node_slot, path, src, kind) + match match_symbol(
            ms[n - 1],
            name_slot,
            node_slot,
            path,
            src,
            kind,
        ) {
            Some(s) => seq![s],
            None => Seq::empty(),
        }
    }
}

/// What one pattern query yields on one file, derived from the engine's
/// named results; `None` when the engine cannot run the query or the query
/// lacks a required capture slot.
pub open spec fn query_symbols(
    lang: LangId,
    query: Seq<char>,
    path: Seq<char>,
    src: Seq<u8>,
    kind: SymbolKind,
) -> Option<Seq<SymbolV>> {
    match (ts_captures_of(lang, query, src), ts_slot_of(lang, query, "name"@), ts_slot_of(
        lang,
        query,
        "node"@,
    )) {
        (Some(ms), Some(a), Some(b)) => Some(
            symbols_of_matches(ms, ms.len() as int, a, b, path, src, kind),
        ),
        _ => None,
    }
}

/// Everything one file yields: its function symbols and then, for a
/// language with class definitions, its class symbols.
pub open spec fn file_symbols(lang: LangId, path: Seq<char>, src: Seq<u8>) -> Option<Seq<SymbolV>> {
    match lang {
        LangId::Python => match (query_symbols(
            lang,
            "(function_definition name: (identifier) @name) @node"@,
            path,
            src,
            SymbolKind::Function,
        ), query_symbols(
            lang,
            "(class_definition name: (identifier) @name) @node"@,
            path,
            src,
            SymbolKind::Class,
        )) {
            (Some(fs), Some(cs)) => Some(fs + cs),
            _ => None,
        },
        LangId::Rust => query_symbols(
            lang,
            "(function_item name: (identifier) @name) @node"@,
            path,
            src,
            SymbolKind::Function,
        ),
    }
}

/// View of a symbol list.
pub open spec fn symbols_view(s: Seq<Symbol>) -> Seq<SymbolV> {
    Seq::new(s.len(), |i: int| s[i]@)
}

/// The full contract of extraction on one file: an unsupported extension
/// yields an empty list, not an error; a supported one succeeds exactly
/// when the engine can run the language's queries, and then yields exactly
/// the symbols derived from the engine's matches; every returned symbol is
/// well-formed for the file.
pub open spec fn extraction_ok(
    r: Result<Vec<Symbol>, ParseError>,
    path: Seq<char>,
    src: Seq<u8>,
) -> bool {
    &&& lang_for_path(path) is None ==> (r matches Ok(v) && v@.len() == 0)
    &&& (lang_for_path(path) matches Some(l) ==> {
        &&& (r is Ok <==> file_symbols(l, path, src) is Some)
        &&& (r matches Ok(v) ==> (file_symbols(l, path, src) matches Some(ss) && symbols_view(v@)
            == ss))
    })
    &&& (r matches Ok(v) ==> forall|k: int|
        0 <= k < v@.len() ==> symbol_wf(#[trigger] v@[k]@, path, src))
}

proof fn lemma_first_fitting_found(
    caps: Seq<TsCapture>,
    slot: u32,
    src_len: int,
    need_row: bool,
    i: int,
)
    requires
        0 <= i < caps.len(),
        capture_fits(caps[i], slot, src_len, need_row),
        forall|t: int| 0 <= t < i ==> !capture_fits(#[trigger] caps[t], slot, src_len, need_row),
    ensures
        first_fitting(caps, slot, src_len, need_row) == Some(caps[i]),
    decreases i,
{
    if i > 0 {
        lemma_first_fitting_found(caps.drop_first(), slot, src_len, need_row, i - 1);
    }
}

proof fn lemma_first_fitting_absent(caps: Seq<TsCapture>, slot: u32, src_len: int, need_row: bool)
    requires
        forall|t: int|
            0 <= t < caps.len() ==> !capture_fits(#[trigger] caps[t], slot, src_len, need_row),
    ensures
        first_fitting(caps, slot, src_len, need_row) is None,
    decreases caps.len(),
{
    if caps.len() > 0 {
        lemma_first_fitting_absent(caps.drop_first(), slot, src_len, need_row);
    }
}

/// Finds the first capture of one match that fits the slot.
fn find_capture(caps: &Vec<TsCapture>, slot: u32, src_len: usize, need_row: bool) -> (r: Option<
    TsCapture,
>)
    ensures
        r == first_fitting(caps@, slot, src_len as int, need_row),
        r matches Some(c) ==> capture_fits(c, slot, src_len as int, need_row),
{
    let n = caps.len();
    let mut j: usize = 0;
    while j < n
        invariant
            0 <= j <= n,
            n == caps@.len(),
            forall|t: int|
                0 <= t < j ==> !capture_fits(#[trigger] caps@[t], slot, src_len as int, need_row),
        decreases n - j,
    {
        let c = caps[j];
        if c.index == slot && c.start <= c.end && c.end <= src_len && (!need_row || c.row
            < src_len) {
            proof {
                lemma_first_fitting_found(caps@, slot, src_len as int, need_row, j as int);
            }
            return Some(c);
        }
        j = j + 1;
    }
    proof {
        lemma_first_fitting_absent(caps@, slot, src_len as int, need_row);
    }
    None
}

/// Runs one pattern query over the file and appends, in match order, the
/// symbol of every match that carries fitting name and definition
/// captures: exactly the symbols that `query_symbols` derives from the
/// engine's named results.
#[verifier::loop_isolation(false)]
fn run_query(
    out: &mut Vec<Symbol>,
    path: &str,
    source: &[u8],
    lang: LangId,
    query_src: &str,
    kind: SymbolKind,
) -> (r: Result<(), ParseError>)
    requires
        forall|k: int|
            0 <= k < old(out)@.len() ==> symbol_wf(#[trigger] old(out)@[k]@, path@, source@),
    ensures
        r is Ok <==> query_symbols(lang, query_src@, path@, source@, kind) is Some,
        r is Ok ==> (query_symbols(lang, query_src@, path@, source@, kind) matches Some(ss)
            && symbols_view(final(out)@) == symbols_view(old(out)@) + ss),
        r matches Err(e) ==> (final(out)@ == old(out)@ && (e == ParseError::UnparsableSource || e
            == ParseError::MissingCapture)),
        forall|k: int|
            0 <= k < final(out)@.len() ==> symbol_wf(#[trigger] final(out)@[k]@, path@, source@),
        final(out)@.len() >= old(out)@.len(),
        forall|k: int| 0 <= k < old(out)@.len() ==> final(out)@[k] == old(out)@[k],
        forall|k: int|
            old(out)@.len() <= k < final(out)@.len() ==> (#[trigger] final(out)@[k])@.kind == kind,
{
    let matches = match ts_query_matches(lang, query_src, source) {
        None => {
            return Err(ParseError::UnparsableSource);
        },
        Some(m) => m,
    };
    let name_slot = match ts_query_slot(lang, query_src, "name") {
        None => {
            return Err(ParseError::MissingCapture);
        },
        Some(x) => x,
    };
    let node_slot = match ts_query_slot(lang, query_src, "node") {
        None => {
            return Err(ParseError::MissingCapture);
        },
        Some(x) => x,
    };
    let ghost msv = Seq::new(matches@.len(), |t: int| matches@[t]@);
    let src_len = source.len();
    let n = matches.len();
    let mut i: usize = 0;
    proof {
        assert(symbols_view(out@) =~= symbols_view(old(out)@) + symbols_of_matches(
            msv,
            0,
            name_slot,
            node_slot,
            path@,
            source@,
            kind,
        ));
    }
    while i < n
        invariant
            0 <= i <= n,
            symbols_view(out@) == symbols_view(old(out)@) + symbols_of_matches(
                msv,
                i as int,
                name_slot,
                node_slot,
                path@,
                source@,
                kind,
            ),
            forall|k: int| 0 <= k < out@.len() ==> symbol_wf(#[trigger] out@[k]@, path@, source@),
            out@.len() >= old(out)@.len(),
            forall|k: int| 0 <= k < old(out)@.len() ==> out@[k] == old(out)@[k],
            forall|k: int|
                old(out)@.len() <= k < out@.len() ==> (#[trigger] out@[k])@.kind == kind,
        decreases n - i,
    {
        let caps = &matches[i];
        proof {
            assert(caps@ == msv[i as int]);
        }
        let nc = find_capture(caps, name_slot, src_len, false);
        let dc = find_capture(caps, node_slot, src_len, true);
        match (nc, dc) {
            (Some(ncap), Some(dcap)) => {
                let name = bytes_to_string_lossy(slice_subrange(source, ncap.start, ncap.end));
                let code = bytes_to_string_lossy(slice_subrange(source, dcap.start, dcap.end));
                let sym = Symbol { path: path.to_owned(), line: dcap.row + 1, kind, name, code };
                proof {
                    assert(match_symbol(msv[i as int], name_slot, node_slot, path@, source@, kind)
                        == Some(sym@));
                    assert(sym@.name == utf8_lossy(
                        source@.subrange(ncap.start as int, ncap.end as int),
                    ));
                    assert(sym@.code == utf8_lossy(
                        source@.subrange(dcap.start as int, dcap.end as int),
                    ));
                    assert(symbol_wf(sym@, path@, source@));
                }
                let ghost prev = out@;
                out.push(sym);
                proof {
                    assert(symbols_of_matches(
                        msv,
                        i + 1 as int,
                        name_slot,
                        node_slot,
                        path@,
                        source@,
                        kind,
                    ) == symbols_of_matches(
                        msv,
                        i as int,
                        name_slot,
                        node_slot,
                        path@,
                        source@,
                        kind,
                    ) + seq![sym@]);
                    assert(out@ == prev.push(sym));
                    assert(symbols_view(out@) =~= symbols_view(prev).push(sym@));
                    assert(symbols_view(out@) =~= symbols_view(old(out)@) + symbols_of_matches(
                        msv,
                        i + 1 as int,
                        name_slot,
                        node_slot,
                        path@,
                        source@,
                        kind,
                    ));
                }
            },
            _ => {
                proof {
                    assert(match_symbol(msv[i as int], name_slot, node_slot, path@, source@, kind)
                        is None);
                    assert(symbols_view(out@) =~= symbols_view(old(out)@) + symbols_of_matches(
                        msv,
                        i + 1 as int,
                        name_slot,
                        node_slot,
                        path@,
                        source@,
                        kind,
                    ));
                }
            },
        }
        i = i + 1;
    }
    Ok(())
}

/// Enumerates the symbols (functions, classes) defined in one source file.
///
/// The caller supplies the file's text; `path` labels the resulting symbols
/// and selects the grammar by its extension.  A path whose extension
/// selects no supported language yields an empty list, not an error.  The
/// answer is exactly `file_symbols`: the function-query matches in the
/// engine's traversal order, then (for Python) the class-query matches.
pub fn enumerate_symbols_in_file(path: &str, source: &[u8]) -> (r: Result<Vec<Symbol>, ParseError>)
    ensures
        extraction_ok(r, path@, source@),
        r is Err ==> lang_for_path(path@) is Some,
        r matches Ok(v) ==> (lang_for_path(path@) == Some(LangId::Rust) ==> forall|k: int|
            0 <= k < v@.len() ==> (#[trigger] v@[k])@.kind == SymbolKind::Function),
{
    let cfg = match language_config_for_path(path) {
        None => {
            return Ok(Vec::new());
        },
        Some(c) => c,
    };
    let mut symbols: Vec<Symbol> = Vec::new();
    proof {
        assert(symbols_view(symbols@) =~= Seq::<SymbolV>::empty());
    }
    match run_query(
        &mut symbols,
        path,
        source,
        cfg.lang,
        cfg.function_query.as_str(),
        SymbolKind::Function,
    ) {
        Err(e) => {
            return Err(e);
        },
        Ok(_) => {},
    }
    match &cfg.class_query {
        Some(q) => {
            match run_query(&mut symbols, path, source, cfg.lang, q.as_str(), SymbolKind::Class) {
                Err(e) => {
                    return Err(e);
                },
                Ok(_) => {},
            }
        },
        None => {},
    }
    Ok(symbols)
}

} // verus!
