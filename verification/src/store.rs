//! The vector store: persistent pairing of symbol metadata with embedding
//! vectors, and exact nearest-neighbour retrieval over them.
//!
//! A store keeps every record in memory as the authoritative model of this
//! process's view and writes each insertion through to SQLite, where a
//! metadata row and its vector row share one id and are committed in one
//! transaction.  Retrieval is a verified exact scan: squared Euclidean
//! distance over the fixed-point components, smaller is more similar.
use vstd::prelude::*;
use vstd::string::StringExecFns;

use crate::embedding::check_embedding;
use crate::embedding::clone_embedding;
use crate::embedding::blob_decoded;
use crate::embedding::blob_ok;
use crate::embedding::blob_to_embedding;
use crate::embedding::embedding_to_blob;
use crate::embedding::embedding_ok;
use crate::embedding::lemma_distance_nonneg;
use crate::embedding::lemma_distance_self;
use crate::embedding::lemma_zero_distance_is_equality;
use crate::embedding::distance_sq;
use crate::embedding::sq_dist;
use crate::embedding::DIM_LIMIT;
use crate::errors::StoreError;
use crate::fsq::fs_is_file;
use crate::sqlw::sql_exec_batch;
use crate::sqlw::sql_get_dim;
use crate::sqlw::sql_insert_record;
use crate::sqlw::sql_open;
use crate::sqlw::sql_select_all;
use crate::sqlw::sql_set_dim;
use crate::symbols::Symbol;
use crate::symbols::SymbolKind;
use crate::symbols::SymbolV;
use crate::text::chars_eq;
use crate::text::str_to_chars;

verus! {

/// One persisted pairing of a symbol with its embedding.
pub struct Record {
    pub symbol: Symbol,
    pub emb: Vec<i64>,
}

/// Mathematical image of a `Record`.
pub struct RecordV {
    pub symbol: SymbolV,
    pub emb: Seq<i64>,
}

impl View for Record {
    type V = RecordV;

    open spec fn view(&self) -> RecordV {
        RecordV { symbol: self.symbol@, emb: self.emb@ }
    }
}

/// One retrieval result: where the symbol is, its name, and its squared
/// Euclidean distance from the query vector.
#[derive(Debug)]
pub struct QueryHit {
    pub path: String,
    pub line: usize,
    pub name: String,
    pub dist: u64,
}

/// Mathematical image of a `QueryHit`.
pub struct QueryHitV {
    pub path: Seq<char>,
    pub line: int,
    pub name: Seq<char>,
    pub dist: int,
}

impl View for QueryHit {
    type V = QueryHitV;

    open spec fn view(&self) -> QueryHitV {
        QueryHitV { path: self.path@, line: self.line as int, name: self.name@, dist: self.dist as int }
    }
}

/// Mathematical image of a store: its dimension and its records, in
/// insertion order.
pub struct DbV {
    pub dim: int,
    pub records: Seq<RecordV>,
}

/// A store model is well-formed: a usable dimension and one embedding of
/// exactly that dimension per record.
pub open spec fn db_wf(v: DbV) -> bool {
    &&& 1 <= v.dim <= DIM_LIMIT as int
    &&& forall|i: int|
        0 <= i < v.records.len() ==> ((#[trigger] v.records[i]).emb.len() == v.dim
            && embedding_ok(v.records[i].emb))
}

/// The squared distance of one record's embedding from a query vector.
pub open spec fn dist_of(r: RecordV, q: Seq<i64>) -> int {
    sq_dist(r.emb, q)
}

/// The hit reports exactly this record at its distance from the query.
pub open spec fn hit_matches(h: QueryHitV, r: RecordV, q: Seq<i64>) -> bool {
    &&& h.path == r.symbol.path
    &&& h.line == r.symbol.line
    &&& h.name == r.symbol.name
    &&& h.dist == dist_of(r, q)
}

/// `perm` arranges all record indices in order of non-decreasing distance
/// from `q`: it is a duplicate-free sequence of valid indices covering the
/// records, sorted by distance, with ties in record order.
pub open spec fn sorted_arrangement(perm: Seq<int>, records: Seq<RecordV>, q: Seq<i64>) -> bool {
    &&& perm.len() == records.len()
    &&& forall|a: int| 0 <= a < perm.len() ==> 0 <= #[trigger] perm[a] < records.len()
    &&& forall|a: int, b: int| 0 <= a < b < perm.len() ==> #[trigger] perm[a] != #[trigger] perm[b]
    &&& forall|a: int, b: int|
        0 <= a <= b < perm.len() ==> dist_of(records[#[trigger] perm[a]], q) <= dist_of(
            records[#[trigger] perm[b]],
            q,
        )
    &&& forall|a: int, b: int|
        0 <= a < b < perm.len() && dist_of(records[#[trigger] perm[a]], q) == dist_of(
            records[#[trigger] perm[b]],
            q,
        ) ==> perm[a] < perm[b]
}

/// The hits are the prefix of one sorted arrangement of all records.
pub open spec fn hits_from_arrangement(
    perm: Seq<int>,
    hits: Seq<QueryHitV>,
    records: Seq<RecordV>,
    q: Seq<i64>,
) -> bool {
    &&& sorted_arrangement(perm, records, q)
    &&& forall|i: int|
        0 <= i < hits.len() ==> hit_matches(#[trigger] hits[i], records[perm[i]], q)
}

/// Full correctness of a `k`-nearest-neighbour answer: `min(k, N)` hits
/// that form the prefix of a sorted arrangement of all `N` records; the
/// first hit (when there is one) is at least as close as every record, and
/// at distance zero whenever the query vector itself is stored.
pub open spec fn knn_ok(hits: Seq<QueryHitV>, v: DbV, q: Seq<i64>, k: int) -> bool {
    let n = v.records.len() as int;
    &&& hits.len() == if k <= n {
        k
    } else {
        n
    }
    &&& exists|perm: Seq<int>| #[trigger] hits_from_arrangement(perm, hits, v.records, q)
    &&& hits.len() > 0 ==> forall|j: int|
        0 <= j < n ==> hits[0].dist <= dist_of(#[trigger] v.records[j], q)
    &&& (hits.len() > 0 && exists|j: int|
        0 <= j < n && (#[trigger] v.records[j]).emb == q) ==> hits[0].dist == 0
}

/// View of a hit list.
pub open spec fn hits_view(s: Seq<QueryHit>) -> Seq<QueryHitV> {
    Seq::new(s.len(), |i: int| s[i]@)
}

/// Round trip: once a symbol has been inserted with embedding `v`, any
/// later nearest-neighbour query with `v` itself and `k >= 1` answers with
/// a first hit at distance zero.
pub proof fn lemma_round_trip(
    pre: DbV,
    post: DbV,
    sym: SymbolV,
    v: Seq<i64>,
    hits: Seq<QueryHitV>,
    k: int,
)
    requires
        post.records == pre.records.push(RecordV { symbol: sym, emb: v }),
        knn_ok(hits, post, v, k),
        k >= 1,
    ensures
        hits.len() >= 1,
        hits[0].dist == 0,
{
    let n = post.records.len() as int;
    assert(post.records[n - 1].emb == v);
}

/// In a well-formed store that holds the query vector itself at exactly
/// one record, a nearest-neighbour query with `k == 1` answers with
/// exactly that record's symbol, at distance zero.
pub proof fn lemma_unique_nearest(v: DbV, q: Seq<i64>, hits: Seq<QueryHitV>, j: int)
    requires
        db_wf(v),
        q.len() == v.dim,
        knn_ok(hits, v, q, 1),
        0 <= j < v.records.len(),
        v.records[j].emb == q,
        forall|t: int|
            0 <= t < v.records.len() && t != j ==> (#[trigger] v.records[t]).emb != q,
    ensures
        hits.len() == 1,
        hit_matches(hits[0], v.records[j], q),
{
    let n = v.records.len() as int;
    assert(hits.len() == 1);
    assert(hits[0].dist == 0);
    let perm = choose|perm: Seq<int>| hits_from_arrangement(perm, hits, v.records, q);
    assert(hits_from_arrangement(perm, hits, v.records, q));
    let p0 = perm[0];
    assert(0 <= p0 < n);
    assert(hit_matches(hits[0], v.records[p0], q));
    assert(dist_of(v.records[p0], q) == 0);
    assert(v.records[p0].emb.len() == v.dim);
    lemma_zero_distance_is_equality(v.records[p0].emb, q);
    assert(p0 == j);
}

/// The store: an open connection to its backing database, its dimension,
/// and the in-memory model of its records.
pub struct DB {
    conn: rusqlite::Connection,
    dim: usize,
    records: Vec<Record>,
}

impl View for DB {
    type V = DbV;

    closed spec fn view(&self) -> DbV {
        DbV {
            dim: self.dim as int,
            records: Seq::new(self.records@.len(), |i: int| self.records@[i]@),
        }
    }
}

/// Schema of the backing database: symbol metadata and vectors pair up by
/// a shared id, and `meta` pins the embedding dimension.
fn schema_sql() -> (r: String)
    ensures
        r@
            == "CREATE TABLE IF NOT EXISTS meta(dim INTEGER NOT NULL);\nCREATE TABLE IF NOT EXISTS symbols(id INTEGER PRIMARY KEY, path TEXT NOT NULL, line INTEGER NOT NULL, kind TEXT NOT NULL, name TEXT NOT NULL, code TEXT NOT NULL);\nCREATE TABLE IF NOT EXISTS vectors(id INTEGER PRIMARY KEY, embedding BLOB NOT NULL);"@,
{
    String::from_str(
        "CREATE TABLE IF NOT EXISTS meta(dim INTEGER NOT NULL);\nCREATE TABLE IF NOT EXISTS symbols(id INTEGER PRIMARY KEY, path TEXT NOT NULL, line INTEGER NOT NULL, kind TEXT NOT NULL, name TEXT NOT NULL, code TEXT NOT NULL);\nCREATE TABLE IF NOT EXISTS vectors(id INTEGER PRIMARY KEY, embedding BLOB NOT NULL);",
    )
}

/// The backing file of a repository's index, under the repository root.
fn index_path(repo_root: &str) -> (r: String)
    ensures
        r@ == repo_root@ + "/.cearch/index.sqlite"@,
{
    let mut s = repo_root.to_owned();
    s.append("/.cearch/index.sqlite");
    s
}

/// The label under which a symbol kind is persisted.
fn kind_label(kind: SymbolKind) -> (r: &'static str)
    ensures
        kind == SymbolKind::Function ==> r@ == "fn"@,
        kind == SymbolKind::Class ==> r@ == "class"@,
{
    match kind {
        SymbolKind::Function => "fn",
        SymbolKind::Class => "class",
    }
}

/// Parses a persisted kind label back; `None` for an unknown label.
fn parse_kind(label: &str) -> (r: Option<SymbolKind>)
    ensures
        r matches Some(k) ==> ((k == SymbolKind::Function && label@ == "fn"@) || (
        k == SymbolKind::Class && label@ == "class"@)),
        r is None ==> (label@ != "fn"@ && label@ != "class"@),
{
    let lc = str_to_chars(label);
    let f = str_to_chars("fn");
    if chars_eq(&lc, &f) {
        return Some(SymbolKind::Function);
    }
    let c = str_to_chars("class");
    if chars_eq(&lc, &c) {
        return Some(SymbolKind::Class);
    }
    None
}

/// One raw row decodes: a positive line that fits the platform, a known
/// kind label, and a well-formed blob for the dimension.
pub open spec fn row_ok(row: (String, i64, String, String, String, Vec<u8>), dim: int) -> bool {
    &&& 1 <= row.1 as int <= usize::MAX as int
    &&& (row.2@ == "fn"@ || row.2@ == "class"@)
    &&& blob_ok(row.5@, dim)
}

/// The record a raw row stands for.
pub open spec fn row_record(row: (String, i64, String, String, String, Vec<u8>), dim: int) -> RecordV {
    RecordV {
        symbol: SymbolV {
            path: row.0@,
            line: row.1 as int,
            kind: if row.2@ == "fn"@ {
                SymbolKind::Function
            } else {
                SymbolKind::Class
            },
            name: row.3@,
            code: row.4@,
        },
        emb: blob_decoded(row.5@, dim),
    }
}

/// Turns the raw rows read from the backing database into records: one
/// record per row, field for field, exactly when every row decodes; any
/// damaged row makes the whole index unusable.
fn decode_rows(rows: &Vec<(String, i64, String, String, String, Vec<u8>)>, dim: usize) -> (r:
    Result<Vec<Record>, StoreError>)
    requires
        1 <= dim <= DIM_LIMIT,
    ensures
        r is Ok <==> (forall|i: int|
            0 <= i < rows@.len() ==> row_ok(#[trigger] rows@[i], dim as int)),
        r matches Ok(records) ==> (records@.len() == rows@.len() && forall|i: int|
            0 <= i < rows@.len() ==> (#[trigger] records@[i])@ == row_record(rows@[i], dim as int)),
        r matches Err(e) ==> e is SchemaMismatch,
        r matches Ok(records) ==> forall|i: int|
            0 <= i < records@.len() ==> ((#[trigger] records@[i]@.emb).len() == dim as int
                && embedding_ok(records@[i]@.emb)),
{
    proof {
        reveal_strlit("fn");
        reveal_strlit("class");
        assert("fn"@.len() == 2 && "class"@.len() == 5);
    }
    let mut records: Vec<Record> = Vec::new();
    let n = rows.len();
    let mut i: usize = 0;
    while i < n
        invariant
            0 <= i <= n,
            n == rows@.len(),
            1 <= dim <= DIM_LIMIT,
            records@.len() == i,
            "fn"@.len() == 2 && "class"@.len() == 5,
            forall|t: int| 0 <= t < i ==> row_ok(#[trigger] rows@[t], dim as int),
            forall|t: int|
                0 <= t < i ==> (#[trigger] records@[t])@ == row_record(rows@[t], dim as int),
            forall|t: int|
                0 <= t < records@.len() ==> ((#[trigger] records@[t]@.emb).len() == dim as int
                    && embedding_ok(records@[t]@.emb)),
        decreases n - i,
    {
        let row = &rows[i];
        let line = row.1;
        if line < 1 {
            proof {
                assert(!row_ok(rows@[i as int], dim as int));
            }
            return Err(StoreError::SchemaMismatch);
        }
        if line as u64 > usize::MAX as u64 {
            proof {
                assert(!row_ok(rows@[i as int], dim as int));
            }
            return Err(StoreError::SchemaMismatch);
        }
        let kind = match parse_kind(row.2.as_str()) {
            None => {
                proof {
                    assert(!row_ok(rows@[i as int], dim as int));
                }
                return Err(StoreError::SchemaMismatch);
            },
            Some(k) => k,
        };
        let emb = match blob_to_embedding(row.5.as_slice(), dim) {
            None => {
                proof {
                    assert(!row_ok(rows@[i as int], dim as int));
                }
                return Err(StoreError::SchemaMismatch);
            },
            Some(v) => v,
        };
        let symbol = Symbol {
            path: row.0.clone(),
            line: line as usize,
            kind,
            name: row.3.clone(),
            code: row.4.clone(),
        };
        let rec = Record { symbol, emb };
        proof {
            assert(row_ok(rows@[i as int], dim as int));
            assert(rec@ == row_record(rows@[i as int], dim as int));
        }
        records.push(rec);
        i = i + 1;
    }
    Ok(records)
}

impl DB {
    /// The store is well-formed.
    pub open spec fn wf(&self) -> bool {
        db_wf(self@)
    }

    /// How many records the store holds.
    pub fn len(&self) -> (r: usize)
        ensures
            r == self@.records.len(),
    {
        self.records.len()
    }

    /// The store's configured dimension.
    pub fn dimension(&self) -> (r: usize)
        ensures
            r == self@.dim,
    {
        self.dim
    }

    /// Creates (or reopens) the index backed by the database file at
    /// `db_path`, with the vector dimension fixed to `dim`.  Reopening an
    /// index that was created with another dimension fails rather than
    /// changing it.  The file's parent directory must already exist.
    pub fn open_with_dim_at(db_path: &str, dim: usize) -> (r: Result<DB, StoreError>)
        ensures
            (dim == 0 || dim > DIM_LIMIT) <==> (r matches Err(e) && e is BadDimension),
            r matches Ok(db) ==> db.wf() && db@.dim == dim as int,
    {
        if dim == 0 || dim > DIM_LIMIT {
            return Err(StoreError::BadDimension);
        }
        let conn = match sql_open(db_path) {
            Err(m) => {
                return Err(StoreError::Backend(m));
            },
            Ok(c) => c,
        };
        let ddl = schema_sql();
        match sql_exec_batch(&conn, ddl.as_str()) {
            Err(m) => {
                return Err(StoreError::Backend(m));
            },
            Ok(_) => {},
        }
        match sql_get_dim(&conn) {
            Err(m) => {
                return Err(StoreError::Backend(m));
            },
            Ok(None) => {
                match sql_set_dim(&conn, dim as i64) {
                    Err(m) => {
                        return Err(StoreError::Backend(m));
                    },
                    Ok(_) => {},
                }
            },
            Ok(Some(d)) => {
                if d != dim as i64 {
                    return Err(StoreError::SchemaMismatch);
                }
            },
        }
        let rows = match sql_select_all(&conn) {
            Err(m) => {
                return Err(StoreError::Backend(m));
            },
            Ok(rows) => rows,
        };
        let records = match decode_rows(&rows, dim) {
            Err(e) => {
                return Err(e);
            },
            Ok(records) => records,
        };
        Ok(DB { conn, dim, records })
    }

    /// Creates (or reopens) the index of the repository rooted at
    /// `repo_root`, with the vector dimension fixed to `dim`.  The
    /// repository's index directory must already exist.
    pub fn open_with_dim(repo_root: &str, dim: usize) -> (r: Result<DB, StoreError>)
        ensures
            (dim == 0 || dim > DIM_LIMIT) <==> (r matches Err(e) && e is BadDimension),
            r matches Ok(db) ==> db.wf() && db@.dim == dim as int,
    {
        let p = index_path(repo_root);
        DB::open_with_dim_at(p.as_str(), dim)
    }

    /// Opens the existing index backed by the database file at `db_path`
    /// for reading; fails with `NotFound` when no such file exists.
    pub fn open_read_at(db_path: &str) -> (r: Result<DB, StoreError>)
        ensures
            r matches Ok(db) ==> db.wf(),
    {
        if !fs_is_file(db_path) {
            return Err(StoreError::NotFound);
        }
        let conn = match sql_open(db_path) {
            Err(m) => {
                return Err(StoreError::Backend(m));
            },
            Ok(c) => c,
        };
        let dim_raw = match sql_get_dim(&conn) {
            Err(m) => {
                return Err(StoreError::Backend(m));
            },
            Ok(None) => {
                return Err(StoreError::SchemaMismatch);
            },
            Ok(Some(d)) => d,
        };
        if dim_raw < 1 || dim_raw > DIM_LIMIT as i64 {
            return Err(StoreError::SchemaMismatch);
        }
        let dim = dim_raw as usize;
        let rows = match sql_select_all(&conn) {
            Err(m) => {
                return Err(StoreError::Backend(m));
            },
            Ok(rows) => rows,
        };
        let records = match decode_rows(&rows, dim) {
            Err(e) => {
                return Err(e);
            },
            Ok(records) => records,
        };
        Ok(DB { conn, dim, records })
    }

    /// Opens the existing index of the repository rooted at `repo_root`
    /// for reading; fails with `NotFound` when no index exists there.
    pub fn open_read(repo_root: &str) -> (r: Result<DB, StoreError>)
        ensures
            r matches Ok(db) ==> db.wf(),
    {
        let p = index_path(repo_root);
        DB::open_read_at(p.as_str())
    }

    /// Inserts one symbol with its embedding: the metadata row and the
    /// vector row are persisted together under one id, and the in-memory
    /// model gains the record exactly when the call succeeds.  An embedding
    /// of the wrong length, or with a component out of range, is rejected
    /// without changing anything.  Insertion always appends: re-indexing a
    /// symbol without a prior clean leaves two records.
    pub fn insert_symbol(&mut self, symbol: &Symbol, embedding: &Vec<i64>) -> (r: Result<
        (),
        StoreError,
    >)
        requires
            old(self).wf(),
        ensures
            final(self).wf(),
            final(self)@.dim == old(self)@.dim,
            embedding@.len() != old(self)@.dim ==> (r matches Err(e) && e is DimensionMismatch),
            (embedding@.len() == old(self)@.dim && !embedding_ok(embedding@)) ==> (r matches Err(e)
                && e is ComponentOutOfRange),
            symbol@.line > i64::MAX as int ==> r is Err,
            r matches Err(e) ==> ((e is DimensionMismatch ==> embedding@.len() != old(self)@.dim)
                && (e is ComponentOutOfRange ==> (embedding@.len() == old(self)@.dim
                && !embedding_ok(embedding@)))),
            r is Err ==> final(self)@ == old(self)@,
            r is Ok ==> embedding@.len() == old(self)@.dim && embedding_ok(embedding@)
                && final(self)@.records == old(self)@.records.push(
                RecordV { symbol: symbol@, emb: embedding@ },
            ),
    {
        if embedding.len() != self.dim {
            return Err(StoreError::DimensionMismatch);
        }
        if !check_embedding(embedding) {
            return Err(StoreError::ComponentOutOfRange);
        }
        if symbol.line as u64 > i64::MAX as u64 {
            return Err(StoreError::Backend(String::from_str("line number too large")));
        }
        let blob = embedding_to_blob(embedding);
        let label = kind_label(symbol.kind);
        match sql_insert_record(
            &self.conn,
            symbol.path.as_str(),
            symbol.line as i64,
            label,
            symbol.name.as_str(),
            symbol.code.as_str(),
            blob.as_slice(),
        ) {
            Err(m) => Err(StoreError::Backend(m)),
            Ok(_) => {
                let rec = Record { symbol: symbol.duplicate(), emb: clone_embedding(embedding) };
                proof {
                    assert(rec@ == (RecordV { symbol: symbol@, emb: embedding@ }));
                }
                self.records.push(rec);
                proof {
                    assert(self@.records =~= old(self)@.records.push(
                        RecordV { symbol: symbol@, emb: embedding@ },
                    ));
                }
                Ok(())
            },
        }
    }

    /// Returns up to `k` stored symbols nearest to the query vector, in
    /// non-decreasing order of squared Euclidean distance.  With fewer than
    /// `k` records, all of them are returned; `k == 0` yields an empty
    /// answer.  Fails exactly when the query vector does not fit the
    /// store's dimension or holds an out-of-range component.
    #[verifier::loop_isolation(false)]
    pub fn knn(&self, q: &Vec<i64>, k: usize) -> (r: Result<Vec<QueryHit>, StoreError>)
        requires
            self.wf(),
        ensures
            r is Ok <==> (q@.len() == self@.dim && embedding_ok(q@)),
            r matches Err(e) ==> ((e is DimensionMismatch && q@.len() != self@.dim) || (
            e is ComponentOutOfRange && q@.len() == self@.dim && !embedding_ok(q@))),
            r matches Ok(hits) ==> knn_ok(hits_view(hits@), self@, q@, k as int),
    {
        if q.len() != self.dim {
            return Err(StoreError::DimensionMismatch);
        }
        if !check_embedding(q) {
            return Err(StoreError::ComponentOutOfRange);
        }
        let n = self.records.len();
        let mut sorted: Vec<(u64, usize)> = Vec::new();
        let mut i: usize = 0;
        while i < n
            invariant
                0 <= i <= n,
                sorted@.len() == i,
                forall|t: int| 0 <= t < i ==> (#[trigger] sorted@[t]).1 < i,
                forall|a: int, b: int| 0 <= a < b < i ==> sorted@[a].1 != sorted@[b].1,
                forall|t: int|
                    0 <= t < i ==> (#[trigger] sorted@[t]).0 as int == dist_of(
                        self@.records[sorted@[t].1 as int],
                        q@,
                    ),
                forall|a: int, b: int| 0 <= a <= b < i ==> sorted@[a].0 <= sorted@[b].0,
                forall|a: int, b: int|
                    0 <= a < b < i && sorted@[a].0 == sorted@[b].0 ==> sorted@[a].1 < sorted@[b].1,
                i > 0 ==> forall|j: int|
                    0 <= j < i ==> sorted@[0].0 as int <= dist_of(#[trigger] self@.records[j], q@),
            decreases n - i,
        {
            proof {
                assert(self@.records[i as int] == self.records@[i as int]@);
                assert(self@.records[i as int].emb.len() == self@.dim);
            }
            let d = distance_sq(&self.records[i].emb, q);
            let mut p: usize = 0;
            while p < sorted.len() && sorted[p].0 <= d
                invariant
                    0 <= p <= sorted@.len(),
                    forall|t: int| 0 <= t < p ==> (#[trigger] sorted@[t]).0 <= d,
                decreases sorted@.len() - p,
            {
                p = p + 1;
            }
            let ghost old_sorted = sorted@;
            sorted.insert(p, (d, i));
            proof {
                old_sorted.insert_ensures(p as int, (d, i));
                assert forall|a: int, b: int| 0 <= a <= b < i + 1 implies sorted@[a].0
                    <= sorted@[b].0 by {
                    if b < p {
                    } else if a > p {
                    } else if a == p && b == p {
                    } else if a < p && b == p {
                        assert(old_sorted[a].0 <= d);
                    } else if a == p && b > p {
                        assert(old_sorted[b - 1].0 > d);
                    } else {
                    }
                }
                assert forall|a: int, b: int|
                    0 <= a < b < i + 1 && sorted@[a].0 == sorted@[b].0 implies sorted@[a].1
                    < sorted@[b].1 by {
                    if b < p {
                    } else if a > p {
                        assert(sorted@[a] == old_sorted[a - 1] && sorted@[b] == old_sorted[b - 1]);
                    } else if a == p && b == p {
                    } else if a < p && b == p {
                        assert(sorted@[a] == old_sorted[a]);
                        assert(old_sorted[a].1 < i);
                    } else if a == p && b > p {
                        assert(sorted@[b] == old_sorted[b - 1]);
                        assert(old_sorted[b - 1].0 > d);
                    } else {
                        assert(sorted@[a] == old_sorted[a] && sorted@[b] == old_sorted[b - 1]);
                        assert(old_sorted[a].0 <= d);
                        assert(old_sorted[b - 1].0 > d);
                    }
                }
                assert forall|j: int| 0 <= j < i + 1 implies sorted@[0].0 as int <= dist_of(
                    #[trigger] self@.records[j],
                    q@,
                ) by {
                    if p == 0 {
                        if j < i {
                            if old_sorted.len() > 0 {
                                assert(old_sorted[0].0 as int <= dist_of(self@.records[j], q@));
                                assert(sorted@[1] == old_sorted[0]);
                            }
                        }
                    } else {
                        assert(sorted@[0] == old_sorted[0]);
                        if j == i {
                            assert(old_sorted[0].0 <= d);
                        }
                    }
                }
            }
            i = i + 1;
        }
        let m = if k < n {
            k
        } else {
            n
        };
        let mut hits: Vec<QueryHit> = Vec::new();
        let mut h: usize = 0;
        while h < m
            invariant
                0 <= h <= m,
                hits@.len() == h,
                forall|t: int|
                    0 <= t < h ==> hit_matches(
                        #[trigger] hits@[t]@,
                        self@.records[sorted@[t].1 as int],
                        q@,
                    ),
            decreases m - h,
        {
            let pair = sorted[h];
            let ri = pair.1;
            let rec = &self.records[ri];
            let hit = QueryHit {
                path: rec.symbol.path.clone(),
                line: rec.symbol.line,
                name: rec.symbol.name.clone(),
                dist: pair.0,
            };
            hits.push(hit);
            h = h + 1;
        }
        proof {
            let ghost perm = Seq::new(n as nat, |t: int| sorted@[t].1 as int);
            assert(sorted_arrangement(perm, self@.records, q@));
            assert forall|t: int| 0 <= t < hits@.len() implies hit_matches(
                #[trigger] hits_view(hits@)[t],
                self@.records[perm[t]],
                q@,
            ) by {
                assert(hits_view(hits@)[t] == hits@[t]@);
            }
            assert(hits_from_arrangement(perm, hits_view(hits@), self@.records, q@));
            if m > 0 {
                assert(hits_view(hits@)[0].dist == sorted@[0].0 as int);
                if exists|j: int| 0 <= j < n && (#[trigger] self@.records[j]).emb == q@ {
                    let j = choose|j: int| 0 <= j < n && (#[trigger] self@.records[j]).emb == q@;
                    lemma_distance_self(q@);
                    assert(dist_of(self@.records[j], q@) == 0);
                    lemma_distance_nonneg(self@.records[sorted@[0].1 as int].emb, q@);
                }
            }
        }
        Ok(hits)
    }
}

} // verus!
