//! Fixed-point embedding vectors and their squared Euclidean distance.
//!
//! An embedding is a fixed-length vector of fixed-point components.  Every
//! component is bounded by `COMPONENT_LIMIT` in magnitude, which makes the
//! squared distance between two vectors of up to `DIM_LIMIT` components fit
//! comfortably in a `u64`.  Producers scale and clamp model output into this
//! range before it enters the library.
use vstd::prelude::*;

verus! {

/// Largest magnitude an embedding component may have.
pub const COMPONENT_LIMIT: i64 = 0x10_0000;

/// Largest number of components a store will accept as its dimension.
pub const DIM_LIMIT: usize = 0x1_0000;

/// Upper bound for one squared difference of two bounded components:
/// `(2 * COMPONENT_LIMIT)^2`.
pub const TERM_LIMIT: u64 = 0x400_0000_0000;

/// One component is within the fixed-point range.
pub open spec fn component_ok(x: i64) -> bool {
    -(COMPONENT_LIMIT as int) <= x as int <= COMPONENT_LIMIT as int
}

/// Every component of the vector is within the fixed-point range.
pub open spec fn embedding_ok(v: Seq<i64>) -> bool {
    forall|i: int| 0 <= i < v.len() ==> component_ok(#[trigger] v[i])
}

/// Mathematical square.
pub open spec fn sq(x: int) -> int {
    x * x
}

/// Squared Euclidean distance over the first `n` components.
pub open spec fn sq_dist_to(a: Seq<i64>, b: Seq<i64>, n: int) -> int
    decreases n,
{
    if n <= 0 {
        0
    } else {
        sq_dist_to(a, b, n - 1) + sq(a[n - 1] - b[n - 1])
    }
}

/// Squared Euclidean distance between two vectors of equal length.
pub open spec fn sq_dist(a: Seq<i64>, b: Seq<i64>) -> int {
    sq_dist_to(a, b, a.len() as int)
}

pub proof fn lemma_sq_nonneg(x: int)
    ensures
        sq(x) >= 0,
{
    assert(x * x >= 0) by (nonlinear_arith);
}

pub proof fn lemma_sq_bounded(x: int)
    requires
        -(2 * COMPONENT_LIMIT as int) <= x <= 2 * COMPONENT_LIMIT as int,
    ensures
        sq(x) <= TERM_LIMIT as int,
{
    assert(x * x <= 0x400_0000_0000) by (nonlinear_arith)
        requires
            -0x20_0000 <= x <= 0x20_0000,
    ;
}

/// A squared distance is never negative.
pub proof fn lemma_sq_dist_nonneg(a: Seq<i64>, b: Seq<i64>, n: int)
    ensures
        sq_dist_to(a, b, n) >= 0,
    decreases n,
{
    if n > 0 {
        lemma_sq_dist_nonneg(a, b, n - 1);
        lemma_sq_nonneg(a[n - 1] - b[n - 1]);
    }
}

/// The distance from a vector to itself is zero.
pub proof fn lemma_sq_dist_self_zero(a: Seq<i64>, n: int)
    ensures
        sq_dist_to(a, a, n) == 0,
    decreases n,
{
    if n > 0 {
        lemma_sq_dist_self_zero(a, n - 1);
    }
}

/// Computes the squared Euclidean distance between two bounded vectors of
/// equal length.
pub fn distance_sq(a: &Vec<i64>, b: &Vec<i64>) -> (d: u64)
    requires
        a@.len() == b@.len(),
        a@.len() <= DIM_LIMIT as int,
        embedding_ok(a@),
        embedding_ok(b@),
    ensures
        d as int == sq_dist(a@, b@),
{
    let n = a.len();
    let mut acc: u64 = 0;
    let mut i: usize = 0;
    while i < n
        invariant
            0 <= i <= n,
            n == a@.len() == b@.len(),
            n <= DIM_LIMIT as int,
            embedding_ok(a@),
            embedding_ok(b@),
            acc as int == sq_dist_to(a@, b@, i as int),
            acc as int <= i as int * TERM_LIMIT as int,
        decreases n - i,
    {
        assert(component_ok(a@[i as int]) && component_ok(b@[i as int]));
        let diff: i64 = a[i] - b[i];
        proof {
            lemma_sq_bounded(diff as int);
            lemma_sq_nonneg(diff as int);
        }
        assert(diff as int * diff as int <= TERM_LIMIT as int && diff as int * diff as int >= 0)
            by (nonlinear_arith)
            requires
                -(2 * COMPONENT_LIMIT as int) <= diff as int <= 2 * COMPONENT_LIMIT as int,
        ;
        let term: i64 = diff * diff;
        acc = acc + (term as u64);
        i = i + 1;
    }
    acc
}

/// A vector is at distance zero from itself.
pub proof fn lemma_distance_self(a: Seq<i64>)
    ensures
        sq_dist(a, a) == 0,
{
    lemma_sq_dist_self_zero(a, a.len() as int);
}

/// A distance is never negative.
pub proof fn lemma_distance_nonneg(a: Seq<i64>, b: Seq<i64>)
    ensures
        sq_dist(a, b) >= 0,
{
    lemma_sq_dist_nonneg(a, b, a.len() as int);
}

proof fn lemma_sq_dist_to_zero_prefix_eq(a: Seq<i64>, b: Seq<i64>, n: int)
    requires
        n <= a.len(),
        n <= b.len(),
        sq_dist_to(a, b, n) == 0,
    ensures
        forall|i: int| 0 <= i < n ==> a[i] == b[i],
    decreases n,
{
    if n > 0 {
        lemma_sq_dist_nonneg(a, b, n - 1);
        lemma_sq_nonneg(a[n - 1] - b[n - 1]);
        assert(sq(a[n - 1] - b[n - 1]) == 0);
        assert((a[n - 1] - b[n - 1]) * (a[n - 1] - b[n - 1]) == 0 ==> a[n - 1] - b[n - 1] == 0)
            by (nonlinear_arith);
        lemma_sq_dist_to_zero_prefix_eq(a, b, n - 1);
    }
}

/// Two equal-length vectors at squared distance zero are the same vector.
pub proof fn lemma_zero_distance_is_equality(a: Seq<i64>, b: Seq<i64>)
    requires
        a.len() == b.len(),
        sq_dist(a, b) == 0,
    ensures
        a == b,
{
    lemma_sq_dist_to_zero_prefix_eq(a, b, a.len() as int);
    assert(a =~= b);
}

/// Checks that every component is within the fixed-point range.
pub fn check_embedding(v: &Vec<i64>) -> (r: bool)
    ensures
        r <==> embedding_ok(v@),
{
    let n = v.len();
    let mut i: usize = 0;
    while i < n
        invariant
            0 <= i <= n,
            n == v@.len(),
            forall|j: int| 0 <= j < i ==> component_ok(#[trigger] v@[j]),
        decreases n - i,
    {
        let x = v[i];
        if x < -COMPONENT_LIMIT || x > COMPONENT_LIMIT {
            return false;
        }
        i = i + 1;
    }
    true
}

/// Copies a vector of components.
pub fn clone_embedding(v: &Vec<i64>) -> (r: Vec<i64>)
    ensures
        r@ == v@,
{
    let n = v.len();
    let mut r: Vec<i64> = Vec::new();
    let mut i: usize = 0;
    while i < n
        invariant
            0 <= i <= n,
            n == v@.len(),
            r@ == v@.subrange(0, i as int),
        decreases n - i,
    {
        r.push(v[i]);
        proof {
            assert(r@ =~= v@.subrange(0, i + 1 as int));
        }
        i = i + 1;
    }
    proof {
        assert(r@ =~= v@);
    }
    r
}

/// Largest value a biased component may have: `2 * COMPONENT_LIMIT`.
pub const BIASED_LIMIT: u64 = 0x20_0000;

/// A component shifted into the non-negative range for serialisation.
pub open spec fn biased(x: i64) -> u64 {
    (x as int + COMPONENT_LIMIT as int) as u64
}

/// Undoes `biased` on an in-range serialised value.
pub open spec fn unbiased(w: u64) -> i64 {
    (w as int - COMPONENT_LIMIT as int) as i64
}

/// The components a well-formed blob stands for: each eight-byte
/// little-endian chunk, unbiased.
pub open spec fn blob_decoded(b: Seq<u8>, dim: int) -> Seq<i64> {
    Seq::new(dim as nat, |i: int| unbiased(vstd::bytes::spec_u64_from_le_bytes(b.subrange(8 * i, 8 * i + 8))))
}

/// Serialised form of the first `n` components: eight little-endian bytes
/// per biased component.
pub open spec fn blob_of_to(v: Seq<i64>, n: int) -> Seq<u8>
    decreases n,
{
    if n <= 0 {
        Seq::empty()
    } else {
        blob_of_to(v, n - 1) + vstd::bytes::spec_u64_to_le_bytes(biased(v[n - 1]))
    }
}

/// Serialised form of a whole vector.
pub open spec fn blob_of(v: Seq<i64>) -> Seq<u8> {
    blob_of_to(v, v.len() as int)
}

/// The byte string is a well-formed serialisation of some `dim`-component
/// vector.
pub open spec fn blob_ok(b: Seq<u8>, dim: int) -> bool {
    &&& b.len() == 8 * dim
    &&& forall|i: int|
        0 <= i < dim ==> vstd::bytes::spec_u64_from_le_bytes(
            #[trigger] b.subrange(8 * i, 8 * i + 8),
        ) <= BIASED_LIMIT
}

proof fn lemma_blob_of_to_len(v: Seq<i64>, n: int)
    requires
        0 <= n,
    ensures
        blob_of_to(v, n).len() == 8 * n,
    decreases n,
{
    vstd::bytes::lemma_auto_spec_u64_to_from_le_bytes();
    if n > 0 {
        lemma_blob_of_to_len(v, n - 1);
    }
}

/// Shifts a bounded component into the non-negative serialisation range.
fn bias(x: i64) -> (r: u64)
    requires
        component_ok(x),
    ensures
        r == biased(x),
        r <= BIASED_LIMIT,
{
    (x + COMPONENT_LIMIT) as u64
}

/// Undoes `bias`.
fn unbias(w: u64) -> (r: i64)
    requires
        w <= BIASED_LIMIT,
    ensures
        component_ok(r),
        biased(r) == w,
{
    (w as i64) - COMPONENT_LIMIT
}

/// Serialises a bounded vector as eight little-endian bytes per biased
/// component.
pub fn embedding_to_blob(v: &Vec<i64>) -> (b: Vec<u8>)
    requires
        embedding_ok(v@),
        v@.len() <= DIM_LIMIT as int,
    ensures
        b@ == blob_of(v@),
        b@.len() == 8 * v@.len(),
{
    let n = v.len();
    let mut b: Vec<u8> = Vec::new();
    let mut i: usize = 0;
    proof {
        lemma_blob_of_to_len(v@, n as int);
    }
    while i < n
        invariant
            0 <= i <= n,
            n == v@.len(),
            n <= DIM_LIMIT as int,
            embedding_ok(v@),
            b@ == blob_of_to(v@, i as int),
            b@.len() == 8 * i,
        decreases n - i,
    {
        proof {
            lemma_blob_of_to_len(v@, i as int);
            vstd::bytes::lemma_auto_spec_u64_to_from_le_bytes();
        }
        let w = bias(v[i]);
        let mut chunk = vstd::bytes::u64_to_le_bytes(w);
        b.append(&mut chunk);
        i = i + 1;
    }
    b
}

/// Parses a serialised vector back into its components.  Returns `None`
/// exactly when the bytes are not a well-formed `dim`-component blob.
pub fn blob_to_embedding(b: &[u8], dim: usize) -> (r: Option<Vec<i64>>)
    requires
        dim <= DIM_LIMIT,
    ensures
        r is Some <==> blob_ok(b@, dim as int),
        r matches Some(v) ==> {
            &&& v@.len() == dim
            &&& embedding_ok(v@)
            &&& v@ == blob_decoded(b@, dim as int)
            &&& forall|i: int|
                0 <= i < dim ==> biased(v@[i]) == vstd::bytes::spec_u64_from_le_bytes(
                    #[trigger] b@.subrange(8 * i, 8 * i + 8),
                )
        },
{
    if b.len() != 8 * dim {
        return None;
    }
    let mut out: Vec<i64> = Vec::new();
    let mut i: usize = 0;
    while i < dim
        invariant
            0 <= i <= dim,
            dim <= DIM_LIMIT,
            b@.len() == 8 * dim,
            out@.len() == i,
            embedding_ok(out@),
            forall|j: int|
                0 <= j < i ==> vstd::bytes::spec_u64_from_le_bytes(
                    #[trigger] b@.subrange(8 * j, 8 * j + 8),
                ) <= BIASED_LIMIT,
            forall|j: int|
                0 <= j < i ==> biased(out@[j]) == vstd::bytes::spec_u64_from_le_bytes(
                    #[trigger] b@.subrange(8 * j, 8 * j + 8),
                ),
        decreases dim - i,
    {
        let chunk = vstd::slice::slice_subrange(b, 8 * i, 8 * i + 8);
        let w = vstd::bytes::u64_from_le_bytes(chunk);
        if w > BIASED_LIMIT {
            return None;
        }
        out.push(unbias(w));
        i = i + 1;
    }
    proof {
        assert(out@ =~= blob_decoded(b@, dim as int));
    }
    Some(out)
}

} // verus!
