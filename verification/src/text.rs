//! Character-level text utilities, and the trusted conversions between
//! strings, character vectors and raw bytes that the rest of the library
//! builds on.
use vstd::prelude::*;

verus! {

/// Relies on str::chars and its collection into a vector: the characters of
/// a string slice, in order.
#[verifier::external_body]
pub(crate) fn str_to_chars(s: &str) -> (r: Vec<char>)
    ensures
        r@ == s@,
{
    s.chars().collect()
}

/// Relies on String's FromIterator over characters: the string holding
/// exactly the given characters, in order.
#[verifier::external_body]
pub(crate) fn chars_to_string(v: &Vec<char>) -> (r: String)
    ensures
        r@ == v@,
{
    v.iter().collect()
}

/// The characters that lossy UTF-8 decoding yields for a byte string.  The
/// result is a function of the bytes alone.
pub uninterp spec fn utf8_lossy(b: Seq<u8>) -> Seq<char>;

/// Relies on String::from_utf8_lossy: decodes the bytes as UTF-8, replacing
/// ill-formed sequences with the replacement character; empty input decodes
/// to the empty string.
#[verifier::external_body]
pub(crate) fn bytes_to_string_lossy(b: &[u8]) -> (r: String)
    ensures
        r@ == utf8_lossy(b@),
        b@.len() == 0 ==> r@.len() == 0,
{
    String::from_utf8_lossy(b).into_owned()
}

/// Compares two character vectors for equality.
pub fn chars_eq(a: &Vec<char>, b: &Vec<char>) -> (r: bool)
    ensures
        r <==> a@ == b@,
{
    if a.len() != b.len() {
        return false;
    }
    let n = a.len();
    let mut i: usize = 0;
    while i < n
        invariant
            0 <= i <= n,
            n == a@.len() == b@.len(),
            forall|j: int| 0 <= j < i ==> a@[j] == b@[j],
        decreases n - i,
    {
        if a[i] != b[i] {
            return false;
        }
        i = i + 1;
    }
    proof {
        assert(a@ =~= b@);
    }
    true
}

/// Index of the last occurrence of `c` in `s`, or `-1` when `c` does not
/// occur.
pub open spec fn last_index_of(s: Seq<char>, c: char) -> int
    decreases s.len(),
{
    if s.len() == 0 {
        -1
    } else if s[s.len() - 1] == c {
        s.len() - 1
    } else {
        last_index_of(s.drop_last(), c)
    }
}

proof fn lemma_last_index_of_found(s: Seq<char>, c: char, i: int)
    requires
        0 <= i < s.len(),
        s[i] == c,
        forall|j: int| i < j < s.len() ==> s[j] != c,
    ensures
        last_index_of(s, c) == i,
    decreases s.len(),
{
    if i == s.len() - 1 {
    } else {
        lemma_last_index_of_found(s.drop_last(), c, i);
    }
}

proof fn lemma_last_index_of_absent(s: Seq<char>, c: char)
    requires
        forall|j: int| 0 <= j < s.len() ==> s[j] != c,
    ensures
        last_index_of(s, c) == -1,
    decreases s.len(),
{
    if s.len() > 0 {
        lemma_last_index_of_absent(s.drop_last(), c);
    }
}

/// Finds the index of the last occurrence of `c`, scanning from the end.
pub fn rfind_char(v: &Vec<char>, c: char) -> (r: Option<usize>)
    ensures
        r matches Some(i) ==> i == last_index_of(v@, c) && i < v@.len() && v@[i as int] == c,
        r is None ==> last_index_of(v@, c) == -1,
{
    let mut i: usize = v.len();
    while i > 0
        invariant
            0 <= i <= v@.len(),
            forall|j: int| i <= j < v@.len() ==> v@[j] != c,
        decreases i,
    {
        i = i - 1;
        if v[i] == c {
            proof {
                lemma_last_index_of_found(v@, c, i as int);
            }
            return Some(i);
        }
    }
    proof {
        lemma_last_index_of_absent(v@, c);
    }
    None
}

/// A blank character for the purpose of trimming: space, tab or carriage
/// return.  This is narrower than full Unicode whitespace: a line padded
/// with a rarer blank (a form feed, a non-breaking space) does not count
/// as trimmed-equal here.
pub open spec fn is_blank(c: char) -> bool {
    c == ' ' || c == '\t' || c == '\r'
}

/// The text with leading blanks removed.
pub open spec fn trim_front(s: Seq<char>) -> Seq<char>
    decreases s.len(),
{
    if s.len() > 0 && is_blank(s[0]) {
        trim_front(s.drop_first())
    } else {
        s
    }
}

/// The text with trailing blanks removed.
pub open spec fn trim_back(s: Seq<char>) -> Seq<char>
    decreases s.len(),
{
    if s.len() > 0 && is_blank(s[s.len() - 1]) {
        trim_back(s.drop_last())
    } else {
        s
    }
}

/// The text with blanks removed from both ends.
pub open spec fn trimmed(s: Seq<char>) -> Seq<char> {
    trim_back(trim_front(s))
}

proof fn lemma_trim_front_at(s: Seq<char>, a: int)
    requires
        0 <= a <= s.len(),
        forall|t: int| 0 <= t < a ==> is_blank(s[t]),
        a < s.len() ==> !is_blank(s[a]),
    ensures
        trim_front(s) == s.subrange(a, s.len() as int),
    decreases a,
{
    if a == 0 {
        assert(s =~= s.subrange(0, s.len() as int));
    } else {
        lemma_trim_front_at(s.drop_first(), a - 1);
        assert(s.drop_first().subrange(a - 1, s.drop_first().len() as int) =~= s.subrange(
            a,
            s.len() as int,
        ));
    }
}

proof fn lemma_trim_back_at(s: Seq<char>, b: int)
    requires
        0 <= b <= s.len(),
        forall|t: int| b <= t < s.len() ==> is_blank(s[t]),
        b > 0 ==> !is_blank(s[b - 1]),
    ensures
        trim_back(s) == s.subrange(0, b),
    decreases s.len(),
{
    if b == s.len() {
        if s.len() == 0 || !is_blank(s[s.len() - 1]) {
            assert(s =~= s.subrange(0, s.len() as int));
        }
    } else {
        assert(is_blank(s[s.len() - 1]));
        lemma_trim_back_at(s.drop_last(), b);
        assert(s.drop_last().subrange(0, b) =~= s.subrange(0, b));
    }
}

/// Whether a character counts as a blank for trimming.
fn is_blank_char(c: char) -> (r: bool)
    ensures
        r <==> is_blank(c),
{
    c == ' ' || c == '\t' || c == '\r'
}

/// Removes blanks from both ends of the characters.
pub fn trim_chars(v: &Vec<char>) -> (r: Vec<char>)
    ensures
        r@ == trimmed(v@),
{
    let n = v.len();
    let mut a: usize = 0;
    while a < n && is_blank_char(v[a])
        invariant
            0 <= a <= n,
            n == v@.len(),
            forall|t: int| 0 <= t < a ==> is_blank(v@[t]),
        decreases n - a,
    {
        a = a + 1;
    }
    proof {
        lemma_trim_front_at(v@, a as int);
    }
    let mut b: usize = n;
    while b > a && is_blank_char(v[b - 1])
        invariant
            a <= b <= n,
            n == v@.len(),
            forall|t: int| b <= t < n ==> is_blank(v@[t]),
        decreases b,
    {
        b = b - 1;
    }
    proof {
        let tf = v@.subrange(a as int, n as int);
        lemma_trim_back_at(tf, b - a as int);
        assert(tf.subrange(0, b - a as int) =~= v@.subrange(a as int, b as int));
    }
    chars_subrange(v, a, b)
}

/// Copies a character vector.
pub fn clone_chars(v: &Vec<char>) -> (r: Vec<char>)
    ensures
        r@ == v@,
{
    let n = v.len();
    let mut r: Vec<char> = Vec::new();
    let mut i: usize = 0;
    while i < n
        invariant
            0 <= i <= n,
            n == v@.len(),
            r@ == v@.subrange(0, i as int),
        decreases n - i,
    {
        r.push(v[i]);
        proof {
            assert(r@ =~= v@.subrange(0, i + 1 as int));
        }
        i = i + 1;
    }
    proof {
        assert(r@ =~= v@);
    }
    r
}

/// Appends all characters of `src` to `dst`.
pub fn append_chars(dst: &mut Vec<char>, src: &Vec<char>)
    ensures
        final(dst)@ == old(dst)@ + src@,
{
    let n = src.len();
    let mut i: usize = 0;
    while i < n
        invariant
            0 <= i <= n,
            n == src@.len(),
            dst@ == old(dst)@ + src@.subrange(0, i as int),
        decreases n - i,
    {
        dst.push(src[i]);
        proof {
            assert(dst@ =~= old(dst)@ + src@.subrange(0, i + 1 as int));
        }
        i = i + 1;
    }
    proof {
        assert(old(dst)@ + src@.subrange(0, n as int) =~= old(dst)@ + src@);
    }
}

/// Copies the characters of `v` between `from` and `to`.
pub fn chars_subrange(v: &Vec<char>, from: usize, to: usize) -> (r: Vec<char>)
    requires
        0 <= from <= to <= v@.len(),
    ensures
        r@ == v@.subrange(from as int, to as int),
{
    let mut r: Vec<char> = Vec::new();
    let mut i: usize = from;
    while i < to
        invariant
            from <= i <= to <= v@.len(),
            r@ == v@.subrange(from as int, i as int),
        decreases to - i,
    {
        r.push(v[i]);
        proof {
            assert(r@ =~= v@.subrange(from as int, i + 1 as int));
        }
        i = i + 1;
    }
    r
}

} // verus!
