//! Text helpers: code-point order on names, exact comparison, and building
//! strings one character at a time.
use vstd::prelude::*;

verus! {

/// Lexicographic order by code point, looking from position `i` on; the
/// positions before `i` are taken to be equal.
pub open spec fn lt_from(a: Seq<char>, b: Seq<char>, i: int) -> bool
    decreases a.len() - i,
{
    if i >= a.len() {
        i < b.len()
    } else if i >= b.len() {
        false
    } else if a[i] != b[i] {
        a[i] < b[i]
    } else {
        lt_from(a, b, i + 1)
    }
}

/// Strict lexicographic order by code point; for UTF-8 text this is the
/// order of `String` in Rust.
pub open spec fn text_lt(a: Seq<char>, b: Seq<char>) -> bool {
    lt_from(a, b, 0)
}

/// A sequence of names in strictly ascending order (hence without repeats).
pub open spec fn strictly_ascending_text(s: Seq<Seq<char>>) -> bool {
    forall|i: int, j: int| 0 <= i < j < s.len() ==> text_lt(#[trigger] s[i], #[trigger] s[j])
}

pub open spec fn views_of(v: Seq<String>) -> Seq<Seq<char>> {
    v.map_values(|s: String| s@)
}

/// Some element of `v` reads `t`.
pub open spec fn holds_text(v: Seq<String>, t: Seq<char>) -> bool {
    exists|k: int| 0 <= k < v.len() && #[trigger] v[k]@ == t
}

pub proof fn lemma_lt_from_transitive(a: Seq<char>, b: Seq<char>, c: Seq<char>, i: int)
    requires
        0 <= i,
        lt_from(a, b, i),
        lt_from(b, c, i),
    ensures
        lt_from(a, c, i),
    decreases a.len() - i,
{
    if i < a.len() && i < b.len() && i < c.len() && a[i] == b[i] && b[i] == c[i] {
        lemma_lt_from_transitive(a, b, c, i + 1);
    }
}

pub proof fn lemma_lt_from_total(a: Seq<char>, b: Seq<char>, i: int)
    requires
        0 <= i <= a.len(),
        i <= b.len(),
        forall|j: int| 0 <= j < i ==> a[j] == b[j],
    ensures
        lt_from(a, b, i) || lt_from(b, a, i) || a == b,
        !(lt_from(a, b, i) && lt_from(b, a, i)),
        a == b ==> !lt_from(a, b, i),
    decreases a.len() - i,
{
    if i < a.len() && i < b.len() && a[i] == b[i] {
        lemma_lt_from_total(a, b, i + 1);
    } else if i == a.len() && i == b.len() {
        assert(a =~= b);
    }
}

pub proof fn lemma_text_lt_transitive(a: Seq<char>, b: Seq<char>, c: Seq<char>)
    requires
        text_lt(a, b),
        text_lt(b, c),
    ensures
        text_lt(a, c),
{
    lemma_lt_from_transitive(a, b, c, 0);
}

pub proof fn lemma_text_lt_total(a: Seq<char>, b: Seq<char>)
    ensures
        text_lt(a, b) || text_lt(b, a) || a == b,
        !(text_lt(a, b) && text_lt(b, a)),
        !text_lt(a, a),
{
    lemma_lt_from_total(a, b, 0);
    lemma_lt_from_total(a, a, 0);
}

/// Three-way comparison of two texts by code point: negative, zero or
/// positive as `a` sorts before, equal to, or after `b`.
pub fn compare_text(a: &str, b: &str) -> (r: i8)
    ensures
        r < 0 <==> text_lt(a@, b@),
        r == 0 <==> a@ == b@,
        r > 0 <==> text_lt(b@, a@),
{
    proof {
        lemma_text_lt_total(a@, b@);
    }
    let la: usize = a.unicode_len();
    let lb: usize = b.unicode_len();
    let mut i: usize = 0;
    while i < la && i < lb
        invariant
            la == a@.len(),
            lb == b@.len(),
            i <= la,
            i <= lb,
            forall|j: int| 0 <= j < i ==> a@[j] == b@[j],
            text_lt(a@, b@) == lt_from(a@, b@, i as int),
            text_lt(b@, a@) == lt_from(b@, a@, i as int),
        decreases la - i,
    {
        let ca = a.get_char(i);
        let cb = b.get_char(i);
        if ca < cb {
            return -1;
        }
        if cb < ca {
            return 1;
        }
        i = i + 1;
    }
    if la < lb {
        -1
    } else if lb < la {
        1
    } else {
        assert(a@ =~= b@);
        0
    }
}

/// Whether two texts are the same sequence of characters.
pub fn text_equals(a: &str, b: &str) -> (r: bool)
    ensures
        r == (a@ == b@),
{
    compare_text(a, b) == 0
}

/// Relies on `String::push`: appends one character.
#[verifier::external_body]
pub(crate) fn push_char(s: &mut String, c: char)
    ensures
        final(s)@ == old(s)@.push(c),
{
    s.push(c)
}

} // verus!
