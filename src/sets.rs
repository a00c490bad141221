//! Ordered sets kept as strictly ascending vectors: the year set and the
//! well-name set.
use vstd::prelude::*;

use crate::text::{
    compare_text, holds_text, lemma_text_lt_total, lemma_text_lt_transitive,
    strictly_ascending_text, text_lt, views_of,
};

verus! {

pub open spec fn strictly_ascending(s: Seq<i32>) -> bool {
    forall|i: int, j: int| 0 <= i < j < s.len() ==> #[trigger] s[i] < #[trigger] s[j]
}

/// Adds a year to an ascending set of years.
pub fn insert_year(v: &mut Vec<i32>, y: i32)
    requires
        strictly_ascending(old(v)@),
    ensures
        strictly_ascending(final(v)@),
        forall|x: i32| #[trigger] final(v)@.contains(x) <==> (old(v)@.contains(x) || x == y),
{
    let mut i: usize = 0;
    while i < v.len() && v[i] < y
        invariant
            i <= v@.len(),
            forall|j: int| 0 <= j < i ==> v@[j] < y,
        decreases v@.len() - i,
    {
        i = i + 1;
    }
    if i < v.len() && v[i] == y {
        return;
    }
    let ghost pre = v@;
    v.insert(i, y);
    proof {
        pre.insert_ensures(i as int, y);
        assert forall|x: i32| #[trigger] v@.contains(x) <==> (pre.contains(x) || x == y) by {
            if v@.contains(x) {
                let k = choose|k: int| 0 <= k < v@.len() && v@[k] == x;
                if k < i {
                    assert(pre[k] == x);
                } else if k > i {
                    assert(pre[k - 1] == x);
                }
            }
            if pre.contains(x) {
                let k = choose|k: int| 0 <= k < pre.len() && pre[k] == x;
                if k < i {
                    assert(v@[k] == x);
                } else {
                    assert(v@[k + 1] == x);
                }
            }
            if x == y {
                assert(v@[i as int] == x);
            }
        }
    }
}

/// Adds a name to a set of names kept in ascending code-point order.
pub fn insert_name(v: &mut Vec<String>, w: String)
    requires
        strictly_ascending_text(views_of(old(v)@)),
    ensures
        strictly_ascending_text(views_of(final(v)@)),
        forall|t: Seq<char>| #[trigger]
            holds_text(final(v)@, t) <==> (holds_text(old(v)@, t) || t == w@),
{
    let mut i: usize = 0;
    while i < v.len() && compare_text(v[i].as_str(), w.as_str()) < 0
        invariant
            i <= v@.len(),
            forall|j: int| 0 <= j < i ==> text_lt(#[trigger] v@[j]@, w@),
        decreases v@.len() - i,
    {
        i = i + 1;
    }
    if i < v.len() && compare_text(v[i].as_str(), w.as_str()) == 0 {
        assert(holds_text(v@, w@)) by {
            assert(v@[i as int]@ == w@);
        }
        return;
    }
    let ghost pre = v@;
    let ghost wv = w@;
    proof {
        if i < pre.len() {
            lemma_text_lt_total(pre[i as int]@, wv);
        }
    }
    v.insert(i, w);
    proof {
        pre.insert_ensures(i as int, w);
        let nv = views_of(v@);
        let pv = views_of(pre);
        assert forall|a: int, b: int| 0 <= a < b < nv.len() implies text_lt(
            #[trigger] nv[a],
            #[trigger] nv[b],
        ) by {
            if b < i {
                assert(nv[a] == pv[a] && nv[b] == pv[b]);
            } else if b == i {
                assert(nv[a] == pv[a]);
            } else if a < i {
                assert(nv[a] == pv[a] && nv[b] == pv[b - 1]);
            } else if a == i {
                assert(nv[b] == pv[b - 1]);
                if b - 1 > i {
                    assert(text_lt(pv[i as int], pv[b - 1]));
                    lemma_text_lt_transitive(wv, pv[i as int], pv[b - 1]);
                }
            } else {
                assert(nv[a] == pv[a - 1] && nv[b] == pv[b - 1]);
            }
        }
        assert forall|t: Seq<char>| #[trigger]
            holds_text(v@, t) <==> (holds_text(pre, t) || t == wv) by {
            if holds_text(v@, t) {
                let k = choose|k: int| 0 <= k < v@.len() && v@[k]@ == t;
                if k < i {
                    assert(pre[k]@ == t);
                } else if k > i {
                    assert(pre[k - 1]@ == t);
                }
            }
            if holds_text(pre, t) {
                let k = choose|k: int| 0 <= k < pre.len() && pre[k]@ == t;
                if k < i {
                    assert(v@[k]@ == t);
                } else {
                    assert(v@[k + 1]@ == t);
                }
            }
            if t == wv {
                assert(v@[i as int]@ == t);
            }
        }
    }
}

} // verus!
