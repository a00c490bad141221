//! The set of wells chosen for export, and the search that narrows the
//! list of wells shown for choosing.
use vstd::prelude::*;

use crate::sets::insert_name;
use crate::text::{holds_text, strictly_ascending_text, text_equals, views_of};

verus! {

/// `n` occurs in `h` starting at position `k`.
pub open spec fn occurs_at(h: Seq<char>, n: Seq<char>, k: int) -> bool {
    0 <= k && k + n.len() <= h.len() && h.subrange(k, k + n.len()) == n
}

/// `n` occurs somewhere in `h`.
pub open spec fn is_infix(n: Seq<char>, h: Seq<char>) -> bool {
    exists|k: int| occurs_at(h, n, k)
}

/// Names what `str::to_lowercase` returns for a text.
pub uninterp spec fn lower_of(s: Seq<char>) -> Seq<char>;

/// Relies on `str::to_lowercase`: the lowercase mapping of each character,
/// which depends on the characters alone.
#[verifier::external_body]
fn lowercase(s: &str) -> (r: String)
    ensures
        r@ == lower_of(s@),
{
    s.to_lowercase()
}

fn occurs_at_exec(h: &str, n: &str, k: usize, hl: usize, nl: usize) -> (r: bool)
    requires
        hl == h@.len(),
        nl == n@.len(),
        k + nl <= hl,
    ensures
        r == occurs_at(h@, n@, k as int),
{
    let mut j: usize = 0;
    while j < nl
        invariant
            hl == h@.len(),
            nl == n@.len(),
            k + nl <= hl,
            j <= nl,
            forall|i: int| 0 <= i < j ==> h@[k + i] == n@[i],
        decreases nl - j,
    {
        if h.get_char(k + j) != n.get_char(j) {
            assert(h@.subrange(k as int, k + nl)[j as int] != n@[j as int]);
            return false;
        }
        j = j + 1;
    }
    assert(h@.subrange(k as int, k + nl) =~= n@);
    true
}

/// Whether `needle` occurs in `hay`; the empty text occurs everywhere.
pub fn contains_text(hay: &str, needle: &str) -> (r: bool)
    ensures
        r == is_infix(needle@, hay@),
{
    let hl: usize = hay.unicode_len();
    let nl: usize = needle.unicode_len();
    if nl > hl {
        assert(!is_infix(needle@, hay@));
        return false;
    }
    let last: usize = hl - nl;
    let mut k: usize = 0;
    loop
        invariant
            hl == hay@.len(),
            nl == needle@.len(),
            last == hl - nl,
            k <= last,
            forall|i: int| 0 <= i < k ==> !occurs_at(hay@, needle@, i),
        ensures
            forall|i: int| 0 <= i <= last ==> !occurs_at(hay@, needle@, i),
        decreases last - k,
    {
        if occurs_at_exec(hay, needle, k, hl, nl) {
            return true;
        }
        if k == last {
            break;
        }
        k = k + 1;
    }
    assert(!is_infix(needle@, hay@)) by {
        assert forall|i: int| !occurs_at(hay@, needle@, i) by {
            if 0 <= i <= last {
            }
        }
    }
    false
}

/// A well shows for a search when the lowercase search text occurs in its
/// lowercase name.
pub open spec fn shows_for(w: Seq<char>, query: Seq<char>) -> bool {
    is_infix(lower_of(query), lower_of(w))
}

/// The wells whose names match a search, ignoring case, in list order.
pub open spec fn visible(wells: Seq<String>, query: Seq<char>) -> Seq<String>
    decreases wells.len(),
{
    if wells.len() == 0 {
        Seq::empty()
    } else {
        let prev = visible(wells.drop_last(), query);
        if shows_for(wells.last()@, query) {
            prev.push(wells.last())
        } else {
            prev
        }
    }
}

/// The wells that a search shows, in list order.
pub fn visible_wells(wells: &Vec<String>, query: &str) -> (r: Vec<String>)
    ensures
        r@ == visible(wells@, query@),
{
    let q = lowercase(query);
    let mut out: Vec<String> = Vec::new();
    let mut i: usize = 0;
    while i < wells.len()
        invariant
            i <= wells@.len(),
            q@ == lower_of(query@),
            out@ == visible(wells@.take(i as int), query@),
        decreases wells@.len() - i,
    {
        assert(wells@.take(i + 1).drop_last() =~= wells@.take(i as int));
        let w = lowercase(wells[i].as_str());
        if contains_text(w.as_str(), q.as_str()) {
            out.push(wells[i].clone());
        }
        i = i + 1;
    }
    assert(wells@.take(i as int) =~= wells@);
    out
}

/// The wells chosen for export, kept in ascending order without repeats.
#[derive(Clone, Debug, PartialEq)]
pub struct Selection {
    pub names: Vec<String>,
}

impl Selection {
    pub open spec fn wf(&self) -> bool {
        strictly_ascending_text(views_of(self.names@))
    }

    pub open spec fn has(&self, w: Seq<char>) -> bool {
        holds_text(self.names@, w)
    }

    pub fn new() -> (r: Selection)
        ensures
            r.wf(),
            r.names@.len() == 0,
    {
        Selection { names: Vec::new() }
    }

    pub fn len(&self) -> (r: usize)
        ensures
            r == self.names@.len(),
    {
        self.names.len()
    }

    pub fn contains(&self, w: &str) -> (r: bool)
        ensures
            r == self.has(w@),
    {
        crate::transform::contains_name(&self.names, w)
    }

    /// Adds a well to the selection.
    pub fn select(&mut self, w: &str)
        requires
            old(self).wf(),
        ensures
            final(self).wf(),
            forall|t: Seq<char>| #[trigger] final(self).has(t) <==> (old(self).has(t) || t == w@),
    {
        insert_name(&mut self.names, w.to_string());
    }

    /// Adds every given well to the selection.
    pub fn select_all(&mut self, wells: &Vec<String>)
        requires
            old(self).wf(),
        ensures
            final(self).wf(),
            forall|t: Seq<char>| #[trigger]
                final(self).has(t) <==> (old(self).has(t) || holds_text(wells@, t)),
    {
        let mut i: usize = 0;
        while i < wells.len()
            invariant
                i <= wells@.len(),
                self.wf(),
                forall|t: Seq<char>| #[trigger]
                    self.has(t) <==> (old(self).has(t) || holds_text(wells@.take(i as int), t)),
            decreases wells@.len() - i,
        {
            let ghost before = *self;
            self.select(wells[i].as_str());
            proof {
                let t2 = wells@.take(i + 1);
                assert(t2 =~= wells@.take(i as int).push(wells@[i as int]));
                assert forall|t: Seq<char>| #[trigger]
                    holds_text(t2, t) <==> (holds_text(wells@.take(i as int), t) || t
                        == wells@[i as int]@) by {
                    if holds_text(t2, t) {
                        let k = choose|k: int| 0 <= k < t2.len() && t2[k]@ == t;
                        if k < i {
                            assert(wells@.take(i as int)[k]@ == t);
                        }
                    }
                    if holds_text(wells@.take(i as int), t) {
                        let k = choose|k: int| 0 <= k < i && wells@.take(i as int)[k]@ == t;
                        assert(t2[k]@ == t);
                    }
                    if t == wells@[i as int]@ {
                        assert(t2[i as int]@ == t);
                    }
                }
            }
            i = i + 1;
        }
        assert(wells@.take(i as int) =~= wells@);
    }

    /// Takes a well out of the selection.
    pub fn deselect(&mut self, w: &str)
        requires
            old(self).wf(),
        ensures
            final(self).wf(),
            forall|t: Seq<char>| #[trigger] final(self).has(t) <==> (old(self).has(t) && t != w@),
    {
        let mut i: usize = 0;
        while i < self.names.len()
            invariant
                i <= self.names@.len(),
                *self == *old(self),
                old(self).wf(),
                forall|j: int| 0 <= j < i ==> #[trigger] self.names@[j]@ != w@,
            decreases self.names@.len() - i,
        {
            if text_equals(self.names[i].as_str(), w) {
                let ghost pre = self.names@;
                self.names.remove(i);
                proof {
                    let v = self.names@;
                    assert forall|a: int, b: int| 0 <= a < b < v.len() implies crate::text::text_lt(
                        #[trigger] views_of(v)[a],
                        #[trigger] views_of(v)[b],
                    ) by {
                        let a2 = if a < i { a } else { a + 1 };
                        let b2 = if b < i { b } else { b + 1 };
                        assert(v[a] == pre[a2] && v[b] == pre[b2]);
                        assert(views_of(v)[a] == v[a]@);
                        assert(views_of(v)[b] == v[b]@);
                        assert(views_of(pre)[a2] == pre[a2]@);
                        assert(views_of(pre)[b2] == pre[b2]@);
                        assert(crate::text::text_lt(views_of(pre)[a2], views_of(pre)[b2]));
                    }
                    assert forall|t: Seq<char>| #[trigger]
                        holds_text(v, t) <==> (holds_text(pre, t) && t != w@) by {
                        if holds_text(v, t) {
                            let k = choose|k: int| 0 <= k < v.len() && v[k]@ == t;
                            let k2 = if k < i { k } else { k + 1 };
                            assert(pre[k2]@ == t);
                            if k2 != i {
                                crate::text::lemma_text_lt_total(pre[k2]@, pre[i as int]@);
                                assert(views_of(pre)[k2] == pre[k2]@);
                                assert(views_of(pre)[i as int] == pre[i as int]@);
                                if k2 < i {
                                    assert(crate::text::text_lt(views_of(pre)[k2], views_of(pre)[i as int]));
                                } else {
                                    assert(crate::text::text_lt(views_of(pre)[i as int], views_of(pre)[k2]));
                                }
                            }
                        }
                        if holds_text(pre, t) && t != w@ {
                            let k = choose|k: int| 0 <= k < pre.len() && pre[k]@ == t;
                            if k < i {
                                assert(v[k]@ == t);
                            } else {
                                assert(k != i);
                                assert(v[k - 1]@ == t);
                            }
                        }
                    }
                }
                return;
            }
            i = i + 1;
        }
        assert forall|t: Seq<char>| #[trigger] self.has(t) implies t != w@ by {
            let k = choose|k: int| 0 <= k < self.names@.len() && self.names@[k]@ == t;
        }
    }

    /// Empties the selection.
    pub fn clear(&mut self)
        ensures
            final(self).wf(),
            final(self).names@.len() == 0,
    {
        self.names = Vec::new();
    }
}

} // verus!
