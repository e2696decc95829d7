//! Copying, equality and ordering of linked lists, element by element.
use crate::linked_list::LinkedList;
use std::cmp::Ordering;
use vstd::prelude::*;
use vstd::std_specs::cmp::OrdSpec;
use vstd::std_specs::cmp::PartialEqSpec;
use vstd::std_specs::cmp::PartialOrdSpec;

verus! {

/// Whether `a` and `b` have the same length and equal elements at every
/// position.
pub open spec fn elements_equal<T: PartialEq>(a: Seq<T>, b: Seq<T>) -> bool {
    &&& a.len() == b.len()
    &&& forall|i: int| 0 <= i < a.len() ==> #[trigger] a[i].eq_spec(&b[i])
}

/// The lexicographic order of `a` and `b` under a partial order of their
/// elements: the first pair of elements that is not equal decides, and
/// else the shorter sequence comes first.
pub open spec fn lexicographic<T: PartialOrd>(a: Seq<T>, b: Seq<T>) -> Option<Ordering>
    decreases a.len(),
{
    if a.len() == 0 {
        if b.len() == 0 {
            Some(Ordering::Equal)
        } else {
            Some(Ordering::Less)
        }
    } else if b.len() == 0 {
        Some(Ordering::Greater)
    } else {
        match a[0].partial_cmp_spec(&b[0]) {
            Some(Ordering::Equal) => lexicographic(a.drop_first(), b.drop_first()),
            other => other,
        }
    }
}

/// The lexicographic order of `a` and `b` under a total order of their
/// elements.
pub open spec fn lexicographic_total<T: Ord>(a: Seq<T>, b: Seq<T>) -> Ordering
    decreases a.len(),
{
    if a.len() == 0 {
        if b.len() == 0 {
            Ordering::Equal
        } else {
            Ordering::Less
        }
    } else if b.len() == 0 {
        Ordering::Greater
    } else {
        match a[0].cmp_spec(&b[0]) {
            Ordering::Equal => lexicographic_total(a.drop_first(), b.drop_first()),
            other => other,
        }
    }
}

impl<T: Clone> LinkedList<T> {
    /// A new list with a clone of every element, in the same order.
    pub fn duplicate(&self) -> (r: Self)
        requires
            self.wf(),
        ensures
            r.wf(),
            r@.len() == self@.len(),
            forall|i: int| 0 <= i < self@.len() ==> cloned(#[trigger] self@[i], r@[i]),
    {
        let mut out: LinkedList<T> = LinkedList::new();
        let mut it = self.iter();
        loop
            invariant
                it.wf(),
                it.list() == self,
                self.wf(),
                out.wf(),
                out@.len() == it.pos(),
                forall|i: int| 0 <= i < it.pos() ==> cloned(#[trigger] self@[i], out@[i]),
            ensures
                out.wf(),
                out@.len() == self@.len(),
                forall|i: int| 0 <= i < self@.len() ==> cloned(#[trigger] self@[i], out@[i]),
            decreases self@.len() - it.pos(),
        {
            proof {
                it.lemma_pos_bounded();
            }
            match it.next() {
                Some(x) => {
                    let c = x.clone();
                    out.push_back(c);
                },
                None => {
                    break ;
                },
            }
        }
        out
    }
}

impl<T: PartialEq> LinkedList<T> {
    /// Whether both lists have the same length and equal elements at every
    /// position.
    pub fn equals(&self, other: &Self) -> (r: bool)
        requires
            self.wf(),
            other.wf(),
        ensures
            T::obeys_eq_spec() ==> (r == elements_equal(self@, other@)),
    {
        if self.len() != other.len() {
            return false;
        }
        let mut a = self.iter();
        let mut b = other.iter();
        loop
            invariant
                a.wf(),
                b.wf(),
                a.list() == self,
                b.list() == other,
                a.pos() == b.pos(),
                self@.len() == other@.len(),
                T::obeys_eq_spec() ==> forall|i: int| 0 <= i < a.pos() ==> #[trigger] self@[i].eq_spec(&other@[i]),
            decreases self@.len() - a.pos(),
        {
            let ghost k = a.pos();
            proof {
                a.lemma_pos_bounded();
                b.lemma_pos_bounded();
            }
            let x = a.next();
            let y = b.next();
            match (x, y) {
                (Some(p), Some(q)) => {
                    if !p.eq(q) {
                        assert(!self@[k].eq_spec(&other@[k]) || !T::obeys_eq_spec());
                        return false;
                    }
                },
                _ => {
                    return true;
                },
            }
        }
    }
}

impl<T: PartialOrd> LinkedList<T> {
    /// The lexicographic order of the two lists under the partial order of
    /// their elements (see `lexicographic`).
    pub fn compare_partial(&self, other: &Self) -> (r: Option<Ordering>)
        requires
            self.wf(),
            other.wf(),
        ensures
            T::obeys_partial_cmp_spec() ==> r == lexicographic(self@, other@),
    {
        let mut a = self.iter();
        let mut b = other.iter();
        assert(self@.skip(0) =~= self@);
        assert(other@.skip(0) =~= other@);
        loop
            invariant
                a.wf(),
                b.wf(),
                a.list() == self,
                b.list() == other,
                a.pos() == b.pos(),
                a.pos() <= self@.len(),
                a.pos() <= other@.len(),
                T::obeys_partial_cmp_spec() ==> lexicographic(self@, other@) == lexicographic(
                    self@.skip(a.pos()),
                    other@.skip(b.pos()),
                ),
            decreases self@.len() - a.pos(),
        {
            let ghost k = a.pos();
            proof {
                a.lemma_pos_bounded();
                b.lemma_pos_bounded();
            }
            let x = a.next();
            let y = b.next();
            match (x, y) {
                (Some(p), Some(q)) => {
                    let o = p.partial_cmp(q);
                    proof {
                        assert(self@.skip(k).drop_first() =~= self@.skip(k + 1));
                        assert(other@.skip(k).drop_first() =~= other@.skip(k + 1));
                    }
                    match o {
                        Some(Ordering::Equal) => {},
                        _ => {
                            return o;
                        },
                    }
                },
                (None, None) => {
                    return Some(Ordering::Equal);
                },
                (None, Some(_)) => {
                    return Some(Ordering::Less);
                },
                (Some(_), None) => {
                    return Some(Ordering::Greater);
                },
            }
        }
    }
}

impl<T: Ord> LinkedList<T> {
    /// The lexicographic order of the two lists under the total order of
    /// their elements (see `lexicographic_total`).
    pub fn compare(&self, other: &Self) -> (r: Ordering)
        requires
            self.wf(),
            other.wf(),
        ensures
            T::obeys_cmp_spec() ==> r == lexicographic_total(self@, other@),
    {
        let mut a = self.iter();
        let mut b = other.iter();
        assert(self@.skip(0) =~= self@);
        assert(other@.skip(0) =~= other@);
        loop
            invariant
                a.wf(),
                b.wf(),
                a.list() == self,
                b.list() == other,
                a.pos() == b.pos(),
                a.pos() <= self@.len(),
                a.pos() <= other@.len(),
                T::obeys_cmp_spec() ==> lexicographic_total(self@, other@) == lexicographic_total(
                    self@.skip(a.pos()),
                    other@.skip(b.pos()),
                ),
            decreases self@.len() - a.pos(),
        {
            let ghost k = a.pos();
            proof {
                a.lemma_pos_bounded();
                b.lemma_pos_bounded();
            }
            let x = a.next();
            let y = b.next();
            match (x, y) {
                (Some(p), Some(q)) => {
                    let o = p.cmp(q);
                    proof {
                        assert(self@.skip(k).drop_first() =~= self@.skip(k + 1));
                        assert(other@.skip(k).drop_first() =~= other@.skip(k + 1));
                    }
                    match o {
                        Ordering::Equal => {},
                        _ => {
                            return o;
                        },
                    }
                },
                (None, None) => {
                    return Ordering::Equal;
                },
                (None, Some(_)) => {
                    return Ordering::Less;
                },
                (Some(_), None) => {
                    return Ordering::Greater;
                },
            }
        }
    }
}

/// Under a partial order of the elements, two sequences that agree on
/// their first `k` pairs are ordered by what follows: the first pair that is
/// not equal decides; else a sequence that ends there comes before a longer
/// one, and two that both end there are equal.
pub proof fn lemma_lexicographic_decided<T: PartialOrd>(a: Seq<T>, b: Seq<T>, k: int)
    requires
        0 <= k <= a.len(),
        k <= b.len(),
        forall|i: int| 0 <= i < k ==> #[trigger] a[i].partial_cmp_spec(&b[i]) == Some(Ordering::Equal),
    ensures
        k == a.len() && k < b.len() ==> lexicographic(a, b) == Some(Ordering::Less),
        k == b.len() && k < a.len() ==> lexicographic(a, b) == Some(Ordering::Greater),
        k == a.len() && k == b.len() ==> lexicographic(a, b) == Some(Ordering::Equal),
        k < a.len() && k < b.len() && a[k].partial_cmp_spec(&b[k]) != Some(Ordering::Equal) ==> lexicographic(a, b)
            == a[k].partial_cmp_spec(&b[k]),
    decreases k,
{
    if k > 0 {
        let a1 = a.drop_first();
        let b1 = b.drop_first();
        assert forall|i: int| 0 <= i < k - 1 implies #[trigger] a1[i].partial_cmp_spec(&b1[i]) == Some(Ordering::Equal) by {
            assert(a1[i] == a[i + 1] && b1[i] == b[i + 1]);
        }
        lemma_lexicographic_decided(a1, b1, k - 1);
        assert(a[0].partial_cmp_spec(&b[0]) == Some(Ordering::Equal));
        if k < a.len() && k < b.len() {
            assert(a1[k - 1] == a[k] && b1[k - 1] == b[k]);
        }
    }
}

/// The same under a total order of the elements.
pub proof fn lemma_lexicographic_total_decided<T: Ord>(a: Seq<T>, b: Seq<T>, k: int)
    requires
        0 <= k <= a.len(),
        k <= b.len(),
        forall|i: int| 0 <= i < k ==> #[trigger] a[i].cmp_spec(&b[i]) == Ordering::Equal,
    ensures
        k == a.len() && k < b.len() ==> lexicographic_total(a, b) == Ordering::Less,
        k == b.len() && k < a.len() ==> lexicographic_total(a, b) == Ordering::Greater,
        k == a.len() && k == b.len() ==> lexicographic_total(a, b) == Ordering::Equal,
        k < a.len() && k < b.len() && a[k].cmp_spec(&b[k]) != Ordering::Equal ==> lexicographic_total(a, b)
            == a[k].cmp_spec(&b[k]),
    decreases k,
{
    if k > 0 {
        let a1 = a.drop_first();
        let b1 = b.drop_first();
        assert forall|i: int| 0 <= i < k - 1 implies #[trigger] a1[i].cmp_spec(&b1[i]) == Ordering::Equal by {
            assert(a1[i] == a[i + 1] && b1[i] == b[i + 1]);
        }
        lemma_lexicographic_total_decided(a1, b1, k - 1);
        assert(a[0].cmp_spec(&b[0]) == Ordering::Equal);
        if k < a.len() && k < b.len() {
            assert(a1[k - 1] == a[k] && b1[k - 1] == b[k]);
        }
    }
}

} // verus!
