//! A complex: a multiset of species with positive stoichiometric
//! coefficients, kept as a mapping from species id to coefficient.

use vstd::prelude::*;

verus! {

/// The map described by an association list of (species id, coefficient)
/// pairs; a later entry for the same id overrides an earlier one, but a
/// well-formed complex never stores the same id twice.
pub open spec fn terms_map(s: Seq<(usize, u64)>) -> Map<int, u64>
    decreases s.len(),
{
    if s.len() == 0 {
        Map::empty()
    } else {
        terms_map(s.drop_last()).insert(s.last().0 as int, s.last().1)
    }
}

/// Whether the coefficient of `id` can grow by `c` without leaving u64.
pub open spec fn can_add_term(m: Map<int, u64>, id: int, c: u64) -> bool {
    !m.contains_key(id) || m[id] + c <= u64::MAX
}

/// The complex after adding a term: a coefficient for a species already
/// present accumulates; a zero coefficient adds nothing, so every stored
/// coefficient stays strictly positive.
pub open spec fn spec_add_term(m: Map<int, u64>, id: int, c: u64) -> Map<int, u64> {
    if c == 0 {
        m
    } else if m.contains_key(id) {
        m.insert(id, (m[id] + c) as u64)
    } else {
        m.insert(id, c)
    }
}

/// Ids in the list are pairwise distinct.
pub open spec fn distinct_ids(s: Seq<(usize, u64)>) -> bool {
    forall|i: int, j: int| 0 <= i < j < s.len() ==> s[i].0 != s[j].0
}

/// An id that occurs nowhere in the list is not in the map.
proof fn lemma_terms_map_absent(s: Seq<(usize, u64)>, k: int)
    requires
        forall|i: int| 0 <= i < s.len() ==> s[i].0 as int != k,
    ensures
        !terms_map(s).contains_key(k),
    decreases s.len(),
{
    if s.len() > 0 {
        lemma_terms_map_absent(s.drop_last(), k);
    }
}

/// Under distinct ids, entry `i` of the list gives the map's value at its id.
proof fn lemma_terms_map_index(s: Seq<(usize, u64)>, i: int)
    requires
        distinct_ids(s),
        0 <= i < s.len(),
    ensures
        terms_map(s).contains_key(s[i].0 as int),
        terms_map(s)[s[i].0 as int] == s[i].1,
    decreases s.len(),
{
    if i < s.len() - 1 {
        lemma_terms_map_index(s.drop_last(), i);
        assert(s[s.len() - 1].0 != s[i].0);
    }
}

/// The domain of the map is exactly the set of ids in the list, and under
/// distinct ids it has as many elements as the list.
proof fn lemma_terms_map_dom_len(s: Seq<(usize, u64)>)
    requires
        distinct_ids(s),
    ensures
        terms_map(s).dom().finite(),
        terms_map(s).dom().len() == s.len(),
    decreases s.len(),
{
    if s.len() > 0 {
        let d = s.drop_last();
        lemma_terms_map_dom_len(d);
        lemma_terms_map_absent(d, s.last().0 as int);
        assert(terms_map(s).dom() =~= terms_map(d).dom().insert(s.last().0 as int));
    }
}

/// Updating entry `i` in place updates the map at that id.
proof fn lemma_terms_map_update(s: Seq<(usize, u64)>, i: int, v: u64)
    requires
        distinct_ids(s),
        0 <= i < s.len(),
    ensures
        terms_map(s.update(i, (s[i].0, v))) =~= terms_map(s).insert(s[i].0 as int, v),
    decreases s.len(),
{
    let s2 = s.update(i, (s[i].0, v));
    if i == s.len() - 1 {
        assert(s2.drop_last() =~= s.drop_last());
    } else {
        lemma_terms_map_update(s.drop_last(), i, v);
        assert(s2.drop_last() =~= s.drop_last().update(i, (s[i].0, v)));
        assert(s2.last() == s.last());
        assert(s.last().0 != s[i].0);
    }
}

/// Every value of the map comes from an entry of the list.
proof fn lemma_terms_map_positive(s: Seq<(usize, u64)>)
    requires
        forall|i: int| 0 <= i < s.len() ==> s[i].1 >= 1,
    ensures
        forall|id: int| terms_map(s).contains_key(id) ==> terms_map(s)[id] >= 1,
    decreases s.len(),
{
    if s.len() > 0 {
        let d = s.drop_last();
        assert forall|i: int| 0 <= i < d.len() implies d[i].1 >= 1 by {
            assert(d[i] == s[i]);
        }
        lemma_terms_map_positive(d);
        assert forall|id: int| terms_map(s).contains_key(id) implies terms_map(s)[id] >= 1 by {
            if id == s.last().0 as int {
                assert(s.last() == s[s.len() - 1]);
                assert(terms_map(s)[id] == s.last().1);
            } else {
                assert(terms_map(d).contains_key(id));
            }
        }
    }
}

/// A mapping from species id to a strictly positive stoichiometric
/// coefficient, with no entry for coefficient zero. Adding a term for a
/// species already present accumulates the coefficient.
#[derive(Debug)]
pub struct Complex {
    terms: Vec<(usize, u64)>,
}

impl View for Complex {
    type V = Map<int, u64>;

    closed spec fn view(&self) -> Map<int, u64> {
        terms_map(self.terms@)
    }
}

impl Complex {
    /// Ids are stored at most once and every coefficient is positive.
    pub closed spec fn wf(&self) -> bool {
        &&& distinct_ids(self.terms@)
        &&& forall|i: int| 0 <= i < self.terms@.len() ==> self.terms@[i].1 >= 1
    }

    /// The empty complex.
    pub fn new() -> (c: Complex)
        ensures
            c@ == Map::<int, u64>::empty(),
            c.wf(),
    {
        Complex { terms: Vec::new() }
    }

    /// Adds `coef` to the coefficient of species `id`, creating the entry if
    /// absent; returns false and leaves the complex unchanged when the sum
    /// would not fit in u64.
    pub fn add_term(&mut self, id: usize, coef: u64) -> (ok: bool)
        requires
            old(self).wf(),
        ensures
            final(self).wf(),
            ok == can_add_term(old(self)@, id as int, coef),
            ok ==> final(self)@ == spec_add_term(old(self)@, id as int, coef),
            !ok ==> final(self)@ == old(self)@,
    {
        let ghost s0 = self.terms@;
        if coef == 0 {
            return true;
        }
        let n = self.terms.len();
        let mut i: usize = 0;
        while i < n
            invariant
                n == self.terms@.len(),
                i <= n,
                self == old(self),
                s0 == self.terms@,
                old(self).wf(),
                forall|j: int| 0 <= j < i ==> self.terms@[j].0 != id,
            decreases n - i,
        {
            if self.terms[i].0 == id {
                proof {
                    lemma_terms_map_index(s0, i as int);
                }
                let cur = self.terms[i].1;
                match cur.checked_add(coef) {
                    Some(v) => {
                        self.terms[i] = (id, v);
                        proof {
                            lemma_terms_map_update(s0, i as int, v);
                        }
                        return true;
                    },
                    None => {
                        return false;
                    },
                }
            }
            i += 1;
        }
        proof {
            lemma_terms_map_absent(s0, id as int);
        }
        self.terms.push((id, coef));
        proof {
            assert(self.terms@.drop_last() =~= s0);
        }
        true
    }

    /// The coefficient of species `id`, or zero when the species does not
    /// occur in the complex.
    pub fn get_coef(&self, id: usize) -> (c: u64)
        requires
            self.wf(),
        ensures
            c == if self@.contains_key(id as int) {
                self@[id as int]
            } else {
                0
            },
    {
        let n = self.terms.len();
        let mut i: usize = 0;
        while i < n
            invariant
                self.wf(),
                n == self.terms@.len(),
                i <= n,
                forall|j: int| 0 <= j < i ==> self.terms@[j].0 != id,
            decreases n - i,
        {
            if self.terms[i].0 == id {
                proof {
                    lemma_terms_map_index(self.terms@, i as int);
                }
                return self.terms[i].1;
            }
            i += 1;
        }
        proof {
            lemma_terms_map_absent(self.terms@, id as int);
        }
        0
    }

    /// In a well-formed complex every stored coefficient is strictly
    /// positive: there is no entry for coefficient zero.
    pub proof fn lemma_coefs_positive(&self)
        requires
            self.wf(),
        ensures
            forall|id: int| self@.contains_key(id) ==> self@[id] >= 1,
    {
        lemma_terms_map_positive(self.terms@);
    }

    /// The number of distinct species in the complex.
    pub fn num_species(&self) -> (n: usize)
        requires
            self.wf(),
        ensures
            n == self@.dom().len(),
    {
        proof {
            lemma_terms_map_dom_len(self.terms@);
        }
        self.terms.len()
    }
}

} // verus!
