//! Interning of species names into dense integer ids.

use vstd::prelude::*;

verus! {

/// Index of the first occurrence of `x` in `names`, or `-1` if absent.
pub open spec fn reg_index_of(names: Seq<Seq<char>>, x: Seq<char>) -> int
    decreases names.len(),
{
    if names.len() == 0 {
        -1
    } else if names[0] == x {
        0
    } else {
        let r = reg_index_of(names.drop_first(), x);
        if r < 0 {
            -1
        } else {
            r + 1
        }
    }
}

/// Registering `x` in `names`: the table after the call, and the id returned.
/// A name already present keeps its id and the table is unchanged; a new name
/// is appended and receives the next id, `names.len()`.
pub open spec fn spec_register(names: Seq<Seq<char>>, x: Seq<char>) -> (Seq<Seq<char>>, int) {
    let r = reg_index_of(names, x);
    if r >= 0 {
        (names, r)
    } else {
        (names.push(x), names.len() as int)
    }
}

/// `reg_index_of` finds exactly the first occurrence.
pub proof fn lemma_index_of_props(names: Seq<Seq<char>>, x: Seq<char>)
    ensures
        ({
            let r = reg_index_of(names, x);
            &&& r < 0 ==> forall|i: int| 0 <= i < names.len() ==> names[i] != x
            &&& r >= 0 ==> r < names.len() && names[r] == x && forall|i: int|
                0 <= i < r ==> names[i] != x
        }),
    decreases names.len(),
{
    if names.len() > 0 && names[0] != x {
        let d = names.drop_first();
        lemma_index_of_props(d, x);
        let rd = reg_index_of(d, x);
        if rd < 0 {
            assert forall|i: int| 0 <= i < names.len() implies names[i] != x by {
                if i >= 1 {
                    assert(names[i] == d[i - 1]);
                }
            }
        } else {
            assert(names[rd + 1] == d[rd]);
            assert forall|i: int| 0 <= i < rd + 1 implies names[i] != x by {
                if i >= 1 {
                    assert(names[i] == d[i - 1]);
                }
            }
        }
    }
}

/// The witness direction: if position `k` holds the first occurrence of `x`,
/// then `reg_index_of` returns `k`.
pub proof fn lemma_index_of_first(names: Seq<Seq<char>>, x: Seq<char>, k: int)
    requires
        0 <= k < names.len(),
        names[k] == x,
        forall|i: int| 0 <= i < k ==> names[i] != x,
    ensures
        reg_index_of(names, x) == k,
    decreases names.len(),
{
    if k > 0 {
        assert(forall|i: int| 0 <= i < k - 1 ==> names.drop_first()[i] == names[i + 1]);
        lemma_index_of_first(names.drop_first(), x, k - 1);
    }
}

/// Interns names into dense ids: the k-th distinct name registered, in
/// first-seen order, receives id k, and ids never change once assigned.
#[derive(Debug)]
pub struct Registry {
    names: Vec<String>,
}

impl View for Registry {
    type V = Seq<Seq<char>>;

    closed spec fn view(&self) -> Seq<Seq<char>> {
        self.names.deep_view()
    }
}

impl Registry {
    /// All registered names are distinct.
    pub open spec fn wf(&self) -> bool {
        forall|i: int, j: int| 0 <= i < j < self@.len() ==> self@[i] != self@[j]
    }

    /// An empty registry.
    pub fn new() -> (r: Registry)
        ensures
            r@ == Seq::<Seq<char>>::empty(),
            r.wf(),
    {
        Registry { names: Vec::new() }
    }

    /// Number of names registered so far.
    pub fn len(&self) -> (n: usize)
        ensures
            n == self@.len(),
    {
        self.names.len()
    }

    /// Interns `symbol`: returns its existing id if it was registered before,
    /// else assigns the next sequential id and stores the name under it.
    pub fn register(&mut self, symbol: String) -> (id: usize)
        ensures
            ({
                let (names2, sid) = spec_register(old(self)@, symbol@);
                final(self)@ == names2 && id as int == sid
            }),
            id < final(self)@.len(),
            final(self)@[id as int] == symbol@,
            old(self).wf() ==> final(self).wf(),
    {
        let ghost names0 = self@;
        let n = self.names.len();
        let mut i: usize = 0;
        while i < n
            invariant
                n == self.names@.len(),
                i <= n,
                self == old(self),
                names0 == self@,
                forall|j: int| 0 <= j < i ==> self@[j] != symbol@,
            decreases n - i,
        {
            if self.names[i] == symbol {
                proof {
                    assert(self@[i as int] == self.names@[i as int]@);
                    lemma_index_of_first(names0, symbol@, i as int);
                }
                return i;
            }
            i += 1;
        }
        proof {
            lemma_index_of_props(names0, symbol@);
            assert(reg_index_of(names0, symbol@) < 0) by {
                if reg_index_of(names0, symbol@) >= 0 {
                    assert(names0[reg_index_of(names0, symbol@)] == symbol@);
                }
            }
        }
        self.names.push(symbol);
        proof {
            assert(self@ =~= names0.push(symbol@));
        }
        n
    }

    /// The name registered under `idx`; defined for ids previously returned
    /// by `register` on this registry.
    pub fn get_symbol(&self, idx: usize) -> (symbol: &String)
        requires
            idx < self@.len(),
        ensures
            symbol@ == self@[idx as int],
    {
        &self.names[idx]
    }
}

/// Registering a name that sits at position `k`, with no earlier
/// occurrence, returns id `k` and leaves the table unchanged.
pub proof fn lemma_register_existing(names: Seq<Seq<char>>, x: Seq<char>, k: int)
    requires
        0 <= k < names.len(),
        names[k] == x,
        forall|i: int| 0 <= i < k ==> names[i] != x,
    ensures
        spec_register(names, x) == (names, k),
{
    lemma_index_of_first(names, x, k);
}

/// Idempotent interning: registering a name that is already present returns
/// the same id as the first registration, leaves the table unchanged, and the
/// id always looks up to the name that was registered.
pub proof fn lemma_register_idempotent(names: Seq<Seq<char>>, x: Seq<char>)
    ensures
        ({
            let (names1, id1) = spec_register(names, x);
            let (names2, id2) = spec_register(names1, x);
            &&& id2 == id1
            &&& names2 == names1
            &&& 0 <= id1 < names1.len()
            &&& names1[id1] == x
        }),
{
    let r = reg_index_of(names, x);
    lemma_index_of_props(names, x);
    if r >= 0 {
    } else {
        lemma_index_of_first(names.push(x), x, names.len() as int);
    }
}

/// Dense id assignment: when a name not yet in the table is registered and
/// the table holds `k` names, the new name receives id `k` — so the k-th
/// distinct name registered, counting from zero in first-seen order, gets id k.
pub proof fn lemma_register_dense(names: Seq<Seq<char>>, x: Seq<char>)
    requires
        forall|i: int| 0 <= i < names.len() ==> names[i] != x,
    ensures
        spec_register(names, x).1 == names.len(),
        spec_register(names, x).0 == names.push(x),
{
    lemma_index_of_props(names, x);
    if reg_index_of(names, x) >= 0 {
        assert(names[reg_index_of(names, x)] == x);
    }
}

} // verus!
