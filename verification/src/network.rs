//! The network model: one species registry and an ordered list of
//! reactions, populated by the parser and returned to the caller.

use crate::complex::{can_add_term, spec_add_term, Complex};
use crate::reaction::{Reaction, ReactionView};
use crate::registry::{
    lemma_register_dense, lemma_register_existing, spec_register, Registry,
};
use vstd::prelude::*;

verus! {

broadcast use vstd::string::group_string_axioms;

/// Mathematical view of a network: the registered species names in id
/// order, and the reactions in the order they were added.
pub struct NetworkView {
    pub species: Seq<Seq<char>>,
    pub reactions: Seq<ReactionView>,
}

impl NetworkView {
    /// The view of a newly created network.
    pub open spec fn empty() -> NetworkView {
        NetworkView { species: Seq::empty(), reactions: Seq::empty() }
    }
}

/// A chemical reaction network: interned species names and an ordered
/// sequence of reactions. Created empty and grown by registering species
/// and appending reactions.
#[derive(Debug)]
pub struct Network {
    species: Registry,
    reactions: Vec<Reaction>,
}

impl View for Network {
    type V = NetworkView;

    closed spec fn view(&self) -> NetworkView {
        NetworkView {
            species: self.species@,
            reactions: self.reactions@.map_values(|r: Reaction| r@),
        }
    }
}

impl Network {
    /// The registry holds distinct names and every reaction is well formed.
    pub closed spec fn wf(&self) -> bool {
        &&& self.species.wf()
        &&& forall|i: int| 0 <= i < self.reactions@.len() ==> self.reactions@[i].wf()
    }

    /// An empty network: no species, no reactions.
    pub fn new() -> (n: Network)
        ensures
            n@ == NetworkView::empty(),
            n.wf(),
    {
        let n = Network { species: Registry::new(), reactions: Vec::new() };
        proof {
            assert(n@.reactions =~= Seq::<ReactionView>::empty());
        }
        n
    }

    /// Interns a species name, assigning the next dense id if it is new.
    pub fn register_species(&mut self, s: String) -> (id: usize)
        ensures
            ({
                let (names2, sid) = spec_register(old(self)@.species, s@);
                &&& final(self)@.species == names2
                &&& id as int == sid
            }),
            final(self)@.reactions == old(self)@.reactions,
            id < final(self)@.species.len(),
            final(self)@.species[id as int] == s@,
            old(self).wf() ==> final(self).wf(),
    {
        self.species.register(s)
    }

    /// Appends a reaction; the order of addition is the order reported back.
    pub fn add_reaction(&mut self, rxn: Reaction)
        ensures
            final(self)@.reactions == old(self)@.reactions.push(rxn@),
            final(self)@.species == old(self)@.species,
            old(self).wf() && rxn.wf() ==> final(self).wf(),
    {
        let ghost r0 = self.reactions@;
        self.reactions.push(rxn);
        proof {
            assert(self@.reactions =~= r0.map_values(|r: Reaction| r@).push(rxn@));
        }
    }

    /// Interns `s` and accumulates `c` into `complex`'s entry for the
    /// resulting id; returns false, registering the species but leaving the
    /// complex unchanged, when the coefficient would not fit in u64.
    pub fn add_term_to(&mut self, complex: &mut Complex, s: String, c: u64) -> (ok: bool)
        requires
            old(complex).wf(),
        ensures
            final(complex).wf(),
            ({
                let (names2, id) = spec_register(old(self)@.species, s@);
                &&& final(self)@.species == names2
                &&& ok == can_add_term(old(complex)@, id, c)
                &&& ok ==> final(complex)@ == spec_add_term(old(complex)@, id, c)
                &&& !ok ==> final(complex)@ == old(complex)@
            }),
            final(self)@.reactions == old(self)@.reactions,
            old(self).wf() ==> final(self).wf(),
    {
        let id = self.register_species(s);
        complex.add_term(id, c)
    }

    /// The number of reactions in the network.
    pub fn reaction_count(&self) -> (n: usize)
        ensures
            n == self@.reactions.len(),
    {
        self.reactions.len()
    }

    /// The `i`-th reaction, in the order the reactions were added.
    pub fn get_reaction(&self, i: usize) -> (r: &Reaction)
        requires
            i < self@.reactions.len(),
        ensures
            r@ == self@.reactions[i as int],
            self.wf() ==> r.wf(),
    {
        &self.reactions[i]
    }

    /// The number of distinct species registered.
    pub fn species_count(&self) -> (n: usize)
        ensures
            n == self@.species.len(),
    {
        self.species.len()
    }

    /// The name registered under species id `id`.
    pub fn get_species(&self, id: usize) -> (name: &String)
        requires
            id < self@.species.len(),
        ensures
            name@ == self@.species[id as int],
    {
        self.species.get_symbol(id)
    }

    /// The data-model invariant, visible on the view: a well-formed
    /// network's species names are pairwise distinct, and every
    /// stoichiometric coefficient stored in any reaction is strictly
    /// positive — there is no entry for coefficient zero.
    pub proof fn lemma_wf_model(&self)
        requires
            self.wf(),
        ensures
            forall|i: int, j: int|
                0 <= i < j < self@.species.len() ==> self@.species[i] != self@.species[j],
            forall|i: int, id: int|
                0 <= i < self@.reactions.len() && #[trigger] self@.reactions[i].reactants.contains_key(
                    id,
                ) ==> self@.reactions[i].reactants[id] >= 1,
            forall|i: int, id: int|
                0 <= i < self@.reactions.len() && #[trigger] self@.reactions[i].products.contains_key(
                    id,
                ) ==> self@.reactions[i].products[id] >= 1,
    {
        assert forall|i: int, id: int|
            0 <= i < self@.reactions.len() && #[trigger] self@.reactions[i].reactants.contains_key(
                id,
            ) implies self@.reactions[i].reactants[id] >= 1 by {
            self.reactions@[i].lemma_coefs_positive();
        }
        assert forall|i: int, id: int|
            0 <= i < self@.reactions.len() && #[trigger] self@.reactions[i].products.contains_key(
                id,
            ) implies self@.reactions[i].products[id] >= 1 by {
            self.reactions@[i].lemma_coefs_positive();
        }
    }
}

/// The species of the example network, in registration order.
pub open spec fn example_species() -> Seq<Seq<char>> {
    seq!["A"@, "C1"@, "B"@, "C2"@, "C3"@, "S"@, "E"@, "ES"@, "P"@]
}

/// The reactions of the example network: an exchange, a two-step cycle,
/// and a reversible enzyme binding with its catalytic step.
pub open spec fn example_reactions() -> Seq<ReactionView> {
    seq![
        ReactionView {
            name: None,
            reversible: false,
            reactants: map![0int => 1u64, 1int => 1u64],
            products: map![2int => 1u64, 3int => 1u64],
        },
        ReactionView {
            name: None,
            reversible: false,
            reactants: map![3int => 1u64],
            products: map![4int => 1u64],
        },
        ReactionView {
            name: None,
            reversible: false,
            reactants: map![4int => 1u64],
            products: map![1int => 1u64],
        },
        ReactionView {
            name: None,
            reversible: true,
            reactants: map![5int => 1u64, 6int => 1u64],
            products: map![7int => 1u64],
        },
        ReactionView {
            name: None,
            reversible: false,
            reactants: map![7int => 1u64],
            products: map![6int => 1u64, 8int => 1u64],
        },
    ]
}

impl Network {
    /// A fixed example network, built through the same operations the
    /// parser uses: `A + C1 -> B + C2`, the cycle `C2 -> C3 -> C1`, the
    /// reversible binding `S + E <-> ES` and the step `ES -> E + P`.
    pub fn build_example() -> (n: Network)
        ensures
            n.wf(),
            n@.species == example_species(),
            n@.reactions == example_reactions(),
    {
        let ghost s0 = Seq::<Seq<char>>::empty();
        let ghost s1 = s0.push("A"@);
        let ghost s2 = s1.push("C1"@);
        let ghost s3 = s2.push("B"@);
        let ghost s4 = s3.push("C2"@);
        let ghost s5 = s4.push("C3"@);
        let ghost s6 = s5.push("S"@);
        let ghost s7 = s6.push("E"@);
        let ghost s8 = s7.push("ES"@);
        let ghost s9 = s8.push("P"@);
        proof {
            reveal_strlit("A");
            reveal_strlit("C1");
            reveal_strlit("B");
            reveal_strlit("C2");
            reveal_strlit("C3");
            reveal_strlit("S");
            reveal_strlit("E");
            reveal_strlit("ES");
            reveal_strlit("P");
            assert("A"@.len() == 1 && "B"@.len() == 1 && "S"@.len() == 1 && "E"@.len() == 1
                && "P"@.len() == 1);
            assert("C1"@.len() == 2 && "C2"@.len() == 2 && "C3"@.len() == 2 && "ES"@.len() == 2);
            assert("A"@[0] == 'A' && "B"@[0] == 'B' && "S"@[0] == 'S' && "E"@[0] == 'E' && "P"@[0]
                == 'P');
            assert("C1"@[0] == 'C' && "C1"@[1] == '1' && "C2"@[1] == '2' && "C3"@[1] == '3'
                && "ES"@[0] == 'E');
            assert("A"@ != "C1"@ && "A"@ != "B"@ && "A"@ != "C2"@ && "A"@ != "C3"@ && "A"@ != "S"@
                && "A"@ != "E"@ && "A"@ != "ES"@ && "A"@ != "P"@);
            assert("C1"@ != "B"@ && "C1"@ != "C2"@ && "C1"@ != "C3"@ && "C1"@ != "S"@ && "C1"@
                != "E"@ && "C1"@ != "ES"@ && "C1"@ != "P"@);
            assert("B"@ != "C2"@ && "B"@ != "C3"@ && "B"@ != "S"@ && "B"@ != "E"@ && "B"@ != "ES"@
                && "B"@ != "P"@);
            assert("C2"@ != "C3"@ && "C2"@ != "S"@ && "C2"@ != "E"@ && "C2"@ != "ES"@ && "C2"@
                != "P"@);
            assert("C3"@ != "S"@ && "C3"@ != "E"@ && "C3"@ != "ES"@ && "C3"@ != "P"@);
            assert("S"@ != "E"@ && "S"@ != "ES"@ && "S"@ != "P"@);
            assert("E"@ != "ES"@ && "E"@ != "P"@);
            assert("ES"@ != "P"@);
        }
        let mut network = Network::new();

        let rct = Complex::binomial(&mut network, "A", "C1");
        proof {
            lemma_register_dense(s0, "A"@);
            assert(forall|i: int| 0 <= i < 1 ==> s1[i] != "C1"@) by {
                assert(s1[0] == "A"@);
            }
            lemma_register_dense(s1, "C1"@);
            assert(network@.species == s2);
            assert(rct@ =~= map![0int => 1u64, 1int => 1u64]);
        }
        let prod = Complex::binomial(&mut network, "B", "C2");
        proof {
            assert(forall|i: int| 0 <= i < 2 ==> s2[i] != "B"@) by {
                assert(s2[0] == "A"@ && s2[1] == "C1"@);
            }
            lemma_register_dense(s2, "B"@);
            assert(forall|i: int| 0 <= i < 3 ==> s3[i] != "C2"@) by {
                assert(s3[0] == "A"@ && s3[1] == "C1"@ && s3[2] == "B"@);
            }
            lemma_register_dense(s3, "C2"@);
            assert(network@.species == s4);
            assert(prod@ =~= map![2int => 1u64, 3int => 1u64]);
        }
        let rxn = Reaction::forward(rct, prod);
        network.add_reaction(rxn);

        let rct = Complex::monomial(&mut network, "C2");
        proof {
            assert(forall|i: int| 0 <= i < 3 ==> s4[i] != "C2"@) by {
                assert(s4[0] == "A"@ && s4[1] == "C1"@ && s4[2] == "B"@);
            }
            assert(s4[3] == "C2"@);
            lemma_register_existing(s4, "C2"@, 3);
            assert(rct@ =~= map![3int => 1u64]);
        }
        let prod = Complex::monomial(&mut network, "C3");
        proof {
            assert(forall|i: int| 0 <= i < 4 ==> s4[i] != "C3"@) by {
                assert(s4[0] == "A"@ && s4[1] == "C1"@ && s4[2] == "B"@ && s4[3] == "C2"@);
            }
            lemma_register_dense(s4, "C3"@);
            assert(network@.species == s5);
            assert(prod@ =~= map![4int => 1u64]);
        }
        let rxn = Reaction::forward(rct, prod);
        network.add_reaction(rxn);

        let rct = Complex::monomial(&mut network, "C3");
        proof {
            assert(forall|i: int| 0 <= i < 4 ==> s5[i] != "C3"@) by {
                assert(s5[0] == "A"@ && s5[1] == "C1"@ && s5[2] == "B"@ && s5[3] == "C2"@);
            }
            assert(s5[4] == "C3"@);
            lemma_register_existing(s5, "C3"@, 4);
            assert(rct@ =~= map![4int => 1u64]);
        }
        let prod = Complex::monomial(&mut network, "C1");
        proof {
            assert(forall|i: int| 0 <= i < 1 ==> s5[i] != "C1"@) by {
                assert(s5[0] == "A"@);
            }
            assert(s5[1] == "C1"@);
            lemma_register_existing(s5, "C1"@, 1);
            assert(network@.species == s5);
            assert(prod@ =~= map![1int => 1u64]);
        }
        let rxn = Reaction::forward(rct, prod);
        network.add_reaction(rxn);

        let rct = Complex::binomial(&mut network, "S", "E");
        proof {
            assert(forall|i: int| 0 <= i < 5 ==> s5[i] != "S"@) by {
                assert(s5[0] == "A"@ && s5[1] == "C1"@ && s5[2] == "B"@ && s5[3] == "C2"@ && s5[4]
                    == "C3"@);
            }
            lemma_register_dense(s5, "S"@);
            assert(forall|i: int| 0 <= i < 6 ==> s6[i] != "E"@) by {
                assert(s6[0] == "A"@ && s6[1] == "C1"@ && s6[2] == "B"@ && s6[3] == "C2"@ && s6[4]
                    == "C3"@ && s6[5] == "S"@);
            }
            lemma_register_dense(s6, "E"@);
            assert(network@.species == s7);
            assert(rct@ =~= map![5int => 1u64, 6int => 1u64]);
        }
        let prod = Complex::monomial(&mut network, "ES");
        proof {
            assert(forall|i: int| 0 <= i < 7 ==> s7[i] != "ES"@) by {
                assert(s7[0] == "A"@ && s7[1] == "C1"@ && s7[2] == "B"@ && s7[3] == "C2"@ && s7[4]
                    == "C3"@ && s7[5] == "S"@ && s7[6] == "E"@);
            }
            lemma_register_dense(s7, "ES"@);
            assert(network@.species == s8);
            assert(prod@ =~= map![7int => 1u64]);
        }
        let rxn = Reaction::reversible(rct, prod);
        network.add_reaction(rxn);

        let rct = Complex::monomial(&mut network, "ES");
        proof {
            assert(forall|i: int| 0 <= i < 7 ==> s8[i] != "ES"@) by {
                assert(s8[0] == "A"@ && s8[1] == "C1"@ && s8[2] == "B"@ && s8[3] == "C2"@ && s8[4]
                    == "C3"@ && s8[5] == "S"@ && s8[6] == "E"@);
            }
            assert(s8[7] == "ES"@);
            lemma_register_existing(s8, "ES"@, 7);
            assert(rct@ =~= map![7int => 1u64]);
        }
        let prod = Complex::binomial(&mut network, "E", "P");
        proof {
            assert(forall|i: int| 0 <= i < 6 ==> s8[i] != "E"@) by {
                assert(s8[0] == "A"@ && s8[1] == "C1"@ && s8[2] == "B"@ && s8[3] == "C2"@ && s8[4]
                    == "C3"@ && s8[5] == "S"@);
            }
            assert(s8[6] == "E"@);
            lemma_register_existing(s8, "E"@, 6);
            assert(forall|i: int| 0 <= i < 8 ==> s8[i] != "P"@) by {
                assert(s8[0] == "A"@ && s8[1] == "C1"@ && s8[2] == "B"@ && s8[3] == "C2"@ && s8[4]
                    == "C3"@ && s8[5] == "S"@ && s8[6] == "E"@ && s8[7] == "ES"@);
            }
            lemma_register_dense(s8, "P"@);
            assert(network@.species == s9);
            assert(prod@ =~= map![6int => 1u64, 8int => 1u64]);
        }
        let rxn = Reaction::forward(rct, prod);
        network.add_reaction(rxn);

        proof {
            assert(network@.species =~= example_species());
            assert(network@.reactions =~= example_reactions());
        }
        network
    }
}

impl Complex {
    /// A complex holding a single species with coefficient one, interning
    /// the species into `network`'s registry.
    pub fn monomial(network: &mut Network, s: &str) -> (c: Complex)
        ensures
            ({
                let (names2, id) = spec_register(old(network)@.species, s@);
                &&& final(network)@.species == names2
                &&& c@ == Map::<int, u64>::empty().insert(id, 1)
            }),
            final(network)@.reactions == old(network)@.reactions,
            old(network).wf() ==> final(network).wf(),
            c.wf(),
    {
        let mut c = Complex::new();
        let ok = network.add_term_to(&mut c, String::from_str(s), 1);
        proof {
            assert(ok);
        }
        c
    }

    /// A complex holding a single species with the given coefficient; a
    /// zero coefficient yields the empty complex.
    pub fn monomial_with_coef(network: &mut Network, s: &str, coef: u64) -> (c: Complex)
        ensures
            ({
                let (names2, id) = spec_register(old(network)@.species, s@);
                &&& final(network)@.species == names2
                &&& c@ == spec_add_term(Map::<int, u64>::empty(), id, coef)
            }),
            final(network)@.reactions == old(network)@.reactions,
            old(network).wf() ==> final(network).wf(),
            c.wf(),
    {
        let mut c = Complex::new();
        let ok = network.add_term_to(&mut c, String::from_str(s), coef);
        proof {
            assert(ok);
        }
        c
    }

    /// A complex holding species `a` and `b` with coefficient one each; the
    /// same name twice accumulates to coefficient two.
    pub fn binomial(network: &mut Network, a: &str, b: &str) -> (c: Complex)
        ensures
            ({
                let (names1, ida) = spec_register(old(network)@.species, a@);
                let (names2, idb) = spec_register(names1, b@);
                &&& final(network)@.species == names2
                &&& c@ == spec_add_term(Map::<int, u64>::empty().insert(ida, 1), idb, 1)
            }),
            final(network)@.reactions == old(network)@.reactions,
            old(network).wf() ==> final(network).wf(),
            c.wf(),
    {
        let mut c = Complex::new();
        let ok_a = network.add_term_to(&mut c, String::from_str(a), 1);
        proof {
            assert(ok_a);
        }
        let ok_b = network.add_term_to(&mut c, String::from_str(b), 1);
        proof {
            assert(ok_b);
        }
        c
    }
}

} // verus!
