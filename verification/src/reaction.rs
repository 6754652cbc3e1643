//! A reaction: an optional name, a reversibility flag, and the two
//! complexes it transforms between.

use crate::complex::Complex;
use vstd::prelude::*;

verus! {

/// Mathematical view of a reaction.
pub struct ReactionView {
    pub name: Option<Seq<char>>,
    pub reversible: bool,
    pub reactants: Map<int, u64>,
    pub products: Map<int, u64>,
}

/// A reaction joining a reactant complex to a product complex, immutable
/// once constructed apart from naming.
#[derive(Debug)]
pub struct Reaction {
    name: Option<String>,
    reversible: bool,
    reactants: Complex,
    products: Complex,
}

impl View for Reaction {
    type V = ReactionView;

    closed spec fn view(&self) -> ReactionView {
        ReactionView {
            name: match self.name {
                Some(s) => Some(s@),
                None => None,
            },
            reversible: self.reversible,
            reactants: self.reactants@,
            products: self.products@,
        }
    }
}

impl Reaction {
    /// Both complexes are well formed.
    pub closed spec fn wf(&self) -> bool {
        self.reactants.wf() && self.products.wf()
    }

    /// An unnamed irreversible reaction between two empty complexes.
    pub fn new() -> (r: Reaction)
        ensures
            r@ == (ReactionView {
                name: None,
                reversible: false,
                reactants: Map::<int, u64>::empty(),
                products: Map::<int, u64>::empty(),
            }),
            r.wf(),
    {
        Reaction {
            name: None,
            reversible: false,
            reactants: Complex::new(),
            products: Complex::new(),
        }
    }

    /// An unnamed reversible reaction.
    pub fn reversible(reactants: Complex, products: Complex) -> (r: Reaction)
        ensures
            r@ == (ReactionView {
                name: None,
                reversible: true,
                reactants: reactants@,
                products: products@,
            }),
            reactants.wf() && products.wf() ==> r.wf(),
    {
        Reaction { name: None, reversible: true, reactants, products }
    }

    /// An unnamed forward (irreversible) reaction.
    pub fn forward(reactants: Complex, products: Complex) -> (r: Reaction)
        ensures
            r@ == (ReactionView {
                name: None,
                reversible: false,
                reactants: reactants@,
                products: products@,
            }),
            reactants.wf() && products.wf() ==> r.wf(),
    {
        Reaction { name: None, reversible: false, reactants, products }
    }

    /// A named reversible reaction.
    pub fn named_reversible(name: String, reactants: Complex, products: Complex) -> (r: Reaction)
        ensures
            r@ == (ReactionView {
                name: Some(name@),
                reversible: true,
                reactants: reactants@,
                products: products@,
            }),
            reactants.wf() && products.wf() ==> r.wf(),
    {
        Reaction { name: Some(name), reversible: true, reactants, products }
    }

    /// A named forward (irreversible) reaction.
    pub fn named_forward(name: String, reactants: Complex, products: Complex) -> (r: Reaction)
        ensures
            r@ == (ReactionView {
                name: Some(name@),
                reversible: false,
                reactants: reactants@,
                products: products@,
            }),
            reactants.wf() && products.wf() ==> r.wf(),
    {
        Reaction { name: Some(name), reversible: false, reactants, products }
    }

    /// Renames the reaction, leaving everything else unchanged.
    pub fn set_name(&mut self, name: String)
        ensures
            final(self)@ == (ReactionView { name: Some(name@), ..old(self)@ }),
            old(self).wf() ==> final(self).wf(),
    {
        self.name = Some(name);
    }

    /// Whether the reaction is reversible.
    pub fn is_reversible(&self) -> (b: bool)
        ensures
            b == self@.reversible,
    {
        self.reversible
    }

    /// The reactant complex.
    pub fn get_reactants(&self) -> (c: &Complex)
        ensures
            c@ == self@.reactants,
            self.wf() ==> c.wf(),
    {
        &self.reactants
    }

    /// The product complex.
    pub fn get_products(&self) -> (c: &Complex)
        ensures
            c@ == self@.products,
            self.wf() ==> c.wf(),
    {
        &self.products
    }

    /// In a well-formed reaction every stoichiometric coefficient, on both
    /// sides, is strictly positive.
    pub proof fn lemma_coefs_positive(&self)
        requires
            self.wf(),
        ensures
            forall|id: int| self@.reactants.contains_key(id) ==> self@.reactants[id] >= 1,
            forall|id: int| self@.products.contains_key(id) ==> self@.products[id] >= 1,
    {
        self.reactants.lemma_coefs_positive();
        self.products.lemma_coefs_positive();
    }

    /// The reaction's name, if it has one.
    pub fn get_name(&self) -> (n: &Option<String>)
        ensures
            n matches Some(s) ==> self@.name == Some(s@),
            n is None ==> self@.name is None,
    {
        &self.name
    }
}

} // verus!
