//! Tests for the data model: registry, complex, reaction, network.

use reaction_net::complex::Complex;
use reaction_net::network::Network;
use reaction_net::reaction::Reaction;
use reaction_net::registry::Registry;

#[test]
fn registry_idempotent_interning() {
    let mut reg = Registry::new();
    let a1 = reg.register(String::from("water"));
    let a2 = reg.register(String::from("water"));
    assert_eq!(a1, a2);
    assert_eq!(reg.len(), 1);
    assert_eq!(reg.get_symbol(a1).as_str(), "water");
}

#[test]
fn registry_dense_id_assignment() {
    let mut reg = Registry::new();
    assert_eq!(reg.register(String::from("A")), 0);
    assert_eq!(reg.register(String::from("B")), 1);
    assert_eq!(reg.register(String::from("C")), 2);
    assert_eq!(reg.register(String::from("B")), 1);
    assert_eq!(reg.register(String::from("D")), 3);
    assert_eq!(reg.len(), 4);
    assert_eq!(reg.get_symbol(0).as_str(), "A");
    assert_eq!(reg.get_symbol(3).as_str(), "D");
}

#[test]
fn complex_accumulates_coefficients() {
    let mut cx = Complex::new();
    assert!(cx.add_term(7, 2));
    assert!(cx.add_term(7, 3));
    assert_eq!(cx.get_coef(7), 5);
    assert_eq!(cx.get_coef(8), 0);
    assert_eq!(cx.num_species(), 1);
    assert!(cx.add_term(8, 1));
    assert_eq!(cx.num_species(), 2);
}

#[test]
fn complex_zero_coefficient_adds_nothing() {
    let mut cx = Complex::new();
    assert!(cx.add_term(1, 0));
    assert_eq!(cx.num_species(), 0);
    assert_eq!(cx.get_coef(1), 0);
}

#[test]
fn complex_overflow_is_rejected() {
    let mut cx = Complex::new();
    assert!(cx.add_term(1, u64::MAX));
    assert!(!cx.add_term(1, 1));
    assert_eq!(cx.get_coef(1), u64::MAX);
    assert_eq!(cx.num_species(), 1);
}

#[test]
fn reaction_constructors() {
    let mut left = Complex::new();
    assert!(left.add_term(0, 1));
    let mut right = Complex::new();
    assert!(right.add_term(1, 2));
    let fwd = Reaction::forward(left, right);
    assert!(!fwd.is_reversible());
    assert_eq!(fwd.get_reactants().get_coef(0), 1);
    assert_eq!(fwd.get_products().get_coef(1), 2);
    assert!(fwd.get_name().is_none());

    let rev = Reaction::reversible(Complex::new(), Complex::new());
    assert!(rev.is_reversible());

    let named = Reaction::named_forward(String::from("burn"), Complex::new(), Complex::new());
    assert_eq!(named.get_name().as_ref().unwrap().as_str(), "burn");
    let named2 = Reaction::named_reversible(String::from("bind"), Complex::new(), Complex::new());
    assert!(named2.is_reversible());
    assert_eq!(named2.get_name().as_ref().unwrap().as_str(), "bind");

    let mut r = Reaction::new();
    assert!(!r.is_reversible());
    assert!(r.get_name().is_none());
    r.set_name(String::from("later"));
    assert_eq!(r.get_name().as_ref().unwrap().as_str(), "later");
}

#[test]
fn network_keeps_reaction_order() {
    let mut net = Network::new();
    assert_eq!(net.reaction_count(), 0);
    assert_eq!(net.species_count(), 0);
    let a = net.register_species(String::from("A"));
    let b = net.register_species(String::from("B"));
    assert_eq!(a, 0);
    assert_eq!(b, 1);

    let mut left = Complex::new();
    assert!(net.add_term_to(&mut left, String::from("A"), 1));
    let mut right = Complex::new();
    assert!(net.add_term_to(&mut right, String::from("B"), 1));
    net.add_reaction(Reaction::forward(left, right));

    let mut left2 = Complex::new();
    assert!(net.add_term_to(&mut left2, String::from("B"), 1));
    let mut right2 = Complex::new();
    assert!(net.add_term_to(&mut right2, String::from("C"), 1));
    net.add_reaction(Reaction::reversible(left2, right2));

    assert_eq!(net.species_count(), 3);
    assert_eq!(net.get_species(2).as_str(), "C");
    assert_eq!(net.reaction_count(), 2);
    assert!(!net.get_reaction(0).is_reversible());
    assert!(net.get_reaction(1).is_reversible());
    assert_eq!(net.get_reaction(0).get_reactants().get_coef(0), 1);
    assert_eq!(net.get_reaction(1).get_reactants().get_coef(1), 1);
}

#[test]
fn add_term_to_interns_and_accumulates() {
    let mut net = Network::new();
    let mut cx = Complex::new();
    assert!(net.add_term_to(&mut cx, String::from("A"), 2));
    assert!(net.add_term_to(&mut cx, String::from("A"), 1));
    assert_eq!(net.species_count(), 1);
    assert_eq!(cx.get_coef(0), 3);
    assert_eq!(cx.num_species(), 1);
}

#[test]
fn complex_monomial_and_binomial() {
    let mut net = Network::new();
    let m = Complex::monomial(&mut net, "A");
    assert_eq!(m.get_coef(0), 1);
    let mc = Complex::monomial_with_coef(&mut net, "B", 4);
    assert_eq!(mc.get_coef(1), 4);
    let b = Complex::binomial(&mut net, "C", "D");
    assert_eq!(b.get_coef(2), 1);
    assert_eq!(b.get_coef(3), 1);
    let doubled = Complex::binomial(&mut net, "E", "E");
    assert_eq!(doubled.get_coef(4), 2);
    assert_eq!(net.species_count(), 5);
}

#[test]
fn example_network_contents() {
    let net = Network::build_example();
    let names: Vec<&str> = (0..net.species_count())
        .map(|i| net.get_species(i).as_str())
        .collect();
    assert_eq!(names, vec!["A", "C1", "B", "C2", "C3", "S", "E", "ES", "P"]);
    assert_eq!(net.reaction_count(), 5);
    let binding = net.get_reaction(3);
    assert!(binding.is_reversible());
    assert_eq!(binding.get_reactants().get_coef(5), 1);
    assert_eq!(binding.get_reactants().get_coef(6), 1);
    assert_eq!(binding.get_products().get_coef(7), 1);
    let catalytic = net.get_reaction(4);
    assert!(!catalytic.is_reversible());
    assert_eq!(catalytic.get_reactants().get_coef(7), 1);
    assert_eq!(catalytic.get_products().get_coef(6), 1);
    assert_eq!(catalytic.get_products().get_coef(8), 1);
}
