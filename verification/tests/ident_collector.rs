use funcmap::ident_collector::{IdentCollector, VisitingIdentCollector};

use proc_macro2::{Ident, Span};
use syn::visit::Visit;

struct Visitor(VisitingIdentCollector);

impl Visit<'_> for Visitor {
    fn visit_ident(&mut self, ident: &Ident) {
        self.0.visit_ident(ident.to_string());
    }
}

#[test]
fn when_desired_letter_is_available_it_gets_reserved() {
    let mut collector = IdentCollector::new();

    let ident = collector.reserve_uppercase_letter('T', Span::call_site());

    assert_eq!(ident.text, "T");
}

#[test]
fn when_desired_letter_is_already_reserved_uses_next() {
    let mut collector = IdentCollector::new();
    collector.reserve_uppercase_letter('T', Span::call_site());

    let ident = collector.reserve_uppercase_letter('T', Span::call_site());

    assert_eq!(ident.text, "U");
}

#[test]
fn when_rest_of_alphabet_is_already_reserved_wraps_around() {
    let mut collector = IdentCollector::new();
    collector.reserve_uppercase_letter('Z', Span::call_site());

    let ident = collector.reserve_uppercase_letter('Z', Span::call_site());

    assert_eq!(ident.text, "A");
}

#[test]
fn when_entire_alphabet_is_already_reserved_uses_prefix() {
    let mut collector = IdentCollector::new();
    for c in 'A'..='Z' {
        collector.reserve_uppercase_letter(c, Span::call_site());
    }

    let ident = collector.reserve_uppercase_letter('T', Span::call_site());

    assert_eq!(ident.text, "__FUNCMAP_T");
}

#[test]
fn when_desired_letter_with_prefix_is_already_reserved_uses_next() {
    let mut collector = IdentCollector::new();
    for c in 'A'..='Z' {
        collector.reserve_uppercase_letter(c, Span::call_site());
    }
    collector.reserve_uppercase_letter('T', Span::call_site());

    let ident = collector.reserve_uppercase_letter('T', Span::call_site());

    assert_eq!(ident.text, "__FUNCMAP_U");
}

#[test]
fn when_entire_alphabet_with_prefix_is_already_reserved_uses_counter() {
    let mut collector = IdentCollector::new();
    for c in ('A'..='Z').chain('A'..='Z') {
        collector.reserve_uppercase_letter(c, Span::call_site());
    }

    let ident = collector.reserve_uppercase_letter('T', Span::call_site());

    assert_eq!(ident.text, "__FUNCMAP_T2");
}

#[test]
fn when_desired_letter_with_prefix_and_counter_is_already_reserved_uses_next() {
    let mut collector = IdentCollector::new();
    for c in ('A'..='Z').chain('A'..='Z') {
        collector.reserve_uppercase_letter(c, Span::call_site());
    }
    collector.reserve_uppercase_letter('T', Span::call_site());

    let ident = collector.reserve_uppercase_letter('T', Span::call_site());

    assert_eq!(ident.text, "__FUNCMAP_U2");
}

#[test]
fn visiting_reserves_visited_idents() {
    let mut visitor = Visitor(IdentCollector::new_visiting());
    let input: syn::DeriveInput = syn::parse_str("struct TestType<T, U, V>;").unwrap();
    visitor.visit_derive_input(&input);
    let mut collector = visitor.0.into_reserved();

    let ident = collector.reserve_uppercase_letter('T', Span::call_site());

    assert_eq!(ident.text, "W");
}

#[test]
fn reserved_letters_are_found_by_contains() {
    let mut collector = IdentCollector::new();
    collector.reserve_uppercase_letter('B', Span::call_site());

    assert!(collector.contains(&"B".to_string()));
    assert!(!collector.contains(&"C".to_string()));
}

#[test]
fn counter_keeps_growing_past_two() {
    let mut collector = IdentCollector::new();
    for _ in 0..3 {
        for c in 'A'..='Z' {
            collector.reserve_uppercase_letter(c, Span::call_site());
        }
    }

    let ident = collector.reserve_uppercase_letter('A', Span::call_site());

    assert_eq!(ident.text, "__FUNCMAP_A3");
}
