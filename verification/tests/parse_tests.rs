//! End-to-end tests for the scanner and parser.

use reaction_net::grammar::{is_yield_symbol, Terminal};
use reaction_net::network::Network;
use reaction_net::parser::{ParseError, Parser};
use reaction_net::scanner::Scanner;

fn parse(src: &str) -> Result<Network, ParseError> {
    let scanner = Scanner::scan(src);
    let mut parser = Parser::new(scanner);
    parser.parse()
}

fn species_id(net: &Network, name: &str) -> usize {
    for i in 0..net.species_count() {
        if net.get_species(i).as_str() == name {
            return i;
        }
    }
    panic!("species {} not registered", name);
}

#[test]
fn coefficient_accumulation() {
    let net = parse("2*A + A -> B").unwrap_or_else(|_| panic!("parse failed"));
    assert_eq!(net.reaction_count(), 1);
    let rxn = net.get_reaction(0);
    let a = species_id(&net, "A");
    let b = species_id(&net, "B");
    assert_eq!(rxn.get_reactants().get_coef(a), 3);
    assert_eq!(rxn.get_reactants().num_species(), 1);
    assert_eq!(rxn.get_products().get_coef(b), 1);
    assert_eq!(rxn.get_products().num_species(), 1);
    assert!(!rxn.is_reversible());
}

#[test]
fn directionality_forward() {
    let net = parse("A -> B").unwrap_or_else(|_| panic!("parse failed"));
    let rxn = net.get_reaction(0);
    let a = species_id(&net, "A");
    let b = species_id(&net, "B");
    assert_eq!(rxn.get_reactants().get_coef(a), 1);
    assert_eq!(rxn.get_products().get_coef(b), 1);
    assert!(!rxn.is_reversible());
}

#[test]
fn directionality_backward() {
    let net = parse("A <- B").unwrap_or_else(|_| panic!("parse failed"));
    let rxn = net.get_reaction(0);
    let a = species_id(&net, "A");
    let b = species_id(&net, "B");
    assert_eq!(rxn.get_reactants().get_coef(b), 1);
    assert_eq!(rxn.get_reactants().get_coef(a), 0);
    assert_eq!(rxn.get_products().get_coef(a), 1);
    assert!(!rxn.is_reversible());
}

#[test]
fn directionality_reversible_arrow() {
    let net = parse("A <-> B").unwrap_or_else(|_| panic!("parse failed"));
    let rxn = net.get_reaction(0);
    let a = species_id(&net, "A");
    let b = species_id(&net, "B");
    assert_eq!(rxn.get_reactants().get_coef(a), 1);
    assert_eq!(rxn.get_products().get_coef(b), 1);
    assert!(rxn.is_reversible());
}

#[test]
fn directionality_equal_sign() {
    let net = parse("A = B").unwrap_or_else(|_| panic!("parse failed"));
    let rxn = net.get_reaction(0);
    let a = species_id(&net, "A");
    let b = species_id(&net, "B");
    assert_eq!(rxn.get_reactants().get_coef(a), 1);
    assert_eq!(rxn.get_products().get_coef(b), 1);
    assert!(rxn.is_reversible());
}

#[test]
fn newline_as_separator() {
    let net = parse("A->B\nC->D").unwrap_or_else(|_| panic!("parse failed"));
    assert_eq!(net.reaction_count(), 2);
    let a = species_id(&net, "A");
    let c = species_id(&net, "C");
    assert_eq!(net.get_reaction(0).get_reactants().get_coef(a), 1);
    assert_eq!(net.get_reaction(1).get_reactants().get_coef(c), 1);
}

#[test]
fn block_comment_is_transparent() {
    let with_comment = parse("A -> B /* note */ ; C -> D").unwrap_or_else(|_| {
        panic!("parse failed")
    });
    let stripped = parse("A -> B ; C -> D").unwrap_or_else(|_| panic!("parse failed"));
    assert_eq!(with_comment.reaction_count(), 2);
    assert_eq!(stripped.reaction_count(), 2);
    for net in [&with_comment, &stripped] {
        let b = species_id(net, "B");
        let c = species_id(net, "C");
        assert_eq!(net.get_reaction(0).get_products().get_coef(b), 1);
        assert_eq!(net.get_reaction(1).get_reactants().get_coef(c), 1);
    }
}

#[test]
fn line_comment_consumes_its_newline() {
    // The newline ending a line comment counts for the line number but
    // yields no separator, so a reaction on the next line is a syntax error.
    let r = parse("A -> B // note\nC -> D");
    assert!(matches!(r, Err(ParseError::Syntax(_))));
    // A trailing line comment after the last reaction is harmless.
    let net = parse("A -> B // note").unwrap_or_else(|_| panic!("parse failed"));
    assert_eq!(net.reaction_count(), 1);
}

#[test]
fn lex_failure_carries_line_number() {
    let mut scanner = Scanner::scan("A -> B\n#");
    loop {
        match scanner.next_token() {
            None => panic!("expected a lex error"),
            Some(Ok(_)) => continue,
            Some(Err(e)) => {
                assert_eq!(e.get_line(), 2);
                assert!(e.get_message().contains('#'));
                break;
            },
        }
    }
}

#[test]
fn lex_failure_propagates_through_parse() {
    let r = parse("A -> B\n#");
    match r {
        Err(ParseError::Lex(e)) => {
            assert_eq!(e.get_line(), 2);
            assert!(e.get_message().contains('#'));
        },
        _ => panic!("expected a lex error"),
    }
}

#[test]
fn missing_yield_is_a_syntax_error() {
    let r = parse("A B");
    assert!(matches!(r, Err(ParseError::Syntax(_))));
}

#[test]
fn fail_fast_on_empty_complex() {
    // The empty left-hand complex after `->` aborts the whole parse with a
    // single error; no partial network is returned.
    let r = parse("A -> ; B -> C");
    match r {
        Err(ParseError::Syntax(e)) => {
            assert_eq!(e.get_message().as_str(), "Factor Error.");
        },
        _ => panic!("expected a syntax error"),
    }
}

#[test]
fn parenthesized_complexes_are_not_accepted() {
    // The grammar has no nested complexes: a parenthesis cannot start a
    // monomial.
    let r = parse("(A) -> B");
    match r {
        Err(ParseError::Syntax(e)) => {
            assert_eq!(e.get_message().as_str(), "Factor Error.");
        },
        _ => panic!("expected a syntax error"),
    }
}

#[test]
fn empty_input_is_unexpected_eof() {
    assert!(matches!(parse(""), Err(ParseError::UnexpectedEOF)));
    assert!(matches!(parse("A ->"), Err(ParseError::UnexpectedEOF)));
    assert!(matches!(parse("A"), Err(ParseError::UnexpectedEOF)));
    assert!(matches!(parse("2*"), Err(ParseError::UnexpectedEOF)));
}

#[test]
fn trailing_and_repeated_separators() {
    assert_eq!(parse("A->B;").unwrap_or_else(|_| panic!("parse failed")).reaction_count(), 1);
    assert_eq!(parse("A->B\n").unwrap_or_else(|_| panic!("parse failed")).reaction_count(), 1);
    assert_eq!(
        parse("A->B;;C->D").unwrap_or_else(|_| panic!("parse failed")).reaction_count(),
        2,
    );
    assert_eq!(
        parse("A->B\n\nC->D").unwrap_or_else(|_| panic!("parse failed")).reaction_count(),
        2,
    );
}

#[test]
fn coefficient_star_is_optional() {
    let net = parse("2 A -> B").unwrap_or_else(|_| panic!("parse failed"));
    let a = species_id(&net, "A");
    assert_eq!(net.get_reaction(0).get_reactants().get_coef(a), 2);
}

#[test]
fn largest_coefficient_fits() {
    let net = parse("18446744073709551615*A -> B").unwrap_or_else(|_| panic!("parse failed"));
    let a = species_id(&net, "A");
    assert_eq!(net.get_reaction(0).get_reactants().get_coef(a), u64::MAX);
}

#[test]
fn coefficient_overflow_is_an_error() {
    let r = parse("18446744073709551615*A + 18446744073709551615*A -> B");
    match r {
        Err(ParseError::Syntax(e)) => {
            assert_eq!(e.get_message().as_str(), "Stoichiometric coefficient overflow");
        },
        _ => panic!("expected a syntax error"),
    }
}

#[test]
fn numeric_run_too_large_for_u64_is_an_identifier() {
    // A digit run whose value exceeds u64 is classified as an identifier.
    let net = parse("99999999999999999999999999 -> B").unwrap_or_else(|_| {
        panic!("parse failed")
    });
    assert_eq!(net.get_species(0).as_str(), "99999999999999999999999999");
}

#[test]
fn quoted_identifier_is_verbatim() {
    // A quoted run is an identifier even when numeric-looking.
    let net = parse("\"2\" -> B").unwrap_or_else(|_| panic!("parse failed"));
    assert_eq!(net.get_species(0).as_str(), "2");
    // End of input silently closes an unterminated quote.
    let net2 = parse("A -> \"B").unwrap_or_else(|_| panic!("parse failed"));
    assert_eq!(net2.get_species(1).as_str(), "B");
}

#[test]
fn unterminated_block_comment_runs_to_end() {
    let net = parse("A -> B /* open").unwrap_or_else(|_| panic!("parse failed"));
    assert_eq!(net.reaction_count(), 1);
}

#[test]
fn non_ascii_names_are_identifiers() {
    let net = parse("\u{3b1} -> \u{3b2}").unwrap_or_else(|_| panic!("parse failed"));
    assert_eq!(net.get_species(0).as_str(), "\u{3b1}");
    assert_eq!(net.get_species(1).as_str(), "\u{3b2}");
}

#[test]
fn unicode_whitespace_is_skipped() {
    // A no-break space separates tokens but is not a statement separator.
    let net = parse("A\u{a0}->\u{a0}B").unwrap_or_else(|_| panic!("parse failed"));
    assert_eq!(net.reaction_count(), 1);
    assert_eq!(net.get_species(0).as_str(), "A");
}

#[test]
fn scanner_tokens_and_lines() {
    let mut scanner = Scanner::scan("( 12 foo ->\n<->");
    assert_eq!(scanner.get_line_num(), 1);
    assert!(matches!(scanner.next_token(), Some(Ok(Terminal::LeftParen))));
    match scanner.next_token() {
        Some(Ok(t)) => {
            assert!(t.is_number());
            assert!(!t.is_identifier());
            assert_eq!(t.get_number(), 12);
        },
        _ => panic!("expected a number"),
    }
    match scanner.next_token() {
        Some(Ok(t)) => {
            assert!(t.is_identifier());
            assert_eq!(t.get_identifier().unwrap().as_str(), "foo");
        },
        _ => panic!("expected an identifier"),
    }
    match scanner.next_token() {
        Some(Ok(t)) => assert!(is_yield_symbol(&t)),
        _ => panic!("expected an arrow"),
    }
    assert!(matches!(scanner.next_token(), Some(Ok(Terminal::SemiColon))));
    assert_eq!(scanner.get_line_num(), 2);
    assert!(matches!(scanner.next_token(), Some(Ok(Terminal::LeftRightArrow))));
    assert!(scanner.next_token().is_none());
}

#[test]
fn scanner_distinguishes_operators() {
    let mut scanner = Scanner::scan("< <- - / , ' : = > { } [ ] )");
    assert!(matches!(scanner.next_token(), Some(Ok(Terminal::Less))));
    assert!(matches!(scanner.next_token(), Some(Ok(Terminal::LeftArrow))));
    assert!(matches!(scanner.next_token(), Some(Ok(Terminal::Minus))));
    assert!(matches!(scanner.next_token(), Some(Ok(Terminal::Slash))));
    assert!(matches!(scanner.next_token(), Some(Ok(Terminal::Comma))));
    assert!(matches!(scanner.next_token(), Some(Ok(Terminal::Tick))));
    assert!(matches!(scanner.next_token(), Some(Ok(Terminal::Colon))));
    assert!(matches!(scanner.next_token(), Some(Ok(Terminal::Equal))));
    assert!(matches!(scanner.next_token(), Some(Ok(Terminal::Greater))));
    assert!(matches!(scanner.next_token(), Some(Ok(Terminal::LeftBrace))));
    assert!(matches!(scanner.next_token(), Some(Ok(Terminal::RightBrace))));
    assert!(matches!(scanner.next_token(), Some(Ok(Terminal::LeftBracket))));
    assert!(matches!(scanner.next_token(), Some(Ok(Terminal::RightBracket))));
    assert!(matches!(scanner.next_token(), Some(Ok(Terminal::RightParen))));
    assert!(scanner.next_token().is_none());
}

#[test]
fn mixed_identifier_with_digits() {
    let net = parse("2*H2O -> H2 + O2").unwrap_or_else(|_| panic!("parse failed"));
    let water = species_id(&net, "H2O");
    assert_eq!(net.get_reaction(0).get_reactants().get_coef(water), 2);
    assert_eq!(net.get_reaction(0).get_products().num_species(), 2);
}
