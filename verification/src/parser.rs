//! Syntax analysis: a recursive-descent parser with one-token lookahead
//! that consumes the scanner's token sequence and builds a network.
//!
//! The mathematical model is a family of spec functions, one per grammar
//! production, that interpret the character sequence from a cursor:
//!
//! ```text
//! Program      := ReactionList
//! ReactionList := Reaction (`;` Reaction)*   (trailing and repeated `;` allowed)
//! Reaction     := Complex YieldOp Complex
//! YieldOp      := `->` | `<-` | `<->` | `=`
//! Complex      := Monomial (`+` Monomial)*
//! Monomial     := [Number [`*`]] Identifier
//! ```
//!
//! Parsing is fail-fast: the first scanner or grammar error aborts the
//! whole parse and no partial network is returned.

use crate::complex::{can_add_term, spec_add_term, Complex};
use crate::grammar::{is_yield_symbol, spec_is_yield_symbol, Terminal, TokenView};
use crate::network::{Network, NetworkView};
use crate::reaction::{Reaction, ReactionView};
use crate::registry::spec_register;
use crate::scanner::{
    lemma_scan_next_bounds, lemma_scanner_bounds, lex_message, scan_next, LexError, ScanStep,
    Scanner,
};
use vstd::pervasive::unreached;
use vstd::prelude::*;
use vstd::string::StringExecFns;

verus! {

/// Error for a token sequence that violates the grammar. The line field is
/// carried for rendering but is not filled in by the parser.
#[derive(Debug)]
pub struct SyntaxError {
    message: String,
    line: u64,
}

/// Mathematical view of a syntax error.
pub struct SyntaxErrorView {
    pub message: Seq<char>,
    pub line: nat,
}

impl View for SyntaxError {
    type V = SyntaxErrorView;

    closed spec fn view(&self) -> SyntaxErrorView {
        SyntaxErrorView { message: self.message@, line: self.line as nat }
    }
}

impl SyntaxError {
    /// A syntax error with the given message, on line zero.
    pub fn new(message: &str) -> (e: SyntaxError)
        ensures
            e@ == (SyntaxErrorView { message: message@, line: 0 as nat }),
    {
        SyntaxError { message: String::from_str(message), line: 0 }
    }

    /// The error message.
    pub fn get_message(&self) -> (m: &String)
        ensures
            m@ == self@.message,
    {
        &self.message
    }

    /// The line recorded for the error.
    pub fn get_line(&self) -> (l: u64)
        ensures
            l as nat == self@.line,
    {
        self.line
    }
}

/// Errors from parsing: a scanner error wrapped as-is, a grammar
/// violation, or input exhausted where a token was mandatory.
#[derive(Debug)]
pub enum ParseError {
    Lex(LexError),
    Syntax(SyntaxError),
    UnexpectedEOF,
}

/// Mathematical view of a parse error.
pub enum ParseErrorView {
    Lex { message: Seq<char>, line: nat },
    Syntax { message: Seq<char> },
    UnexpectedEOF,
}

impl View for ParseError {
    type V = ParseErrorView;

    open spec fn view(&self) -> ParseErrorView {
        match self {
            ParseError::Lex(e) => ParseErrorView::Lex { message: e@.message, line: e@.line },
            ParseError::Syntax(e) => ParseErrorView::Syntax { message: e@.message },
            ParseError::UnexpectedEOF => ParseErrorView::UnexpectedEOF,
        }
    }
}

/// Message for a missing yield operator.
pub open spec fn msg_expected_yield() -> Seq<char> {
    "Expected yield symbol '->', '<-', '<->' or '='"@
}

/// Message for a complex whose next token can start no monomial.
pub open spec fn msg_factor() -> Seq<char> {
    "Factor Error."@
}

/// Message when neither a separator nor the end of input follows a reaction.
pub open spec fn msg_expected_separator() -> Seq<char> {
    "Expected separator or end of input"@
}

/// Message when an accumulated stoichiometric coefficient leaves u64.
pub open spec fn msg_coef_overflow() -> Seq<char> {
    "Stoichiometric coefficient overflow"@
}

/// A position in the scan: character index and line number.
pub struct Cursor {
    pub pos: int,
    pub line: nat,
}

/// Outcome of a spec-level parse step: a value with the cursor after it,
/// or the first error met.
pub enum Parsed<T> {
    Accept { v: T, cur: Cursor },
    Reject { e: ParseErrorView },
}

/// The Species production: a mandatory identifier, interned into the
/// network, with `coef` accumulated into the complex; fails on any other
/// token, on the end of input, and when the coefficient leaves u64.
pub open spec fn sp_species(
    s: Seq<char>,
    cur: Cursor,
    net: NetworkView,
    cx: Map<int, u64>,
    coef: u64,
) -> Parsed<(NetworkView, Map<int, u64>)> {
    match scan_next(s, cur.pos, cur.line) {
        ScanStep::End { .. } => Parsed::Reject { e: ParseErrorView::UnexpectedEOF },
        ScanStep::Fail { c, pos, line } => Parsed::Reject {
            e: ParseErrorView::Lex { message: lex_message(c), line },
        },
        ScanStep::Token { t: TokenView::Identifier(name), pos, line } => {
            let (names2, id) = spec_register(net.species, name);
            if !can_add_term(cx, id, coef) {
                Parsed::Reject { e: ParseErrorView::Syntax { message: msg_coef_overflow() } }
            } else {
                Parsed::Accept {
                    v: (
                        NetworkView { species: names2, reactions: net.reactions },
                        spec_add_term(cx, id, coef),
                    ),
                    cur: Cursor { pos, line },
                }
            }
        },
        ScanStep::Token { .. } => Parsed::Reject {
            e: ParseErrorView::Syntax { message: msg_factor() },
        },
    }
}

/// A successful Species production consumes at least one character.
pub proof fn lemma_sp_species_advances(
    s: Seq<char>,
    cur: Cursor,
    net: NetworkView,
    cx: Map<int, u64>,
    coef: u64,
)
    requires
        0 <= cur.pos <= s.len(),
    ensures
        sp_species(s, cur, net, cx, coef) matches Parsed::Accept { cur: c2, .. } ==> cur.pos < c2.pos
            <= s.len(),
{
    lemma_scan_next_bounds(s, cur.pos, cur.line);
}

/// The Monomial production: an optional number (default coefficient one)
/// optionally followed by `*`, then a mandatory species identifier.
pub open spec fn sp_monomial(s: Seq<char>, cur: Cursor, net: NetworkView, cx: Map<int, u64>) -> Parsed<
    (NetworkView, Map<int, u64>),
> {
    match scan_next(s, cur.pos, cur.line) {
        ScanStep::End { .. } => Parsed::Reject { e: ParseErrorView::UnexpectedEOF },
        ScanStep::Fail { c, pos, line } => Parsed::Reject {
            e: ParseErrorView::Lex { message: lex_message(c), line },
        },
        ScanStep::Token { t: TokenView::Number(coef), pos, line } => {
            let cur1 = Cursor { pos, line };
            match scan_next(s, cur1.pos, cur1.line) {
                ScanStep::Fail { c, pos: p2, line: l2 } => Parsed::Reject {
                    e: ParseErrorView::Lex { message: lex_message(c), line: l2 },
                },
                ScanStep::Token { t: TokenView::Star, pos: p2, line: l2 } => sp_species(
                    s,
                    Cursor { pos: p2, line: l2 },
                    net,
                    cx,
                    coef,
                ),
                _ => sp_species(s, cur1, net, cx, coef),
            }
        },
        ScanStep::Token { .. } => sp_species(s, cur, net, cx, 1),
    }
}

/// A successful Monomial production consumes at least one character.
pub proof fn lemma_sp_monomial_advances(
    s: Seq<char>,
    cur: Cursor,
    net: NetworkView,
    cx: Map<int, u64>,
)
    requires
        0 <= cur.pos <= s.len(),
    ensures
        sp_monomial(s, cur, net, cx) matches Parsed::Accept { cur: c2, .. } ==> cur.pos < c2.pos
            <= s.len(),
{
    lemma_scan_next_bounds(s, cur.pos, cur.line);
    match scan_next(s, cur.pos, cur.line) {
        ScanStep::Token { t: TokenView::Number(coef), pos, line } => {
            let cur1 = Cursor { pos, line };
            lemma_scan_next_bounds(s, cur1.pos, cur1.line);
            match scan_next(s, cur1.pos, cur1.line) {
                ScanStep::Token { t: TokenView::Star, pos: p2, line: l2 } => {
                    lemma_sp_species_advances(s, Cursor { pos: p2, line: l2 }, net, cx, coef);
                },
                _ => {
                    lemma_sp_species_advances(s, cur1, net, cx, coef);
                },
            }
        },
        ScanStep::Token { .. } => {
            lemma_sp_species_advances(s, cur, net, cx, 1);
        },
        _ => {},
    }
}

/// The `(+ Monomial)*` tail of a Complex: as long as the next token is a
/// plus, consume it and the following monomial.
pub open spec fn sp_monomials(s: Seq<char>, cur: Cursor, net: NetworkView, cx: Map<int, u64>) -> Parsed<
    (NetworkView, Map<int, u64>),
>
    decreases s.len() - cur.pos,
    via sp_monomials_dec
{
    match scan_next(s, cur.pos, cur.line) {
        ScanStep::Token { t: TokenView::Plus, pos, line } => {
            match sp_monomial(s, Cursor { pos, line }, net, cx) {
                Parsed::Accept { v, cur: cur2 } => sp_monomials(s, cur2, v.0, v.1),
                Parsed::Reject { e } => Parsed::Reject { e },
            }
        },
        ScanStep::Fail { c, pos, line } => Parsed::Reject {
            e: ParseErrorView::Lex { message: lex_message(c), line },
        },
        _ => Parsed::Accept { v: (net, cx), cur },
    }
}

#[via_fn]
proof fn sp_monomials_dec(s: Seq<char>, cur: Cursor, net: NetworkView, cx: Map<int, u64>) {
    if 0 <= cur.pos <= s.len() {
        lemma_scan_next_bounds(s, cur.pos, cur.line);
        match scan_next(s, cur.pos, cur.line) {
            ScanStep::Token { t: TokenView::Plus, pos, line } => {
                lemma_sp_monomial_advances(s, Cursor { pos, line }, net, cx);
            },
            _ => {},
        }
    }
}

/// A Monomial tail never moves the cursor backwards.
pub proof fn lemma_sp_monomials_advances(
    s: Seq<char>,
    cur: Cursor,
    net: NetworkView,
    cx: Map<int, u64>,
)
    requires
        0 <= cur.pos <= s.len(),
    ensures
        sp_monomials(s, cur, net, cx) matches Parsed::Accept { cur: c2, .. } ==> cur.pos <= c2.pos
            <= s.len(),
    decreases s.len() - cur.pos,
{
    lemma_scan_next_bounds(s, cur.pos, cur.line);
    match scan_next(s, cur.pos, cur.line) {
        ScanStep::Token { t: TokenView::Plus, pos, line } => {
            lemma_sp_monomial_advances(s, Cursor { pos, line }, net, cx);
            match sp_monomial(s, Cursor { pos, line }, net, cx) {
                Parsed::Accept { v, cur: cur2 } => {
                    lemma_sp_monomials_advances(s, cur2, v.0, v.1);
                },
                Parsed::Reject { .. } => {},
            }
        },
        _ => {},
    }
}

/// The Complex production: one monomial, then any number of
/// plus-separated monomials, accumulated into one coefficient map.
pub open spec fn sp_complex(s: Seq<char>, cur: Cursor, net: NetworkView) -> Parsed<
    (NetworkView, Map<int, u64>),
> {
    match sp_monomial(s, cur, net, Map::empty()) {
        Parsed::Accept { v, cur: cur2 } => sp_monomials(s, cur2, v.0, v.1),
        Parsed::Reject { e } => Parsed::Reject { e },
    }
}

/// A successful Complex production consumes at least one character.
pub proof fn lemma_sp_complex_advances(s: Seq<char>, cur: Cursor, net: NetworkView)
    requires
        0 <= cur.pos <= s.len(),
    ensures
        sp_complex(s, cur, net) matches Parsed::Accept { cur: c2, .. } ==> cur.pos < c2.pos <= s.len(),
{
    lemma_sp_monomial_advances(s, cur, net, Map::empty());
    match sp_monomial(s, cur, net, Map::empty()) {
        Parsed::Accept { v, cur: cur2 } => {
            lemma_sp_monomials_advances(s, cur2, v.0, v.1);
        },
        Parsed::Reject { .. } => {},
    }
}

/// The YieldOp production: one of `->`, `<-`, `<->`, `=` is mandatory.
pub open spec fn sp_yield(s: Seq<char>, cur: Cursor) -> Parsed<TokenView> {
    match scan_next(s, cur.pos, cur.line) {
        ScanStep::End { .. } => Parsed::Reject { e: ParseErrorView::UnexpectedEOF },
        ScanStep::Fail { c, pos, line } => Parsed::Reject {
            e: ParseErrorView::Lex { message: lex_message(c), line },
        },
        ScanStep::Token { t, pos, line } => {
            if spec_is_yield_symbol(t) {
                Parsed::Accept { v: t, cur: Cursor { pos, line } }
            } else {
                Parsed::Reject { e: ParseErrorView::Syntax { message: msg_expected_yield() } }
            }
        },
    }
}

/// A successful YieldOp production consumes at least one character.
pub proof fn lemma_sp_yield_advances(s: Seq<char>, cur: Cursor)
    requires
        0 <= cur.pos <= s.len(),
    ensures
        sp_yield(s, cur) matches Parsed::Accept { cur: c2, .. } ==> cur.pos < c2.pos <= s.len(),
{
    lemma_scan_next_bounds(s, cur.pos, cur.line);
}

/// The Reaction production: left complex, yield operator, right complex.
/// `->` keeps the operands, `<-` swaps them, `<->` and `=` build a
/// reversible reaction from left to right.
pub open spec fn sp_reaction(s: Seq<char>, cur: Cursor, net: NetworkView) -> Parsed<
    (NetworkView, ReactionView),
> {
    match sp_complex(s, cur, net) {
        Parsed::Reject { e } => Parsed::Reject { e },
        Parsed::Accept { v: v1, cur: c1 } => match sp_yield(s, c1) {
            Parsed::Reject { e } => Parsed::Reject { e },
            Parsed::Accept { v: y, cur: c2 } => match sp_complex(s, c2, v1.0) {
                Parsed::Reject { e } => Parsed::Reject { e },
                Parsed::Accept { v: v2, cur: c3 } => {
                    let rxn = if y is RightArrow {
                        ReactionView {
                            name: None,
                            reversible: false,
                            reactants: v1.1,
                            products: v2.1,
                        }
                    } else if y is LeftArrow {
                        ReactionView {
                            name: None,
                            reversible: false,
                            reactants: v2.1,
                            products: v1.1,
                        }
                    } else {
                        ReactionView {
                            name: None,
                            reversible: true,
                            reactants: v1.1,
                            products: v2.1,
                        }
                    };
                    Parsed::Accept { v: (v2.0, rxn), cur: c3 }
                },
            },
        },
    }
}

/// A successful Reaction production consumes at least one character.
pub proof fn lemma_sp_reaction_advances(s: Seq<char>, cur: Cursor, net: NetworkView)
    requires
        0 <= cur.pos <= s.len(),
    ensures
        sp_reaction(s, cur, net) matches Parsed::Accept { cur: c2, .. } ==> cur.pos < c2.pos <= s.len(),
{
    lemma_sp_complex_advances(s, cur, net);
    match sp_complex(s, cur, net) {
        Parsed::Reject { .. } => {},
        Parsed::Accept { v: v1, cur: c1 } => {
            lemma_sp_yield_advances(s, c1);
            match sp_yield(s, c1) {
                Parsed::Reject { .. } => {},
                Parsed::Accept { v: y, cur: c2 } => {
                    lemma_sp_complex_advances(s, c2, v1.0);
                },
            }
        },
    }
}

/// The ReactionList production from the start of a reaction: parse one
/// reaction, append it, then handle what follows.
pub open spec fn sp_reaction_list(s: Seq<char>, cur: Cursor, net: NetworkView) -> Parsed<
    NetworkView,
>
    decreases s.len() - cur.pos, 0int,
    via sp_reaction_list_dec
{
    match sp_reaction(s, cur, net) {
        Parsed::Reject { e } => Parsed::Reject { e },
        Parsed::Accept { v, cur: c1 } => sp_after_reaction(
            s,
            c1,
            NetworkView { species: v.0.species, reactions: v.0.reactions.push(v.1) },
        ),
    }
}

/// After a reaction: the input may end, or a separator must follow.
pub open spec fn sp_after_reaction(s: Seq<char>, cur: Cursor, net: NetworkView) -> Parsed<
    NetworkView,
>
    decreases s.len() - cur.pos, 2int,
    via sp_after_reaction_dec
{
    match scan_next(s, cur.pos, cur.line) {
        ScanStep::End { .. } => Parsed::Accept { v: net, cur },
        ScanStep::Fail { c, pos, line } => Parsed::Reject {
            e: ParseErrorView::Lex { message: lex_message(c), line },
        },
        ScanStep::Token { t: TokenView::SemiColon, pos, line } => sp_sep(
            s,
            Cursor { pos, line },
            net,
        ),
        ScanStep::Token { .. } => Parsed::Reject {
            e: ParseErrorView::Syntax { message: msg_expected_separator() },
        },
    }
}

/// After at least one separator: further separators are skipped silently,
/// the input may end (a trailing separator is allowed), and anything else
/// must start the next reaction.
pub open spec fn sp_sep(s: Seq<char>, cur: Cursor, net: NetworkView) -> Parsed<NetworkView>
    decreases s.len() - cur.pos, 1int,
    via sp_sep_dec
{
    match scan_next(s, cur.pos, cur.line) {
        ScanStep::End { .. } => Parsed::Accept { v: net, cur },
        ScanStep::Fail { c, pos, line } => Parsed::Reject {
            e: ParseErrorView::Lex { message: lex_message(c), line },
        },
        ScanStep::Token { t: TokenView::SemiColon, pos, line } => sp_sep(
            s,
            Cursor { pos, line },
            net,
        ),
        ScanStep::Token { .. } => sp_reaction_list(s, cur, net),
    }
}

#[via_fn]
proof fn sp_reaction_list_dec(s: Seq<char>, cur: Cursor, net: NetworkView) {
    if 0 <= cur.pos <= s.len() {
        lemma_sp_reaction_advances(s, cur, net);
    }
}

#[via_fn]
proof fn sp_after_reaction_dec(s: Seq<char>, cur: Cursor, net: NetworkView) {
    if 0 <= cur.pos <= s.len() {
        lemma_scan_next_bounds(s, cur.pos, cur.line);
    }
}

#[via_fn]
proof fn sp_sep_dec(s: Seq<char>, cur: Cursor, net: NetworkView) {
    if 0 <= cur.pos <= s.len() {
        lemma_scan_next_bounds(s, cur.pos, cur.line);
    }
}

/// The whole Program production: a reaction list parsed into an initially
/// empty network.
pub open spec fn sp_parse(s: Seq<char>, cur: Cursor) -> Parsed<NetworkView> {
    sp_reaction_list(s, cur, NetworkView::empty())
}

/// Recursive-descent parser: wraps a scanner with a one-token lookahead
/// cell (fill-on-peek, drain-on-pop) and builds the network by
/// grammar-directed calls.
pub struct Parser {
    scanner: Scanner,
    lookahead: Option<Terminal>,
    cursor: Ghost<Cursor>,
}

impl Parser {
    /// The character sequence being parsed.
    pub closed spec fn src(&self) -> Seq<char> {
        self.scanner.src()
    }

    /// The logical position: where the next unconsumed token starts. When
    /// the lookahead cell is filled, this lies before the cached token.
    pub closed spec fn cursor(&self) -> Cursor {
        self.cursor@
    }

    /// The scanner is well formed, the cursor lies in the input, and the
    /// scanner's state is what scanning on from the cursor reaches: the
    /// cached token when the cell is filled, the same next step otherwise.
    pub closed spec fn wf(&self) -> bool {
        &&& self.scanner.wf()
        &&& 0 <= self.cursor@.pos <= self.src().len()
        &&& match self.lookahead {
            None => scan_next(self.src(), self.cursor@.pos, self.cursor@.line) == scan_next(
                self.src(),
                self.scanner.spec_pos(),
                self.scanner.spec_line(),
            ),
            Some(t) => scan_next(self.src(), self.cursor@.pos, self.cursor@.line)
                == (ScanStep::Token {
                t: t@,
                pos: self.scanner.spec_pos(),
                line: self.scanner.spec_line(),
            }),
        }
    }

    /// A parser over `scanner`, with an empty lookahead cell.
    pub fn new(scanner: Scanner) -> (p: Parser)
        requires
            scanner.wf(),
        ensures
            p.wf(),
            p.src() == scanner.src(),
            p.cursor() == (Cursor { pos: scanner.spec_pos(), line: scanner.spec_line() }),
    {
        proof {
            lemma_scanner_bounds(&scanner);
        }
        let ghost cur = Cursor { pos: scanner.spec_pos(), line: scanner.spec_line() };
        Parser { scanner, lookahead: None, cursor: Ghost(cur) }
    }

    /// Fills the lookahead cell from the scanner if it is empty. `Ok(true)`
    /// means a token is cached, `Ok(false)` that the input is exhausted; a
    /// scanner error is wrapped and returned as-is.
    fn peek(&mut self) -> (r: Result<bool, ParseError>)
        requires
            old(self).wf(),
        ensures
            final(self).src() == old(self).src(),
            final(self).cursor() == old(self).cursor(),
            match scan_next(old(self).src(), old(self).cursor().pos, old(self).cursor().line) {
                ScanStep::Token { .. } => r matches Ok(b) && b == true && final(self).wf()
                    && final(self).lookahead is Some,
                ScanStep::End { .. } => r matches Ok(b) && b == false && final(self).wf()
                    && final(self).lookahead is None,
                ScanStep::Fail { c, pos, line } => r matches Err(pe) && pe@
                    == (ParseErrorView::Lex { message: lex_message(c), line }),
            },
    {
        if self.lookahead.is_some() {
            return Ok(true);
        }
        proof {
            lemma_scan_next_bounds(self.src(), self.cursor@.pos, self.cursor@.line);
        }
        match self.scanner.next_token() {
            None => Ok(false),
            Some(Ok(t)) => {
                self.lookahead = Some(t);
                Ok(true)
            },
            Some(Err(e)) => Err(ParseError::Lex(e)),
        }
    }

    /// Drains the lookahead cell, advancing the cursor past the token.
    fn advance(&mut self) -> (t: Terminal)
        requires
            old(self).wf(),
            old(self).lookahead is Some,
        ensures
            final(self).wf(),
            final(self).src() == old(self).src(),
            old(self).lookahead matches Some(t0) && t == t0,
            scan_next(old(self).src(), old(self).cursor().pos, old(self).cursor().line)
                == (ScanStep::Token {
                t: t@,
                pos: final(self).cursor().pos,
                line: final(self).cursor().line,
            }),
            final(self).lookahead is None,
    {
        let t = match self.lookahead.take() {
            Some(t) => t,
            None => unreached(),
        };
        proof {
            lemma_scanner_bounds(&self.scanner);
        }
        self.cursor = Ghost(
            Cursor { pos: self.scanner.spec_pos(), line: self.scanner.spec_line() },
        );
        t
    }

    /// The Species production: consumes a mandatory identifier, interns it
    /// into the network, and accumulates `coef` into `cx`.
    fn species(&mut self, net: &mut Network, cx: &mut Complex, coef: u64) -> (r: Result<
        (),
        ParseError,
    >)
        requires
            old(self).wf(),
            old(cx).wf(),
        ensures
            final(self).src() == old(self).src(),
            final(cx).wf(),
            old(net).wf() ==> final(net).wf(),
            match sp_species(old(self).src(), old(self).cursor(), old(net)@, old(cx)@, coef) {
                Parsed::Accept { v, cur } => r is Ok && final(self).wf() && final(net)@ == v.0
                    && final(cx)@ == v.1 && final(self).cursor() == cur,
                Parsed::Reject { e } => r matches Err(pe) && pe@ == e,
            },
    {
        match self.peek() {
            Err(e) => return Err(e),
            Ok(false) => return Err(ParseError::UnexpectedEOF),
            Ok(true) => {},
        }
        if matches!(&self.lookahead, Some(Terminal::Identifier(_))) {
            let t = self.advance();
            match t {
                Terminal::Identifier(name) => {
                    let ok = net.add_term_to(cx, name, coef);
                    if ok {
                        Ok(())
                    } else {
                        Err(ParseError::Syntax(SyntaxError::new(
                            "Stoichiometric coefficient overflow",
                        )))
                    }
                },
                _ => unreached(),
            }
        } else {
            Err(ParseError::Syntax(SyntaxError::new("Factor Error.")))
        }
    }

    /// The Monomial production: an optional number (default coefficient
    /// one), optionally followed by `*`, then a mandatory species.
    fn monomial(&mut self, net: &mut Network, cx: &mut Complex) -> (r: Result<(), ParseError>)
        requires
            old(self).wf(),
            old(cx).wf(),
        ensures
            final(self).src() == old(self).src(),
            final(cx).wf(),
            old(net).wf() ==> final(net).wf(),
            match sp_monomial(old(self).src(), old(self).cursor(), old(net)@, old(cx)@) {
                Parsed::Accept { v, cur } => r is Ok && final(self).wf() && final(net)@ == v.0
                    && final(cx)@ == v.1 && final(self).cursor() == cur,
                Parsed::Reject { e } => r matches Err(pe) && pe@ == e,
            },
    {
        match self.peek() {
            Err(e) => return Err(e),
            Ok(false) => return Err(ParseError::UnexpectedEOF),
            Ok(true) => {},
        }
        let coef: u64;
        if matches!(&self.lookahead, Some(Terminal::Number(_))) {
            let t = self.advance();
            coef = match t {
                Terminal::Number(n) => n,
                _ => unreached(),
            };
            match self.peek() {
                Err(e) => return Err(e),
                Ok(false) => {},
                Ok(true) => {
                    if matches!(&self.lookahead, Some(Terminal::Star)) {
                        let _ = self.advance();
                    }
                },
            }
        } else {
            coef = 1;
        }
        self.species(net, cx, coef)
    }

    /// The Complex production: monomials separated by `+`, accumulated
    /// into one coefficient map.
    fn complex(&mut self, net: &mut Network) -> (r: Result<Complex, ParseError>)
        requires
            old(self).wf(),
        ensures
            final(self).src() == old(self).src(),
            old(net).wf() ==> final(net).wf(),
            match sp_complex(old(self).src(), old(self).cursor(), old(net)@) {
                Parsed::Accept { v, cur } => r matches Ok(cx) && cx@ == v.1 && cx.wf()
                    && final(self).wf() && final(net)@ == v.0 && final(self).cursor() == cur,
                Parsed::Reject { e } => r matches Err(pe) && pe@ == e,
            },
    {
        let ghost s = self.src();
        let mut cx = Complex::new();
        match self.monomial(net, &mut cx) {
            Err(e) => return Err(e),
            Ok(()) => {},
        }
        loop
            invariant
                self.wf(),
                cx.wf(),
                old(net).wf() ==> net.wf(),
                self.src() == s,
                s == old(self).src(),
                sp_monomials(s, self.cursor(), net@, cx@) == sp_complex(
                    s,
                    old(self).cursor(),
                    old(net)@,
                ),
            decreases s.len() - self.cursor().pos,
        {
            match self.peek() {
                Err(e) => return Err(e),
                Ok(false) => return Ok(cx),
                Ok(true) => {},
            }
            if matches!(&self.lookahead, Some(Terminal::Plus)) {
                proof {
                    lemma_scan_next_bounds(s, self.cursor().pos, self.cursor().line);
                }
                let _ = self.advance();
                proof {
                    lemma_sp_monomial_advances(s, self.cursor(), net@, cx@);
                }
                match self.monomial(net, &mut cx) {
                    Err(e) => return Err(e),
                    Ok(()) => {},
                }
            } else {
                return Ok(cx);
            }
        }
    }

    /// The YieldOp production: one of the four yield operators is
    /// mandatory after a complex.
    fn yield_symbol(&mut self) -> (r: Result<Terminal, ParseError>)
        requires
            old(self).wf(),
        ensures
            final(self).src() == old(self).src(),
            match sp_yield(old(self).src(), old(self).cursor()) {
                Parsed::Accept { v, cur } => r matches Ok(t) && t@ == v && spec_is_yield_symbol(
                    t@,
                ) && final(self).wf() && final(self).cursor() == cur,
                Parsed::Reject { e } => r matches Err(pe) && pe@ == e,
            },
    {
        match self.peek() {
            Err(e) => return Err(e),
            Ok(false) => return Err(ParseError::UnexpectedEOF),
            Ok(true) => {},
        }
        let matched = match &self.lookahead {
            Some(t) => is_yield_symbol(t),
            None => unreached(),
        };
        if matched {
            Ok(self.advance())
        } else {
            Err(ParseError::Syntax(SyntaxError::new(
                "Expected yield symbol '->', '<-', '<->' or '='",
            )))
        }
    }

    /// The Reaction production: left complex, yield operator, right
    /// complex. `->` keeps the operands, `<-` swaps them, `<->` and `=`
    /// build a reversible reaction.
    fn reaction(&mut self, net: &mut Network) -> (r: Result<Reaction, ParseError>)
        requires
            old(self).wf(),
        ensures
            final(self).src() == old(self).src(),
            old(net).wf() ==> final(net).wf(),
            match sp_reaction(old(self).src(), old(self).cursor(), old(net)@) {
                Parsed::Accept { v, cur } => r matches Ok(rxn) && rxn@ == v.1 && rxn.wf()
                    && final(self).wf() && final(net)@ == v.0 && final(self).cursor() == cur,
                Parsed::Reject { e } => r matches Err(pe) && pe@ == e,
            },
    {
        let left = match self.complex(net) {
            Ok(c) => c,
            Err(e) => return Err(e),
        };
        let y = match self.yield_symbol() {
            Ok(t) => t,
            Err(e) => return Err(e),
        };
        let right = match self.complex(net) {
            Ok(c) => c,
            Err(e) => return Err(e),
        };
        match y {
            Terminal::RightArrow => Ok(Reaction::forward(left, right)),
            Terminal::LeftArrow => Ok(Reaction::forward(right, left)),
            Terminal::LeftRightArrow => Ok(Reaction::reversible(left, right)),
            Terminal::Equal => Ok(Reaction::reversible(left, right)),
            _ => unreached(),
        }
    }

    /// Parses a whole program: a reaction list built into a network.
    /// Fail-fast: the first error of any kind aborts the parse and no
    /// partial network is returned.
    pub fn parse(&mut self) -> (r: Result<Network, ParseError>)
        requires
            old(self).wf(),
        ensures
            final(self).src() == old(self).src(),
            match sp_parse(old(self).src(), old(self).cursor()) {
                Parsed::Accept { v, .. } => r matches Ok(n) && n@ == v && n.wf(),
                Parsed::Reject { e } => r matches Err(pe) && pe@ == e,
            },
    {
        let ghost s = self.src();
        let ghost cur0 = self.cursor();
        let mut net = Network::new();
        loop
            invariant
                self.wf(),
                net.wf(),
                self.src() == s,
                s == old(self).src(),
                cur0 == old(self).cursor(),
                sp_reaction_list(s, self.cursor(), net@) == sp_parse(s, cur0),
            decreases s.len() - self.cursor().pos,
        {
            let ghost cur_i = self.cursor();
            proof {
                lemma_sp_reaction_advances(s, cur_i, net@);
            }
            let rxn = match self.reaction(&mut net) {
                Ok(r) => r,
                Err(e) => return Err(e),
            };
            net.add_reaction(rxn);
            match self.peek() {
                Err(e) => return Err(e),
                Ok(false) => return Ok(net),
                Ok(true) => {},
            }
            if matches!(&self.lookahead, Some(Terminal::SemiColon)) {
                proof {
                    lemma_scan_next_bounds(s, self.cursor().pos, self.cursor().line);
                }
                let _ = self.advance();
                loop
                    invariant
                        self.wf(),
                        net.wf(),
                        self.src() == s,
                        s == old(self).src(),
                        cur0 == old(self).cursor(),
                        cur_i.pos < self.cursor().pos,
                        sp_sep(s, self.cursor(), net@) == sp_parse(s, cur0),
                    ensures
                        self.wf(),
                        net.wf(),
                        self.src() == s,
                        cur_i.pos < self.cursor().pos,
                        sp_reaction_list(s, self.cursor(), net@) == sp_parse(s, cur0),
                    decreases s.len() - self.cursor().pos,
                {
                    match self.peek() {
                        Err(e) => return Err(e),
                        Ok(false) => return Ok(net),
                        Ok(true) => {},
                    }
                    if matches!(&self.lookahead, Some(Terminal::SemiColon)) {
                        proof {
                            lemma_scan_next_bounds(s, self.cursor().pos, self.cursor().line);
                        }
                        let _ = self.advance();
                    } else {
                        break ;
                    }
                }
            } else {
                return Err(ParseError::Syntax(SyntaxError::new(
                    "Expected separator or end of input",
                )));
            }
        }
    }
}

} // verus!
