//! Lexical analysis: a pull-based scanner that turns source text into a
//! forward-only sequence of tokens with line tracking.
//!
//! The mathematical model is [`scan_next`]: a recursive function over the
//! character sequence giving, from any position and line, the next token,
//! the end of input, or the first unrecognized character. Every scanner
//! method is proved against this model.

use crate::grammar::{Terminal, TokenView};
use vstd::prelude::*;
use vstd::string::StrSliceExecFns;
use vstd::string::StringExecFns;

verus! {

/// The Unicode White_Space property, as decided by `char::is_whitespace`.
pub uninterp spec fn unicode_whitespace(c: char) -> bool;

/// The Unicode alphanumeric classification, as decided by
/// `char::is_alphanumeric`.
pub uninterp spec fn unicode_alphanumeric(c: char) -> bool;

/// Relies on char::is_whitespace: the result depends on the character alone.
#[verifier::external_body]
fn char_is_whitespace(c: char) -> (b: bool)
    ensures
        b == unicode_whitespace(c),
{
    c.is_whitespace()
}

/// Relies on char::is_alphanumeric: the result depends on the character alone.
#[verifier::external_body]
fn char_is_alphanumeric(c: char) -> (b: bool)
    ensures
        b == unicode_alphanumeric(c),
{
    c.is_alphanumeric()
}

/// Relies on char's ToString impl: the string holding exactly `c`.
#[verifier::external_body]
fn char_to_string(c: char) -> (s: String)
    ensures
        s@ == seq![c],
{
    c.to_string()
}

/// Error for an unrecognized character, carrying a message naming the
/// character and the line it occurred on.
#[derive(Debug)]
pub struct LexError {
    message: String,
    line: u64,
}

/// Mathematical view of a lex error.
pub struct LexErrorView {
    pub message: Seq<char>,
    pub line: nat,
}

impl View for LexError {
    type V = LexErrorView;

    closed spec fn view(&self) -> LexErrorView {
        LexErrorView { message: self.message@, line: self.line as nat }
    }
}

impl LexError {
    /// A lex error with the given message and line.
    pub fn new(message: String, line: u64) -> (e: LexError)
        ensures
            e@ == (LexErrorView { message: message@, line: line as nat }),
    {
        LexError { message, line }
    }

    /// The error message.
    pub fn get_message(&self) -> (m: &String)
        ensures
            m@ == self@.message,
    {
        &self.message
    }

    /// The line the error occurred on.
    pub fn get_line(&self) -> (l: u64)
        ensures
            l as nat == self@.line,
    {
        self.line
    }
}

/// The message reported for an unrecognized character.
pub open spec fn lex_message(c: char) -> Seq<char> {
    "Character not recognized "@ + seq![c] + "."@
}

/// One step of scanning: the next token with the position and line after
/// it, the end of the input, or an unrecognized character (consumed, with
/// the line it was found on).
pub enum ScanStep {
    Token { t: TokenView, pos: int, line: nat },
    End { pos: int, line: nat },
    Fail { c: char, pos: int, line: nat },
}

/// Position and line after a line comment starting at `pos`: everything
/// through the terminating newline is consumed and the newline counts for
/// the line number, but yields no token.
pub open spec fn skip_line_comment(s: Seq<char>, pos: int, line: nat) -> (int, nat)
    decreases s.len() - pos,
{
    if pos < 0 || pos >= s.len() {
        (s.len() as int, line)
    } else if s[pos] == '\n' {
        (pos + 1, (line + 1) as nat)
    } else {
        skip_line_comment(s, pos + 1, line)
    }
}

/// Position and line after a block comment body starting at `pos`: ends
/// after the first `*/`, or silently at the end of input; newlines inside
/// still count for the line number.
pub open spec fn skip_block_comment(s: Seq<char>, pos: int, line: nat) -> (int, nat)
    decreases s.len() - pos,
{
    if pos < 0 || pos >= s.len() {
        (s.len() as int, line)
    } else {
        let c = s[pos];
        let line2 = if c == '\n' {
            (line + 1) as nat
        } else {
            line
        };
        if c == '*' && pos + 1 < s.len() && s[pos + 1] == '/' {
            (pos + 2, line2)
        } else {
            skip_block_comment(s, pos + 1, line2)
        }
    }
}

/// End of the maximal alphanumeric run continuing at `pos`.
pub open spec fn run_end(s: Seq<char>, pos: int) -> int
    decreases s.len() - pos,
{
    if 0 <= pos < s.len() && unicode_alphanumeric(s[pos]) {
        run_end(s, pos + 1)
    } else {
        pos
    }
}

/// Scanning a quoted identifier from `pos`: the end of the lexeme (the
/// closing quote, or the end of input which silently closes it) and the
/// position after the consumed text.
pub open spec fn quote_end(s: Seq<char>, pos: int) -> (int, int)
    decreases s.len() - pos,
{
    if pos < 0 || pos >= s.len() {
        (s.len() as int, s.len() as int)
    } else if s[pos] == '"' {
        (pos, pos + 1)
    } else {
        quote_end(s, pos + 1)
    }
}

/// All characters are ASCII digits.
pub open spec fn all_digits(s: Seq<char>) -> bool {
    forall|i: int| 0 <= i < s.len() ==> '0' <= #[trigger] s[i] <= '9'
}

/// The numeric value of a digit string.
pub open spec fn digits_val(s: Seq<char>) -> nat
    decreases s.len(),
{
    if s.len() == 0 {
        0
    } else {
        let d = if '0' <= s.last() <= '9' {
            s.last() as int - '0' as int
        } else {
            0
        };
        (digits_val(s.drop_last()) * 10 + d) as nat
    }
}

/// The token for an unquoted alphanumeric run: a number when the run is
/// all ASCII digits and its value fits in u64, else an identifier.
pub open spec fn classify_word(lex: Seq<char>) -> TokenView {
    if all_digits(lex) && digits_val(lex) <= u64::MAX {
        TokenView::Number(digits_val(lex) as u64)
    } else {
        TokenView::Identifier(lex)
    }
}

/// After a line comment the position has advanced to just past its
/// newline, or to the end of input; the line grows at most one per
/// consumed character.
pub proof fn lemma_skip_line_comment(s: Seq<char>, pos: int, line: nat)
    requires
        0 <= pos <= s.len(),
    ensures
        ({
            let (p, l) = skip_line_comment(s, pos, line);
            pos <= p <= s.len() && line <= l <= line + (p - pos)
        }),
    decreases s.len() - pos,
{
    if pos < s.len() && s[pos] != '\n' {
        lemma_skip_line_comment(s, pos + 1, line);
    }
}

/// The same bounds for a block comment.
pub proof fn lemma_skip_block_comment(s: Seq<char>, pos: int, line: nat)
    requires
        0 <= pos <= s.len(),
    ensures
        ({
            let (p, l) = skip_block_comment(s, pos, line);
            pos <= p <= s.len() && line <= l <= line + (p - pos)
        }),
    decreases s.len() - pos,
{
    if pos < s.len() {
        let c = s[pos];
        let line2 = if c == '\n' {
            (line + 1) as nat
        } else {
            line
        };
        if !(c == '*' && pos + 1 < s.len() && s[pos + 1] == '/') {
            lemma_skip_block_comment(s, pos + 1, line2);
        }
    }
}

/// The end of an alphanumeric run lies between its start and the end of
/// input.
pub proof fn lemma_run_end(s: Seq<char>, pos: int)
    requires
        0 <= pos <= s.len(),
    ensures
        pos <= run_end(s, pos) <= s.len(),
    decreases s.len() - pos,
{
    if pos < s.len() && unicode_alphanumeric(s[pos]) {
        lemma_run_end(s, pos + 1);
    }
}

/// The lexeme of a quoted identifier ends no earlier than it starts, and
/// the consumed text reaches at most one character past it.
pub proof fn lemma_quote_end(s: Seq<char>, pos: int)
    requires
        0 <= pos <= s.len(),
    ensures
        ({
            let (e, p) = quote_end(s, pos);
            pos <= e <= p <= s.len() && p <= e + 1
        }),
    decreases s.len() - pos,
{
    if pos < s.len() && s[pos] != '"' {
        lemma_quote_end(s, pos + 1);
    }
}

/// Every scan step stays within the input: a token or a failure consumes
/// at least one character, the end of input consumes the rest, and the
/// line number grows by at most one per consumed character.
pub proof fn lemma_scan_next_bounds(s: Seq<char>, pos: int, line: nat)
    requires
        0 <= pos <= s.len(),
    ensures
        match scan_next(s, pos, line) {
            ScanStep::Token { t, pos: p, line: l } => pos < p <= s.len() && line <= l <= line + (
            p - pos),
            ScanStep::End { pos: p, line: l } => p == s.len() && line <= l <= line + (p - pos),
            ScanStep::Fail { c, pos: p, line: l } => pos < p <= s.len() && line <= l <= line + (p
                - pos),
        },
    decreases s.len() - pos,
{
    if pos < s.len() {
        let c = s[pos];
        if unicode_whitespace(c) {
            if c != '\n' {
                lemma_scan_next_bounds(s, pos + 1, line);
            }
        } else if c == '/' {
            if pos + 1 < s.len() && s[pos + 1] == '/' {
                lemma_skip_line_comment(s, pos + 2, line);
                let (p2, l2) = skip_line_comment(s, pos + 2, line);
                lemma_scan_next_bounds(s, p2, l2);
            } else if pos + 1 < s.len() && s[pos + 1] == '*' {
                lemma_skip_block_comment(s, pos + 2, line);
                let (p2, l2) = skip_block_comment(s, pos + 2, line);
                lemma_scan_next_bounds(s, p2, l2);
            }
        } else if unicode_alphanumeric(c) {
            lemma_run_end(s, pos + 1);
        } else if c == '"' {
            lemma_quote_end(s, pos + 1);
        }
    }
}

/// The next scan step from position `pos` on line `line`. Whitespace other
/// than newline is skipped; a newline counts the line and yields an
/// implicit semicolon; comments are consumed; an alphanumeric run becomes
/// a number or an identifier; a quoted run becomes an identifier verbatim;
/// multi-character operators take the longest match; any other character
/// fails the scan.
pub open spec fn scan_next(s: Seq<char>, pos: int, line: nat) -> ScanStep
    decreases s.len() - pos,
{
    if pos < 0 || pos >= s.len() {
        ScanStep::End { pos, line }
    } else {
        let c = s[pos];
        if unicode_whitespace(c) {
            if c == '\n' {
                ScanStep::Token { t: TokenView::SemiColon, pos: pos + 1, line: (line + 1) as nat }
            } else {
                scan_next(s, pos + 1, line)
            }
        } else if c == '/' {
            if pos + 1 < s.len() && s[pos + 1] == '/' {
                let (p2, l2) = skip_line_comment(s, pos + 2, line);
                proof {
                    lemma_skip_line_comment(s, pos + 2, line);
                }
                scan_next(s, p2, l2)
            } else if pos + 1 < s.len() && s[pos + 1] == '*' {
                let (p2, l2) = skip_block_comment(s, pos + 2, line);
                proof {
                    lemma_skip_block_comment(s, pos + 2, line);
                }
                scan_next(s, p2, l2)
            } else {
                ScanStep::Token { t: TokenView::Slash, pos: pos + 1, line }
            }
        } else if unicode_alphanumeric(c) {
            let e = run_end(s, pos + 1);
            ScanStep::Token { t: classify_word(s.subrange(pos, e)), pos: e, line }
        } else if c == '(' {
            ScanStep::Token { t: TokenView::LeftParen, pos: pos + 1, line }
        } else if c == ')' {
            ScanStep::Token { t: TokenView::RightParen, pos: pos + 1, line }
        } else if c == '{' {
            ScanStep::Token { t: TokenView::LeftBrace, pos: pos + 1, line }
        } else if c == '}' {
            ScanStep::Token { t: TokenView::RightBrace, pos: pos + 1, line }
        } else if c == '[' {
            ScanStep::Token { t: TokenView::LeftBracket, pos: pos + 1, line }
        } else if c == ']' {
            ScanStep::Token { t: TokenView::RightBracket, pos: pos + 1, line }
        } else if c == '+' {
            ScanStep::Token { t: TokenView::Plus, pos: pos + 1, line }
        } else if c == '*' {
            ScanStep::Token { t: TokenView::Star, pos: pos + 1, line }
        } else if c == ';' {
            ScanStep::Token { t: TokenView::SemiColon, pos: pos + 1, line }
        } else if c == ':' {
            ScanStep::Token { t: TokenView::Colon, pos: pos + 1, line }
        } else if c == '=' {
            ScanStep::Token { t: TokenView::Equal, pos: pos + 1, line }
        } else if c == '\'' {
            ScanStep::Token { t: TokenView::Tick, pos: pos + 1, line }
        } else if c == ',' {
            ScanStep::Token { t: TokenView::Comma, pos: pos + 1, line }
        } else if c == '-' {
            if pos + 1 < s.len() && s[pos + 1] == '>' {
                ScanStep::Token { t: TokenView::RightArrow, pos: pos + 2, line }
            } else {
                ScanStep::Token { t: TokenView::Minus, pos: pos + 1, line }
            }
        } else if c == '>' {
            ScanStep::Token { t: TokenView::Greater, pos: pos + 1, line }
        } else if c == '<' {
            if pos + 1 < s.len() && s[pos + 1] == '-' {
                if pos + 2 < s.len() && s[pos + 2] == '>' {
                    ScanStep::Token { t: TokenView::LeftRightArrow, pos: pos + 3, line }
                } else {
                    ScanStep::Token { t: TokenView::LeftArrow, pos: pos + 2, line }
                }
            } else {
                ScanStep::Token { t: TokenView::Less, pos: pos + 1, line }
            }
        } else if c == '"' {
            let (e, p2) = quote_end(s, pos + 1);
            ScanStep::Token { t: TokenView::Identifier(s.subrange(pos + 1, e)), pos: p2, line }
        } else {
            ScanStep::Fail { c, pos: pos + 1, line }
        }
    }
}

/// Pull-based lexical scanner: a single forward pass over the source,
/// tracking the current position and line. Not restartable; create a new
/// scanner to rescan.
pub struct Scanner {
    chars: Vec<char>,
    pos: usize,
    line: u64,
}

/// A well-formed scanner's position lies within its input and its line
/// count started at one.
pub proof fn lemma_scanner_bounds(sc: &Scanner)
    requires
        sc.wf(),
    ensures
        0 <= sc.spec_pos() <= sc.src().len(),
        1 <= sc.spec_line(),
{
}

impl Scanner {
    /// The character sequence being scanned.
    pub closed spec fn src(&self) -> Seq<char> {
        self.chars@
    }

    /// Index of the next unread character.
    pub closed spec fn spec_pos(&self) -> int {
        self.pos as int
    }

    /// The current line number.
    pub closed spec fn spec_line(&self) -> nat {
        self.line as nat
    }

    /// The position is inside the input, the line count started at one and
    /// cannot have grown past the characters consumed, and the input is
    /// short enough that the line counter cannot overflow.
    pub closed spec fn wf(&self) -> bool {
        &&& self.pos <= self.chars@.len()
        &&& self.chars@.len() < usize::MAX
        &&& 1 <= self.line
        &&& self.line as int <= 1 + self.pos as int
    }

    fn new(source: &str) -> (sc: Scanner)
        requires
            source@.len() < usize::MAX,
        ensures
            sc.wf(),
            sc.src() == source@,
            sc.spec_pos() == 0,
            sc.spec_line() == 1,
    {
        let n = source.unicode_len();
        let mut chars: Vec<char> = Vec::new();
        let mut i: usize = 0;
        while i < n
            invariant
                n == source@.len(),
                i <= n,
                chars@ == source@.subrange(0, i as int),
            decreases n - i,
        {
            let c = source.get_char(i);
            chars.push(c);
            proof {
                assert(chars@ =~= source@.subrange(0, i + 1 as int));
            }
            i += 1;
        }
        proof {
            assert(chars@ =~= source@);
        }
        Scanner { chars, pos: 0, line: 1 }
    }

    /// A scanner positioned at the start of `source`, on line one. The
    /// length bound keeps the line counter from ever overflowing.
    pub fn scan(source: &str) -> (sc: Scanner)
        requires
            source@.len() < usize::MAX,
        ensures
            sc.wf(),
            sc.src() == source@,
            sc.spec_pos() == 0,
            sc.spec_line() == 1,
    {
        Scanner::new(source)
    }

    /// The line the scanner is currently on.
    pub fn get_line_num(&self) -> (l: u64)
        ensures
            l as nat == self.spec_line(),
    {
        self.line
    }

    fn increment_line_num(&mut self)
        requires
            old(self).wf(),
            old(self).line as int <= old(self).pos as int,
        ensures
            final(self).wf(),
            final(self).chars == old(self).chars,
            final(self).pos == old(self).pos,
            final(self).spec_line() == old(self).spec_line() + 1,
    {
        self.line = self.line + 1;
    }

    /// Consumes and returns the next character.
    fn pop(&mut self) -> (r: Option<char>)
        requires
            old(self).wf(),
        ensures
            final(self).wf(),
            final(self).chars == old(self).chars,
            final(self).line == old(self).line,
            match r {
                Some(c) => old(self).spec_pos() < old(self).src().len() && c == old(self).src()[
                    old(self).spec_pos()] && final(self).spec_pos() == old(self).spec_pos() + 1,
                None => old(self).spec_pos() == old(self).src().len() && final(self).pos == old(
                    self,
                ).pos,
            },
    {
        if self.pos < self.chars.len() {
            let c = self.chars[self.pos];
            self.pos = self.pos + 1;
            Some(c)
        } else {
            None
        }
    }

    /// Consumes the next character only when it equals `expected`.
    fn match_next(&mut self, expected: char) -> (b: bool)
        requires
            old(self).wf(),
        ensures
            final(self).wf(),
            final(self).chars == old(self).chars,
            final(self).line == old(self).line,
            b == (old(self).spec_pos() < old(self).src().len() && old(self).src()[old(
                self,
            ).spec_pos()] == expected),
            b ==> final(self).spec_pos() == old(self).spec_pos() + 1,
            !b ==> final(self).pos == old(self).pos,
    {
        if self.pos < self.chars.len() {
            if self.chars[self.pos] == expected {
                self.pos = self.pos + 1;
                return true;
            }
        }
        false
    }

    /// Consumes the next character only when it is alphanumeric.
    fn take_next_alnum(&mut self) -> (r: Option<char>)
        requires
            old(self).wf(),
        ensures
            final(self).wf(),
            final(self).chars == old(self).chars,
            final(self).line == old(self).line,
            match r {
                Some(c) => old(self).spec_pos() < old(self).src().len() && c == old(self).src()[
                    old(self).spec_pos()] && unicode_alphanumeric(c) && final(self).spec_pos() == old(
                    self,
                ).spec_pos() + 1,
                None => final(self).pos == old(self).pos && (old(self).spec_pos() == old(
                    self,
                ).src().len() || !unicode_alphanumeric(
                    old(self).src()[old(self).spec_pos()],
                )),
            },
    {
        if self.pos < self.chars.len() {
            let c = self.chars[self.pos];
            if char_is_alphanumeric(c) {
                self.pos = self.pos + 1;
                return Some(c);
            }
        }
        None
    }

    /// Skips a line comment through its terminating newline.
    fn comment(&mut self)
        requires
            old(self).wf(),
        ensures
            final(self).wf(),
            final(self).chars == old(self).chars,
            ({
                let (p, l) = skip_line_comment(old(self).src(), old(self).spec_pos(), old(
                    self,
                ).spec_line());
                final(self).spec_pos() == p && final(self).spec_line() == l
            }),
            old(self).spec_pos() <= final(self).spec_pos(),
    {
        loop
            invariant
                self.wf(),
                self.chars == old(self).chars,
                old(self).spec_pos() <= self.spec_pos(),
                skip_line_comment(self.src(), self.spec_pos(), self.spec_line())
                    == skip_line_comment(old(self).src(), old(self).spec_pos(), old(
                    self,
                ).spec_line()),
            decreases self.src().len() - self.spec_pos(),
        {
            match self.pop() {
                None => {
                    return ;
                },
                Some(c) => {
                    if c == '\n' {
                        self.increment_line_num();
                        return ;
                    }
                },
            }
        }
    }

    /// Skips a block comment through the first `*/`, or to the end of
    /// input; newlines inside still count for the line number.
    fn multline_comment(&mut self)
        requires
            old(self).wf(),
        ensures
            final(self).wf(),
            final(self).chars == old(self).chars,
            ({
                let (p, l) = skip_block_comment(old(self).src(), old(self).spec_pos(), old(
                    self,
                ).spec_line());
                final(self).spec_pos() == p && final(self).spec_line() == l
            }),
            old(self).spec_pos() <= final(self).spec_pos(),
    {
        loop
            invariant
                self.wf(),
                self.chars == old(self).chars,
                old(self).spec_pos() <= self.spec_pos(),
                skip_block_comment(self.src(), self.spec_pos(), self.spec_line())
                    == skip_block_comment(old(self).src(), old(self).spec_pos(), old(
                    self,
                ).spec_line()),
            decreases self.src().len() - self.spec_pos(),
        {
            match self.pop() {
                None => {
                    return ;
                },
                Some(c) => {
                    if c == '\n' {
                        self.increment_line_num();
                    }
                    if c == '*' {
                        if self.match_next('/') {
                            return ;
                        }
                    }
                },
            }
        }
    }

    /// After a leading `/`: a line or block comment is consumed and yields
    /// nothing; otherwise the `/` was a token of its own.
    fn comment_or_slash(&mut self) -> (r: Option<Terminal>)
        requires
            old(self).wf(),
        ensures
            final(self).wf(),
            final(self).chars == old(self).chars,
            ({
                let s = old(self).src();
                let p = old(self).spec_pos();
                let l = old(self).spec_line();
                if p < s.len() && s[p] == '/' {
                    let (p2, l2) = skip_line_comment(s, p + 1, l);
                    r is None && final(self).spec_pos() == p2 && final(self).spec_line() == l2
                } else if p < s.len() && s[p] == '*' {
                    let (p2, l2) = skip_block_comment(s, p + 1, l);
                    r is None && final(self).spec_pos() == p2 && final(self).spec_line() == l2
                } else {
                    r matches Some(t) && t@ == TokenView::Slash && final(self).pos == old(self).pos
                        && final(self).line == old(self).line
                }
            }),
            old(self).spec_pos() <= final(self).spec_pos(),
    {
        if self.match_next('/') {
            self.comment();
            None
        } else if self.match_next('*') {
            self.multline_comment();
            None
        } else {
            Some(Terminal::Slash)
        }
    }

    /// After a leading `-`: an arrow when `>` follows, else a minus.
    fn rightarrow_or_minus(&mut self) -> (t: Terminal)
        requires
            old(self).wf(),
        ensures
            final(self).wf(),
            final(self).chars == old(self).chars,
            final(self).line == old(self).line,
            ({
                let s = old(self).src();
                let p = old(self).spec_pos();
                if p < s.len() && s[p] == '>' {
                    t@ == TokenView::RightArrow && final(self).spec_pos() == p + 1
                } else {
                    t@ == TokenView::Minus && final(self).pos == old(self).pos
                }
            }),
    {
        if self.match_next('>') {
            Terminal::RightArrow
        } else {
            Terminal::Minus
        }
    }

    /// After a leading `<`: `<->`, `<-` or a plain less-than, longest
    /// match first.
    fn leftarrow_or_less(&mut self) -> (t: Terminal)
        requires
            old(self).wf(),
        ensures
            final(self).wf(),
            final(self).chars == old(self).chars,
            final(self).line == old(self).line,
            ({
                let s = old(self).src();
                let p = old(self).spec_pos();
                if p < s.len() && s[p] == '-' {
                    if p + 1 < s.len() && s[p + 1] == '>' {
                        t@ == TokenView::LeftRightArrow && final(self).spec_pos() == p + 2
                    } else {
                        t@ == TokenView::LeftArrow && final(self).spec_pos() == p + 1
                    }
                } else {
                    t@ == TokenView::Less && final(self).pos == old(self).pos
                }
            }),
    {
        if self.match_next('-') {
            if self.match_next('>') {
                Terminal::LeftRightArrow
            } else {
                Terminal::LeftArrow
            }
        } else {
            Terminal::Less
        }
    }

    /// After an opening quote: the raw text up to the closing quote (or the
    /// end of input), verbatim, as an identifier.
    fn quoted_identifier(&mut self) -> (t: Terminal)
        requires
            old(self).wf(),
        ensures
            final(self).wf(),
            final(self).chars == old(self).chars,
            final(self).line == old(self).line,
            ({
                let (e, p2) = quote_end(old(self).src(), old(self).spec_pos());
                t@ == TokenView::Identifier(old(self).src().subrange(old(self).spec_pos(), e))
                    && final(self).spec_pos() == p2
            }),
    {
        let ghost p0 = self.spec_pos();
        let mut lexeme = String::new();
        loop
            invariant
                self.wf(),
                self.chars == old(self).chars,
                self.line == old(self).line,
                p0 == old(self).spec_pos(),
                p0 <= self.spec_pos() <= self.src().len(),
                lexeme@ == self.src().subrange(p0, self.spec_pos()),
                quote_end(self.src(), self.spec_pos()) == quote_end(old(self).src(), p0),
            decreases self.src().len() - self.spec_pos(),
        {
            match self.pop() {
                None => {
                    return Terminal::Identifier(lexeme);
                },
                Some(c) => {
                    if c == '"' {
                        return Terminal::Identifier(lexeme);
                    }
                    let cs = char_to_string(c);
                    lexeme.append(cs.as_str());
                    proof {
                        assert(lexeme@ =~= self.src().subrange(p0, self.spec_pos()));
                    }
                },
            }
        }
    }

    /// An unquoted maximal alphanumeric run starting with `c`, already
    /// consumed: a number when it is all ASCII digits with a value that
    /// fits in u64, else an identifier.
    fn identifier_or_number(&mut self, c: char) -> (t: Terminal)
        requires
            old(self).wf(),
        ensures
            final(self).wf(),
            final(self).chars == old(self).chars,
            final(self).line == old(self).line,
            ({
                let e = run_end(old(self).src(), old(self).spec_pos());
                t@ == classify_word(seq![c] + old(self).src().subrange(old(self).spec_pos(), e))
                    && final(self).spec_pos() == e
            }),
    {
        let ghost s = self.src();
        let ghost p0 = self.spec_pos();
        let mut lexeme = char_to_string(c);
        let mut digits: bool = '0' <= c && c <= '9';
        let mut over: bool = false;
        let mut val: u64 = if digits {
            (c as u32 as u64) - ('0' as u32 as u64)
        } else {
            0
        };
        proof {
            assert(lexeme@ =~= seq![c] + s.subrange(p0, self.spec_pos()));
            assert(lexeme@.len() == 1);
            assert(lexeme@[0] == c);
            assert(lexeme@.last() == c);
            assert(lexeme@.drop_last() =~= Seq::<char>::empty());
            assert(digits_val(Seq::<char>::empty()) == 0);
            if '0' <= c && c <= '9' {
                assert(all_digits(lexeme@));
                assert(digits_val(lexeme@) == c as int - '0' as int);
            } else {
                assert(!all_digits(lexeme@));
            }
        }
        loop
            invariant
                self.wf(),
                self.chars == old(self).chars,
                self.line == old(self).line,
                s == self.src(),
                p0 == old(self).spec_pos(),
                0 <= p0 <= self.spec_pos() <= s.len(),
                run_end(s, self.spec_pos()) == run_end(s, p0),
                lexeme@ == seq![c] + s.subrange(p0, self.spec_pos()),
                digits == all_digits(lexeme@),
                digits && !over ==> val as nat == digits_val(lexeme@),
                digits && over ==> digits_val(lexeme@) > u64::MAX,
            decreases s.len() - self.spec_pos(),
        {
            match self.take_next_alnum() {
                None => {
                    if digits && !over {
                        return Terminal::Number(val);
                    } else {
                        return Terminal::Identifier(lexeme);
                    }
                },
                Some(c2) => {
                    let ghost lex0 = lexeme@;
                    let cs = char_to_string(c2);
                    lexeme.append(cs.as_str());
                    proof {
                        assert(lexeme@ =~= seq![c] + s.subrange(p0, self.spec_pos()));
                        assert(lexeme@.drop_last() =~= lex0);
                        assert(lexeme@.last() == c2);
                        assert(forall|i: int|
                            0 <= i < lex0.len() ==> lexeme@[i] == #[trigger] lex0[i]);
                    }
                    if c2 < '0' || c2 > '9' {
                        proof {
                            assert(!('0' <= lexeme@.last() <= '9'));
                            assert(!all_digits(lexeme@));
                        }
                        digits = false;
                    } else if digits {
                        proof {
                            assert(all_digits(lexeme@)) by {
                                assert(forall|i: int|
                                    0 <= i < lexeme@.len() - 1 ==> '0' <= #[trigger] lexeme@[i]
                                        <= '9');
                            }
                        }
                        let d: u64 = (c2 as u32 as u64) - ('0' as u32 as u64);
                        if !over {
                            if val <= (u64::MAX - d) / 10 {
                                proof {
                                    assert(val * 10 + d <= u64::MAX) by {
                                        assert(val * 10 <= ((u64::MAX - d) / 10) * 10);
                                        assert(((u64::MAX - d) / 10) * 10 <= u64::MAX - d);
                                    }
                                }
                                val = val * 10 + d;
                            } else {
                                proof {
                                    assert(digits_val(lexeme@) == digits_val(lex0) * 10 + d);
                                    assert(val * 10 + d > u64::MAX) by {
                                        assert(val >= (u64::MAX - d) / 10 + 1);
                                        assert(val * 10 >= ((u64::MAX - d) / 10 + 1) * 10)
                                            by (nonlinear_arith)
                                            requires
                                                val >= (u64::MAX - d) / 10 + 1,
                                        ;
                                        assert(((u64::MAX - d) / 10 + 1) * 10 > u64::MAX - d);
                                    }
                                }
                                over = true;
                            }
                        } else {
                            proof {
                                assert(digits_val(lexeme@) == digits_val(lex0) * 10 + d);
                                assert(digits_val(lex0) * 10 >= digits_val(lex0));
                            }
                        }
                    } else {
                        proof {
                            assert(!all_digits(lex0));
                            let i = choose|i: int|
                                0 <= i < lex0.len() && !('0' <= #[trigger] lex0[i] <= '9');
                            assert(!('0' <= lexeme@[i] <= '9'));
                        }
                    }
                },
            }
        }
    }

    /// Produces the next token, a terminal lexical error, or `None` at the
    /// end of input, exactly as the model [`scan_next`] describes from the
    /// scanner's current position and line.
    pub fn next_token(&mut self) -> (r: Option<Result<Terminal, LexError>>)
        requires
            old(self).wf(),
        ensures
            final(self).wf(),
            final(self).src() == old(self).src(),
            match scan_next(old(self).src(), old(self).spec_pos(), old(self).spec_line()) {
                ScanStep::Token { t, pos, line } => (r matches Some(rr) && rr matches Ok(tok)
                    && tok@ == t) && final(self).spec_pos() == pos && final(self).spec_line() == line,
                ScanStep::End { pos, line } => r is None && final(self).spec_pos() == old(
                    self,
                ).src().len() && final(self).spec_line() == line,
                ScanStep::Fail { c, pos, line } => (r matches Some(rr) && rr matches Err(e) && e@
                    == (LexErrorView { message: lex_message(c), line })) && final(self).spec_pos() == pos
                    && final(self).spec_line() == line,
            },
    {
        loop
            invariant
                self.wf(),
                self.chars == old(self).chars,
                scan_next(self.src(), self.spec_pos(), self.spec_line()) == scan_next(
                    old(self).src(),
                    old(self).spec_pos(),
                    old(self).spec_line(),
                ),
            decreases self.src().len() - self.spec_pos(),
        {
            match self.pop() {
                None => {
                    return None;
                },
                Some(c) => {
                    if char_is_whitespace(c) {
                        if c == '\n' {
                            self.increment_line_num();
                            return Some(Ok(Terminal::SemiColon));
                        }
                    } else if c == '/' {
                        match self.comment_or_slash() {
                            Some(t) => {
                                return Some(Ok(t));
                            },
                            None => {},
                        }
                    } else if char_is_alphanumeric(c) {
                        let ghost p1 = self.spec_pos();
                        proof {
                            lemma_run_end(self.src(), p1);
                        }
                        let t = self.identifier_or_number(c);
                        proof {
                            assert(seq![c] + self.src().subrange(p1, run_end(self.src(), p1))
                                =~= self.src().subrange(p1 - 1, run_end(self.src(), p1)));
                        }
                        return Some(Ok(t));
                    } else {
                        match c {
                            '(' => {
                                return Some(Ok(Terminal::LeftParen));
                            },
                            ')' => {
                                return Some(Ok(Terminal::RightParen));
                            },
                            '{' => {
                                return Some(Ok(Terminal::LeftBrace));
                            },
                            '}' => {
                                return Some(Ok(Terminal::RightBrace));
                            },
                            '[' => {
                                return Some(Ok(Terminal::LeftBracket));
                            },
                            ']' => {
                                return Some(Ok(Terminal::RightBracket));
                            },
                            '+' => {
                                return Some(Ok(Terminal::Plus));
                            },
                            '*' => {
                                return Some(Ok(Terminal::Star));
                            },
                            ';' => {
                                return Some(Ok(Terminal::SemiColon));
                            },
                            ':' => {
                                return Some(Ok(Terminal::Colon));
                            },
                            '=' => {
                                return Some(Ok(Terminal::Equal));
                            },
                            '\'' => {
                                return Some(Ok(Terminal::Tick));
                            },
                            ',' => {
                                return Some(Ok(Terminal::Comma));
                            },
                            '-' => {
                                let t = self.rightarrow_or_minus();
                                return Some(Ok(t));
                            },
                            '>' => {
                                return Some(Ok(Terminal::Greater));
                            },
                            '<' => {
                                let t = self.leftarrow_or_less();
                                return Some(Ok(t));
                            },
                            '"' => {
                                let t = self.quoted_identifier();
                                return Some(Ok(t));
                            },
                            _ => {
                                let cs = char_to_string(c);
                                let msg = String::from_str("Character not recognized ").concat(
                                    cs.as_str(),
                                ).concat(".");
                                let e = LexError::new(msg, self.line);
                                return Some(Err(e));
                            },
                        }
                    }
                },
            }
        }
    }
}

} // verus!
