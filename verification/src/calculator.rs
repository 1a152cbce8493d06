//! The session state machine: the input buffer, the latest outcome, and the
//! mode that governs when the buffer is cleared.

use vstd::prelude::*;
use vstd::string::*;
use vstd::utf8::is_ascii_chars;
use crate::expr::Expr;
use crate::parser::{spec_parse, wf_expr};
use crate::render::{render_value, spec_render, ValueParts};

verus! {

/// Whether the session is collecting keystrokes or showing a finished
/// outcome.
#[derive(Debug, Clone, Copy, PartialEq, Eq, Structural)]
pub enum CalculatorMode {
    AwaitingInput,
    ShowingResult,
}

/// The outcome of the latest submission: a display string, the generic
/// grammar-violation message, or nothing to evaluate.
#[derive(Debug, PartialEq, Eq)]
pub enum CalculatorResult {
    Success(String),
    Error(String),
    Empty,
}

/// The one long-lived structure of the calculator.
pub struct Calculator {
    pub input: String,
    pub result: CalculatorResult,
    pub mode: CalculatorMode,
}

/// A whitespace character, as the host's trimming sees it: the Unicode
/// White_Space set.
pub open spec fn is_space_char(c: char) -> bool {
    c == ' ' || c == '\t' || c == '\n' || c == '\r' || c == '\u{b}' || c == '\u{c}'
        || c == '\u{85}' || c == '\u{a0}' || c == '\u{1680}'
        || ('\u{2000}' <= c && c <= '\u{200a}')
        || c == '\u{2028}' || c == '\u{2029}' || c == '\u{202f}' || c == '\u{205f}'
        || c == '\u{3000}'
}

/// Nothing to evaluate: the input is empty or all whitespace.
pub open spec fn blank(s: Seq<char>) -> bool {
    forall|i: int| 0 <= i < s.len() ==> is_space_char(#[trigger] s[i])
}

/// The bytes of an ASCII character sequence.
pub open spec fn bytes_of(s: Seq<char>) -> Seq<u8> {
    Seq::new(s.len(), |i: int| s[i] as u8)
}

/// The input parses: it is ASCII and the grammar accepts its bytes.
pub open spec fn input_parses(s: Seq<char>) -> bool {
    is_ascii_chars(s) && spec_parse(bytes_of(s)) is Some
}

/// Relies on String::push: appends the character to the end of the string.
#[verifier::external_body]
fn push_char(s: &mut String, c: char)
    ensures
        final(s)@ == old(s)@.push(c),
{
    s.push(c);
}

/// Relies on String::pop: removes and returns the last character, or
/// returns None and leaves the string unchanged when it is empty.
#[verifier::external_body]
fn pop_char(s: &mut String) -> (r: Option<char>)
    ensures
        old(s)@.len() == 0 ==> final(s)@ == old(s)@ && r is None,
        old(s)@.len() > 0 ==> final(s)@ == old(s)@.drop_last() && r == Some(old(s)@.last()),
{
    s.pop()
}

fn is_space_char_b(c: char) -> (r: bool)
    ensures
        r == is_space_char(c),
{
    c == ' ' || c == '\t' || c == '\n' || c == '\r' || c == '\u{b}' || c == '\u{c}'
        || c == '\u{85}' || c == '\u{a0}' || c == '\u{1680}'
        || ('\u{2000}' <= c && c <= '\u{200a}')
        || c == '\u{2028}' || c == '\u{2029}' || c == '\u{202f}' || c == '\u{205f}'
        || c == '\u{3000}'
}

impl Calculator {
    /// A fresh session: empty buffer, no outcome, awaiting input.
    pub fn new() -> (c: Calculator)
        ensures
            c.input@ == Seq::<char>::empty(),
            c.result == CalculatorResult::Empty,
            c.mode == CalculatorMode::AwaitingInput,
    {
        Calculator {
            input: String::new(),
            result: CalculatorResult::Empty,
            mode: CalculatorMode::AwaitingInput,
        }
    }

    /// Add one keystroke to the buffer. While a result is showing, the
    /// first keystroke discards the old buffer and starts a fresh
    /// expression.
    pub fn append_char(&mut self, c: char)
        ensures
            final(self).mode == CalculatorMode::AwaitingInput,
            final(self).result == old(self).result,
            old(self).mode == CalculatorMode::ShowingResult ==> final(self).input@
                == Seq::<char>::empty().push(c),
            old(self).mode == CalculatorMode::AwaitingInput ==> final(self).input@
                == old(self).input@.push(c),
    {
        if self.mode == CalculatorMode::ShowingResult {
            self.input = String::new();
            self.mode = CalculatorMode::AwaitingInput;
        }
        push_char(&mut self.input, c);
    }

    /// Remove the last character of the buffer; a no-op on an empty buffer.
    pub fn delete_last(&mut self)
        ensures
            final(self).mode == old(self).mode,
            final(self).result == old(self).result,
            old(self).input@.len() == 0 ==> final(self).input@ == old(self).input@,
            old(self).input@.len() > 0 ==> final(self).input@ == old(self).input@.drop_last(),
    {
        let _ = pop_char(&mut self.input);
    }

    /// Submit the buffer. Blank input records the `Empty` outcome and
    /// leaves the session awaiting input; input the grammar refuses records
    /// the generic error and shows it; well-formed input leaves the session
    /// untouched and hands back the expression tree, whose numeric value the
    /// caller computes and then records with `apply_value`.
    pub fn evaluate(&mut self) -> (ast: Option<Expr>)
        ensures
            final(self).input == old(self).input,
            blank(old(self).input@) ==> final(self).result == CalculatorResult::Empty
                && final(self).mode == CalculatorMode::AwaitingInput && ast is None,
            !blank(old(self).input@) && !input_parses(old(self).input@)
                ==> (final(self).result matches CalculatorResult::Error(m)
                && m@ == "Invalid expression"@)
                && final(self).mode == CalculatorMode::ShowingResult && ast is None,
            !blank(old(self).input@) && input_parses(old(self).input@)
                ==> ast == spec_parse(bytes_of(old(self).input@))
                && final(self).result == old(self).result
                && final(self).mode == old(self).mode,
            ast matches Some(e) ==> wf_expr(e, bytes_of(old(self).input@)),
    {
        let n = self.input.as_str().unicode_len();
        let mut i: usize = 0;
        let mut all_ws: bool = true;
        while i < n
            invariant
                *self == *old(self),
                i <= n,
                n == self.input@.len(),
                all_ws <==> (forall|j: int|
                    0 <= j < i ==> is_space_char(#[trigger] self.input@[j])),
            decreases n - i,
        {
            let ch = self.input.as_str().get_char(i);
            if !is_space_char_b(ch) {
                all_ws = false;
            }
            i = i + 1;
        }
        if all_ws {
            self.result = CalculatorResult::Empty;
            self.mode = CalculatorMode::AwaitingInput;
            return None;
        }
        if !self.input.is_ascii() {
            self.result = CalculatorResult::Error(String::from_str("Invalid expression"));
            self.mode = CalculatorMode::ShowingResult;
            return None;
        }
        let sref = self.input.as_str();
        let bytes = sref.as_bytes_vec();
        proof {
            broadcast use vstd::string::is_ascii_spec_bytes;

            assert(is_ascii(sref));
            assert(bytes@ =~= bytes_of(self.input@));
        }
        match crate::parser::parse(&bytes) {
            Some(e) => Some(e),
            None => {
                self.result = CalculatorResult::Error(String::from_str("Invalid expression"));
                self.mode = CalculatorMode::ShowingResult;
                None
            },
        }
    }

    /// Record a computed value's display text, chosen by the display
    /// policy, as the current outcome, and show it.
    pub fn apply_value(&mut self, parts: &ValueParts)
        ensures
            final(self).input == old(self).input,
            final(self).mode == CalculatorMode::ShowingResult,
            (final(self).result matches CalculatorResult::Success(t) && t@ == spec_render(*parts)),
    {
        self.result = CalculatorResult::Success(render_value(parts));
        self.mode = CalculatorMode::ShowingResult;
    }
}

} // verus!
