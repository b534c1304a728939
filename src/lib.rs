//! A compiler for a small protocol-definition language: it parses type
//! declarations, orders them by dependency and emits C type declarations.
pub mod ast;
pub mod lexer;
pub mod meklang;
pub mod meklang_parser;
pub mod parser;
pub mod resolver;
pub mod smith_c;
pub mod text;

use vstd::prelude::*;

use crate::ast::{Protocol, SpecDefinition};
use crate::lexer::{Token, lemma_token_at_bounds, lex, tokenize};
use crate::parser::{Expected, expected_label, label, p_module, parse_module, tokens_within};
use crate::smith_c::{append_decimal, decimal};
use crate::text::{chars_of, push_char};

verus! {

/// The character position of the token at index `t`, or the end of the text
/// past the last token.
pub open spec fn char_position(s: Seq<char>, toks: Seq<Token>, t: int) -> int {
    if 0 <= t < toks.len() {
        toks[t].start as int
    } else {
        s.len() as int
    }
}

/// The outcome of parsing the text `s`: its declarations, or the character
/// position where parsing failed and what was expected there.
pub open spec fn parse_text(s: Seq<char>) -> Result<Seq<SpecDefinition>, (int, Seq<Expected>)> {
    let toks = lex(s, 0);
    match p_module(s, toks, 0, Seq::empty()) {
        Ok((ds, _)) => Ok(ds),
        Err((t, es)) => Err((char_position(s, toks, t), es)),
    }
}

/// The 1-based line and column of position `k` of `s`.
pub open spec fn line_column(s: Seq<char>, k: int) -> (nat, nat)
    decreases k,
{
    if k <= 0 {
        (1, 1)
    } else {
        let (line, column) = line_column(s, k - 1);
        if s[k - 1] == '\n' {
            (line + 1, 1)
        } else {
            (line, column + 1)
        }
    }
}

pub open spec fn found_text(s: Seq<char>, pos: int) -> Seq<char> {
    if 0 <= pos < s.len() {
        "'"@ + seq![s[pos]] + "'"@
    } else {
        "end of input"@
    }
}

/// Each label followed by a comma.
pub open spec fn labels_with_commas(es: Seq<Expected>) -> Seq<char>
    decreases es.len(),
{
    if es.len() == 0 {
        Seq::empty()
    } else {
        labels_with_commas(es.drop_last()) + expected_label(es.last()) + ", "@
    }
}

/// `a`, `a, or b`, `a, b, or c`, ...
pub open spec fn labels_text(es: Seq<Expected>) -> Seq<char> {
    if es.len() == 0 {
        "something else"@
    } else if es.len() == 1 {
        expected_label(es[0])
    } else {
        labels_with_commas(es.drop_last()) + "or "@ + expected_label(es.last())
    }
}

/// The message for a syntax error at `pos` of `s`.
pub open spec fn diagnostic(s: Seq<char>, pos: int, es: Seq<Expected>) -> Seq<char> {
    let (line, column) = line_column(s, pos);
    "Parsing failed. Errors: found "@ + found_text(s, pos) + " expected "@ + labels_text(es)
        + " in "@ + decimal(line) + ":"@ + decimal(column)
}

pub proof fn lemma_tokens_within(s: Seq<char>, i: int)
    requires
        0 <= i <= s.len(),
        s.len() <= usize::MAX,
    ensures
        tokens_within(s, lex(s, i)),
        forall|k: int| 0 <= k < lex(s, i).len() ==> i <= #[trigger] lex(s, i)[k].start,
    decreases s.len() - i,
{
    if i < s.len() {
        if crate::lexer::is_space(s[i]) {
            lemma_tokens_within(s, i + 1);
            assert(lex(s, i) == lex(s, i + 1));
        } else {
            lemma_token_at_bounds(s, i);
            let (kind, end) = crate::lexer::token_at(s, i);
            lemma_tokens_within(s, end);
            let toks = lex(s, i);
            let rest = lex(s, end);
            let first = Token { kind, start: i as usize, end: end as usize };
            assert(toks == seq![first] + rest);
            assert forall|k: int| 0 <= k < toks.len() implies #[trigger] toks[k].start
                <= toks[k].end <= s.len() && i <= toks[k].start by {
                if k == 0 {
                    assert(toks[0] == first);
                } else {
                    assert(toks[k] == rest[k - 1]);
                    assert(rest[k - 1].start <= rest[k - 1].end <= s.len());
                    assert(end <= rest[k - 1].start);
                }
            }
            assert(tokens_within(s, toks));
        }
    }
}

/// The line and column, both from 1, of the character at `position` of
/// `input`, or just past its end.
pub fn get_error_location(input: &Vec<char>, position: usize) -> (r: (usize, usize))
    requires
        position <= input@.len() < usize::MAX,
    ensures
        r.0 as nat == line_column(input@, position as int).0,
        r.1 as nat == line_column(input@, position as int).1,
{
    let mut line: usize = 1;
    let mut column: usize = 1;
    let mut i: usize = 0;
    while i < position
        invariant
            i <= position <= input@.len() < usize::MAX,
            line as nat == line_column(input@, i as int).0,
            column as nat == line_column(input@, i as int).1,
            line <= i + 1,
            column <= i + 1,
        decreases position - i,
    {
        if input[i] == '\n' {
            line = line + 1;
            column = 1;
        } else {
            column = column + 1;
        }
        i = i + 1;
    }
    (line, column)
}

/// The message for a syntax error at `position` of `input`.
fn error_message(input: &Vec<char>, position: usize, expected: &Vec<Expected>) -> (r: String)
    requires
        position <= input@.len() < usize::MAX,
    ensures
        r@ == diagnostic(input@, position as int, expected@),
{
    let mut msg = String::from_str("Parsing failed. Errors: found ");
    if position < input.len() {
        msg.append("'");
        push_char(&mut msg, input[position]);
        msg.append("'");
    } else {
        msg.append("end of input");
    }
    msg.append(" expected ");
    let ghost before = msg@;
    let n = expected.len();
    if n == 0 {
        msg.append("something else");
    } else if n == 1 {
        msg.append(label(expected[0]));
    } else {
        let mut k: usize = 0;
        while k < n - 1
            invariant
                n == expected@.len(),
                k <= n - 1,
                msg@ == before + labels_with_commas(expected@.subrange(0, k as int)),
            decreases n - 1 - k,
        {
            msg.append(label(expected[k]));
            msg.append(", ");
            proof {
                let prefix = expected@.subrange(0, k + 1);
                assert(prefix.drop_last() =~= expected@.subrange(0, k as int));
            }
            k = k + 1;
        }
        assert(expected@.subrange(0, k as int) =~= expected@.drop_last());
        msg.append("or ");
        msg.append(label(expected[n - 1]));
    }
    assert(msg@ =~= before + labels_text(expected@));
    let (line, column) = get_error_location(input, position);
    msg.append(" in ");
    append_decimal(&mut msg, line as u64);
    msg.append(":");
    append_decimal(&mut msg, column as u64);
    assert(msg@ =~= diagnostic(input@, position as int, expected@));
    msg
}

/// Parses the text of a protocol into its declarations, in source order; on
/// a syntax error, returns the message naming what was found, what was
/// expected, and the line and column.
pub fn parse_protocol_to_ast(input: &str) -> (r: Result<Protocol, String>)
    requires
        input@.len() < usize::MAX,
    ensures
        match r {
            Ok(p) => parse_text(input@) == Ok::<Seq<SpecDefinition>, (int, Seq<Expected>)>(p@),
            Err(msg) => parse_text(input@) matches Err((pos, es)) && msg@ == diagnostic(
                input@,
                pos,
                es,
            ),
        },
{
    let chars = chars_of(input);
    let tokens = tokenize(&chars);
    proof {
        lemma_tokens_within(chars@, 0);
    }
    match parse_module(&chars, &tokens) {
        Ok(definitions) => Ok(Protocol { definitions }),
        Err((t, expected)) => {
            let position = if t < tokens.len() {
                tokens[t].start
            } else {
                chars.len()
            };
            Err(error_message(&chars, position, &expected))
        },
    }
}

} // verus!
