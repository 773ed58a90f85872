//! Where an error can stand. A parse gets from one offset to the next over
//! tokens and blanks only, and these are ASCII: so the offset of an error
//! lies within the line, with nothing but ASCII before it, and is a place
//! between two characters of the text.

use vstd::prelude::*;
use vstd::utf8::{is_char_boundary, valid_utf8};
use crate::frontier::{Frontier, Rule, RuleSet};
use crate::grammar::{
    arguments_at,
    chain_at,
    chain_rest,
    chars_of,
    command_at,
    conversion_at,
    directive_at,
    line,
    term_at,
    Chain,
};
use crate::tokens::{
    digit_run,
    identifier_end,
    is_literal_byte,
    is_space,
    is_word_byte,
    literal_at,
    operator_at,
    skip_spaces,
    word_run,
};

verus! {

/// Whether every byte of `s` before `pos` is ASCII.
pub open spec fn ascii_before(s: Seq<u8>, pos: int) -> bool {
    forall|i: int| 0 <= i < pos && i < s.len() ==> #[trigger] s[i] < 128
}

/// Whether `frontier` stands within the line `s`, with nothing but ASCII
/// before it, and expects something unless it stands at the start.
pub open spec fn within(s: Seq<u8>, frontier: Frontier) -> bool {
    &&& frontier.offset <= s.len()
    &&& ascii_before(s, frontier.offset as int)
    &&& frontier.offset > 0 ==> frontier.expected != RuleSet::none()
}

/// Two frontiers within the line join to one within the line.
pub proof fn lemma_join(s: Seq<u8>, a: Frontier, b: Frontier)
    requires
        within(s, a),
        within(s, b),
    ensures
        within(s, a.join(b)),
{
}

/// A note at a place that the parse has reached keeps the frontier within
/// the line, and the frontier expects something from then on.
pub proof fn lemma_note(s: Seq<u8>, seen: Frontier, at: int, rule: Rule)
    requires
        within(s, seen),
        0 <= at <= s.len() <= usize::MAX,
        ascii_before(s, at),
    ensures
        within(s, seen.and(at, rule)),
        seen.and(at, rule).expected != RuleSet::none(),
{
    assert(RuleSet::none().with(rule).has(rule));
}

/// Blanks are ASCII.
pub proof fn lemma_spaces_ascii(s: Seq<u8>, pos: int)
    requires
        0 <= pos <= s.len(),
        ascii_before(s, pos),
    ensures
        pos <= skip_spaces(s, pos) <= s.len(),
        ascii_before(s, skip_spaces(s, pos)),
    decreases s.len() - pos,
{
    if pos < s.len() && is_space(s[pos]) {
        lemma_spaces_ascii(s, pos + 1);
    }
}

/// Digits and separators are ASCII.
pub proof fn lemma_digits_ascii(s: Seq<u8>, pos: int, base: int)
    requires
        0 <= pos <= s.len(),
        ascii_before(s, pos),
    ensures
        pos <= digit_run(s, pos, base) <= s.len(),
        ascii_before(s, digit_run(s, pos, base)),
    decreases s.len() - pos,
{
    if pos < s.len() && is_literal_byte(s[pos], base) {
        lemma_digits_ascii(s, pos + 1, base);
    }
}

/// The bytes of an identifier are ASCII.
pub proof fn lemma_words_ascii(s: Seq<u8>, pos: int)
    requires
        0 <= pos <= s.len(),
        ascii_before(s, pos),
    ensures
        pos <= word_run(s, pos) <= s.len(),
        ascii_before(s, word_run(s, pos)),
    decreases s.len() - pos,
{
    if pos < s.len() && is_word_byte(s[pos]) {
        lemma_words_ascii(s, pos + 1);
    }
}

/// An identifier ends within the line, with nothing but ASCII before.
pub proof fn lemma_identifier_ascii(s: Seq<u8>, pos: int)
    requires
        0 <= pos <= s.len(),
        ascii_before(s, pos),
    ensures
        pos <= identifier_end(s, pos) <= s.len(),
        ascii_before(s, identifier_end(s, pos)),
{
    if pos < s.len() {
        if s[pos] < 128 {
            lemma_words_ascii(s, pos + 1);
        }
    }
}

/// A literal ends within the line, with nothing but ASCII before.
pub proof fn lemma_literal_ascii(s: Seq<u8>, pos: int)
    requires
        0 <= pos <= s.len(),
        ascii_before(s, pos),
    ensures
        literal_at(s, pos) matches Some((_, end)) ==> pos < end <= s.len() && ascii_before(s, end),
{
    if pos + 3 <= s.len() && s[pos] < 128 && s[pos + 1] < 128 && s[pos + 2] < 128 {
        assert(ascii_before(s, pos + 3)) by {
            assert forall|i: int| 0 <= i < pos + 3 && i < s.len() implies #[trigger] s[i]
                < 128 by {
                if i < pos {
                }
            }
        }
        lemma_digits_ascii(s, pos + 3, 16);
        lemma_digits_ascii(s, pos + 3, 8);
        lemma_digits_ascii(s, pos + 3, 2);
    }
    if pos + 1 <= s.len() && s[pos] < 128 {
        lemma_digits_ascii(s, pos + 1, 10);
    }
}

/// An operator ends within the line, with nothing but ASCII before.
pub proof fn lemma_operator_ascii(s: Seq<u8>, pos: int)
    requires
        0 <= pos <= s.len(),
        ascii_before(s, pos),
    ensures
        operator_at(s, pos) matches Some((_, end)) ==> pos < end <= s.len() && ascii_before(s, end),
{
}

/// Bytes that are known one by one extend what is ASCII.
pub proof fn lemma_step_ascii(s: Seq<u8>, pos: int, count: int)
    requires
        0 <= pos,
        0 <= count,
        pos + count <= s.len(),
        ascii_before(s, pos),
        forall|i: int| pos <= i < pos + count ==> #[trigger] s[i] < 128,
    ensures
        ascii_before(s, pos + count),
{
    assert forall|i: int| 0 <= i < pos + count && i < s.len() implies #[trigger] s[i] < 128 by {
        if i < pos {
        }
    }
}

/// What a term notes lies within the line, and so does its end.
pub proof fn lemma_term_within(s: Seq<u8>, pos: int)
    requires
        0 <= pos <= s.len() <= usize::MAX,
        ascii_before(s, pos),
    ensures
        within(s, term_at(s, pos).frontier),
        term_at(s, pos).found matches Some((_, end)) ==> pos < end <= s.len() && ascii_before(
            s,
            end,
        ),
    decreases s.len() - pos, 0int,
{
    lemma_literal_ascii(s, pos);
    if literal_at(s, pos) is Some {
    } else if pos + 3 <= s.len() && s[pos] == 'a' as u8 && s[pos + 1] == 'n' as u8 && s[pos + 2]
        == 's' as u8 {
        lemma_step_ascii(s, pos, 3);
    } else if pos < s.len() && s[pos] == '(' as u8 {
        lemma_step_ascii(s, pos, 1);
        lemma_spaces_ascii(s, pos + 1);
        let start = skip_spaces(s, pos + 1);
        lemma_chain_within(s, start);
        let inner = chain_at(s, start);
        if inner.found is Some {
            let end = inner.found.unwrap().1;
            lemma_spaces_ascii(s, end);
            let close = skip_spaces(s, end);
            if close < s.len() && s[close] == ')' as u8 {
                lemma_step_ascii(s, close, 1);
            } else {
                lemma_note(s, inner.frontier, close, Rule::CloseParen);
            }
        }
    } else {
        lemma_note(s, Frontier::none(), pos, Rule::Number);
        lemma_note(s, Frontier::none().and(pos, Rule::Number), pos, Rule::Ans);
        lemma_note(
            s,
            Frontier::none().and(pos, Rule::Number).and(pos, Rule::Ans),
            pos,
            Rule::OpenParen,
        );
    }
}

/// What a chain notes lies within the line, and so does its end.
pub proof fn lemma_chain_within(s: Seq<u8>, pos: int)
    requires
        0 <= pos <= s.len() <= usize::MAX,
        ascii_before(s, pos),
    ensures
        within(s, chain_at(s, pos).frontier),
        chain_at(s, pos).found matches Some((_, end)) ==> pos < end <= s.len() && ascii_before(
            s,
            end,
        ),
    decreases s.len() - pos, 2int,
{
    lemma_term_within(s, pos);
    let first = term_at(s, pos);
    if first.found is Some {
        let (term, end) = first.found.unwrap();
        lemma_chain_rest_within(s, end, Chain::First(term), first.frontier);
    }
}

/// What the rest of a chain notes lies within the line, and so does its end.
pub proof fn lemma_chain_rest_within(s: Seq<u8>, pos: int, so_far: Chain, seen: Frontier)
    requires
        0 <= pos <= s.len() <= usize::MAX,
        ascii_before(s, pos),
        within(s, seen),
    ensures
        within(s, chain_rest(s, pos, so_far, seen).frontier),
        chain_rest(s, pos, so_far, seen).found matches Some((_, end)) && pos <= end <= s.len()
            && ascii_before(s, end),
    decreases s.len() - pos, 1int,
{
    lemma_spaces_ascii(s, pos);
    let at = skip_spaces(s, pos);
    lemma_operator_ascii(s, at);
    match operator_at(s, at) {
        Some((op, after)) => {
            lemma_spaces_ascii(s, after);
            let start = skip_spaces(s, after);
            lemma_term_within(s, start);
            let next = term_at(s, start);
            lemma_join(s, seen, next.frontier);
            if next.found is Some {
                let (term, end) = next.found.unwrap();
                lemma_chain_rest_within(
                    s,
                    end,
                    Chain::Then(Box::new(so_far), op, term),
                    seen.join(next.frontier),
                );
            }
        },
        None => {
            lemma_note(s, seen, at, Rule::Operator);
        },
    }
}

/// What a conversion notes lies within the line, and so does its end.
pub proof fn lemma_conversion_within(s: Seq<u8>, pos: int)
    requires
        0 <= pos <= s.len() <= usize::MAX,
        ascii_before(s, pos),
    ensures
        within(s, conversion_at(s, pos).frontier),
        conversion_at(s, pos).found matches Some((_, end)) ==> pos < end <= s.len()
            && ascii_before(s, end),
{
    lemma_spaces_ascii(s, pos);
    let word = skip_spaces(s, pos);
    if word == pos {
        lemma_note(s, Frontier::none(), pos, Rule::Separator);
    } else if !(word + 2 <= s.len() && s[word] == 't' as u8 && s[word + 1] == 'o' as u8) {
        lemma_note(s, Frontier::none(), word, Rule::To);
    } else {
        lemma_step_ascii(s, word, 2);
        lemma_spaces_ascii(s, word + 2);
        let name = skip_spaces(s, word + 2);
        if name == word + 2 {
            lemma_note(s, Frontier::none(), name, Rule::Separator);
        } else if name + 3 <= s.len() && s[name] < 128 && s[name + 1] < 128 && s[name + 2] < 128 {
            lemma_step_ascii(s, name, 3);
            lemma_note(s, Frontier::none(), name, Rule::Radix);
        } else {
            lemma_note(s, Frontier::none(), name, Rule::Radix);
        }
    }
}

/// What the arguments of a directive note lies within the line, and so
/// does their end.
pub proof fn lemma_arguments_within(s: Seq<u8>, pos: int, so_far: Seq<Seq<char>>, seen: Frontier)
    requires
        0 <= pos <= s.len() <= usize::MAX,
        ascii_before(s, pos),
        within(s, seen),
    ensures
        within(s, arguments_at(s, pos, so_far, seen).frontier),
        arguments_at(s, pos, so_far, seen).found matches Some((_, end)) ==> pos <= end <= s.len()
            && ascii_before(s, end),
    decreases s.len() - pos,
{
    lemma_spaces_ascii(s, pos);
    let start = skip_spaces(s, pos);
    lemma_identifier_ascii(s, start);
    let end = identifier_end(s, start);
    if start == pos {
        lemma_note(s, seen, pos, Rule::Separator);
    } else if end == start {
        lemma_note(s, seen, start, Rule::Identifier);
    } else {
        lemma_arguments_within(s, end, so_far.push(chars_of(s.subrange(start, end))), seen);
    }
}

/// What a directive notes lies within the line, and so does its end.
pub proof fn lemma_directive_within(s: Seq<u8>, pos: int)
    requires
        0 <= pos <= s.len() <= usize::MAX,
        ascii_before(s, pos),
    ensures
        within(s, directive_at(s, pos).frontier),
        directive_at(s, pos).found matches Some((_, end)) ==> pos < end <= s.len()
            && ascii_before(s, end),
{
    if pos + 3 <= s.len() && s[pos] == 's' as u8 && s[pos + 1] == 'e' as u8 && s[pos + 2]
        == 't' as u8 {
        lemma_step_ascii(s, pos, 3);
        lemma_arguments_within(s, pos + 3, Seq::empty(), Frontier::none());
    } else {
        lemma_note(s, Frontier::none(), pos, Rule::SetKeyword);
    }
}

/// What a command notes lies within the line, and so does its end.
pub proof fn lemma_command_within(s: Seq<u8>, pos: int)
    requires
        0 <= pos <= s.len() <= usize::MAX,
        ascii_before(s, pos),
    ensures
        within(s, command_at(s, pos).frontier),
        command_at(s, pos).found matches Some((_, end)) ==> pos < end <= s.len() && ascii_before(
            s,
            end,
        ),
{
    lemma_directive_within(s, pos);
    lemma_chain_within(s, pos);
    let directive = directive_at(s, pos);
    let chain = chain_at(s, pos);
    lemma_join(s, directive.frontier, chain.frontier);
    if directive.found is None && chain.found is Some {
        let end = chain.found.unwrap().1;
        lemma_conversion_within(s, end);
        lemma_join(s, directive.frontier.join(chain.frontier), conversion_at(s, end).frontier);
    }
}

/// The error of a line stands within the line, with nothing but ASCII
/// before it, and expects at least one kind of token.
pub proof fn lemma_error_within(s: Seq<u8>)
    requires
        s.len() <= usize::MAX,
    ensures
        line(s) matches Err(frontier) ==> frontier.offset <= s.len() && ascii_before(
            s,
            frontier.offset as int,
        ) && frontier.expected != RuleSet::none(),
{
    lemma_spaces_ascii(s, 0);
    let start = skip_spaces(s, 0);
    lemma_command_within(s, start);
    let command = command_at(s, start);
    match command.found {
        Some((_, end)) => {
            lemma_spaces_ascii(s, end);
            lemma_note(s, command.frontier, skip_spaces(s, end), Rule::EndOfInput);
        },
        None => {
            lemma_note(s, command.frontier, start, Rule::EndOfInput);
        },
    }
}

/// In a text, a place with nothing but ASCII before it lies between two
/// characters.
pub proof fn lemma_ascii_boundary(bytes: Seq<u8>, at: int)
    requires
        valid_utf8(bytes),
        0 <= at <= bytes.len(),
        ascii_before(bytes, at),
    ensures
        is_char_boundary(bytes, at),
    decreases at,
{
    if at > 0 {
        let rest = bytes.subrange(1, bytes.len() as int);
        assert(bytes[0] < 128);
        assert(ascii_before(rest, at - 1)) by {
            assert forall|i: int| 0 <= i < at - 1 && i < rest.len() implies #[trigger] rest[i]
                < 128 by {
                assert(rest[i] == bytes[i + 1]);
            }
        }
        lemma_ascii_boundary(rest, at - 1);
    }
}

/// The error of a line of text stands between two characters of the text.
pub proof fn lemma_error_boundary(s: Seq<u8>)
    requires
        valid_utf8(s),
        s.len() <= usize::MAX,
    ensures
        line(s) matches Err(frontier) ==> is_char_boundary(s, frontier.offset as int),
{
    lemma_error_within(s);
    if line(s) is Err {
        lemma_ascii_boundary(s, line(s)->Err_0.offset as int);
    }
}

} // verus!
