//! Where a conversion goes wrong, the error stands there and names what is
//! missing there, and nothing else.

use vstd::prelude::*;
use crate::frontier::{Frontier, Rule, RuleSet};
use crate::grammar::{
    chain_at,
    chain_rest,
    directive_at,
    line,
    term_at,
    Chain,
    Parsed,
};
use crate::tokens::{has_pair, lemma_literal_at, lemma_skip_spaces, operator_at, radix_at, skip_spaces};

verus! {

/// Whether `frontier` has noted nothing at `pos` or beyond it.
pub open spec fn is_before(frontier: Frontier, pos: int) -> bool {
    frontier == Frontier::none() || frontier.offset < pos
}

/// What a term that is found has noted lies before its end.
pub proof fn lemma_term_notes(s: Seq<u8>, pos: int)
    requires
        0 <= pos <= s.len() <= usize::MAX,
    ensures
        term_at(s, pos).found matches Some((_, end)) ==> pos < end <= s.len() && is_before(
            term_at(s, pos).frontier,
            end,
        ),
    decreases s.len() - pos, 0int,
{
    lemma_literal_at(s, pos);
    if pos < s.len() && s[pos] == '(' as u8 {
        lemma_skip_spaces(s, pos + 1);
        let start = skip_spaces(s, pos + 1);
        lemma_chain_notes(s, start);
        let inner = chain_at(s, start);
        if inner.found is Some {
            lemma_skip_spaces(s, inner.found.unwrap().1);
        }
    }
}

/// A chain that is found, and after which no operator stands, has looked
/// furthest for that operator, and for nothing else there.
pub proof fn lemma_chain_notes(s: Seq<u8>, pos: int)
    requires
        0 <= pos <= s.len() <= usize::MAX,
    ensures
        chain_at(s, pos).found matches Some((_, end)) ==> pos < end <= s.len() && (operator_at(
            s,
            skip_spaces(s, end),
        ) is None ==> chain_at(s, pos).frontier == Frontier::at(
            skip_spaces(s, end),
            Rule::Operator,
        )),
    decreases s.len() - pos, 2int,
{
    lemma_term_notes(s, pos);
    let first = term_at(s, pos);
    if first.found is Some {
        let (term, end) = first.found.unwrap();
        lemma_chain_rest_notes(s, end, Chain::First(term), first.frontier);
    }
}

/// The same of the rest of a chain.
pub proof fn lemma_chain_rest_notes(s: Seq<u8>, pos: int, so_far: Chain, seen: Frontier)
    requires
        0 < pos <= s.len() <= usize::MAX,
        is_before(seen, pos),
    ensures
        chain_rest(s, pos, so_far, seen).found matches Some((_, end)) && pos <= end <= s.len() && (
        operator_at(s, skip_spaces(s, end)) is None ==> chain_rest(s, pos, so_far, seen).frontier
            == Frontier::at(skip_spaces(s, end), Rule::Operator)),
    decreases s.len() - pos, 1int,
{
    lemma_skip_spaces(s, pos);
    let at = skip_spaces(s, pos);
    match operator_at(s, at) {
        Some((op, after)) => {
            lemma_skip_spaces(s, after);
            let start = skip_spaces(s, after);
            lemma_term_notes(s, start);
            let next = term_at(s, start);
            if next.found is Some {
                let (term, end) = next.found.unwrap();
                lemma_chain_rest_notes(
                    s,
                    end,
                    Chain::Then(Box::new(so_far), op, term),
                    seen.join(next.frontier),
                );
            }
        },
        None => {
            assert(RuleSet::none().union(RuleSet::none().with(Rule::Operator))
                == RuleSet::none().with(Rule::Operator));
        },
    }
}

/// Where an expression is followed by the word `to` and something that is
/// not the name of a radix, the line is refused at the place of that name,
/// and a radix is all that is expected there.
pub proof fn lemma_unknown_radix(s: Seq<u8>, chain: Chain, end: int)
    requires
        s.len() <= usize::MAX,
        chain_at(s, skip_spaces(s, 0)).found == Some((chain, end)),
        skip_spaces(s, end) > end,
        has_pair(s, skip_spaces(s, end), 't' as u8, 'o' as u8),
        skip_spaces(s, skip_spaces(s, end) + 2) > skip_spaces(s, end) + 2,
        radix_at(s, skip_spaces(s, skip_spaces(s, end) + 2)) is None,
    ensures
        line(s) == Err::<Parsed, Frontier>(
            Frontier::at(skip_spaces(s, skip_spaces(s, end) + 2), Rule::Radix),
        ),
{
    let start = skip_spaces(s, 0);
    lemma_skip_spaces(s, 0);
    lemma_chain_notes(s, start);
    lemma_skip_spaces(s, end);
    let word = skip_spaces(s, end);
    lemma_skip_spaces(s, word + 2);
    let name = skip_spaces(s, word + 2);
    lemma_command_frontier(s, chain, end);
    assert(RuleSet::none().union(RuleSet::none().with(Rule::Radix)) == RuleSet::none().with(
        Rule::Radix,
    ));
}

/// Where an expression is followed by the word `to` and the name of a
/// radix, and something other than blanks follows the name, the line is
/// refused at the place after the name and the blanks, and the end of the
/// line is all that is expected there.
pub proof fn lemma_text_after_radix(s: Seq<u8>, chain: Chain, end: int)
    requires
        s.len() <= usize::MAX,
        chain_at(s, skip_spaces(s, 0)).found == Some((chain, end)),
        skip_spaces(s, end) > end,
        has_pair(s, skip_spaces(s, end), 't' as u8, 'o' as u8),
        skip_spaces(s, skip_spaces(s, end) + 2) > skip_spaces(s, end) + 2,
        radix_at(s, skip_spaces(s, skip_spaces(s, end) + 2)) is Some,
        skip_spaces(s, skip_spaces(s, skip_spaces(s, end) + 2) + 3) != s.len(),
    ensures
        line(s) == Err::<Parsed, Frontier>(
            Frontier::at(
                skip_spaces(s, skip_spaces(s, skip_spaces(s, end) + 2) + 3),
                Rule::EndOfInput,
            ),
        ),
{
    let start = skip_spaces(s, 0);
    lemma_skip_spaces(s, 0);
    lemma_chain_notes(s, start);
    lemma_skip_spaces(s, end);
    let word = skip_spaces(s, end);
    lemma_skip_spaces(s, word + 2);
    let name = skip_spaces(s, word + 2);
    lemma_skip_spaces(s, name + 3);
    lemma_command_frontier(s, chain, end);
    assert(RuleSet::none().union(RuleSet::none().with(Rule::EndOfInput))
        == RuleSet::none().with(Rule::EndOfInput));
}

/// Up to the word `to` that follows an expression, the furthest that was
/// looked for is an operator in the place of that word.
proof fn lemma_command_frontier(s: Seq<u8>, chain: Chain, end: int)
    requires
        s.len() <= usize::MAX,
        chain_at(s, skip_spaces(s, 0)).found == Some((chain, end)),
        has_pair(s, skip_spaces(s, end), 't' as u8, 'o' as u8),
    ensures
        directive_at(s, skip_spaces(s, 0)).found is None,
        directive_at(s, skip_spaces(s, 0)).frontier.join(chain_at(s, skip_spaces(s, 0)).frontier)
            == Frontier::at(skip_spaces(s, end), Rule::Operator),
        skip_spaces(s, 0) < end <= skip_spaces(s, end) < s.len(),
{
    let start = skip_spaces(s, 0);
    lemma_skip_spaces(s, 0);
    lemma_chain_notes(s, start);
    lemma_term_notes(s, start);
    lemma_literal_at(s, start);
    lemma_skip_spaces(s, end);
    assert(term_at(s, start).found is Some);
    assert(s[start] != 's' as u8);
    assert(RuleSet::none().union(RuleSet::none().with(Rule::SetKeyword))
        == RuleSet::none().with(Rule::SetKeyword));
}

} // verus!
