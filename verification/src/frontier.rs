//! How far a parse got, and what it looked for there.

use vstd::prelude::*;

verus! {

/// A kind of token of the grammar.
#[derive(Clone, Copy, Debug, PartialEq, Eq, PartialOrd, Ord, Hash, Structural)]
pub enum Rule {
    /// The word `set`.
    SetKeyword,
    /// An argument of a `set` directive.
    Identifier,
    /// The blank that must stand between two words of a directive.
    Separator,
    /// A literal in one of the four radices.
    Number,
    /// The word `ans`.
    Ans,
    /// `(`.
    OpenParen,
    /// `)`.
    CloseParen,
    /// One of the binary operators.
    Operator,
    /// The word `to`.
    To,
    /// One of `dec`, `hex`, `oct`, `bin`.
    Radix,
    /// The end of the line.
    EndOfInput,
}

/// A set of token kinds.
#[derive(Clone, Copy, Debug, PartialEq, Eq, Structural)]
pub struct RuleSet {
    pub set_keyword: bool,
    pub identifier: bool,
    pub separator: bool,
    pub number: bool,
    pub ans: bool,
    pub open_paren: bool,
    pub close_paren: bool,
    pub operator: bool,
    pub to: bool,
    pub radix: bool,
    pub end_of_input: bool,
}

/// `seq![rule]` if `present`, else nothing.
pub open spec fn listed_if(present: bool, rule: Rule) -> Seq<Rule> {
    if present {
        seq![rule]
    } else {
        Seq::empty()
    }
}

impl RuleSet {
    /// Whether `rule` is in the set.
    pub open spec fn has(self, rule: Rule) -> bool {
        match rule {
            Rule::SetKeyword => self.set_keyword,
            Rule::Identifier => self.identifier,
            Rule::Separator => self.separator,
            Rule::Number => self.number,
            Rule::Ans => self.ans,
            Rule::OpenParen => self.open_paren,
            Rule::CloseParen => self.close_paren,
            Rule::Operator => self.operator,
            Rule::To => self.to,
            Rule::Radix => self.radix,
            Rule::EndOfInput => self.end_of_input,
        }
    }

    /// The empty set.
    pub open spec fn none() -> RuleSet {
        RuleSet {
            set_keyword: false,
            identifier: false,
            separator: false,
            number: false,
            ans: false,
            open_paren: false,
            close_paren: false,
            operator: false,
            to: false,
            radix: false,
            end_of_input: false,
        }
    }

    /// The set that holds what either set holds.
    pub open spec fn union(self, other: RuleSet) -> RuleSet {
        RuleSet {
            set_keyword: self.set_keyword || other.set_keyword,
            identifier: self.identifier || other.identifier,
            separator: self.separator || other.separator,
            number: self.number || other.number,
            ans: self.ans || other.ans,
            open_paren: self.open_paren || other.open_paren,
            close_paren: self.close_paren || other.close_paren,
            operator: self.operator || other.operator,
            to: self.to || other.to,
            radix: self.radix || other.radix,
            end_of_input: self.end_of_input || other.end_of_input,
        }
    }

    /// The set with `rule` added.
    pub open spec fn with(self, rule: Rule) -> RuleSet {
        match rule {
            Rule::SetKeyword => RuleSet { set_keyword: true, ..self },
            Rule::Identifier => RuleSet { identifier: true, ..self },
            Rule::Separator => RuleSet { separator: true, ..self },
            Rule::Number => RuleSet { number: true, ..self },
            Rule::Ans => RuleSet { ans: true, ..self },
            Rule::OpenParen => RuleSet { open_paren: true, ..self },
            Rule::CloseParen => RuleSet { close_paren: true, ..self },
            Rule::Operator => RuleSet { operator: true, ..self },
            Rule::To => RuleSet { to: true, ..self },
            Rule::Radix => RuleSet { radix: true, ..self },
            Rule::EndOfInput => RuleSet { end_of_input: true, ..self },
        }
    }

    /// The rules of the set, each once, in the order of their declaration.
    pub open spec fn listed(self) -> Seq<Rule> {
        Seq::<Rule>::empty() + listed_if(self.set_keyword, Rule::SetKeyword) + listed_if(
            self.identifier,
            Rule::Identifier,
        ) + listed_if(self.separator, Rule::Separator) + listed_if(self.number, Rule::Number)
            + listed_if(self.ans, Rule::Ans) + listed_if(self.open_paren, Rule::OpenParen)
            + listed_if(self.close_paren, Rule::CloseParen) + listed_if(
            self.operator,
            Rule::Operator,
        ) + listed_if(self.to, Rule::To) + listed_if(self.radix, Rule::Radix) + listed_if(
            self.end_of_input,
            Rule::EndOfInput,
        )
    }

    /// The empty set.
    pub fn empty() -> (r: RuleSet)
        ensures
            r == RuleSet::none(),
    {
        RuleSet {
            set_keyword: false,
            identifier: false,
            separator: false,
            number: false,
            ans: false,
            open_paren: false,
            close_paren: false,
            operator: false,
            to: false,
            radix: false,
            end_of_input: false,
        }
    }

    /// Whether `rule` is in the set.
    pub fn contains(&self, rule: Rule) -> (r: bool)
        ensures
            r == self.has(rule),
    {
        match rule {
            Rule::SetKeyword => self.set_keyword,
            Rule::Identifier => self.identifier,
            Rule::Separator => self.separator,
            Rule::Number => self.number,
            Rule::Ans => self.ans,
            Rule::OpenParen => self.open_paren,
            Rule::CloseParen => self.close_paren,
            Rule::Operator => self.operator,
            Rule::To => self.to,
            Rule::Radix => self.radix,
            Rule::EndOfInput => self.end_of_input,
        }
    }

    /// The set with `rule` added.
    pub fn insert(self, rule: Rule) -> (r: RuleSet)
        ensures
            r == self.with(rule),
    {
        let mut r = self;
        match rule {
            Rule::SetKeyword => r.set_keyword = true,
            Rule::Identifier => r.identifier = true,
            Rule::Separator => r.separator = true,
            Rule::Number => r.number = true,
            Rule::Ans => r.ans = true,
            Rule::OpenParen => r.open_paren = true,
            Rule::CloseParen => r.close_paren = true,
            Rule::Operator => r.operator = true,
            Rule::To => r.to = true,
            Rule::Radix => r.radix = true,
            Rule::EndOfInput => r.end_of_input = true,
        }
        r
    }

    /// The set that holds what either set holds.
    pub fn merged(self, other: RuleSet) -> (r: RuleSet)
        ensures
            r == self.union(other),
    {
        RuleSet {
            set_keyword: self.set_keyword || other.set_keyword,
            identifier: self.identifier || other.identifier,
            separator: self.separator || other.separator,
            number: self.number || other.number,
            ans: self.ans || other.ans,
            open_paren: self.open_paren || other.open_paren,
            close_paren: self.close_paren || other.close_paren,
            operator: self.operator || other.operator,
            to: self.to || other.to,
            radix: self.radix || other.radix,
            end_of_input: self.end_of_input || other.end_of_input,
        }
    }

    /// The rules of the set, each once, in the order of their declaration.
    pub fn to_vec(&self) -> (r: Vec<Rule>)
        ensures
            r@ == self.listed(),
    {
        let mut r: Vec<Rule> = Vec::new();
        assert(r@ == Seq::<Rule>::empty());
        push_if(&mut r, self.set_keyword, Rule::SetKeyword);
        push_if(&mut r, self.identifier, Rule::Identifier);
        push_if(&mut r, self.separator, Rule::Separator);
        push_if(&mut r, self.number, Rule::Number);
        push_if(&mut r, self.ans, Rule::Ans);
        push_if(&mut r, self.open_paren, Rule::OpenParen);
        push_if(&mut r, self.close_paren, Rule::CloseParen);
        push_if(&mut r, self.operator, Rule::Operator);
        push_if(&mut r, self.to, Rule::To);
        push_if(&mut r, self.radix, Rule::Radix);
        push_if(&mut r, self.end_of_input, Rule::EndOfInput);
        r
    }
}

/// Adds `rule` to the list if `present`.
fn push_if(list: &mut Vec<Rule>, present: bool, rule: Rule)
    ensures
        final(list)@ == old(list)@ + listed_if(present, rule),
{
    if present {
        list.push(rule);
        assert(list@ =~= old(list)@ + listed_if(present, rule));
    } else {
        assert(list@ =~= old(list)@ + listed_if(present, rule));
    }
}

/// The furthest offset at which a parse looked for a token and did not find
/// it, and the kinds of token it looked for there. With an empty set, the
/// parse has not failed anywhere yet.
#[derive(Clone, Copy, Debug, PartialEq, Eq, Structural)]
pub struct Frontier {
    pub offset: usize,
    pub expected: RuleSet,
}

impl Frontier {
    /// Nothing looked for yet.
    pub open spec fn none() -> Frontier {
        Frontier { offset: 0, expected: RuleSet::none() }
    }

    /// `rule` looked for at `offset`, in vain.
    pub open spec fn at(offset: int, rule: Rule) -> Frontier {
        Frontier { offset: offset as usize, expected: RuleSet::none().with(rule) }
    }

    /// Both together: the one that got further, or, at the same offset, what
    /// either looked for.
    pub open spec fn join(self, other: Frontier) -> Frontier {
        if self.offset > other.offset {
            self
        } else if other.offset > self.offset {
            other
        } else {
            Frontier { offset: self.offset, expected: self.expected.union(other.expected) }
        }
    }

    /// This frontier and `rule` looked for at `offset`, in vain.
    pub open spec fn and(self, offset: int, rule: Rule) -> Frontier {
        self.join(Frontier::at(offset, rule))
    }

    /// Nothing looked for yet.
    pub fn start() -> (r: Frontier)
        ensures
            r == Frontier::none(),
    {
        Frontier { offset: 0, expected: RuleSet::empty() }
    }

    /// Both together.
    pub fn merge(self, other: Frontier) -> (r: Frontier)
        ensures
            r == self.join(other),
    {
        if self.offset > other.offset {
            self
        } else if other.offset > self.offset {
            other
        } else {
            Frontier { offset: self.offset, expected: self.expected.merged(other.expected) }
        }
    }

    /// This frontier and `rule` looked for at `offset`, in vain.
    pub fn note(self, offset: usize, rule: Rule) -> (r: Frontier)
        ensures
            r == self.and(offset as int, rule),
    {
        self.merge(Frontier { offset, expected: RuleSet::empty().insert(rule) })
    }
}

/// Why a line is not accepted: the furthest byte offset at which a token
/// was looked for and not found, and the kinds of token looked for there,
/// each once, in the order of their declaration.
#[derive(Debug, PartialEq, Eq)]
pub struct SyntaxError {
    pub offset: usize,
    pub expected: Vec<Rule>,
}

impl Frontier {
    /// The error that reports this frontier.
    pub fn into_error(self) -> (r: SyntaxError)
        ensures
            r.offset == self.offset,
            r.expected@ == self.expected.listed(),
    {
        SyntaxError { offset: self.offset, expected: self.expected.to_vec() }
    }
}

} // verus!
