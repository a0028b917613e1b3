//! The category histogram: how many tokens of each category a line has.

use vstd::prelude::*;
use vstd::multiset::{
    axiom_count_le_len, lemma_insert_increases_count_by_1, lemma_insert_other_elements_unchanged,
};
use vstd::seq_lib::to_multiset_build;
use crate::token::{Token, TokenType, TokenView};

verus! {

/// The categories of a sequence of tokens, in the order of the tokens.
pub open spec fn kinds_of(tokens: Seq<TokenView>) -> Seq<TokenType> {
    tokens.map_values(|t: TokenView| t.kind)
}

/// At how many places `kind` stands in `kinds`.
pub open spec fn occurrences(kinds: Seq<TokenType>, kind: TokenType) -> nat {
    kinds.to_multiset().count(kind)
}

/// The tally of a sequence of categories: each category that occurs, with
/// the number of its occurrences. A category that does not occur is absent.
pub open spec fn tally_of(kinds: Seq<TokenType>) -> Map<TokenType, nat> {
    Map::new(
        |kind: TokenType| occurrences(kinds, kind) > 0,
        |kind: TokenType| occurrences(kinds, kind),
    )
}

/// The count that a tally holds for a category: zero where it is absent.
pub open spec fn count_in(tally: Map<TokenType, nat>, kind: TokenType) -> nat {
    if tally.dom().contains(kind) {
        tally[kind]
    } else {
        0
    }
}

/// The sum of a tally's counts.
pub open spec fn total(tally: Map<TokenType, nat>) -> nat {
    count_in(tally, TokenType::Word) + count_in(tally, TokenType::Whitespace) + count_in(
        tally,
        TokenType::Tab,
    ) + count_in(tally, TokenType::Operator) + count_in(tally, TokenType::Number) + count_in(
        tally,
        TokenType::Punctuation,
    ) + count_in(tally, TokenType::Symbol) + count_in(tally, TokenType::EndOfLine) + count_in(
        tally,
        TokenType::Unknown,
    )
}

/// Nothing occurs in the empty sequence.
pub proof fn lemma_occurrences_empty(kind: TokenType)
    ensures
        occurrences(Seq::empty(), kind) == 0,
{
    let none = Seq::<TokenType>::empty();
    none.to_multiset_ensures();
    axiom_count_le_len(none.to_multiset(), kind);
}

/// One more category at the end is one more occurrence of that category,
/// and of no other.
pub proof fn lemma_occurrences_push(kinds: Seq<TokenType>, last: TokenType, kind: TokenType)
    ensures
        occurrences(kinds.push(last), kind) == occurrences(kinds, kind) + if kind == last {
            1nat
        } else {
            0nat
        },
{
    to_multiset_build(kinds, last);
    if kind == last {
        lemma_insert_increases_count_by_1(kinds.to_multiset(), last);
    } else {
        lemma_insert_other_elements_unchanged(kinds.to_multiset(), last, kind);
    }
}

/// No category occurs more often than there are places.
pub proof fn lemma_occurrences_bound(kinds: Seq<TokenType>, kind: TokenType)
    ensures
        occurrences(kinds, kind) <= kinds.len(),
{
    kinds.to_multiset_ensures();
    axiom_count_le_len(kinds.to_multiset(), kind);
}

/// A tally holds for each category the number of its occurrences.
pub proof fn lemma_count_in_tally(kinds: Seq<TokenType>, kind: TokenType)
    ensures
        count_in(tally_of(kinds), kind) == occurrences(kinds, kind),
{
}

/// The occurrences of all the categories together.
spec fn occurrences_of_all(kinds: Seq<TokenType>) -> nat {
    occurrences(kinds, TokenType::Word) + occurrences(kinds, TokenType::Whitespace) + occurrences(
        kinds,
        TokenType::Tab,
    ) + occurrences(kinds, TokenType::Operator) + occurrences(kinds, TokenType::Number)
        + occurrences(kinds, TokenType::Punctuation) + occurrences(kinds, TokenType::Symbol)
        + occurrences(kinds, TokenType::EndOfLine) + occurrences(kinds, TokenType::Unknown)
}

proof fn lemma_occurrences_of_all(kinds: Seq<TokenType>)
    ensures
        occurrences_of_all(kinds) == kinds.len(),
    decreases kinds.len(),
{
    if kinds.len() == 0 {
        assert(kinds =~= Seq::empty());
        lemma_occurrences_empty(TokenType::Word);
        lemma_occurrences_empty(TokenType::Whitespace);
        lemma_occurrences_empty(TokenType::Tab);
        lemma_occurrences_empty(TokenType::Operator);
        lemma_occurrences_empty(TokenType::Number);
        lemma_occurrences_empty(TokenType::Punctuation);
        lemma_occurrences_empty(TokenType::Symbol);
        lemma_occurrences_empty(TokenType::EndOfLine);
        lemma_occurrences_empty(TokenType::Unknown);
    } else {
        let front = kinds.drop_last();
        let last = kinds.last();
        assert(kinds =~= front.push(last));
        lemma_occurrences_of_all(front);
        lemma_occurrences_push(front, last, TokenType::Word);
        lemma_occurrences_push(front, last, TokenType::Whitespace);
        lemma_occurrences_push(front, last, TokenType::Tab);
        lemma_occurrences_push(front, last, TokenType::Operator);
        lemma_occurrences_push(front, last, TokenType::Number);
        lemma_occurrences_push(front, last, TokenType::Punctuation);
        lemma_occurrences_push(front, last, TokenType::Symbol);
        lemma_occurrences_push(front, last, TokenType::EndOfLine);
        lemma_occurrences_push(front, last, TokenType::Unknown);
    }
}

/// The counts of a tally add up to the number of places, and no category is
/// present in it with the count zero.
pub proof fn lemma_tally_total(kinds: Seq<TokenType>)
    ensures
        total(tally_of(kinds)) == kinds.len(),
        forall|kind: TokenType| #[trigger]
            tally_of(kinds).dom().contains(kind) ==> tally_of(kinds)[kind] > 0,
{
    lemma_occurrences_of_all(kinds);
    lemma_count_in_tally(kinds, TokenType::Word);
    lemma_count_in_tally(kinds, TokenType::Whitespace);
    lemma_count_in_tally(kinds, TokenType::Tab);
    lemma_count_in_tally(kinds, TokenType::Operator);
    lemma_count_in_tally(kinds, TokenType::Number);
    lemma_count_in_tally(kinds, TokenType::Punctuation);
    lemma_count_in_tally(kinds, TokenType::Symbol);
    lemma_count_in_tally(kinds, TokenType::EndOfLine);
    lemma_count_in_tally(kinds, TokenType::Unknown);
}

/// Where a category's count stands in a histogram.
spec fn slot_of(kind: TokenType) -> int {
    match kind {
        TokenType::Word => 0,
        TokenType::Whitespace => 1,
        TokenType::Tab => 2,
        TokenType::Operator => 3,
        TokenType::Number => 4,
        TokenType::Punctuation => 5,
        TokenType::Symbol => 6,
        TokenType::EndOfLine => 7,
        TokenType::Unknown => 8,
    }
}

fn slot(kind: TokenType) -> (at: usize)
    ensures
        at == slot_of(kind),
{
    match kind {
        TokenType::Word => 0,
        TokenType::Whitespace => 1,
        TokenType::Tab => 2,
        TokenType::Operator => 3,
        TokenType::Number => 4,
        TokenType::Punctuation => 5,
        TokenType::Symbol => 6,
        TokenType::EndOfLine => 7,
        TokenType::Unknown => 8,
    }
}

/// A mapping from categories to counts. It holds a category only with a
/// count above zero.
#[derive(Debug, Clone, Copy, PartialEq, Eq)]
pub struct Histogram {
    counts: [usize; 9],
}

/// The entry that a tally has for a category, as a list: empty where the
/// category is absent.
pub open spec fn entry_of(tally: Map<TokenType, nat>, kind: TokenType) -> Seq<(TokenType, nat)> {
    if tally.dom().contains(kind) {
        seq![(kind, tally[kind])]
    } else {
        Seq::empty()
    }
}

/// The entries of a tally, in the order in which the categories are
/// declared.
pub open spec fn entries_of(tally: Map<TokenType, nat>) -> Seq<(TokenType, nat)> {
    entry_of(tally, TokenType::Word) + entry_of(tally, TokenType::Whitespace) + entry_of(
        tally,
        TokenType::Tab,
    ) + entry_of(tally, TokenType::Operator) + entry_of(tally, TokenType::Number) + entry_of(
        tally,
        TokenType::Punctuation,
    ) + entry_of(tally, TokenType::Symbol) + entry_of(tally, TokenType::EndOfLine) + entry_of(
        tally,
        TokenType::Unknown,
    )
}

/// A list of entries with its counts as natural numbers.
pub open spec fn counted(list: Seq<(TokenType, usize)>) -> Seq<(TokenType, nat)> {
    list.map_values(|entry: (TokenType, usize)| (entry.0, entry.1 as nat))
}

impl View for Histogram {
    type V = Map<TokenType, nat>;

    closed spec fn view(&self) -> Map<TokenType, nat> {
        Map::new(
            |kind: TokenType| self.counts[slot_of(kind)] > 0,
            |kind: TokenType| self.counts[slot_of(kind)] as nat,
        )
    }
}

impl Histogram {
    /// No histogram holds a category with the count zero, and every count
    /// fits the machine's word.
    pub proof fn lemma_counts(&self)
        ensures
            forall|kind: TokenType| #[trigger]
                self@.dom().contains(kind) ==> 0 < self@[kind] <= usize::MAX,
    {
    }

    /// A histogram that holds nothing.
    pub fn new() -> (hist: Histogram)
        ensures
            hist@ == Map::<TokenType, nat>::empty(),
    {
        let hist = Histogram { counts: [0; 9] };
        hist
    }

    /// Counts one more token of the category `kind`.
    pub fn record(&mut self, kind: TokenType)
        requires
            count_in(old(self)@, kind) < usize::MAX,
        ensures
            final(self)@ == old(self)@.insert(kind, count_in(old(self)@, kind) + 1),
    {
        let at = slot(kind);
        let count = self.counts[at];
        self.counts[at] = count + 1;
        assert(self@ =~= old(self)@.insert(kind, count_in(old(self)@, kind) + 1)) by {
            assert forall|other: TokenType| other != kind implies slot_of(other) != slot_of(
                kind,
            ) by {}
        }
    }

    /// The count of the category `kind`, if the histogram holds it.
    pub fn get(&self, kind: TokenType) -> (count: Option<usize>)
        ensures
            match count {
                Some(n) => self@.dom().contains(kind) && self@[kind] == n,
                None => !self@.dom().contains(kind),
            },
    {
        let count = self.counts[slot(kind)];
        if count > 0 {
            Some(count)
        } else {
            None
        }
    }

    /// Appends the entry of `kind` to `list`, if the histogram holds one.
    fn push_entry(&self, list: &mut Vec<(TokenType, usize)>, kind: TokenType)
        ensures
            counted(final(list)@) == counted(old(list)@) + entry_of(self@, kind),
    {
        let count = self.counts[slot(kind)];
        if count > 0 {
            list.push((kind, count));
        }
    }

    /// The categories that the histogram holds, each with its count, in the
    /// order in which the categories are declared.
    pub fn entries(&self) -> (list: Vec<(TokenType, usize)>)
        ensures
            counted(list@) == entries_of(self@),
    {
        let mut list: Vec<(TokenType, usize)> = Vec::new();
        self.push_entry(&mut list, TokenType::Word);
        self.push_entry(&mut list, TokenType::Whitespace);
        self.push_entry(&mut list, TokenType::Tab);
        self.push_entry(&mut list, TokenType::Operator);
        self.push_entry(&mut list, TokenType::Number);
        self.push_entry(&mut list, TokenType::Punctuation);
        self.push_entry(&mut list, TokenType::Symbol);
        self.push_entry(&mut list, TokenType::EndOfLine);
        self.push_entry(&mut list, TokenType::Unknown);
        list
    }
}

/// Counts the tokens of each category.
pub fn count_token_types(tokens: &[Token]) -> (hist: Histogram)
    ensures
        hist@ == tally_of(kinds_of(tokens.deep_view())),
{
    let mut hist = Histogram::new();
    let mut i: usize = 0;
    assert(hist@ =~= tally_of(kinds_of(tokens.deep_view().take(0)))) by {
        assert(kinds_of(tokens.deep_view().take(0)) =~= Seq::empty());
        assert forall|kind: TokenType| occurrences(Seq::empty(), kind) == 0 by {
            lemma_occurrences_empty(kind);
        }
    }
    while i < tokens.len()
        invariant
            i <= tokens.len(),
            hist@ == tally_of(kinds_of(tokens.deep_view().take(i as int))),
        decreases tokens.len() - i,
    {
        let kind = tokens[i].token_type;
        proof {
            let seen = kinds_of(tokens.deep_view().take(i as int));
            assert(kinds_of(tokens.deep_view().take(i + 1)) =~= seen.push(kind));
            lemma_occurrences_bound(seen, kind);
            assert forall|other: TokenType|
                occurrences(seen.push(kind), other) == occurrences(seen, other) + if other
                    == kind {
                    1nat
                } else {
                    0nat
                } by {
                lemma_occurrences_push(seen, kind, other);
            }
        }
        hist.record(kind);
        i += 1;
    }
    assert(tokens.deep_view().take(tokens.len() as int) =~= tokens.deep_view());
    hist
}

} // verus!
