//! Byte pair encoding: joining adjacent tokens by ranked merge rules.
use crate::text;
use std::collections::HashMap;
use vstd::hash_map::StringHashMap;
use vstd::prelude::*;

verus! {

/// A merge rule: the left and the right token.
pub type Pair = (Seq<char>, Seq<char>);

/// The rank of each rule in a list of rules: its place in the list, and the later
/// place where a rule stands twice.
pub open spec fn ranks_of(merges: Seq<Pair>) -> Map<Pair, usize>
    decreases merges.len(),
{
    if merges.len() == 0 {
        Map::empty()
    } else {
        ranks_of(merges.drop_last()).insert(merges.last(), (merges.len() - 1) as usize)
    }
}

/// The rules that a list of pairs of strings holds.
pub open spec fn pairs_of(merges: Seq<(String, String)>) -> Seq<Pair> {
    Seq::new(merges.len(), |i: int| (merges[i].0@, merges[i].1@))
}

/// Whether the tokens at `i` and `i + 1` can be joined.
pub open spec fn mergeable(ranks: Map<Pair, usize>, tokens: Seq<Seq<char>>, i: int) -> bool {
    0 <= i < tokens.len() - 1 && ranks.contains_key((tokens[i], tokens[i + 1]))
}

/// The rank of the rule that joins the tokens at `i` and `i + 1`.
pub open spec fn rank_at(ranks: Map<Pair, usize>, tokens: Seq<Seq<char>>, i: int) -> usize {
    ranks[(tokens[i], tokens[i + 1])]
}

/// Whether the pair at `i` is the first of those with the lowest rank.
pub open spec fn is_best(ranks: Map<Pair, usize>, tokens: Seq<Seq<char>>, i: int) -> bool {
    &&& mergeable(ranks, tokens, i)
    &&& forall|j: int| #[trigger]
        mergeable(ranks, tokens, j) ==> rank_at(ranks, tokens, i) <= rank_at(ranks, tokens, j) && (j
            < i ==> rank_at(ranks, tokens, i) < rank_at(ranks, tokens, j))
}

/// `tokens` with every `left` that is followed by `right` joined to it, from the
/// left on.
pub open spec fn join_pair(
    tokens: Seq<Seq<char>>,
    left: Seq<char>,
    right: Seq<char>,
) -> Seq<Seq<char>>
    decreases tokens.len(),
{
    if tokens.len() == 0 {
        Seq::empty()
    } else if tokens.len() >= 2 && tokens[0] == left && tokens[1] == right {
        seq![left + right] + join_pair(tokens.skip(2), left, right)
    } else {
        seq![tokens[0]] + join_pair(tokens.skip(1), left, right)
    }
}

/// One round: the best pair is joined wherever it occurs.
pub open spec fn merge_round(ranks: Map<Pair, usize>, tokens: Seq<Seq<char>>) -> Seq<Seq<char>> {
    let i = choose|i: int| is_best(ranks, tokens, i);
    join_pair(tokens, tokens[i], tokens[i + 1])
}

/// The tokens that are left when rounds have joined all that can be joined.
pub open spec fn merged(ranks: Map<Pair, usize>, tokens: Seq<Seq<char>>) -> Seq<Seq<char>>
    decreases tokens.len(),
{
    if (exists|i: int| is_best(ranks, tokens, i)) && merge_round(ranks, tokens).len()
        < tokens.len() {
        merged(ranks, merge_round(ranks, tokens))
    } else {
        tokens
    }
}

proof fn lemma_best_is_unique(ranks: Map<Pair, usize>, tokens: Seq<Seq<char>>, i: int)
    requires
        is_best(ranks, tokens, i),
    ensures
        merge_round(ranks, tokens) == join_pair(tokens, tokens[i], tokens[i + 1]),
{
    let k = choose|k: int| is_best(ranks, tokens, k);
    assert(is_best(ranks, tokens, k));
    assert(mergeable(ranks, tokens, k) && mergeable(ranks, tokens, i));
    assert(i == k);
}

proof fn lemma_join_pair_len(tokens: Seq<Seq<char>>, left: Seq<char>, right: Seq<char>)
    ensures
        join_pair(tokens, left, right).len() <= tokens.len(),
        tokens.len() > 0 ==> join_pair(tokens, left, right).len() > 0,
    decreases tokens.len(),
{
    if tokens.len() == 0 {
    } else if tokens.len() >= 2 && tokens[0] == left && tokens[1] == right {
        lemma_join_pair_len(tokens.skip(2), left, right);
    } else {
        lemma_join_pair_len(tokens.skip(1), left, right);
    }
}

proof fn lemma_join_pair_shrinks(
    tokens: Seq<Seq<char>>,
    left: Seq<char>,
    right: Seq<char>,
    i: int,
)
    requires
        0 <= i < tokens.len() - 1,
        tokens[i] == left,
        tokens[i + 1] == right,
    ensures
        join_pair(tokens, left, right).len() < tokens.len(),
    decreases tokens.len(),
{
    if tokens[0] == left && tokens[1] == right {
        lemma_join_pair_len(tokens.skip(2), left, right);
    } else {
        lemma_join_pair_shrinks(tokens.skip(1), left, right, i - 1);
    }
}

proof fn lemma_join_pair_text(tokens: Seq<Seq<char>>, left: Seq<char>, right: Seq<char>)
    ensures
        join_pair(tokens, left, right).flatten() == tokens.flatten(),
    decreases tokens.len(),
{
    let joined = join_pair(tokens, left, right);
    if tokens.len() == 0 {
    } else if tokens.len() >= 2 && tokens[0] == left && tokens[1] == right {
        lemma_join_pair_text(tokens.skip(2), left, right);
        assert(joined.drop_first() =~= join_pair(tokens.skip(2), left, right));
        assert(tokens.drop_first().drop_first() =~= tokens.skip(2));
        assert(tokens.drop_first().first() == right);
        assert(tokens.drop_first().flatten() == right + tokens.skip(2).flatten());
        assert(joined.flatten() =~= tokens.flatten());
    } else {
        lemma_join_pair_text(tokens.skip(1), left, right);
        assert(joined.drop_first() =~= join_pair(tokens.skip(1), left, right));
        assert(tokens.drop_first() =~= tokens.skip(1));
        assert(joined.flatten() =~= tokens.flatten());
    }
}

spec fn best_below(ranks: Map<Pair, usize>, tokens: Seq<Seq<char>>, i: int, upto: int) -> bool {
    &&& i < upto
    &&& mergeable(ranks, tokens, i)
    &&& forall|j: int|
        j < upto && #[trigger] mergeable(ranks, tokens, j) ==> rank_at(ranks, tokens, i)
            <= rank_at(ranks, tokens, j) && (j < i ==> rank_at(ranks, tokens, i) < rank_at(
            ranks,
            tokens,
            j,
        ))
}

proof fn lemma_best_below(
    ranks: Map<Pair, usize>,
    tokens: Seq<Seq<char>>,
    some: int,
    upto: int,
) -> (b: int)
    requires
        some < upto,
        mergeable(ranks, tokens, some),
    ensures
        best_below(ranks, tokens, b, upto),
    decreases upto,
{
    let last = upto - 1;
    let earlier = |i: int| i < last && mergeable(ranks, tokens, i);
    if exists|i: int| #[trigger] earlier(i) {
        let w = choose|i: int| #[trigger] earlier(i);
        let b = lemma_best_below(ranks, tokens, w, last);
        if mergeable(ranks, tokens, last) && rank_at(ranks, tokens, last) < rank_at(
            ranks,
            tokens,
            b,
        ) {
            last
        } else {
            b
        }
    } else {
        assert(!earlier(some));
        assert forall|j: int| j < upto && #[trigger] mergeable(ranks, tokens, j) implies j
            == last by {
            assert(!earlier(j));
        }
        last
    }
}

/// Merging keeps the text: the tokens that are left, joined, are the tokens that
/// were given, joined.
pub proof fn merging_keeps_the_text(ranks: Map<Pair, usize>, tokens: Seq<Seq<char>>)
    ensures
        merged(ranks, tokens).flatten() == tokens.flatten(),
    decreases tokens.len(),
{
    if (exists|i: int| is_best(ranks, tokens, i)) && merge_round(ranks, tokens).len()
        < tokens.len() {
        let i = choose|i: int| is_best(ranks, tokens, i);
        lemma_join_pair_text(tokens, tokens[i], tokens[i + 1]);
        merging_keeps_the_text(ranks, merge_round(ranks, tokens));
    }
}

/// Merging goes on until nothing can be joined: no rule applies to two adjacent
/// tokens of the result.
pub proof fn merging_is_complete(ranks: Map<Pair, usize>, tokens: Seq<Seq<char>>)
    ensures
        forall|i: int| !#[trigger] mergeable(ranks, merged(ranks, tokens), i),
    decreases tokens.len(),
{
    if exists|i: int| is_best(ranks, tokens, i) {
        let i = choose|i: int| is_best(ranks, tokens, i);
        lemma_join_pair_shrinks(tokens, tokens[i], tokens[i + 1], i);
        merging_is_complete(ranks, merge_round(ranks, tokens));
        assert(merged(ranks, tokens) == merged(ranks, merge_round(ranks, tokens)));
    } else {
        assert(merged(ranks, tokens) == tokens);
        if exists|i: int| #[trigger] mergeable(ranks, tokens, i) {
            let w = choose|i: int| #[trigger] mergeable(ranks, tokens, i);
            let b = lemma_best_below(ranks, tokens, w, tokens.len() as int);
            assert(is_best(ranks, tokens, b));
        }
    }
}

/// Tokens that no rule applies to are left as they are.
pub proof fn merging_without_rules(ranks: Map<Pair, usize>, tokens: Seq<Seq<char>>)
    requires
        forall|i: int| !#[trigger] mergeable(ranks, tokens, i),
    ensures
        merged(ranks, tokens) == tokens,
{
    if exists|i: int| is_best(ranks, tokens, i) {
        let i = choose|i: int| is_best(ranks, tokens, i);
        assert(mergeable(ranks, tokens, i));
    }
}

proof fn lemma_join_pair_keeps(
    tokens: Seq<Seq<char>>,
    left: Seq<char>,
    right: Seq<char>,
    p: spec_fn(Seq<char>) -> bool,
)
    requires
        p(left + right),
        forall|i: int| 0 <= i < tokens.len() ==> p(#[trigger] tokens[i]),
    ensures
        forall|i: int|
            0 <= i < join_pair(tokens, left, right).len() ==> p(
                #[trigger] join_pair(tokens, left, right)[i],
            ),
    decreases tokens.len(),
{
    let joined = join_pair(tokens, left, right);
    if tokens.len() > 0 {
        let taken: int = if tokens.len() >= 2 && tokens[0] == left && tokens[1] == right {
            2
        } else {
            1
        };
        let rest = tokens.skip(taken);
        assert forall|i: int| 0 <= i < rest.len() implies p(#[trigger] rest[i]) by {
            assert(rest[i] == tokens[i + taken]);
        }
        lemma_join_pair_keeps(rest, left, right, p);
        assert(p(tokens[0]));
        assert forall|i: int| 0 <= i < joined.len() implies p(#[trigger] joined[i]) by {
            if i > 0 {
                assert(joined[i] == join_pair(rest, left, right)[i - 1]);
            }
        }
    }
}

/// What holds of the tokens that are given, and of the tokens that the rules make,
/// holds of the tokens that are left.
pub proof fn merging_keeps_a_property(
    ranks: Map<Pair, usize>,
    tokens: Seq<Seq<char>>,
    p: spec_fn(Seq<char>) -> bool,
)
    requires
        forall|i: int| 0 <= i < tokens.len() ==> p(#[trigger] tokens[i]),
        forall|pair: Pair| #[trigger] ranks.contains_key(pair) ==> p(pair.0 + pair.1),
    ensures
        forall|i: int|
            0 <= i < merged(ranks, tokens).len() ==> p(#[trigger] merged(ranks, tokens)[i]),
    decreases tokens.len(),
{
    if (exists|i: int| is_best(ranks, tokens, i)) && merge_round(ranks, tokens).len()
        < tokens.len() {
        let i = choose|i: int| is_best(ranks, tokens, i);
        let pair = (tokens[i], tokens[i + 1]);
        assert(ranks.contains_key(pair));
        lemma_join_pair_keeps(tokens, tokens[i], tokens[i + 1], p);
        merging_keeps_a_property(ranks, merge_round(ranks, tokens), p);
        assert(merged(ranks, tokens) == merged(ranks, merge_round(ranks, tokens)));
    } else {
        assert(merged(ranks, tokens) == tokens);
    }
}

/// Merging never leaves nothing: tokens stay tokens.
pub proof fn merging_leaves_a_token(ranks: Map<Pair, usize>, tokens: Seq<Seq<char>>)
    requires
        tokens.len() > 0,
    ensures
        0 < merged(ranks, tokens).len() <= tokens.len(),
    decreases tokens.len(),
{
    if (exists|i: int| is_best(ranks, tokens, i)) && merge_round(ranks, tokens).len()
        < tokens.len() {
        let i = choose|i: int| is_best(ranks, tokens, i);
        lemma_join_pair_len(tokens, tokens[i], tokens[i + 1]);
        merging_leaves_a_token(ranks, merge_round(ranks, tokens));
    }
}

/// The key of a pair of token numbers.
spec fn pair_key(left: usize, right: usize) -> u128 {
    (left * 0x1_0000_0000_0000_0000 + right) as u128
}

/// The rank of each merge rule, for looking it up by its two tokens.
///
/// Tokens are numbered in the order in which they first occur, and a rule is
/// found under the numbers of its two tokens.
pub struct MergeRanks {
    numbers: StringHashMap<usize>,
    ranks: HashMap<u128, usize>,
}

impl View for MergeRanks {
    type V = Map<Pair, usize>;

    closed spec fn view(&self) -> Map<Pair, usize> {
        Map::new(
            |p: Pair|
                self.numbers@.contains_key(p.0) && self.numbers@.contains_key(p.1)
                    && self.ranks@.contains_key(
                    pair_key(self.numbers@[p.0], self.numbers@[p.1]),
                ),
            |p: Pair| self.ranks@[pair_key(self.numbers@[p.0], self.numbers@[p.1])],
        )
    }
}

impl MergeRanks {
    /// Whether the tokens are numbered without gaps or repetitions, and no rule
    /// stands under a number that no token has.
    pub closed spec fn wf(&self) -> bool {
        &&& self.numbers@.dom().finite()
        &&& forall|t: Seq<char>| #[trigger]
            self.numbers@.contains_key(t) ==> self.numbers@[t] < self.numbers@.len()
        &&& forall|s: Seq<char>, t: Seq<char>| #[trigger]
            self.numbers@.contains_key(s) && #[trigger] self.numbers@.contains_key(t)
                && self.numbers@[s] == self.numbers@[t] ==> s == t
        &&& forall|l: usize, r: usize| #[trigger]
            self.ranks@.contains_key(pair_key(l, r)) ==> l < self.numbers@.len() && r
                < self.numbers@.len()
    }

    pub fn new() -> (r: Self)
        ensures
            r.wf(),
            r@ == Map::<Pair, usize>::empty(),
    {
        let r = MergeRanks { numbers: StringHashMap::new(), ranks: HashMap::new() };
        assert(r@ =~= Map::<Pair, usize>::empty());
        r
    }

    /// The rank of the rule that joins `left` and `right`.
    pub fn get(&self, left: &str, right: &str) -> (r: Option<usize>)
        ensures
            match r {
                Some(rank) => self@.contains_key((left@, right@)) && rank == self@[(
                    left@,
                    right@,
                )],
                None => !self@.contains_key((left@, right@)),
            },
    {
        broadcast use vstd::std_specs::hash::group_hash_axioms;

        match (self.numbers.get(left), self.numbers.get(right)) {
            (Some(l), Some(r)) => {
                let key: u128 = Self::key(*l, *r);
                match self.ranks.get(&key) {
                    Some(rank) => Some(*rank),
                    None => None,
                }
            },
            _ => None,
        }
    }

    fn key(left: usize, right: usize) -> (r: u128)
        ensures
            r == pair_key(left, right),
    {
        left as u128 * 0x1_0000_0000_0000_0000 + right as u128
    }

    fn number(&mut self, token: &String) -> (r: usize)
        requires
            old(self).wf(),
        ensures
            final(self).wf(),
            final(self)@ == old(self)@,
            final(self).numbers@.contains_key(token@),
            final(self).numbers@[token@] == r,
            forall|t: Seq<char>| #[trigger]
                old(self).numbers@.contains_key(t) ==> final(self).numbers@.contains_key(t)
                    && final(self).numbers@[t] == old(self).numbers@[t],
            final(self).ranks@ == old(self).ranks@,
    {
        match self.numbers.get(token.as_str()) {
            Some(n) => *n,
            None => {
                let n: usize = self.numbers.len();
                self.numbers.insert(token.clone(), n);
                proof {
                    let a = old(self)@;
                    let b = self@;
                    assert forall|p: Pair|
                        #![trigger a.contains_key(p)]
                        #![trigger b.contains_key(p)]
                        a.contains_key(p) == b.contains_key(p) && (a.contains_key(p) ==> a[p]
                            == b[p]) by {}
                    assert(a =~= b);
                }
                n
            },
        }
    }

    /// Gives the rule that joins `left` and `right` its rank.
    pub fn insert(&mut self, left: &String, right: &String, rank: usize)
        requires
            old(self).wf(),
        ensures
            final(self).wf(),
            final(self)@ == old(self)@.insert((left@, right@), rank),
    {
        broadcast use vstd::std_specs::hash::group_hash_axioms;

        let l: usize = self.number(left);
        let r: usize = self.number(right);
        let key: u128 = Self::key(l, r);
        let ghost before = self@;
        let ghost numbers = self.numbers@;
        self.ranks.insert(key, rank);
        proof {
            assert forall|x: usize, y: usize| #[trigger] pair_key(x, y) == key implies x == l && y
                == r by {
                assert(x * 0x1_0000_0000_0000_0000 + y == l * 0x1_0000_0000_0000_0000 + r);
            }
            let expected = before.insert((left@, right@), rank);
            assert(self@ =~= expected);
        }
    }
}

/// Ranks a list of merge rules by their places.
pub fn rank_merges(merges: &Vec<(String, String)>) -> (r: MergeRanks)
    ensures
        r.wf(),
        r@ == ranks_of(pairs_of(merges@)),
{
    let mut r = MergeRanks::new();
    let mut i: usize = 0;
    while i < merges.len()
        invariant
            i <= merges@.len(),
            r.wf(),
            r@ == ranks_of(pairs_of(merges@).take(i as int)),
        decreases merges@.len() - i,
    {
        r.insert(&merges[i].0, &merges[i].1, i);
        i = i + 1;
        proof {
            let done = pairs_of(merges@).take(i as int);
            assert(done.drop_last() =~= pairs_of(merges@).take(i - 1));
            assert(done.last() == pairs_of(merges@)[i - 1]);
        }
    }
    assert(pairs_of(merges@).take(i as int) =~= pairs_of(merges@));
    r
}

fn best_pair(ranks: &MergeRanks, tokens: &Vec<String>) -> (r: Option<usize>)
    ensures
        match r {
            Some(i) => is_best(ranks@, text::texts(tokens@), i as int),
            None => forall|i: int| !#[trigger] mergeable(ranks@, text::texts(tokens@), i),
        },
{
    let ghost view = text::texts(tokens@);
    let mut best: Option<(usize, usize)> = None;
    let mut i: usize = 0;
    while tokens.len() > 1 && i < tokens.len() - 1
        invariant
            view == text::texts(tokens@),
            i <= tokens@.len(),
            match best {
                Some((at, rank)) => at < i && mergeable(ranks@, view, at as int) && rank
                    == rank_at(ranks@, view, at as int) && forall|j: int|
                    j < i && #[trigger] mergeable(ranks@, view, j) ==> rank <= rank_at(
                        ranks@,
                        view,
                        j,
                    ) && (j < at ==> rank < rank_at(ranks@, view, j)),
                None => forall|j: int| j < i ==> !#[trigger] mergeable(ranks@, view, j),
            },
        decreases tokens@.len() - i,
    {
        let found = ranks.get(tokens[i].as_str(), tokens[i + 1].as_str());
        assert(view[i as int] == tokens@[i as int]@ && view[i + 1] == tokens@[i + 1]@);
        if let Some(rank) = found {
            assert(mergeable(ranks@, view, i as int));
            let better: bool = match best {
                Some((_, lowest)) => rank < lowest,
                None => true,
            };
            if better {
                best = Some((i, rank));
            }
        } else {
            assert(!mergeable(ranks@, view, i as int));
        }
        i = i + 1;
    }
    match best {
        Some((at, _)) => Some(at),
        None => None,
    }
}

fn join_occurrences(tokens: &Vec<String>, left: &String, right: &String) -> (r: Vec<String>)
    ensures
        text::texts(r@) == join_pair(text::texts(tokens@), left@, right@),
{
    let ghost view = text::texts(tokens@);
    let mut joined: String = left.clone();
    joined.append(right.as_str());
    let mut out: Vec<String> = Vec::new();
    let mut i: usize = 0;
    assert(view.skip(0) =~= view);
    assert(text::texts(out@) + join_pair(view, left@, right@) =~= join_pair(view, left@, right@));
    while i < tokens.len()
        invariant
            i <= tokens@.len(),
            view == text::texts(tokens@),
            joined@ == left@ + right@,
            text::texts(out@) + join_pair(view.skip(i as int), left@, right@) == join_pair(
                view,
                left@,
                right@,
            ),
        decreases tokens@.len() - i,
    {
        let ghost before = out@;
        let ghost rest = view.skip(i as int);
        assert(rest.len() == tokens@.len() - i);
        assert(rest[0] == tokens@[i as int]@);
        let pair: bool = tokens.len() - i >= 2 && tokens[i] == *left && tokens[i + 1] == *right;
        assert(pair == (rest.len() >= 2 && rest[0] == left@ && rest[1] == right@));
        if pair {
            let token = joined.clone();
            out.push(token);
            i = i + 2;
            proof {
                text::lemma_texts_push(before, token);
                assert(view.skip(i as int) =~= rest.skip(2));
            }
        } else {
            let token = tokens[i].clone();
            out.push(token);
            i = i + 1;
            proof {
                text::lemma_texts_push(before, token);
                assert(view.skip(i as int) =~= rest.skip(1));
            }
        }
        assert(text::texts(out@) + join_pair(view.skip(i as int), left@, right@) =~= text::texts(
            before,
        ) + join_pair(rest, left@, right@));
    }
    assert(join_pair(view.skip(i as int), left@, right@) =~= Seq::empty());
    assert(text::texts(out@) + join_pair(view.skip(i as int), left@, right@) =~= text::texts(out@));
    out
}

/// Joins tokens by the ranked rules until none applies.
pub fn merge_tokens(ranks: &MergeRanks, tokens: Vec<String>) -> (r: Vec<String>)
    ensures
        text::texts(r@) == merged(ranks@, text::texts(tokens@)),
{
    let ghost given = text::texts(tokens@);
    let mut tokens: Vec<String> = tokens;
    let mut best: Option<usize> = best_pair(ranks, &tokens);
    while best.is_some()
        invariant
            merged(ranks@, text::texts(tokens@)) == merged(ranks@, given),
            match best {
                Some(i) => is_best(ranks@, text::texts(tokens@), i as int),
                None => forall|i: int| !#[trigger] mergeable(ranks@, text::texts(tokens@), i),
            },
        decreases tokens@.len(),
    {
        let i: usize = best.unwrap();
        let ghost view = text::texts(tokens@);
        let next = join_occurrences(&tokens, &tokens[i], &tokens[i + 1]);
        proof {
            lemma_best_is_unique(ranks@, view, i as int);
            lemma_join_pair_shrinks(view, view[i as int], view[i + 1], i as int);
            assert(text::texts(next@).len() == next@.len());
        }
        tokens = next;
        best = best_pair(ranks, &tokens);
    }
    proof {
        merging_without_rules(ranks@, text::texts(tokens@));
    }
    tokens
}

/// Rules rank by their places: a rule that does not come again later has its place in the
/// list as its rank, and no other pair has one.
pub proof fn rules_rank_by_place(merges: Seq<Pair>, pair: Pair, i: int)
    requires
        merges.len() <= usize::MAX,
    ensures
        ranks_of(merges).contains_key(pair) <==> merges.contains(pair),
        0 <= i < merges.len() && merges[i] == pair && (forall|j: int|
            i < j < merges.len() ==> #[trigger] merges[j] != pair) ==> ranks_of(merges)[pair] == i,
    decreases merges.len(),
{
    if merges.len() > 0 {
        let front = merges.drop_last();
        rules_rank_by_place(front, pair, i);
        if front.contains(pair) {
            let k = front.index_of(pair);
            assert(merges[k] == pair);
        }
        if merges.contains(pair) && merges.last() != pair {
            let k = merges.index_of(pair);
            assert(front[k] == pair);
        }
        if merges.last() == pair {
            assert(merges[merges.len() - 1] == pair);
        }
        if 0 <= i < merges.len() - 1 && merges[i] == pair && (forall|j: int|
            i < j < merges.len() ==> #[trigger] merges[j] != pair) {
            assert(front[i] == pair);
            assert forall|j: int| i < j < front.len() implies #[trigger] front[j] != pair by {
                assert(merges[j] != pair);
            }
            assert(merges[merges.len() - 1] != pair);
        }
    }
}

/// The strongest rule comes first, and it joins wherever it applies: tokens are merged as
/// the tokens are in which every pair of a lowest rank is joined, where no other pair has
/// that rank.
pub proof fn strongest_rule_comes_first(ranks: Map<Pair, usize>, tokens: Seq<Seq<char>>, i: int)
    requires
        0 <= i < tokens.len() - 1,
        ranks.contains_key((tokens[i], tokens[i + 1])),
        forall|j: int|
            #![trigger tokens[j]]
            0 <= j < tokens.len() - 1 && ranks.contains_key((tokens[j], tokens[j + 1])) ==> ranks[(
            tokens[i],
            tokens[i + 1],
        )] <= ranks[(tokens[j], tokens[j + 1])] && (ranks[(tokens[i], tokens[i + 1])] == ranks[(
            tokens[j],
            tokens[j + 1],
        )] ==> (tokens[i], tokens[i + 1]) == (tokens[j], tokens[j + 1])),
    ensures
        merged(ranks, tokens) == merged(ranks, join_pair(tokens, tokens[i], tokens[i + 1])),
{
    assert(mergeable(ranks, tokens, i));
    let b = lemma_best_below(ranks, tokens, i, tokens.len() as int);
    assert(is_best(ranks, tokens, b));
    lemma_best_is_unique(ranks, tokens, b);
    assert(mergeable(ranks, tokens, b));
    assert(rank_at(ranks, tokens, b) <= rank_at(ranks, tokens, i));
    let t = tokens[b];
    assert((tokens[i], tokens[i + 1]) == (tokens[b], tokens[b + 1]));
    lemma_join_pair_shrinks(tokens, tokens[b], tokens[b + 1], b);
}

/// Whether no `left` in `tokens` is followed by `right`.
pub open spec fn apart(tokens: Seq<Seq<char>>, left: Seq<char>, right: Seq<char>) -> bool {
    forall|k: int|
        #![trigger tokens[k]]
        0 <= k < tokens.len() - 1 ==> !(tokens[k] == left && tokens[k + 1] == right)
}

/// Joining changes nothing where the two tokens do not meet.
pub proof fn joining_what_does_not_meet(
    tokens: Seq<Seq<char>>,
    left: Seq<char>,
    right: Seq<char>,
)
    requires
        apart(tokens, left, right),
    ensures
        join_pair(tokens, left, right) == tokens,
    decreases tokens.len(),
{
    if tokens.len() > 0 {
        let rest = tokens.skip(1);
        assert(apart(rest, left, right)) by {
            assert forall|k: int|
                #![trigger rest[k]]
                0 <= k < rest.len() - 1 implies !(rest[k] == left && rest[k + 1] == right) by {
                assert(rest[k] == tokens[k + 1]);
            }
        }
        joining_what_does_not_meet(rest, left, right);
        let t = tokens[0];
        assert(seq![tokens[0]] + rest =~= tokens);
    }
}

/// Joining joins each pair from the left on: where the two tokens meet for the first time,
/// they become one, what stands before stays, and what follows is joined on its own.
pub proof fn joining_from_the_left(
    front: Seq<Seq<char>>,
    left: Seq<char>,
    right: Seq<char>,
    rest: Seq<Seq<char>>,
)
    requires
        apart(front, left, right),
        front.len() > 0 ==> !(front.last() == left && left == right),
    ensures
        join_pair(front + seq![left, right] + rest, left, right) == front + seq![left + right]
            + join_pair(rest, left, right),
    decreases front.len(),
{
    let all = front + seq![left, right] + rest;
    if front.len() == 0 {
        assert(all[0] == left && all[1] == right);
        assert(all.skip(2) =~= rest);
        assert(join_pair(all, left, right) =~= front + seq![left + right] + join_pair(
            rest,
            left,
            right,
        ));
    } else {
        let f = front.skip(1);
        assert(apart(f, left, right)) by {
            assert forall|k: int|
                #![trigger f[k]]
                0 <= k < f.len() - 1 implies !(f[k] == left && f[k + 1] == right) by {
                assert(f[k] == front[k + 1]);
            }
        }
        joining_from_the_left(f, left, right, rest);
        assert(all.skip(1) =~= f + seq![left, right] + rest);
        assert(all[0] == front[0]);
        if front.len() == 1 {
            assert(all[1] == left);
        } else {
            assert(all[1] == front[1]);
        }
        assert(!(all[0] == left && all[1] == right));
        assert(join_pair(all, left, right) =~= front + seq![left + right] + join_pair(
            rest,
            left,
            right,
        ));
    }
}

} // verus!
