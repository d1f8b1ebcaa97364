//! Splitting text into the words that merges never cross.
//!
//! A word is a run of letters or of digits, each with one leading space if there
//! is one, a single other character with its leading space, a run of whitespace
//! without the space that leads the next word, or a special token. No word but a
//! special token holds the place of one. Words follow one another without gaps, so
//! joining them gives the text back.
use crate::text;
use crate::text::{chars_of, text_of};
use vstd::prelude::*;

verus! {

/// What the splitter asks of a character.
#[derive(Clone, Copy, Debug, PartialEq, Eq, Structural)]
pub struct CharKind {
    pub whitespace: bool,
    pub alphabetic: bool,
    pub numeric: bool,
}

/// One of the three classes that a run of characters can belong to.
#[derive(Clone, Copy, Debug, PartialEq, Eq, Structural)]
pub enum CharClass {
    Whitespace,
    Alphabetic,
    Numeric,
}

impl CharKind {
    /// Whether a character of this kind belongs to `class`.
    pub open spec fn spec_belongs_to(self, class: CharClass) -> bool {
        match class {
            CharClass::Whitespace => self.whitespace,
            CharClass::Alphabetic => self.alphabetic,
            CharClass::Numeric => self.numeric,
        }
    }

    /// Whether a character of this kind belongs to `class`.
    #[verifier::when_used_as_spec(spec_belongs_to)]
    pub fn belongs_to(self, class: CharClass) -> (r: bool)
        ensures
            r == self.spec_belongs_to(class),
    {
        match class {
            CharClass::Whitespace => self.whitespace,
            CharClass::Alphabetic => self.alphabetic,
            CharClass::Numeric => self.numeric,
        }
    }
}

/// The kind of `c`.
pub open spec fn kind_of(c: char) -> CharKind {
    CharKind {
        whitespace: text::char_is_whitespace(c),
        alphabetic: text::char_is_alphabetic(c),
        numeric: text::char_is_numeric(c),
    }
}

/// The kind of each character.
pub open spec fn kinds_of(chars: Seq<char>) -> Seq<CharKind> {
    Seq::new(chars.len(), |i: int| kind_of(chars[i]))
}

/// The kind of each character.
pub fn classify(chars: &[char]) -> (r: Vec<CharKind>)
    ensures
        r@ == kinds_of(chars@),
{
    let mut r: Vec<CharKind> = Vec::new();
    let mut i: usize = 0;
    while i < chars.len()
        invariant
            i <= chars@.len(),
            r@ == kinds_of(chars@.take(i as int)),
        decreases chars@.len() - i,
    {
        let c = chars[i];
        r.push(
            CharKind {
                whitespace: c.is_whitespace(),
                alphabetic: c.is_alphabetic(),
                numeric: c.is_numeric(),
            },
        );
        i = i + 1;
        assert(r@ =~= kinds_of(chars@.take(i as int)));
    }
    assert(chars@.take(i as int) =~= chars@);
    r
}

/// The last place in `list` where `name` stands, and -1 where it stands nowhere.
pub open spec fn last_entry(list: Seq<(Seq<char>, usize)>, name: Seq<char>) -> int
    decreases list.len(),
{
    if list.len() == 0 {
        -1
    } else if list.last().0 == name {
        list.len() - 1
    } else {
        last_entry(list.drop_last(), name)
    }
}

/// The IDs that a list of special tokens assigns.
pub open spec fn special_ids(list: Seq<(Seq<char>, usize)>) -> Map<Seq<char>, usize> {
    Map::new(
        |name: Seq<char>| last_entry(list, name) >= 0,
        |name: Seq<char>| list[last_entry(list, name)].1,
    )
}

/// Whether no special token is the empty text.
pub open spec fn none_empty(list: Seq<(Seq<char>, usize)>) -> bool {
    forall|i: int| 0 <= i < list.len() ==> (#[trigger] list[i]).0.len() > 0
}

/// Whether no name stands twice in `list`.
pub open spec fn names_distinct(list: Seq<(Seq<char>, usize)>) -> bool {
    forall|i: int, j: int|
        0 <= i < j < list.len() ==> (#[trigger] list[i]).0 != (#[trigger] list[j]).0
}

pub(crate) proof fn lemma_last_entry(list: Seq<(Seq<char>, usize)>, name: Seq<char>)
    ensures
        -1 <= last_entry(list, name) < list.len(),
        last_entry(list, name) >= 0 ==> list[last_entry(list, name)].0 == name,
        forall|i: int|
            last_entry(list, name) < i < list.len() ==> (#[trigger] list[i]).0 != name,
    decreases list.len(),
{
    if list.len() > 0 && list.last().0 != name {
        lemma_last_entry(list.drop_last(), name);
        assert forall|i: int| last_entry(list, name) < i < list.len() implies (
        #[trigger] list[i]).0 != name by {
            if i < list.len() - 1 {
                assert(list.drop_last()[i] == list[i]);
            }
        }
    }
}

proof fn lemma_last_entry_unique(list: Seq<(Seq<char>, usize)>, name: Seq<char>, at: int)
    requires
        -1 <= at < list.len(),
        at >= 0 ==> list[at].0 == name,
        forall|i: int| at < i < list.len() ==> (#[trigger] list[i]).0 != name,
    ensures
        last_entry(list, name) == at,
{
    lemma_last_entry(list, name);
}

/// The special tokens of a tokenizer, in the order in which they were added.
///
/// Adding a token that is there already gives it the new ID.
pub struct SpecialTokens {
    entries: Vec<(String, usize)>,
}

impl View for SpecialTokens {
    type V = Seq<(Seq<char>, usize)>;

    closed spec fn view(&self) -> Seq<(Seq<char>, usize)> {
        Seq::new(self.entries@.len(), |i: int| (self.entries@[i].0@, self.entries@[i].1))
    }
}

impl SpecialTokens {
    pub fn new() -> (r: Self)
        ensures
            r@ == Seq::<(Seq<char>, usize)>::empty(),
    {
        let r = SpecialTokens { entries: Vec::new() };
        assert(r@ =~= Seq::<(Seq<char>, usize)>::empty());
        r
    }

    /// How many special tokens there are.
    pub fn len(&self) -> (r: usize)
        ensures
            r == self@.len(),
    {
        self.entries.len()
    }

    /// The text of the special token at place `i`.
    pub fn name(&self, i: usize) -> (r: &String)
        requires
            i < self@.len(),
        ensures
            r@ == self@[i as int].0,
    {
        &self.entries[i].0
    }

    /// Whether no special token is the empty text.
    pub fn none_empty(&self) -> (r: bool)
        ensures
            r == none_empty(self@),
    {
        let mut i: usize = 0;
        while i < self.entries.len()
            invariant
                i <= self@.len(),
                self@.len() == self.entries@.len(),
                forall|k: int| 0 <= k < i ==> (#[trigger] self@[k]).0.len() > 0,
            decreases self@.len() - i,
        {
            assert(self@[i as int].0 == self.entries@[i as int].0@);
            if self.entries[i].0.as_str().is_empty() {
                return false;
            }
            i = i + 1;
        }
        true
    }

    fn find(&self, name: &str) -> (r: Option<usize>)
        ensures
            match r {
                Some(i) => last_entry(self@, name@) == i,
                None => last_entry(self@, name@) == -1,
            },
    {
        let wanted = name.to_owned();
        let mut i: usize = self.entries.len();
        while i > 0
            invariant
                wanted@ == name@,
                i <= self@.len(),
                self@.len() == self.entries@.len(),
                forall|k: int| i <= k < self@.len() ==> (#[trigger] self@[k]).0 != name@,
            decreases i,
        {
            i = i - 1;
            if self.entries[i].0 == wanted {
                proof {
                    assert(self@[i as int].0 == name@);
                    lemma_last_entry_unique(self@, name@, i as int);
                }
                return Some(i);
            }
        }
        proof {
            lemma_last_entry_unique(self@, name@, -1);
        }
        None
    }

    /// The ID of the special token `name`.
    pub fn get(&self, name: &str) -> (r: Option<&usize>)
        ensures
            match r {
                Some(id) => special_ids(self@).contains_key(name@) && *id == special_ids(
                    self@,
                )[name@],
                None => !special_ids(self@).contains_key(name@),
            },
    {
        match self.find(name) {
            Some(i) => {
                proof {
                    lemma_last_entry(self@, name@);
                }
                Some(&self.entries[i].1)
            },
            None => None,
        }
    }

    /// Adds `name` with its ID, or gives it that ID where it is there already.
    pub fn insert(&mut self, name: String, id: usize)
        ensures
            special_ids(final(self)@) == special_ids(old(self)@).insert(name@, id),
            last_entry(old(self)@, name@) >= 0 ==> final(self)@ == old(self)@.update(
                last_entry(old(self)@, name@),
                (name@, id),
            ),
            last_entry(old(self)@, name@) < 0 ==> final(self)@ == old(self)@.push((name@, id)),
            names_distinct(old(self)@) ==> names_distinct(final(self)@),
            none_empty(old(self)@) && name@.len() > 0 ==> none_empty(final(self)@),
    {
        let ghost before = self@;
        let ghost text = name@;
        let ghost at: int;
        match self.find(name.as_str()) {
            Some(i) => {
                proof {
                    lemma_last_entry(before, text);
                }
                self.entries.set(i, (name, id));
                proof {
                    at = i as int;
                    assert(self@ =~= before.update(i as int, (text, id)));
                }
            },
            None => {
                self.entries.push((name, id));
                proof {
                    at = before.len() as int;
                    lemma_last_entry(before, text);
                    assert(self@ =~= before.push((text, id)));
                }
            },
        }
        proof {
            let expected = special_ids(before).insert(text, id);
            assert forall|x: Seq<char>|
                #![trigger special_ids(self@).contains_key(x)]
                #![trigger special_ids(self@)[x]]
                special_ids(self@).contains_key(x) == expected.contains_key(x) && (
                expected.contains_key(x) ==> special_ids(self@)[x] == expected[x]) by {
                lemma_last_entry(before, x);
                if x == text {
                    lemma_last_entry_unique(self@, x, at);
                } else {
                    lemma_last_entry_unique(self@, x, last_entry(before, x));
                }
            }
            assert(special_ids(self@) =~= expected);
        }
    }
}

/// Whether `token` stands in `chars` at `pos`.
pub open spec fn stands_at(chars: Seq<char>, pos: int, token: Seq<char>) -> bool {
    pos + token.len() <= chars.len() && chars.subrange(pos, pos + token.len()) == token
}

/// The first special token, from entry `from` on, that stands in `chars` at `pos`.
pub open spec fn special_at(
    chars: Seq<char>,
    pos: int,
    list: Seq<(Seq<char>, usize)>,
    from: int,
) -> Option<int>
    decreases list.len() - from,
{
    if from >= list.len() {
        None
    } else if stands_at(chars, pos, list[from].0) {
        Some(from)
    } else {
        special_at(chars, pos, list, from + 1)
    }
}

/// Whether some special token stands in `chars` at `pos`.
pub open spec fn is_special_at(chars: Seq<char>, pos: int, list: Seq<(Seq<char>, usize)>) -> bool {
    special_at(chars, pos, list, 0) is Some
}

/// For each place of `chars`, whether a special token stands there.
pub open spec fn special_places(chars: Seq<char>, list: Seq<(Seq<char>, usize)>) -> Seq<bool> {
    Seq::new(chars.len(), |p: int| is_special_at(chars, p, list))
}

/// Where the run of characters of `class` that starts at `pos` ends: before the first
/// character of another class, and before the first special token.
pub open spec fn run_end(kinds: Seq<CharKind>, special: Seq<bool>, pos: int, class: CharClass) -> int
    decreases kinds.len() - pos,
{
    if pos < kinds.len() && kinds[pos].belongs_to(class) && !special[pos] {
        run_end(kinds, special, pos + 1, class)
    } else {
        pos
    }
}

/// Where the word that starts at `pos`, which is no special token, ends. Before a
/// character that is no whitespace, a run of whitespace leaves its last space to the
/// word that follows.
pub open spec fn plain_word_end(
    chars: Seq<char>,
    kinds: Seq<CharKind>,
    special: Seq<bool>,
    pos: int,
) -> int {
    let spaced = chars[pos] == ' ' && pos + 1 < chars.len() && !special[pos + 1];
    if kinds[pos].whitespace {
        if spaced && kinds[pos + 1].alphabetic {
            run_end(kinds, special, pos + 1, CharClass::Alphabetic)
        } else if spaced && kinds[pos + 1].numeric {
            run_end(kinds, special, pos + 1, CharClass::Numeric)
        } else if spaced && !kinds[pos + 1].whitespace {
            pos + 2
        } else {
            let end = run_end(kinds, special, pos, CharClass::Whitespace);
            if pos + 1 < end < chars.len() && !special[end] && chars[end - 1] == ' ' {
                end - 1
            } else {
                end
            }
        }
    } else if kinds[pos].alphabetic {
        run_end(kinds, special, pos, CharClass::Alphabetic)
    } else if kinds[pos].numeric {
        run_end(kinds, special, pos, CharClass::Numeric)
    } else {
        pos + 1
    }
}

/// Where the word that starts at `pos` ends.
pub open spec fn word_end(
    chars: Seq<char>,
    kinds: Seq<CharKind>,
    list: Seq<(Seq<char>, usize)>,
    pos: int,
) -> int {
    match special_at(chars, pos, list, 0) {
        Some(i) => pos + list[i].0.len(),
        None => plain_word_end(chars, kinds, special_places(chars, list), pos),
    }
}

/// The words of `chars` from `pos` on.
pub open spec fn words_from(
    chars: Seq<char>,
    kinds: Seq<CharKind>,
    list: Seq<(Seq<char>, usize)>,
    pos: int,
) -> Seq<Seq<char>>
    decreases chars.len() - pos,
{
    let end = word_end(chars, kinds, list, pos);
    if 0 <= pos < end <= chars.len() {
        seq![chars.subrange(pos, end)] + words_from(chars, kinds, list, end)
    } else {
        Seq::empty()
    }
}

/// The words of a text.
pub open spec fn pretokens(text: Seq<char>, list: Seq<(Seq<char>, usize)>) -> Seq<Seq<char>> {
    words_from(text, kinds_of(text), list, 0)
}

proof fn lemma_run_end(kinds: Seq<CharKind>, special: Seq<bool>, pos: int, class: CharClass)
    requires
        0 <= pos <= kinds.len(),
        special.len() == kinds.len(),
    ensures
        pos <= run_end(kinds, special, pos, class) <= kinds.len(),
        pos < kinds.len() && kinds[pos].belongs_to(class) && !special[pos] ==> pos < run_end(
            kinds,
            special,
            pos,
            class,
        ),
        forall|p: int|
            pos <= p < run_end(kinds, special, pos, class) ==> (
            #[trigger] kinds[p]).belongs_to(class) && !special[p],
        ({
            let end = run_end(kinds, special, pos, class);
            end < kinds.len() ==> special[end] || !kinds[end].belongs_to(class)
        }),
    decreases kinds.len() - pos,
{
    if pos < kinds.len() && kinds[pos].belongs_to(class) && !special[pos] {
        lemma_run_end(kinds, special, pos + 1, class);
    }
}

/// A word that is no special token has at least one character, ends inside the text
/// and reaches over no special token.
proof fn lemma_plain_word(
    chars: Seq<char>,
    kinds: Seq<CharKind>,
    special: Seq<bool>,
    pos: int,
)
    requires
        0 <= pos < chars.len(),
        kinds.len() == chars.len(),
        special.len() == chars.len(),
        !special[pos],
    ensures
        pos < plain_word_end(chars, kinds, special, pos) <= chars.len(),
        forall|p: int|
            pos <= p < plain_word_end(chars, kinds, special, pos) ==> !#[trigger] special[p],
{
    lemma_run_end(kinds, special, pos, CharClass::Whitespace);
    lemma_run_end(kinds, special, pos, CharClass::Alphabetic);
    lemma_run_end(kinds, special, pos, CharClass::Numeric);
    if pos + 1 < chars.len() {
        lemma_run_end(kinds, special, pos + 1, CharClass::Alphabetic);
        lemma_run_end(kinds, special, pos + 1, CharClass::Numeric);
    }
    assert forall|p: int| pos <= p < plain_word_end(
        chars,
        kinds,
        special,
        pos,
    ) implies !#[trigger] special[p] by {
        let kind = kinds[p];
    }
}

/// A run of whitespace leaves its last space to the word that follows: a word of
/// whitespace that is followed by a character that is none, and by no special token,
/// does not end in a space.
pub proof fn whitespace_leaves_a_leading_space(
    text: Seq<char>,
    list: Seq<(Seq<char>, usize)>,
    pos: int,
)
    requires
        0 <= pos < text.len(),
        !is_special_at(text, pos, list),
        ({
            let end = word_end(text, kinds_of(text), list, pos);
            &&& forall|p: int| pos <= p < end ==> text::char_is_whitespace(#[trigger] text[p])
            &&& end < text.len()
            &&& !text::char_is_whitespace(text[end])
            &&& !is_special_at(text, end, list)
        }),
    ensures
        text[word_end(text, kinds_of(text), list, pos) - 1] != ' ',
{
    let (kinds, special) = (kinds_of(text), special_places(text, list));
    let end = word_end(text, kinds, list, pos);
    lemma_plain_word(text, kinds, special, pos);
    lemma_run_end(kinds, special, pos, CharClass::Whitespace);
    lemma_run_end(kinds, special, pos, CharClass::Alphabetic);
    lemma_run_end(kinds, special, pos, CharClass::Numeric);
    assert(kinds[end] == kind_of(text[end]));
    assert(kinds[pos] == kind_of(text[pos]));
    assert(text::char_is_whitespace(text[pos]));
    if pos + 1 < text.len() {
        lemma_run_end(kinds, special, pos + 1, CharClass::Alphabetic);
        lemma_run_end(kinds, special, pos + 1, CharClass::Numeric);
    }
    if text[end - 1] == ' ' {
        assert(kinds[end - 1] == kind_of(' '));
        assert(text::char_is_whitespace(text[end - 1]));
        let whole = run_end(kinds, special, pos, CharClass::Whitespace);
        if end == whole - 1 {
            assert(kinds[end].belongs_to(CharClass::Whitespace));
        }
    }
}

/// Every special token in the text is found: a word that is no special token reaches
/// over no place where one stands.
pub proof fn plain_words_hold_no_special_token(
    text: Seq<char>,
    list: Seq<(Seq<char>, usize)>,
    pos: int,
    p: int,
)
    requires
        0 <= pos < text.len(),
        !is_special_at(text, pos, list),
        pos <= p < word_end(text, kinds_of(text), list, pos),
    ensures
        !is_special_at(text, p, list),
{
    let special = special_places(text, list);
    lemma_plain_word(text, kinds_of(text), special, pos);
    assert(!special[p]);
}

/// Letters run on, and so do digits: a word that starts with one, and is no special
/// token, holds nothing else, and ends where the text does, where a character of
/// another kind follows, or where a special token stands.
pub proof fn letters_and_digits_run_on(
    text: Seq<char>,
    list: Seq<(Seq<char>, usize)>,
    pos: int,
    class: CharClass,
)
    requires
        0 <= pos < text.len(),
        !is_special_at(text, pos, list),
        !text::char_is_whitespace(text[pos]),
        class == CharClass::Alphabetic ==> text::char_is_alphabetic(text[pos]),
        class == CharClass::Numeric ==> text::char_is_numeric(text[pos])
            && !text::char_is_alphabetic(text[pos]),
        class != CharClass::Whitespace,
    ensures
        ({
            let end = word_end(text, kinds_of(text), list, pos);
            &&& pos < end <= text.len()
            &&& forall|p: int|
                pos <= p < end ==> kind_of(#[trigger] text[p]).belongs_to(class)
            &&& end == text.len() || !kind_of(text[end]).belongs_to(class) || is_special_at(
                text,
                end,
                list,
            )
        }),
{
    let (kinds, special) = (kinds_of(text), special_places(text, list));
    assert(kinds[pos] == kind_of(text[pos]));
    lemma_run_end(kinds, special, pos, class);
    let end = word_end(text, kinds, list, pos);
    assert(end == run_end(kinds, special, pos, class));
    assert forall|p: int| pos <= p < end implies kind_of(#[trigger] text[p]).belongs_to(class) by {
        assert(kinds[p].belongs_to(class));
    }
}

proof fn lemma_special_at(
    chars: Seq<char>,
    pos: int,
    list: Seq<(Seq<char>, usize)>,
    from: int,
)
    requires
        0 <= from <= list.len(),
    ensures
        special_at(chars, pos, list, from) matches Some(i) ==> from <= i < list.len()
            && stands_at(chars, pos, list[i].0),
    decreases list.len() - from,
{
    if from < list.len() && !stands_at(chars, pos, list[from].0) {
        lemma_special_at(chars, pos, list, from + 1);
    }
}

/// Every word has at least one character and ends inside the text.
pub proof fn word_end_advances(
    chars: Seq<char>,
    kinds: Seq<CharKind>,
    list: Seq<(Seq<char>, usize)>,
    pos: int,
)
    requires
        0 <= pos < chars.len(),
        kinds.len() == chars.len(),
        none_empty(list),
    ensures
        pos < word_end(chars, kinds, list, pos) <= chars.len(),
{
    lemma_special_at(chars, pos, list, 0);
    if !is_special_at(chars, pos, list) {
        lemma_plain_word(chars, kinds, special_places(chars, list), pos);
    }
}

proof fn lemma_words_from_join(
    chars: Seq<char>,
    kinds: Seq<CharKind>,
    list: Seq<(Seq<char>, usize)>,
    pos: int,
)
    requires
        0 <= pos <= chars.len(),
        kinds.len() == chars.len(),
        none_empty(list),
    ensures
        words_from(chars, kinds, list, pos).flatten() == chars.subrange(pos, chars.len() as int),
        forall|i: int|
            0 <= i < words_from(chars, kinds, list, pos).len() ==> (#[trigger] words_from(
                chars,
                kinds,
                list,
                pos,
            )[i]).len() > 0,
    decreases chars.len() - pos,
{
    let words = words_from(chars, kinds, list, pos);
    if pos < chars.len() {
        word_end_advances(chars, kinds, list, pos);
        let end = word_end(chars, kinds, list, pos);
        let rest = words_from(chars, kinds, list, end);
        lemma_words_from_join(chars, kinds, list, end);
        assert(words.first() == chars.subrange(pos, end));
        assert(words.drop_first() =~= rest);
        assert(words.flatten() =~= chars.subrange(pos, chars.len() as int));
    } else {
        assert(words.flatten() =~= chars.subrange(pos, chars.len() as int));
    }
}

/// Splitting loses nothing: the words, joined, are the text, and none of them is
/// empty.
pub proof fn words_join_to_the_text(text: Seq<char>, list: Seq<(Seq<char>, usize)>)
    requires
        none_empty(list),
    ensures
        pretokens(text, list).flatten() == text,
        forall|i: int|
            0 <= i < pretokens(text, list).len() ==> (#[trigger] pretokens(text, list)[i]).len()
                > 0,
{
    lemma_words_from_join(text, kinds_of(text), list, 0);
    assert(text.subrange(0, text.len() as int) =~= text);
}

/// A special token that stands at a place is found there.
proof fn lemma_special_found(
    chars: Seq<char>,
    pos: int,
    list: Seq<(Seq<char>, usize)>,
    from: int,
    i: int,
)
    requires
        0 <= from <= i < list.len(),
        stands_at(chars, pos, list[i].0),
    ensures
        special_at(chars, pos, list, from) is Some,
    decreases i - from,
{
    if !stands_at(chars, pos, list[from].0) {
        lemma_special_found(chars, pos, list, from + 1, i);
    }
}

/// Where every character from `pos` on is of `class`, and none starts a special token,
/// the run goes to the end.
proof fn lemma_run_to_the_end(
    kinds: Seq<CharKind>,
    special: Seq<bool>,
    pos: int,
    class: CharClass,
)
    requires
        0 <= pos <= kinds.len(),
        special.len() == kinds.len(),
        forall|p: int|
            pos <= p < kinds.len() ==> (#[trigger] kinds[p]).belongs_to(class) && !special[p],
    ensures
        run_end(kinds, special, pos, class) == kinds.len(),
{
    lemma_run_end(kinds, special, pos, class);
    let end = run_end(kinds, special, pos, class);
    if end < kinds.len() {
        assert(kinds[end].belongs_to(class) && !special[end]);
    }
}

/// A word that is no special token is a word of its own.
pub proof fn plain_word_stands_alone(
    text: Seq<char>,
    list: Seq<(Seq<char>, usize)>,
    pos: int,
)
    requires
        0 <= pos < text.len(),
        !is_special_at(text, pos, list),
    ensures
        ({
            let word = text.subrange(pos, word_end(text, kinds_of(text), list, pos));
            pretokens(word, list) == seq![word]
        }),
{
    let (kinds, special) = (kinds_of(text), special_places(text, list));
    let end = word_end(text, kinds, list, pos);
    let word = text.subrange(pos, end);
    lemma_plain_word(text, kinds, special, pos);
    let (k, s) = (kinds_of(word), special_places(word, list));
    let n = word.len() as int;
    assert forall|p: int| 0 <= p < n implies !#[trigger] s[p] by {
        lemma_special_at(word, p, list, 0);
        if let Some(i) = special_at(word, p, list, 0) {
            let token = list[i].0;
            assert(text.subrange(pos + p, pos + p + token.len()) =~= word.subrange(
                p,
                p + token.len(),
            ));
            lemma_special_found(text, pos + p, list, 0, i);
            assert(special[pos + p]);
        }
    }
    assert forall|p: int| 0 <= p < n implies #[trigger] k[p] == kinds[pos + p] by {}
    lemma_run_end(kinds, special, pos, CharClass::Whitespace);
    lemma_run_end(kinds, special, pos, CharClass::Alphabetic);
    lemma_run_end(kinds, special, pos, CharClass::Numeric);
    if pos + 1 < text.len() {
        lemma_run_end(kinds, special, pos + 1, CharClass::Alphabetic);
        lemma_run_end(kinds, special, pos + 1, CharClass::Numeric);
    }
    assert(s[0] == is_special_at(word, 0, list));
    let spaced = text[pos] == ' ' && pos + 1 < text.len() && !special[pos + 1];
    if kinds[pos].whitespace {
        if spaced && kinds[pos + 1].alphabetic {
            lemma_run_to_the_end(k, s, 1, CharClass::Alphabetic);
        } else if spaced && kinds[pos + 1].numeric {
            lemma_run_to_the_end(k, s, 1, CharClass::Numeric);
        } else if spaced && !kinds[pos + 1].whitespace {
            assert(n == 2);
        } else {
            lemma_run_to_the_end(k, s, 0, CharClass::Whitespace);
            if n > 1 {
                assert(k[1] == kinds[pos + 1] && !special[pos + 1]);
            }
        }
    } else if kinds[pos].alphabetic {
        lemma_run_to_the_end(k, s, 0, CharClass::Alphabetic);
    } else if kinds[pos].numeric {
        lemma_run_to_the_end(k, s, 0, CharClass::Numeric);
    }
    assert(k[0] == kinds[pos]);
    if n > 1 {
        assert(k[1] == kinds[pos + 1] && !s[1]);
    }
    assert(plain_word_end(word, k, s, 0) == n);
    assert(word_end(word, k, list, 0) == n);
    assert(word.subrange(0, n) =~= word);
    assert(words_from(word, k, list, n) =~= Seq::empty()) by {
        lemma_no_words_at_the_end(word, k, list);
    }
    assert(pretokens(word, list) =~= seq![word]);
}

proof fn lemma_no_words_at_the_end(
    chars: Seq<char>,
    kinds: Seq<CharKind>,
    list: Seq<(Seq<char>, usize)>,
)
    ensures
        words_from(chars, kinds, list, chars.len() as int) == Seq::<Seq<char>>::empty(),
{
}

/// Whether `word` is a special token, or a word of its own.
pub open spec fn stands_alone(word: Seq<char>, list: Seq<(Seq<char>, usize)>) -> bool {
    special_ids(list).contains_key(word) || pretokens(word, list) == seq![word]
}

proof fn lemma_words_stand_alone(
    text: Seq<char>,
    list: Seq<(Seq<char>, usize)>,
    pos: int,
)
    requires
        0 <= pos <= text.len(),
        none_empty(list),
    ensures
        ({
            let words = words_from(text, kinds_of(text), list, pos);
            forall|i: int| 0 <= i < words.len() ==> stands_alone(#[trigger] words[i], list)
        }),
    decreases text.len() - pos,
{
    let kinds = kinds_of(text);
    let words = words_from(text, kinds, list, pos);
    if pos < text.len() {
        word_end_advances(text, kinds, list, pos);
        let end = word_end(text, kinds, list, pos);
        let rest = words_from(text, kinds, list, end);
        lemma_words_stand_alone(text, list, end);
        let word = text.subrange(pos, end);
        if is_special_at(text, pos, list) {
            lemma_special_at(text, pos, list, 0);
            lemma_last_entry(list, word);
        } else {
            plain_word_stands_alone(text, list, pos);
        }
        assert(words == seq![word] + rest);
        assert forall|i: int| 0 <= i < words.len() implies stands_alone(
            #[trigger] words[i],
            list,
        ) by {
            if i > 0 {
                assert(words[i] == rest[i - 1]);
            }
        }
    }
}

/// Every word of a text is a special token, or a word of its own.
pub proof fn words_stand_alone(text: Seq<char>, list: Seq<(Seq<char>, usize)>)
    requires
        none_empty(list),
    ensures
        forall|i: int|
            0 <= i < pretokens(text, list).len() ==> stands_alone(
                #[trigger] pretokens(text, list)[i],
                list,
            ),
{
    lemma_words_stand_alone(text, list, 0);
}

/// Whether no special token is in front of another one.
pub open spec fn none_in_front(list: Seq<(Seq<char>, usize)>) -> bool {
    forall|i: int, j: int|
        0 <= i < list.len() && 0 <= j < list.len() && #[trigger] list[i].0.is_prefix_of(
            #[trigger] list[j].0,
        ) ==> list[i].0 == list[j].0
}

/// A text that is a special token is one word, where no special token is in front of
/// another one.
pub proof fn special_token_is_one_word(text: Seq<char>, list: Seq<(Seq<char>, usize)>)
    requires
        special_ids(list).contains_key(text),
        none_empty(list),
        none_in_front(list),
    ensures
        pretokens(text, list) == seq![text],
{
    let j = last_entry(list, text);
    lemma_last_entry(list, text);
    assert(text.subrange(0, text.len() as int) =~= text);
    lemma_special_found(text, 0, list, 0, j);
    lemma_special_at(text, 0, list, 0);
    let i = special_at(text, 0, list, 0)->0;
    assert(list[i].0 =~= text.subrange(0, list[i].0.len() as int));
    assert(list[i].0.is_prefix_of(list[j].0));
    lemma_no_words_at_the_end(text, kinds_of(text), list);
    assert(pretokens(text, list) =~= seq![text]);
}

/// Any other character is a word of its own: a word that starts at a character that is
/// neither whitespace nor a letter nor a digit, and is no special token, is that character.
pub proof fn symbols_stand_alone(text: Seq<char>, list: Seq<(Seq<char>, usize)>, pos: int)
    requires
        0 <= pos < text.len(),
        !is_special_at(text, pos, list),
        !text::char_is_whitespace(text[pos]),
        !text::char_is_alphabetic(text[pos]),
        !text::char_is_numeric(text[pos]),
    ensures
        word_end(text, kinds_of(text), list, pos) == pos + 1,
{
    assert(kinds_of(text)[pos] == kind_of(text[pos]));
}

/// One space leads the word that follows: a space before a character that is no
/// whitespace, and where no special token stands, ends where the word at that character
/// does.
pub proof fn one_space_leads_a_word(text: Seq<char>, list: Seq<(Seq<char>, usize)>, pos: int)
    requires
        0 <= pos,
        pos + 1 < text.len(),
        text[pos] == ' ',
        !is_special_at(text, pos, list),
        !is_special_at(text, pos + 1, list),
        !text::char_is_whitespace(text[pos + 1]),
    ensures
        word_end(text, kinds_of(text), list, pos) == word_end(
            text,
            kinds_of(text),
            list,
            pos + 1,
        ),
{
    let (kinds, special) = (kinds_of(text), special_places(text, list));
    assert(kinds[pos] == kind_of(text[pos]));
    assert(kinds[pos + 1] == kind_of(text[pos + 1]));
    assert(!special[pos + 1]);
}

/// Whitespace runs on: other whitespace is a word with what follows of it, up to the end,
/// a special token, a character that is none, or the one space that leads the next word.
pub proof fn whitespace_runs_on(text: Seq<char>, list: Seq<(Seq<char>, usize)>, pos: int)
    requires
        0 <= pos < text.len(),
        !is_special_at(text, pos, list),
        text::char_is_whitespace(text[pos]),
        pos + 1 < text.len() ==> text[pos] != ' ' || is_special_at(text, pos + 1, list)
            || text::char_is_whitespace(text[pos + 1]),
        pos + 1 < text.len() && text::char_is_whitespace(text[pos + 1])
            ==> !text::char_is_alphabetic(text[pos + 1]) && !text::char_is_numeric(text[pos + 1]),
    ensures
        ({
            let end = word_end(text, kinds_of(text), list, pos);
            &&& pos < end <= text.len()
            &&& forall|p: int| pos <= p < end ==> text::char_is_whitespace(#[trigger] text[p])
            &&& {
                ||| end == text.len()
                ||| is_special_at(text, end, list)
                ||| !text::char_is_whitespace(text[end])
                ||| {
                    &&& text[end] == ' '
                    &&& end + 1 < text.len()
                    &&& !is_special_at(text, end + 1, list)
                    &&& !text::char_is_whitespace(text[end + 1])
                }
            }
        }),
{
    let (kinds, special) = (kinds_of(text), special_places(text, list));
    assert(kinds[pos] == kind_of(text[pos]));
    if pos + 1 < text.len() {
        assert(kinds[pos + 1] == kind_of(text[pos + 1]));
        assert(special[pos + 1] == is_special_at(text, pos + 1, list));
    }
    lemma_run_end(kinds, special, pos, CharClass::Whitespace);
    let whole = run_end(kinds, special, pos, CharClass::Whitespace);
    let end = word_end(text, kinds, list, pos);
    assert(end == whole || end == whole - 1);
    assert forall|p: int| pos <= p < end implies text::char_is_whitespace(#[trigger] text[p]) by {
        assert(kinds[p].belongs_to(CharClass::Whitespace));
    }
    if whole < text.len() {
        assert(kinds[whole] == kind_of(text[whole]));
        assert(special[whole] == is_special_at(text, whole, list));
    }
}

/// Whether the characters from `from` up to `end` are all of one class.
pub open spec fn all_of(text: Seq<char>, from: int, end: int, class: CharClass) -> bool {
    forall|p: int| from <= p < end ==> kind_of(#[trigger] text[p]).belongs_to(class)
}

/// A word that is no special token is of one kind: but for one leading space, it is all
/// whitespace, all letters, all digits or one character.
pub proof fn words_are_of_one_kind(text: Seq<char>, list: Seq<(Seq<char>, usize)>, pos: int)
    requires
        0 <= pos < text.len(),
        !is_special_at(text, pos, list),
    ensures
        ({
            let end = word_end(text, kinds_of(text), list, pos);
            ||| all_of(text, pos, end, CharClass::Whitespace)
            ||| all_of(text, pos, end, CharClass::Alphabetic)
            ||| all_of(text, pos, end, CharClass::Numeric)
            ||| end == pos + 1
            ||| text[pos] == ' ' && all_of(text, pos + 1, end, CharClass::Alphabetic)
            ||| text[pos] == ' ' && all_of(text, pos + 1, end, CharClass::Numeric)
            ||| text[pos] == ' ' && end == pos + 2
        }),
{
    let (kinds, special) = (kinds_of(text), special_places(text, list));
    lemma_run_end(kinds, special, pos, CharClass::Whitespace);
    lemma_run_end(kinds, special, pos, CharClass::Alphabetic);
    lemma_run_end(kinds, special, pos, CharClass::Numeric);
    if pos + 1 < text.len() {
        lemma_run_end(kinds, special, pos + 1, CharClass::Alphabetic);
        lemma_run_end(kinds, special, pos + 1, CharClass::Numeric);
    }
    assert forall|p: int| 0 <= p < text.len() implies kinds[p] == kind_of(#[trigger] text[p]) by {}
}

/// At a place where special tokens stand, the first of the list that does is the word.
pub proof fn first_special_token_is_the_word(
    text: Seq<char>,
    list: Seq<(Seq<char>, usize)>,
    pos: int,
    i: int,
)
    requires
        0 <= i < list.len(),
        0 <= pos,
        stands_at(text, pos, list[i].0),
        forall|j: int| 0 <= j < i ==> !stands_at(text, pos, (#[trigger] list[j]).0),
    ensures
        is_special_at(text, pos, list),
        text.subrange(pos, word_end(text, kinds_of(text), list, pos)) == list[i].0,
{
    lemma_first_special(text, pos, list, 0, i);
}

proof fn lemma_first_special(
    chars: Seq<char>,
    pos: int,
    list: Seq<(Seq<char>, usize)>,
    from: int,
    i: int,
)
    requires
        0 <= from <= i < list.len(),
        stands_at(chars, pos, list[i].0),
        forall|j: int| 0 <= j < i ==> !stands_at(chars, pos, (#[trigger] list[j]).0),
    ensures
        special_at(chars, pos, list, from) == Some(i),
    decreases i - from,
{
    if from < i {
        assert(!stands_at(chars, pos, list[from].0));
        lemma_first_special(chars, pos, list, from + 1, i);
    }
}

/// Where no special token of the list stands, none is found.
pub proof fn nothing_special_is_found(
    text: Seq<char>,
    list: Seq<(Seq<char>, usize)>,
    pos: int,
)
    requires
        forall|j: int| 0 <= j < list.len() ==> !stands_at(text, pos, (#[trigger] list[j]).0),
    ensures
        !is_special_at(text, pos, list),
{
    lemma_special_at(text, pos, list, 0);
}

/// Words follow one another from the first character on: the first word is the one that
/// starts there, and the others are the words from where it ends.
pub proof fn words_follow_one_another(
    text: Seq<char>,
    list: Seq<(Seq<char>, usize)>,
)
    requires
        text.len() > 0,
        none_empty(list),
    ensures
        ({
            let end = word_end(text, kinds_of(text), list, 0);
            pretokens(text, list) == seq![text.take(end)] + words_from(
                text,
                kinds_of(text),
                list,
                end,
            )
        }),
{
    word_end_advances(text, kinds_of(text), list, 0);
}

/// Where the run of characters of `class` that starts at `start` ends: before the
/// first character of another class, and before the first special token.
pub fn consume_while(kinds: &[CharKind], special: &[bool], start: usize, class: CharClass) -> (r:
    usize)
    requires
        start <= kinds@.len(),
        special@.len() == kinds@.len(),
    ensures
        r == run_end(kinds@, special@, start as int, class),
        start <= r <= kinds@.len(),
{
    let mut i: usize = start;
    while i < kinds.len() && kinds[i].belongs_to(class) && !special[i]
        invariant
            start <= i <= kinds@.len(),
            special@.len() == kinds@.len(),
            run_end(kinds@, special@, start as int, class) == run_end(
                kinds@,
                special@,
                i as int,
                class,
            ),
        decreases kinds@.len() - i,
    {
        i = i + 1;
    }
    i
}

pub(crate) fn token_stands_at(chars: &[char], pos: usize, token: &[char]) -> (r: bool)
    requires
        pos <= chars@.len(),
    ensures
        r == stands_at(chars@, pos as int, token@),
{
    if token.len() > chars.len() - pos {
        return false;
    }
    let mut k: usize = 0;
    while k < token.len()
        invariant
            k <= token@.len(),
            pos + token@.len() <= chars.len(),
            forall|j: int| 0 <= j < k ==> chars@[pos + j] == #[trigger] token@[j],
        decreases token@.len() - k,
    {
        if chars[pos + k] != token[k] {
            assert(chars@.subrange(pos as int, pos + token@.len())[k as int] != token@[k as int]);
            return false;
        }
        k = k + 1;
    }
    assert(chars@.subrange(pos as int, pos + token@.len()) =~= token@);
    true
}

/// Splits characters whose kinds are given into words.
pub fn split_words(chars: &[char], kinds: &[CharKind], special_tokens: &SpecialTokens) -> (r: Vec<
    String,
>)
    requires
        kinds@.len() == chars@.len(),
        none_empty(special_tokens@),
    ensures
        text::texts(r@) == words_from(chars@, kinds@, special_tokens@, 0),
{
    let ghost list = special_tokens@;
    let mut tokens: Vec<Vec<char>> = Vec::new();
    let mut t: usize = 0;
    while t < special_tokens.len()
        invariant
            list == special_tokens@,
            t <= list.len(),
            tokens@.len() == t,
            forall|i: int| 0 <= i < t ==> (#[trigger] tokens@[i])@ == list[i].0,
        decreases list.len() - t,
    {
        tokens.push(chars_of(special_tokens.name(t).as_str()));
        t = t + 1;
    }
    let mut special: Vec<bool> = Vec::new();
    let mut p: usize = 0;
    while p < chars.len()
        invariant
            p <= chars@.len(),
            tokens@.len() == list.len(),
            forall|i: int| 0 <= i < list.len() ==> (#[trigger] tokens@[i])@ == list[i].0,
            special@.len() == p,
            forall|k: int|
                0 <= k < p ==> #[trigger] special@[k] == is_special_at(chars@, k, list),
        decreases chars@.len() - p,
    {
        special.push(token_at(chars, &tokens, Ghost(list), p).is_some());
        p = p + 1;
    }
    assert(special@ =~= special_places(chars@, list));
    let mut words: Vec<String> = Vec::new();
    let mut pos: usize = 0;
    assert(text::texts(words@) + words_from(chars@, kinds@, list, 0) =~= words_from(
        chars@,
        kinds@,
        list,
        0,
    ));
    while pos < chars.len()
        invariant
            pos <= chars@.len(),
            kinds@.len() == chars@.len(),
            none_empty(list),
            special@ == special_places(chars@, list),
            tokens@.len() == list.len(),
            forall|i: int| 0 <= i < list.len() ==> (#[trigger] tokens@[i])@ == list[i].0,
            text::texts(words@) + words_from(chars@, kinds@, list, pos as int) == words_from(
                chars@,
                kinds@,
                list,
                0,
            ),
        decreases chars@.len() - pos,
    {
        let end: usize = match token_at(chars, &tokens, Ghost(list), pos) {
            Some(t) => pos + tokens[t].len(),
            None => plain_word_end_at(chars, kinds, special.as_slice(), pos),
        };
        proof {
            word_end_advances(chars@, kinds@, list, pos as int);
        }
        let ghost before = words@;
        let word = text_of(chars, pos, end);
        words.push(word);
        proof {
            text::lemma_texts_push(before, word);
            assert(text::texts(words@) + words_from(chars@, kinds@, list, end as int)
                =~= text::texts(before) + words_from(chars@, kinds@, list, pos as int));
        }
        pos = end;
    }
    assert(words_from(chars@, kinds@, list, pos as int) =~= Seq::empty());
    assert(text::texts(words@) + words_from(chars@, kinds@, list, pos as int) =~= text::texts(
        words@,
    ));
    words
}

fn token_at(
    chars: &[char],
    tokens: &Vec<Vec<char>>,
    Ghost(list): Ghost<Seq<(Seq<char>, usize)>>,
    pos: usize,
) -> (r: Option<usize>)
    requires
        pos < chars@.len(),
        tokens@.len() == list.len(),
        forall|i: int| 0 <= i < list.len() ==> (#[trigger] tokens@[i])@ == list[i].0,
    ensures
        match r {
            Some(t) => special_at(chars@, pos as int, list, 0) == Some(t as int) && t < list.len()
                && pos + list[t as int].0.len() <= chars@.len(),
            None => special_at(chars@, pos as int, list, 0) is None,
        },
{
    let mut t: usize = 0;
    while t < tokens.len()
        invariant
            t <= list.len(),
            pos < chars.len(),
            tokens@.len() == list.len(),
            forall|i: int| 0 <= i < list.len() ==> (#[trigger] tokens@[i])@ == list[i].0,
            special_at(chars@, pos as int, list, 0) == special_at(
                chars@,
                pos as int,
                list,
                t as int,
            ),
        decreases list.len() - t,
    {
        if token_stands_at(chars, pos, tokens[t].as_slice()) {
            return Some(t);
        }
        t = t + 1;
    }
    None
}

fn plain_word_end_at(chars: &[char], kinds: &[CharKind], special: &[bool], pos: usize) -> (r: usize)
    requires
        pos < chars@.len(),
        kinds@.len() == chars@.len(),
        special@.len() == chars@.len(),
        !special@[pos as int],
    ensures
        r == plain_word_end(chars@, kinds@, special@, pos as int),
{
    let len: usize = chars.len();
    let next: usize = pos + 1;
    if kinds[pos].whitespace {
        if chars[pos] == ' ' && next < len && !special[next] {
            if kinds[next].alphabetic {
                return consume_while(kinds, special, next, CharClass::Alphabetic);
            } else if kinds[next].numeric {
                return consume_while(kinds, special, next, CharClass::Numeric);
            } else if !kinds[next].whitespace {
                return next + 1;
            }
        }
        let end: usize = consume_while(kinds, special, pos, CharClass::Whitespace);
        if next < end && end < len && !special[end] && chars[end - 1] == ' ' {
            end - 1
        } else {
            end
        }
    } else if kinds[pos].alphabetic {
        consume_while(kinds, special, pos, CharClass::Alphabetic)
    } else if kinds[pos].numeric {
        consume_while(kinds, special, pos, CharClass::Numeric)
    } else {
        next
    }
}

/// Splits a text into words.
pub fn pretokenize(text: &str, special_tokens: &SpecialTokens) -> (r: Vec<String>)
    requires
        none_empty(special_tokens@),
    ensures
        text::texts(r@) == pretokens(text@, special_tokens@),
{
    let chars = chars_of(text);
    let kinds = classify(chars.as_slice());
    split_words(chars.as_slice(), kinds.as_slice(), special_tokens)
}

} // verus!
