//! A byte-level BPE tokenizer.
//!
//! Encoding splits the text into words, writes each word in the byte-level
//! alphabet, joins its characters by the ranked merge rules and looks the tokens
//! up. Decoding looks the IDs up, joins the token texts and reads them back as
//! UTF-8.
use crate::bpe;
use crate::bpe::{merge_tokens, rank_merges, MergeRanks};
use crate::byte_level;
use crate::byte_level::{build_byte_encoder, ByteDecoder};
use crate::pretokenize;
use crate::pretokenize::SpecialTokens;
use crate::text;
use crate::text::{chars_of, read_text};
use std::collections::HashMap;
use vstd::hash_map::StringHashMap;
use vstd::prelude::*;

verus! {

/// A token that was added to the vocabulary by hand.
pub struct AddedToken {
    pub id: usize,
    pub content: String,
    pub special: Option<bool>,
}

/// An entry of a tokenizer file's list of merge rules.
pub enum MergeItem {
    /// One string, with both tokens in it.
    Text(String),
    /// A list; what is not a string in it is `None`.
    List(Vec<Option<String>>),
    /// Anything else.
    Other,
}

/// The merge rules of a tokenizer file.
pub enum MergesField {
    /// There are none, or they are null.
    Missing,
    /// A list of rules.
    List(Vec<MergeItem>),
    /// Something that is no list.
    Other,
}

/// The place of the first space from `from` on, and the length where there is none.
pub open spec fn first_space(chars: Seq<char>, from: int) -> int
    decreases chars.len() - from,
{
    if from >= chars.len() {
        chars.len() as int
    } else if chars[from] == ' ' {
        from
    } else {
        first_space(chars, from + 1)
    }
}

/// The rule that an entry states, if it states one: a text is cut at its first
/// space, a list of two strings is the pair of them.
pub open spec fn rule_of(item: MergeItem) -> Option<bpe::Pair> {
    match item {
        MergeItem::Text(s) => {
            let at = first_space(s@, 0);
            if at < s@.len() {
                Some((s@.subrange(0, at), s@.subrange(at + 1, s@.len() as int)))
            } else {
                None
            }
        },
        MergeItem::List(parts) => if parts@.len() == 2 && parts@[0] is Some && parts@[1] is Some {
            Some((parts@[0]->0@, parts@[1]->0@))
        } else {
            None
        },
        MergeItem::Other => None,
    }
}

/// The rules that a list of entries states, in order; entries that state none are
/// passed over.
pub open spec fn rules_of(items: Seq<MergeItem>) -> Seq<bpe::Pair>
    decreases items.len(),
{
    if items.len() == 0 {
        Seq::empty()
    } else {
        match rule_of(items.last()) {
            Some(rule) => rules_of(items.drop_last()).push(rule),
            None => rules_of(items.drop_last()),
        }
    }
}

pub(crate) proof fn lemma_first_space(chars: Seq<char>, from: int, at: int)
    requires
        0 <= from <= at <= chars.len(),
        forall|k: int| from <= k < at ==> chars[k] != ' ',
        at < chars.len() ==> chars[at] == ' ',
    ensures
        first_space(chars, from) == at,
    decreases at - from,
{
    if from < at {
        lemma_first_space(chars, from + 1, at);
    }
}

fn read_rule(item: &MergeItem) -> (r: Option<(String, String)>)
    ensures
        match r {
            Some(rule) => rule_of(*item) == Some((rule.0@, rule.1@)),
            None => rule_of(*item) is None,
        },
{
    match item {
        MergeItem::Text(s) => {
            let chars = chars_of(s.as_str());
            let mut at: usize = 0;
            while at < chars.len() && chars[at] != ' '
                invariant
                    at <= chars@.len(),
                    forall|k: int| 0 <= k < at ==> chars@[k] != ' ',
                decreases chars@.len() - at,
            {
                at = at + 1;
            }
            proof {
                lemma_first_space(chars@, 0, at as int);
            }
            if at < chars.len() {
                Some(
                    (
                        text::text_of(chars.as_slice(), 0, at),
                        text::text_of(chars.as_slice(), at + 1, chars.len()),
                    ),
                )
            } else {
                None
            }
        },
        MergeItem::List(parts) => {
            if parts.len() == 2 {
                match (&parts[0], &parts[1]) {
                    (Some(a), Some(b)) => Some((a.clone(), b.clone())),
                    _ => None,
                }
            } else {
                None
            }
        },
        MergeItem::Other => None,
    }
}

/// Reads the merge rules of a tokenizer file; `None` where it has no list of them.
pub fn deserialize_merges(field: &MergesField) -> (r: Option<Vec<(String, String)>>)
    ensures
        match field {
            MergesField::List(items) => r is Some && bpe::pairs_of(r->0@) == rules_of(items@),
            _ => r is None,
        },
{
    match field {
        MergesField::List(items) => {
            let mut rules: Vec<(String, String)> = Vec::new();
            let mut i: usize = 0;
            assert(bpe::pairs_of(rules@) =~= rules_of(items@.take(0)));
            while i < items.len()
                invariant
                    i <= items@.len(),
                    bpe::pairs_of(rules@) == rules_of(items@.take(i as int)),
                decreases items@.len() - i,
            {
                let ghost before = rules@;
                assert(items@.take(i + 1).drop_last() =~= items@.take(i as int));
                match read_rule(&items[i]) {
                    Some(rule) => {
                        rules.push(rule);
                        assert(bpe::pairs_of(rules@) =~= bpe::pairs_of(before).push(
                            (rule.0@, rule.1@),
                        ));
                    },
                    None => {},
                }
                i = i + 1;
            }
            assert(items@.take(i as int) =~= items@);
            Some(rules)
        },
        MergesField::Missing => None,
        MergesField::Other => None,
    }
}

/// A vocabulary that is read entry by entry: a token that comes twice has its
/// later ID.
pub open spec fn vocab_of(entries: Seq<(String, usize)>) -> Map<Seq<char>, usize>
    decreases entries.len(),
{
    if entries.len() == 0 {
        Map::empty()
    } else {
        vocab_of(entries.drop_last()).insert(entries.last().0@, entries.last().1)
    }
}

/// The same vocabulary by ID: an ID that comes twice has its later token.
pub open spec fn tokens_of(entries: Seq<(String, usize)>) -> Map<usize, Seq<char>>
    decreases entries.len(),
{
    if entries.len() == 0 {
        Map::empty()
    } else {
        tokens_of(entries.drop_last()).insert(entries.last().1, entries.last().0@)
    }
}

/// The IDs of those added tokens that are marked as special.
pub open spec fn special_of(added: Seq<AddedToken>) -> Map<Seq<char>, usize>
    decreases added.len(),
{
    if added.len() == 0 {
        Map::empty()
    } else if added.last().special == Some(true) {
        special_of(added.drop_last()).insert(added.last().content@, added.last().id)
    } else {
        special_of(added.drop_last())
    }
}

/// What a tokenizer knows.
#[verifier::ext_equal]
pub struct TokenizerView {
    /// The ID of each token.
    pub vocab: Map<Seq<char>, usize>,
    /// The token of each ID.
    pub tokens: Map<usize, Seq<char>>,
    /// The merge rules, the strongest first.
    pub merges: Seq<bpe::Pair>,
    /// The special tokens with their IDs.
    pub special: Seq<(Seq<char>, usize)>,
}

impl TokenizerView {
    /// The rank of each merge rule.
    pub open spec fn ranks(self) -> Map<bpe::Pair, usize> {
        bpe::ranks_of(self.merges)
    }

    /// The ID of each special token.
    pub open spec fn special_ids(self) -> Map<Seq<char>, usize> {
        pretokenize::special_ids(self.special)
    }

    /// Whether encoding `text` ends: an empty special token would be found at
    /// every place and never passed.
    pub open spec fn can_encode(self, text: Seq<char>) -> bool {
        pretokenize::none_empty(self.special) || self.special_ids().contains_key(text)
    }

    /// The ID of a token, and 0 for one that is not in the vocabulary.
    pub open spec fn id_or_zero(self, token: Seq<char>) -> usize {
        if self.vocab.contains_key(token) {
            self.vocab[token]
        } else {
            0
        }
    }

    /// The tokens that a word is split into.
    pub open spec fn word_tokens(self, word: Seq<char>) -> Seq<Seq<char>> {
        bpe::merged(self.ranks(), byte_tokens(word))
    }

    /// The IDs of a word.
    pub open spec fn word_ids(self, word: Seq<char>) -> Seq<usize> {
        if self.special_ids().contains_key(word) {
            seq![self.special_ids()[word]]
        } else {
            self.word_tokens(word).map_values(|token: Seq<char>| self.id_or_zero(token))
        }
    }

    /// The IDs of a word, as a function of the word.
    pub open spec fn word_ids_fn(self) -> spec_fn(Seq<char>) -> Seq<usize> {
        |word: Seq<char>| self.word_ids(word)
    }

    /// The IDs of a text.
    pub open spec fn encoding(self, text: Seq<char>) -> Seq<usize> {
        if self.special_ids().contains_key(text) {
            seq![self.special_ids()[text]]
        } else {
            pretokenize::pretokens(text, self.special).map_values(self.word_ids_fn()).flatten()
        }
    }

    /// The token text of an ID, and nothing for an ID that has no token.
    pub open spec fn token_text(self, id: usize) -> Seq<char> {
        if self.tokens.contains_key(id) {
            self.tokens[id]
        } else {
            Seq::empty()
        }
    }

    /// The token text of an ID, as a function of the ID.
    pub open spec fn token_text_fn(self) -> spec_fn(usize) -> Seq<char> {
        |id: usize| self.token_text(id)
    }

    /// The token texts of a list of IDs, joined.
    pub open spec fn token_texts(self, ids: Seq<usize>) -> Seq<char> {
        ids.map_values(self.token_text_fn()).flatten()
    }

    /// The text of a list of IDs.
    pub open spec fn decoding(self, ids: Seq<usize>) -> Seq<char> {
        text::bytes_text(chars_bytes(self.token_texts(ids)))
    }

    /// The ID of `name` in the vocabulary, or else among the special tokens.
    pub open spec fn named_id(self, name: Seq<char>) -> Option<usize> {
        if self.vocab.contains_key(name) {
            Some(self.vocab[name])
        } else if self.special_ids().contains_key(name) {
            Some(self.special_ids()[name])
        } else {
            None
        }
    }

    /// The ID of the first name in `names` that has one, and 0 where none has.
    pub open spec fn first_named_id(self, names: Seq<Seq<char>>) -> usize
        decreases names.len(),
    {
        if names.len() == 0 {
            0
        } else {
            match self.named_id(names.first()) {
                Some(id) => id,
                None => self.first_named_id(names.drop_first()),
            }
        }
    }

    /// The ID that ends a sequence.
    pub open spec fn eos(self) -> usize {
        self.first_named_id(eos_names())
    }

    /// Whether every ID leads back to its token.
    pub open spec fn ids_lead_back(self) -> bool {
        forall|token: Seq<char>| #[trigger]
            self.vocab.contains_key(token) ==> self.tokens.contains_key(self.vocab[token])
                && self.tokens[self.vocab[token]] == token
    }

    /// Whether the ID of `word` leads back to its text, where it is a special token.
    pub open spec fn special_leads_back(self, word: Seq<char>) -> bool {
        self.special_ids().contains_key(word) ==> self.tokens.contains_key(
            self.special_ids()[word],
        ) && chars_bytes(self.tokens[self.special_ids()[word]]) == vstd::utf8::encode_utf8(word)
    }

    /// Whether the IDs of the special tokens that `text` holds lead back to their
    /// texts.
    pub open spec fn special_lead_back(self, text: Seq<char>) -> bool {
        if self.special_ids().contains_key(text) {
            self.special_leads_back(text)
        } else {
            forall|i: int|
                0 <= i < pretokenize::pretokens(text, self.special).len()
                    ==> self.special_leads_back(
                    #[trigger] pretokenize::pretokens(text, self.special)[i],
                )
        }
    }

    /// Whether the vocabulary has every token that `word` is split into.
    pub open spec fn knows_word(self, word: Seq<char>) -> bool {
        self.special_ids().contains_key(word) || forall|i: int|
            0 <= i < self.word_tokens(word).len() ==> self.vocab.contains_key(
                #[trigger] self.word_tokens(word)[i],
            )
    }

    /// Whether the vocabulary has every token that `text` is split into.
    pub open spec fn knows_text(self, text: Seq<char>) -> bool {
        self.special_ids().contains_key(text) || forall|i: int|
            0 <= i < pretokenize::pretokens(text, self.special).len() ==> self.knows_word(
                #[trigger] pretokenize::pretokens(text, self.special)[i],
            )
    }

    /// Whether the vocabulary has the characters of all of `bytes`.
    pub open spec fn covers(self, bytes: Seq<u8>) -> bool {
        forall|i: int|
            0 <= i < bytes.len() ==> self.vocab.contains_key(
                seq![byte_level::byte_char(#[trigger] bytes[i])],
            )
    }

    /// Whether every merge rule makes a token of the vocabulary.
    pub open spec fn merges_make_tokens(self) -> bool {
        forall|pair: bpe::Pair| #[trigger]
            self.ranks().contains_key(pair) ==> self.vocab.contains_key(pair.0 + pair.1)
    }
}

/// The names that are tried for the token that ends a sequence, in this order.
pub open spec fn eos_names() -> Seq<Seq<char>> {
    seq!["<|endoftext|>"@, "</s>"@, "<|end|>"@, "<eos>"@, "<|eos|>"@]
}

/// A word in the byte-level alphabet: one token for each byte of its UTF-8.
pub open spec fn byte_tokens(word: Seq<char>) -> Seq<Seq<char>> {
    let bytes = vstd::utf8::encode_utf8(word);
    Seq::new(bytes.len(), |i: int| seq![byte_level::byte_char(bytes[i])])
}

/// The bytes that a character of a token text stands for: one byte for a
/// character of the byte-level alphabet, its own UTF-8 for any other.
pub open spec fn char_bytes(c: char) -> Seq<u8> {
    if byte_level::byte_decoding().contains_key(c) {
        seq![byte_level::byte_decoding()[c]]
    } else {
        vstd::utf8::encode_utf8(seq![c])
    }
}

/// The bytes that a token text stands for.
pub open spec fn chars_bytes(chars: Seq<char>) -> Seq<u8> {
    chars.map_values(|c: char| char_bytes(c)).flatten()
}

/// A byte-level BPE tokenizer.
pub struct Tokenizer {
    vocab: StringHashMap<usize>,
    id_to_token: HashMap<usize, String>,
    merges: Vec<(String, String)>,
    merge_ranks: MergeRanks,
    special_tokens: SpecialTokens,
    byte_encoder: [char; 256],
    byte_decoder: ByteDecoder,
}

impl View for Tokenizer {
    type V = TokenizerView;

    closed spec fn view(&self) -> TokenizerView {
        TokenizerView {
            vocab: self.vocab@,
            tokens: token_map(self.id_to_token@),
            merges: bpe::pairs_of(self.merges@),
            special: self.special_tokens@,
        }
    }
}

spec fn token_map(map: Map<usize, String>) -> Map<usize, Seq<char>> {
    Map::new(|id: usize| map.contains_key(id), |id: usize| map[id]@)
}

impl Tokenizer {
    #[verifier::type_invariant]
    spec fn tables_agree(self) -> bool {
        &&& self.merge_ranks@ == bpe::ranks_of(bpe::pairs_of(self.merges@))
        &&& forall|b: u8| #[trigger] self.byte_encoder@[b as int] == byte_level::byte_char(b)
        &&& self.byte_decoder@ == byte_level::byte_decoding()
    }

    /// Builds a tokenizer from the parts of a tokenizer file: the vocabulary, the
    /// merge rules, the strongest first, and the added tokens.
    pub fn from_parts(
        vocab: Vec<(String, usize)>,
        merges: Option<Vec<(String, String)>>,
        added_tokens: Option<Vec<AddedToken>>,
    ) -> (r: Self)
        ensures
            r@.vocab == vocab_of(vocab@),
            r@.tokens == tokens_of(vocab@),
            r@.merges == (match merges {
                Some(rules) => bpe::pairs_of(rules@),
                None => Seq::empty(),
            }),
            r@.special_ids() == (match added_tokens {
                Some(added) => special_of(added@),
                None => Map::empty(),
            }),
            pretokenize::names_distinct(r@.special),
    {
        broadcast use vstd::std_specs::hash::group_hash_axioms;

        let mut ids: StringHashMap<usize> = StringHashMap::new();
        let mut id_to_token: HashMap<usize, String> = HashMap::new();
        let mut i: usize = 0;
        assert(token_map(id_to_token@) =~= tokens_of(vocab@.take(0)));
        while i < vocab.len()
            invariant
                i <= vocab@.len(),
                ids@ == vocab_of(vocab@.take(i as int)),
                token_map(id_to_token@) == tokens_of(vocab@.take(i as int)),
            decreases vocab@.len() - i,
        {
            let ghost before = id_to_token@;
            let token = vocab[i].0.clone();
            id_to_token.insert(vocab[i].1, token);
            ids.insert(vocab[i].0.clone(), vocab[i].1);
            i = i + 1;
            proof {
                assert(vocab@.take(i as int).drop_last() =~= vocab@.take(i - 1));
                assert(token_map(id_to_token@) =~= token_map(before).insert(
                    vocab@[i - 1].1,
                    vocab@[i - 1].0@,
                ));
            }
        }
        assert(vocab@.take(i as int) =~= vocab@);
        let rules: Vec<(String, String)> = match merges {
            Some(rules) => rules,
            None => Vec::new(),
        };
        assert(merges is None ==> bpe::pairs_of(rules@) =~= Seq::empty());
        let merge_ranks = rank_merges(&rules);
        let mut special_tokens = SpecialTokens::new();
        assert(pretokenize::special_ids(special_tokens@) =~= Map::empty());
        if let Some(added) = &added_tokens {
            let mut k: usize = 0;
            while k < added.len()
                invariant
                    k <= added@.len(),
                    pretokenize::special_ids(special_tokens@) == special_of(added@.take(k as int)),
                    pretokenize::names_distinct(special_tokens@),
                decreases added@.len() - k,
            {
                assert(added@.take(k + 1).drop_last() =~= added@.take(k as int));
                if let Some(true) = added[k].special {
                    special_tokens.insert(added[k].content.clone(), added[k].id);
                }
                k = k + 1;
            }
            assert(added@.take(k as int) =~= added@);
        }
        let (byte_encoder, byte_decoder) = build_byte_encoder();
        Tokenizer {
            vocab: ids,
            id_to_token,
            merges: rules,
            merge_ranks,
            special_tokens,
            byte_encoder,
            byte_decoder,
        }
    }

    /// The number of entries in the vocabulary.
    pub fn vocab_size(&self) -> (r: usize)
        ensures
            r == self@.vocab.len(),
    {
        self.vocab.len()
    }

    /// The ID of a token of the vocabulary.
    pub fn token_id(&self, token: &str) -> (r: Option<&usize>)
        ensures
            match r {
                Some(id) => self@.vocab.contains_key(token@) && *id == self@.vocab[token@],
                None => !self@.vocab.contains_key(token@),
            },
    {
        self.vocab.get(token)
    }

    /// The special tokens.
    pub fn special_tokens(&self) -> (r: &SpecialTokens)
        ensures
            r@ == self@.special,
    {
        &self.special_tokens
    }

    /// The rank of the rule that joins `left` and `right`.
    pub fn merge_rank(&self, left: &str, right: &str) -> (r: Option<usize>)
        ensures
            match r {
                Some(rank) => self@.ranks().contains_key((left@, right@)) && rank
                    == self@.ranks()[(left@, right@)],
                None => !self@.ranks().contains_key((left@, right@)),
            },
    {
        proof {
            use_type_invariant(self);
        }
        self.merge_ranks.get(left, right)
    }

    fn named_id(&self, name: &str) -> (r: Option<usize>)
        ensures
            r == self@.named_id(name@),
    {
        if let Some(id) = self.vocab.get(name) {
            return Some(*id);
        }
        match self.special_tokens.get(name) {
            Some(id) => Some(*id),
            None => None,
        }
    }

    /// The ID of the token that ends a sequence: `<|endoftext|>`, or another
    /// common name for it, and 0 where there is none.
    pub fn eos_token_id(&self) -> (r: usize)
        ensures
            r == self@.eos(),
    {
        let names: [&str; 5] = ["<|endoftext|>", "</s>", "<|end|>", "<eos>", "<|eos|>"];
        let ghost all = eos_names();
        let mut i: usize = 0;
        assert(all.skip(0) =~= all);
        while i < 5
            invariant
                i <= 5,
                all.len() == 5,
                all == eos_names(),
                names@.len() == 5,
                forall|k: int| 0 <= k < 5 ==> (#[trigger] names@[k])@ == all[k],
                self@.first_named_id(all) == self@.first_named_id(all.skip(i as int)),
            decreases 5 - i,
        {
            assert(all.skip(i as int).first() == all[i as int]);
            assert(all.skip(i as int).drop_first() =~= all.skip(i + 1));
            if let Some(id) = self.named_id(names[i]) {
                return id;
            }
            i = i + 1;
        }
        0
    }

    /// Joins the tokens of a word by the merge rules.
    pub fn apply_bpe(&self, tokens: &[String]) -> (r: Vec<String>)
        ensures
            text::texts(r@) == bpe::merged(self@.ranks(), text::texts(tokens@)),
    {
        proof {
            use_type_invariant(self);
        }
        let mut owned: Vec<String> = Vec::new();
        let mut i: usize = 0;
        while i < tokens.len()
            invariant
                i <= tokens@.len(),
                owned@.len() == i,
                forall|k: int| 0 <= k < i ==> (#[trigger] owned@[k])@ == tokens@[k]@,
            decreases tokens@.len() - i,
        {
            owned.push(tokens[i].clone());
            i = i + 1;
        }
        assert(text::texts(owned@) =~= text::texts(tokens@));
        merge_tokens(&self.merge_ranks, owned)
    }

    fn byte_level_tokens(&self, word: &str) -> (r: Vec<String>)
        ensures
            text::texts(r@) == byte_tokens(word@),
    {
        proof {
            use_type_invariant(self);
        }
        let bytes = word.as_bytes();
        let mut tokens: Vec<String> = Vec::new();
        let mut i: usize = 0;
        while i < bytes.len()
            invariant
                i <= bytes@.len(),
                tokens@.len() == i,
                forall|b: u8| #[trigger] self.byte_encoder@[b as int] == byte_level::byte_char(b),
                forall|k: int|
                    0 <= k < i ==> (#[trigger] tokens@[k])@ == seq![
                        byte_level::byte_char(bytes@[k]),
                    ],
            decreases bytes@.len() - i,
        {
            let mut token = String::new();
            let b: u8 = bytes[i];
            token.push(self.byte_encoder[b as usize]);
            assert(token@ =~= seq![byte_level::byte_char(b)]);
            tokens.push(token);
            i = i + 1;
        }
        assert(text::texts(tokens@) =~= byte_tokens(word@));
        tokens
    }

    fn push_word_ids(&self, word: &String, ids: &mut Vec<usize>)
        ensures
            final(ids)@ == old(ids)@ + self@.word_ids(word@),
    {
        if let Some(id) = self.special_tokens.get(word.as_str()) {
            ids.push(*id);
            assert(ids@ =~= old(ids)@ + self@.word_ids(word@));
            return;
        }
        let byte_level = self.byte_level_tokens(word.as_str());
        let tokens = self.apply_bpe(byte_level.as_slice());
        let ghost expected = self@.word_ids(word@);
        let mut i: usize = 0;
        while i < tokens.len()
            invariant
                i <= tokens@.len(),
                text::texts(tokens@) == self@.word_tokens(word@),
                !self@.special_ids().contains_key(word@),
                expected == self@.word_ids(word@),
                ids@ == old(ids)@ + expected.take(i as int),
            decreases tokens@.len() - i,
        {
            let id: usize = match self.vocab.get(tokens[i].as_str()) {
                Some(id) => *id,
                None => 0,
            };
            ids.push(id);
            assert(self@.word_tokens(word@)[i as int] == tokens@[i as int]@);
            i = i + 1;
            assert(expected.take(i as int) =~= expected.take(i - 1).push(id));
            assert(ids@ =~= old(ids)@ + expected.take(i as int));
        }
        assert(text::texts(tokens@).len() == tokens@.len());
        assert(expected.take(i as int) =~= expected);
    }

    /// Whether encoding `text` ends: no special token is empty, or the text is a
    /// special token itself.
    pub fn can_encode(&self, text: &str) -> (r: bool)
        ensures
            r == self@.can_encode(text@),
    {
        self.special_tokens.get(text).is_some() || self.special_tokens.none_empty()
    }

    /// Encodes a text as token IDs.
    ///
    /// A token that is not in the vocabulary is encoded as ID 0.
    pub fn encode(&self, text: &str) -> (r: Vec<usize>)
        requires
            self@.can_encode(text@),
        ensures
            r@ == self@.encoding(text@),
    {
        let mut ids: Vec<usize> = Vec::new();
        if let Some(id) = self.special_tokens.get(text) {
            ids.push(*id);
            assert(ids@ =~= self@.encoding(text@));
            return ids;
        }
        let words = pretokenize::pretokenize(text, &self.special_tokens);
        let ghost view = text::texts(words@);
        let ghost f = self@.word_ids_fn();
        let mut i: usize = 0;
        assert(ids@ =~= view.take(0).map_values(f).flatten());
        while i < words.len()
            invariant
                i <= words@.len(),
                view == text::texts(words@),
                f == self@.word_ids_fn(),
                ids@ == view.take(i as int).map_values(f).flatten(),
            decreases words@.len() - i,
        {
            self.push_word_ids(&words[i], &mut ids);
            proof {
                text::lemma_flat_map_step(view, f, i as int);
            }
            i = i + 1;
        }
        assert(view.take(i as int) =~= view);
        ids
    }

    /// Decodes token IDs to text. IDs that have no token are passed over, and
    /// bytes that are not UTF-8 come out as U+FFFD.
    pub fn decode(&self, ids: &[usize]) -> (r: String)
        ensures
            r@ == self@.decoding(ids@),
            !vstd::utf8::valid_utf8(chars_bytes(self@.token_texts(ids@))) ==> r@.contains(
                '\u{fffd}',
            ),
    {
        broadcast use vstd::std_specs::hash::group_hash_axioms;

        proof {
            use_type_invariant(self);
        }
        let mut joined = String::new();
        let ghost f = self@.token_text_fn();
        let mut i: usize = 0;
        assert(joined@ =~= ids@.take(0).map_values(f).flatten());
        while i < ids.len()
            invariant
                i <= ids@.len(),
                f == self@.token_text_fn(),
                joined@ == ids@.take(i as int).map_values(f).flatten(),
            decreases ids@.len() - i,
        {
            let ghost before = joined@;
            match self.id_to_token.get(&ids[i]) {
                Some(token) => {
                    joined.append(token.as_str());
                    assert(joined@ =~= before + f(ids@[i as int]));
                },
                None => {
                    assert(joined@ =~= before + f(ids@[i as int]));
                },
            }
            proof {
                text::lemma_flat_map_step(ids@, f, i as int);
            }
            i = i + 1;
        }
        assert(ids@.take(i as int) =~= ids@);
        let chars = chars_of(joined.as_str());
        let bytes = self.read_bytes(&chars);
        read_text(bytes.as_slice())
    }

    fn read_bytes(&self, chars: &Vec<char>) -> (r: Vec<u8>)
        ensures
            r@ == chars_bytes(chars@),
    {
        proof {
            use_type_invariant(self);
        }
        let mut bytes: Vec<u8> = Vec::new();
        let ghost f = |c: char| char_bytes(c);
        let mut i: usize = 0;
        assert(bytes@ =~= chars@.take(0).map_values(f).flatten());
        while i < chars.len()
            invariant
                i <= chars@.len(),
                f == (|c: char| char_bytes(c)),
                self.byte_decoder@ == byte_level::byte_decoding(),
                bytes@ == chars@.take(i as int).map_values(f).flatten(),
            decreases chars@.len() - i,
        {
            let ghost before = bytes@;
            let c: char = chars[i];
            match self.byte_decoder.get(&c) {
                Some(b) => {
                    bytes.push(*b);
                },
                None => {
                    let mut single = String::new();
                    single.push(c);
                    assert(single@ =~= seq![c]);
                    push_bytes(&mut bytes, single.as_str().as_bytes());
                },
            }
            assert(bytes@ =~= before + f(c));
            proof {
                text::lemma_flat_map_step(chars@, f, i as int);
            }
            i = i + 1;
        }
        assert(chars@.take(i as int) =~= chars@);
        bytes
    }
}

fn push_bytes(bytes: &mut Vec<u8>, more: &[u8])
    ensures
        final(bytes)@ == old(bytes)@ + more@,
{
    let mut i: usize = 0;
    assert(bytes@ =~= old(bytes)@ + more@.take(0));
    while i < more.len()
        invariant
            i <= more@.len(),
            bytes@ == old(bytes)@ + more@.take(i as int),
        decreases more@.len() - i,
    {
        bytes.push(more[i]);
        i = i + 1;
        assert(more@.take(i as int) =~= more@.take(i - 1).push(more@[i - 1]));
        assert(bytes@ =~= old(bytes)@ + more@.take(i as int));
    }
    assert(more@.take(i as int) =~= more@);
}

} // verus!
