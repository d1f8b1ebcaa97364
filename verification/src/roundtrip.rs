//! What holds of encoding and decoding together.
use crate::bpe;
use crate::byte_level;
use crate::pretokenize;
use crate::text;
use crate::tokenizer;
use crate::tokenizer::TokenizerView;
use vstd::prelude::*;

verus! {

proof fn lemma_chars_bytes_add(a: Seq<char>, b: Seq<char>)
    ensures
        tokenizer::chars_bytes(a + b) == tokenizer::chars_bytes(a) + tokenizer::chars_bytes(b),
{
    text::lemma_flat_map_add(a, b, |c: char| tokenizer::char_bytes(c));
}

proof fn lemma_token_texts_add(t: TokenizerView, a: Seq<usize>, b: Seq<usize>)
    ensures
        t.token_texts(a + b) == t.token_texts(a) + t.token_texts(b),
{
    text::lemma_flat_map_add(a, b, t.token_text_fn());
}

/// The characters that stand for `bytes`.
spec fn byte_chars(bytes: Seq<u8>) -> Seq<char> {
    Seq::new(bytes.len(), |i: int| byte_level::byte_char(bytes[i]))
}

/// The byte-level alphabet read back: the characters that stand for `bytes` give
/// `bytes`.
proof fn lemma_byte_chars_read_back(bytes: Seq<u8>)
    ensures
        tokenizer::chars_bytes(byte_chars(bytes)) == bytes,
    decreases bytes.len(),
{
    let chars = byte_chars(bytes);
    let f = |c: char| tokenizer::char_bytes(c);
    if bytes.len() == 0 {
        assert(chars.map_values(f).flatten() =~= bytes);
    } else {
        lemma_byte_chars_read_back(bytes.drop_last());
        let c = byte_level::byte_char(bytes.last());
        assert(chars =~= byte_chars(bytes.drop_last()) + seq![c]);
        lemma_chars_bytes_add(byte_chars(bytes.drop_last()), seq![c]);
        text::lemma_flat_map_one(c, f);
        byte_level::byte_char_reads_back(bytes.last());
        assert(tokenizer::chars_bytes(chars) =~= bytes);
    }
}

proof fn lemma_byte_tokens_flatten(bytes: Seq<u8>)
    ensures
        Seq::new(bytes.len(), |i: int| seq![byte_level::byte_char(bytes[i])]).flatten()
            == byte_chars(bytes),
    decreases bytes.len(),
{
    let parts = Seq::new(bytes.len(), |i: int| seq![byte_level::byte_char(bytes[i])]);
    if bytes.len() == 0 {
        assert(parts.flatten() =~= byte_chars(bytes));
    } else {
        let front = bytes.drop_last();
        let fewer = Seq::new(front.len(), |i: int| seq![byte_level::byte_char(front[i])]);
        lemma_byte_tokens_flatten(front);
        assert(parts =~= fewer.push(seq![byte_level::byte_char(bytes.last())]));
        fewer.lemma_flatten_push(seq![byte_level::byte_char(bytes.last())]);
        assert(parts.flatten() =~= byte_chars(bytes));
    }
}

/// The IDs of tokens of the vocabulary lead back to the tokens, joined.
proof fn lemma_tokens_ids(t: TokenizerView, tokens: Seq<Seq<char>>)
    requires
        t.ids_lead_back(),
        forall|i: int| 0 <= i < tokens.len() ==> t.vocab.contains_key(#[trigger] tokens[i]),
    ensures
        t.token_texts(tokens.map_values(|token: Seq<char>| t.id_or_zero(token)))
            == tokens.flatten(),
    decreases tokens.len(),
{
    let ids = tokens.map_values(|token: Seq<char>| t.id_or_zero(token));
    if tokens.len() == 0 {
        assert(t.token_texts(ids) =~= tokens.flatten());
    } else {
        let front = tokens.drop_last();
        let last = tokens.last();
        assert forall|i: int| 0 <= i < front.len() implies t.vocab.contains_key(
            #[trigger] front[i],
        ) by {
            assert(front[i] == tokens[i]);
        }
        lemma_tokens_ids(t, front);
        let fewer = front.map_values(|token: Seq<char>| t.id_or_zero(token));
        assert(t.vocab.contains_key(tokens[tokens.len() - 1]));
        assert(ids =~= fewer + seq![t.vocab[last]]);
        lemma_token_texts_add(t, fewer, seq![t.vocab[last]]);
        text::lemma_flat_map_one(t.vocab[last], t.token_text_fn());
        assert(tokens =~= front.push(last));
        front.lemma_flatten_push(last);
    }
}

/// The IDs of a word stand for the bytes of the word.
proof fn lemma_word_ids(t: TokenizerView, word: Seq<char>)
    requires
        t.ids_lead_back(),
        t.special_leads_back(word),
        t.knows_word(word),
    ensures
        tokenizer::chars_bytes(t.token_texts(t.word_ids(word))) == vstd::utf8::encode_utf8(word),
{
    if t.special_ids().contains_key(word) {
        text::lemma_flat_map_one(t.special_ids()[word], t.token_text_fn());
    } else {
        let bytes = vstd::utf8::encode_utf8(word);
        bpe::merging_keeps_the_text(t.ranks(), tokenizer::byte_tokens(word));
        lemma_byte_tokens_flatten(bytes);
        lemma_tokens_ids(t, t.word_tokens(word));
        lemma_byte_chars_read_back(bytes);
    }
}

/// The IDs of a list of words stand for the bytes of the words, joined.
proof fn lemma_words_ids(t: TokenizerView, words: Seq<Seq<char>>)
    requires
        t.ids_lead_back(),
        forall|i: int|
            0 <= i < words.len() ==> t.special_leads_back(#[trigger] words[i]) && t.knows_word(
                words[i],
            ),
    ensures
        tokenizer::chars_bytes(t.token_texts(words.map_values(t.word_ids_fn()).flatten()))
            == vstd::utf8::encode_utf8(words.flatten()),
    decreases words.len(),
{
    let f = t.word_ids_fn();
    if words.len() == 0 {
        assert(words.map_values(f) =~= Seq::empty());
        assert(words.map_values(f).flatten() =~= Seq::empty());
        assert(t.token_texts(Seq::empty()) =~= Seq::<char>::empty());
        assert(tokenizer::chars_bytes(Seq::empty()) =~= Seq::<u8>::empty());
    } else {
        let first = words.first();
        let rest = words.drop_first();
        assert(words.flatten() == first + rest.flatten());
        text::lemma_encode_utf8_add(first, rest.flatten());
        assert(t.knows_word(words[0]));
        assert forall|i: int| 0 <= i < rest.len() implies t.special_leads_back(#[trigger] rest[i])
            && t.knows_word(rest[i]) by {
            assert(rest[i] == words[i + 1]);
        }
        lemma_word_ids(t, first);
        lemma_words_ids(t, rest);
        let parts = words.map_values(f);
        assert(parts.first() == t.word_ids(first));
        assert(parts.drop_first() =~= rest.map_values(f));
        let later = rest.map_values(f).flatten();
        lemma_token_texts_add(t, t.word_ids(first), later);
        lemma_chars_bytes_add(t.token_texts(t.word_ids(first)), t.token_texts(later));
    }
}

/// Decoding an encoded text gives the text back.
///
/// It does so wherever the vocabulary has every token that the text is split into,
/// the IDs of tokens lead back to them, and those of the special tokens that the text
/// holds to their texts.
pub proof fn decoding_inverts_encoding(t: TokenizerView, text: Seq<char>)
    requires
        t.can_encode(text),
        t.ids_lead_back(),
        t.special_lead_back(text),
        t.knows_text(text),
    ensures
        t.decoding(t.encoding(text)) == text,
{
    vstd::utf8::encode_utf8_valid_utf8(text);
    vstd::utf8::encode_utf8_decode_utf8(text);
    text::lemma_valid_part(vstd::utf8::encode_utf8(text), Seq::empty());
    if t.special_ids().contains_key(text) {
        text::lemma_flat_map_one(t.special_ids()[text], t.token_text_fn());
    } else {
        pretokenize::words_join_to_the_text(text, t.special);
        lemma_words_ids(t, pretokenize::pretokens(text, t.special));
    }
}

/// Every text is split into tokens of the vocabulary, wherever the vocabulary has
/// the characters of its bytes and every merge rule makes a token of it.
pub proof fn covered_texts_are_known(t: TokenizerView, text: Seq<char>)
    requires
        t.can_encode(text),
        t.covers(vstd::utf8::encode_utf8(text)),
        t.merges_make_tokens(),
    ensures
        t.knows_text(text),
{
    if !t.special_ids().contains_key(text) {
        let words = pretokenize::pretokens(text, t.special);
        pretokenize::words_join_to_the_text(text, t.special);
        assert forall|i: int| 0 <= i < words.len() implies t.knows_word(#[trigger] words[i]) by {
            let word = words[i];
            lemma_part_covered(t, words, i);
            let tokens = tokenizer::byte_tokens(word);
            let known = |token: Seq<char>| t.vocab.contains_key(token);
            let bytes = vstd::utf8::encode_utf8(word);
            assert forall|k: int| 0 <= k < tokens.len() implies known(#[trigger] tokens[k]) by {
                assert(t.vocab.contains_key(seq![byte_level::byte_char(bytes[k])]));
            }
            bpe::merging_keeps_a_property(t.ranks(), tokens, known);
            assert forall|k: int| 0 <= k < t.word_tokens(word).len() implies t.vocab.contains_key(
                #[trigger] t.word_tokens(word)[k],
            ) by {
                assert(known(t.word_tokens(word)[k]));
            }
        }
    }
}

/// A vocabulary that covers words, joined, covers each of them.
proof fn lemma_part_covered(t: TokenizerView, words: Seq<Seq<char>>, i: int)
    requires
        0 <= i < words.len(),
        t.covers(vstd::utf8::encode_utf8(words.flatten())),
    ensures
        t.covers(vstd::utf8::encode_utf8(words[i])),
    decreases words.len(),
{
    let first = words.first();
    let rest = words.drop_first();
    assert(words.flatten() == first + rest.flatten());
    text::lemma_encode_utf8_add(first, rest.flatten());
    let all = vstd::utf8::encode_utf8(words.flatten());
    let head = vstd::utf8::encode_utf8(first);
    let tail = vstd::utf8::encode_utf8(rest.flatten());
    if i == 0 {
        assert forall|k: int| 0 <= k < head.len() implies t.vocab.contains_key(
            seq![byte_level::byte_char(#[trigger] head[k])],
        ) by {
            assert(all[k] == head[k]);
        }
    } else {
        assert forall|k: int| 0 <= k < tail.len() implies t.vocab.contains_key(
            seq![byte_level::byte_char(#[trigger] tail[k])],
        ) by {
            assert(all[head.len() + k] == tail[k]);
        }
        lemma_part_covered(t, rest, i - 1);
        assert(rest[i - 1] == words[i]);
    }
}

/// Decoding joins: where the bytes of the first IDs are UTF-8, the text of two lists
/// of IDs, joined, is the texts of the two, joined.
pub proof fn decoding_joins(t: TokenizerView, a: Seq<usize>, b: Seq<usize>)
    requires
        vstd::utf8::valid_utf8(tokenizer::chars_bytes(t.token_texts(a))),
    ensures
        t.decoding(a + b) == t.decoding(a) + t.decoding(b),
{
    lemma_token_texts_add(t, a, b);
    lemma_chars_bytes_add(t.token_texts(a), t.token_texts(b));
    text::lemma_valid_part(
        tokenizer::chars_bytes(t.token_texts(a)),
        tokenizer::chars_bytes(t.token_texts(b)),
    );
}

/// A text that is a special token is encoded as that token's ID alone.
pub proof fn special_token_is_encoded_alone(t: TokenizerView, text: Seq<char>)
    requires
        t.special_ids().contains_key(text),
    ensures
        t.encoding(text) == seq![t.special_ids()[text]],
{
}

/// A text is encoded word by word: its IDs are those of its words, each encoded on its
/// own, joined. No merge crosses the end of a word, and a word that is a special token
/// gives its one ID.
pub proof fn encoding_goes_word_by_word(t: TokenizerView, text: Seq<char>)
    requires
        pretokenize::none_empty(t.special),
        pretokenize::none_in_front(t.special),
    ensures
        t.encoding(text) == pretokenize::pretokens(text, t.special).map_values(
            |word: Seq<char>| t.encoding(word),
        ).flatten(),
{
    let words = pretokenize::pretokens(text, t.special);
    let f = |word: Seq<char>| t.encoding(word);
    if t.special_ids().contains_key(text) {
        pretokenize::special_token_is_one_word(text, t.special);
        text::lemma_flat_map_one(text, f);
    } else {
        pretokenize::words_stand_alone(text, t.special);
        let g = t.word_ids_fn();
        assert forall|i: int| 0 <= i < words.len() implies g(#[trigger] words[i]) == f(
            words[i],
        ) by {
            let word = words[i];
            assert(pretokenize::stands_alone(word, t.special));
            if !t.special_ids().contains_key(word) {
                text::lemma_flat_map_one(word, g);
            }
        }
        assert(words.map_values(g) =~= words.map_values(f));
    }
}

/// Nothing is encoded as nothing, and nothing decodes to nothing.
pub proof fn nothing_stays_nothing(t: TokenizerView)
    requires
        pretokenize::none_empty(t.special),
    ensures
        t.encoding(Seq::empty()) == Seq::<usize>::empty(),
        t.decoding(Seq::empty()) == Seq::<char>::empty(),
{
    let none = Seq::<char>::empty();
    if t.special_ids().contains_key(none) {
        let at = pretokenize::last_entry(t.special, none);
        pretokenize::lemma_last_entry(t.special, none);
        assert(t.special[at].0.len() > 0);
    }
    let words = pretokenize::pretokens(none, t.special);
    assert(words =~= Seq::empty());
    assert(words.map_values(t.word_ids_fn()).flatten() =~= Seq::<usize>::empty());
    assert(Seq::<usize>::empty().map_values(t.token_text_fn()).flatten() =~= none);
    assert(tokenizer::chars_bytes(none) =~= Seq::<u8>::empty());
    assert(vstd::utf8::decode_utf8(Seq::<u8>::empty()) =~= none);
}

/// No text that holds something is encoded as nothing.
pub proof fn something_gives_ids(t: TokenizerView, text: Seq<char>)
    requires
        t.can_encode(text),
        text.len() > 0,
    ensures
        t.encoding(text).len() > 0,
{
    if !t.special_ids().contains_key(text) {
        let words = pretokenize::pretokens(text, t.special);
        pretokenize::words_join_to_the_text(text, t.special);
        assert(words.len() > 0);
        let word = words.first();
        assert(word == words[0] && word.len() > 0);
        let parts = words.map_values(t.word_ids_fn());
        assert(parts.first() == t.word_ids(word));
        if !t.special_ids().contains_key(word) {
            let bytes = vstd::utf8::encode_utf8(word);
            assert(bytes.len() > 0);
            bpe::merging_leaves_a_token(t.ranks(), tokenizer::byte_tokens(word));
        }
    }
}

/// Whether every ID that encoding can give is below `n`.
pub open spec fn ids_below(t: TokenizerView, n: int) -> bool {
    &&& 0 < n
    &&& forall|token: Seq<char>| #[trigger]
        t.vocab.contains_key(token) ==> t.vocab[token] < n
    &&& forall|name: Seq<char>| #[trigger]
        t.special_ids().contains_key(name) ==> t.special_ids()[name] < n
}

proof fn lemma_flatten_below(parts: Seq<Seq<usize>>, n: int)
    requires
        forall|i: int, j: int|
            0 <= i < parts.len() && 0 <= j < parts[i].len() ==> #[trigger] parts[i][j] < n,
    ensures
        forall|j: int| 0 <= j < parts.flatten().len() ==> #[trigger] parts.flatten()[j] < n,
    decreases parts.len(),
{
    if parts.len() > 0 {
        let rest = parts.drop_first();
        assert forall|i: int, j: int|
            0 <= i < rest.len() && 0 <= j < rest[i].len() implies #[trigger] rest[i][j] < n by {
            assert(rest[i] == parts[i + 1]);
            assert(parts[i + 1][j] < n);
        }
        lemma_flatten_below(rest, n);
        let all = parts.flatten();
        assert(all == parts.first() + rest.flatten());
        assert forall|j: int| 0 <= j < all.len() implies #[trigger] all[j] < n by {
            if j < parts.first().len() {
                assert(parts[0][j] < n);
            } else {
                assert(all[j] == rest.flatten()[j - parts.first().len()]);
            }
        }
    }
}

/// Encoding gives no IDs but those of the vocabulary, those of the special tokens
/// and 0: where all of them are below `n`, so are the IDs of every text.
pub proof fn encoding_stays_below(t: TokenizerView, text: Seq<char>, n: int)
    requires
        ids_below(t, n),
    ensures
        forall|i: int| 0 <= i < t.encoding(text).len() ==> #[trigger] t.encoding(text)[i] < n,
{
    if !t.special_ids().contains_key(text) {
        let words = pretokenize::pretokens(text, t.special);
        let parts = words.map_values(t.word_ids_fn());
        assert forall|i: int, j: int|
            0 <= i < parts.len() && 0 <= j < parts[i].len() implies #[trigger] parts[i][j] < n by {
            let word = words[i];
            assert(parts[i] == t.word_ids(word));
        }
        lemma_flatten_below(parts, n);
    }
}

/// A merge rule that is written as one text is cut at its first space.
pub proof fn rules_are_cut_at_the_space(
    item: tokenizer::MergeItem,
    left: Seq<char>,
    right: Seq<char>,
)
    requires
        item matches tokenizer::MergeItem::Text(s) && s@ == left + seq![' '] + right,
        !left.contains(' '),
    ensures
        tokenizer::rule_of(item) == Some((left, right)),
{
    let s = left + seq![' '] + right;
    assert forall|k: int| 0 <= k < left.len() implies s[k] != ' ' by {
        assert(left.contains(left[k]));
    }
    tokenizer::lemma_first_space(s, 0, left.len() as int);
    assert(s.subrange(0, left.len() as int) =~= left);
    assert(s.subrange(left.len() as int + 1, s.len() as int) =~= right);
}

/// A text without a space states no rule.
pub proof fn rules_need_a_space(item: tokenizer::MergeItem)
    requires
        item matches tokenizer::MergeItem::Text(s) && !s@.contains(' '),
    ensures
        tokenizer::rule_of(item) is None,
{
    let s = item->Text_0@;
    assert forall|k: int| 0 <= k < s.len() implies s[k] != ' ' by {
        assert(s.contains(s[k]));
    }
    tokenizer::lemma_first_space(s, 0, s.len() as int);
}

/// Rules keep the order of their entries, whatever is passed over between them.
pub proof fn rules_keep_their_order(
    a: Seq<tokenizer::MergeItem>,
    b: Seq<tokenizer::MergeItem>,
)
    ensures
        tokenizer::rules_of(a + b) == tokenizer::rules_of(a) + tokenizer::rules_of(b),
    decreases b.len(),
{
    if b.len() == 0 {
        assert(a + b =~= a);
        assert(tokenizer::rules_of(a) + tokenizer::rules_of(b) =~= tokenizer::rules_of(a));
    } else {
        rules_keep_their_order(a, b.drop_last());
        assert((a + b).drop_last() =~= a + b.drop_last());
        assert(tokenizer::rules_of(a + b) =~= tokenizer::rules_of(a) + tokenizer::rules_of(b));
    }
}

/// A vocabulary has the last ID that is given to a token, and the last token that an ID is
/// given to, and nothing else.
pub proof fn last_entry_of_a_vocabulary_counts(entries: Seq<(String, usize)>, i: int)
    requires
        0 <= i < entries.len(),
    ensures
        tokenizer::vocab_of(entries).contains_key(entries[i].0@),
        tokenizer::tokens_of(entries).contains_key(entries[i].1),
        (forall|j: int| i < j < entries.len() ==> (#[trigger] entries[j]).0@ != entries[i].0@)
            ==> tokenizer::vocab_of(entries)[entries[i].0@] == entries[i].1,
        (forall|j: int| i < j < entries.len() ==> (#[trigger] entries[j]).1 != entries[i].1)
            ==> tokenizer::tokens_of(entries)[entries[i].1] == entries[i].0@,
    decreases entries.len(),
{
    let front = entries.drop_last();
    if i < entries.len() - 1 {
        last_entry_of_a_vocabulary_counts(front, i);
        assert(front[i] == entries[i]);
        let last = entries[entries.len() - 1];
        if forall|j: int| i < j < entries.len() ==> (#[trigger] entries[j]).0@ != entries[i].0@ {
            assert forall|j: int| i < j < front.len() implies (#[trigger] front[j]).0@
                != front[i].0@ by {
                assert(entries[j].0@ != entries[i].0@);
            }
        }
        if forall|j: int| i < j < entries.len() ==> (#[trigger] entries[j]).1 != entries[i].1 {
            assert forall|j: int| i < j < front.len() implies (#[trigger] front[j]).1
                != front[i].1 by {
                assert(entries[j].1 != entries[i].1);
            }
        }
    }
}

/// A vocabulary has no token that no entry names.
pub proof fn vocabulary_has_what_entries_name(entries: Seq<(String, usize)>, token: Seq<char>)
    requires
        forall|j: int| 0 <= j < entries.len() ==> (#[trigger] entries[j]).0@ != token,
    ensures
        !tokenizer::vocab_of(entries).contains_key(token),
    decreases entries.len(),
{
    if entries.len() > 0 {
        let front = entries.drop_last();
        assert forall|j: int| 0 <= j < front.len() implies (#[trigger] front[j]).0@ != token by {
            assert(entries[j].0@ != token);
        }
        vocabulary_has_what_entries_name(front, token);
        assert(entries[entries.len() - 1].0@ != token);
    }
}

/// An added token that is marked as special is special, with the last ID that is given to
/// it.
pub proof fn marked_tokens_are_special(added: Seq<tokenizer::AddedToken>, i: int)
    requires
        0 <= i < added.len(),
        added[i].special == Some(true),
        forall|j: int|
            i < j < added.len() && (#[trigger] added[j]).special == Some(true)
                ==> added[j].content@ != added[i].content@,
    ensures
        tokenizer::special_of(added).contains_key(added[i].content@),
        tokenizer::special_of(added)[added[i].content@] == added[i].id,
    decreases added.len(),
{
    if i < added.len() - 1 {
        let front = added.drop_last();
        assert forall|j: int|
            i < j < front.len() && (#[trigger] front[j]).special == Some(true) implies
            front[j].content@ != front[i].content@ by {
            assert(added[j] == front[j]);
        }
        marked_tokens_are_special(front, i);
        let last = added[added.len() - 1];
    }
}

/// A token that no added token marks as special is not special.
pub proof fn unmarked_tokens_are_not_special(
    added: Seq<tokenizer::AddedToken>,
    token: Seq<char>,
)
    requires
        forall|j: int|
            0 <= j < added.len() && (#[trigger] added[j]).special == Some(true)
                ==> added[j].content@ != token,
    ensures
        !tokenizer::special_of(added).contains_key(token),
    decreases added.len(),
{
    if added.len() > 0 {
        let front = added.drop_last();
        assert forall|j: int|
            0 <= j < front.len() && (#[trigger] front[j]).special == Some(true) implies
            front[j].content@ != token by {
            assert(added[j] == front[j]);
        }
        unmarked_tokens_are_not_special(front, token);
        let last = added[added.len() - 1];
    }
}

/// A word starts as its bytes: without merge rules each byte of its UTF-8 is a token, and
/// has the ID of the character that stands for it, or 0 where the vocabulary has none.
pub proof fn words_start_as_bytes(t: TokenizerView, word: Seq<char>, i: int)
    requires
        t.merges.len() == 0,
        !t.special_ids().contains_key(word),
        0 <= i < vstd::utf8::encode_utf8(word).len(),
    ensures
        t.word_ids(word).len() == vstd::utf8::encode_utf8(word).len(),
        ({
            let token = seq![byte_level::byte_char(vstd::utf8::encode_utf8(word)[i])];
            &&& t.vocab.contains_key(token) ==> t.word_ids(word)[i] == t.vocab[token]
            &&& !t.vocab.contains_key(token) ==> t.word_ids(word)[i] == 0
        }),
{
    let tokens = tokenizer::byte_tokens(word);
    assert(t.ranks() =~= Map::empty());
    assert forall|k: int| !#[trigger] bpe::mergeable(t.ranks(), tokens, k) by {}
    bpe::merging_without_rules(t.ranks(), tokens);
    assert(t.word_tokens(word) == tokens);
}

/// Each token of a word gives one ID, in order: the one that the vocabulary has, or 0.
pub proof fn tokens_give_one_id_each(t: TokenizerView, word: Seq<char>, i: int)
    requires
        !t.special_ids().contains_key(word),
        0 <= i < t.word_tokens(word).len(),
    ensures
        t.word_ids(word).len() == t.word_tokens(word).len(),
        t.vocab.contains_key(t.word_tokens(word)[i]) ==> t.word_ids(word)[i]
            == t.vocab[t.word_tokens(word)[i]],
        !t.vocab.contains_key(t.word_tokens(word)[i]) ==> t.word_ids(word)[i] == 0,
{
}

/// An ID that has no token says nothing: it can be left out wherever it stands.
pub proof fn unknown_ids_say_nothing(
    t: TokenizerView,
    before: Seq<usize>,
    id: usize,
    after: Seq<usize>,
)
    requires
        !t.tokens.contains_key(id),
    ensures
        t.decoding(before + seq![id] + after) == t.decoding(before + after),
{
    lemma_token_texts_add(t, before + seq![id], after);
    lemma_token_texts_add(t, before, seq![id]);
    lemma_token_texts_add(t, before, after);
    text::lemma_flat_map_one(id, t.token_text_fn());
    assert(t.token_texts(before + seq![id]) =~= t.token_texts(before));
}

/// A token text is read character by character: the character of a byte is that byte, and
/// any other character is its own UTF-8.
pub proof fn characters_are_read_as_bytes(c: char, b: u8)
    ensures
        byte_level::byte_char(b) == c ==> tokenizer::chars_bytes(seq![c]) == seq![b],
        (forall|x: u8| byte_level::byte_char(x) != c) ==> tokenizer::chars_bytes(seq![c])
            == vstd::utf8::encode_utf8(seq![c]),
{
    text::lemma_flat_map_one(c, |d: char| tokenizer::char_bytes(d));
    if byte_level::byte_char(b) == c {
        byte_level::byte_char_reads_back(b);
    }
}

/// The first name that has an ID gives it: the one in the vocabulary, and only where the
/// vocabulary does not have the name that of the special token. Where no name has one it
/// is 0.
pub proof fn first_name_counts(t: TokenizerView, names: Seq<Seq<char>>, i: int)
    requires
        0 <= i <= names.len(),
        forall|j: int|
            0 <= j < i ==> !t.vocab.contains_key(#[trigger] names[j])
                && !t.special_ids().contains_key(names[j]),
    ensures
        i < names.len() && t.vocab.contains_key(names[i]) ==> t.first_named_id(names)
            == t.vocab[names[i]],
        i < names.len() && !t.vocab.contains_key(names[i]) && t.special_ids().contains_key(
            names[i],
        ) ==> t.first_named_id(names) == t.special_ids()[names[i]],
        i == names.len() ==> t.first_named_id(names) == 0,
    decreases i,
{
    if i > 0 {
        let rest = names.drop_first();
        assert forall|j: int| 0 <= j < i - 1 implies !t.vocab.contains_key(#[trigger] rest[j])
            && !t.special_ids().contains_key(rest[j]) by {
            assert(rest[j] == names[j + 1]);
        }
        assert(names.first() == names[0]);
        first_name_counts(t, rest, i - 1);
        if i < names.len() {
            assert(rest[i - 1] == names[i]);
        }
    }
}

/// The token that ends a sequence is looked for under its usual names, the most usual one
/// first.
pub proof fn usual_names_end_a_sequence(t: TokenizerView)
    ensures
        t.vocab.contains_key("<|endoftext|>"@) ==> t.eos() == t.vocab["<|endoftext|>"@],
        t.named_id("<|endoftext|>"@) is None && t.vocab.contains_key("</s>"@) ==> t.eos()
            == t.vocab["</s>"@],
        t.named_id("<|endoftext|>"@) is None && t.named_id("</s>"@) is None
            && t.vocab.contains_key("<|end|>"@) ==> t.eos() == t.vocab["<|end|>"@],
        t.named_id("<|endoftext|>"@) is None && t.named_id("</s>"@) is None && t.named_id(
            "<|end|>"@,
        ) is None && t.vocab.contains_key("<eos>"@) ==> t.eos() == t.vocab["<eos>"@],
        t.named_id("<|endoftext|>"@) is None && t.named_id("</s>"@) is None && t.named_id(
            "<|end|>"@,
        ) is None && t.named_id("<eos>"@) is None && t.vocab.contains_key("<|eos|>"@) ==> t.eos()
            == t.vocab["<|eos|>"@],
{
    let names = tokenizer::eos_names();
    assert forall|i: int|
        0 <= i < 5 && t.vocab.contains_key(names[i]) && (forall|j: int|
            0 <= j < i ==> t.named_id(#[trigger] names[j]) is None) implies t.eos()
        == t.vocab[#[trigger] names[i]] by {
        assert forall|j: int| 0 <= j < i implies !t.vocab.contains_key(#[trigger] names[j])
            && !t.special_ids().contains_key(names[j]) by {
            assert(t.named_id(names[j]) is None);
        }
        first_name_counts(t, names, i);
    }
    assert(names[0] == "<|endoftext|>"@);
    assert(names[1] == "</s>"@);
    assert(names[2] == "<|end|>"@);
    assert(names[3] == "<eos>"@);
    assert(names[4] == "<|eos|>"@);
}

} // verus!
