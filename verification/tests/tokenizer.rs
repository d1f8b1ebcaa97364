use qwen3_5_rs::byte_level::build_byte_encoder;
use qwen3_5_rs::pretokenize::{
    classify, consume_while, pretokenize, split_words, CharClass, CharKind, SpecialTokens,
};
use qwen3_5_rs::text::chars_of;
use qwen3_5_rs::tokenizer::{
    deserialize_merges, AddedToken, MergeItem, MergesField, Tokenizer,
};
use serde_json::Value;

/// Reads the parts of a tokenizer file.
fn tokenizer_from_json(json: &str) -> Tokenizer {
    let file: Value = serde_json::from_str(json).unwrap();
    let vocab: Vec<(String, usize)> = file["model"]["vocab"]
        .as_object()
        .unwrap()
        .iter()
        .map(|(token, id)| (token.clone(), id.as_u64().unwrap() as usize))
        .collect();
    let merges = match &file["model"]["merges"] {
        Value::Null => MergesField::Missing,
        Value::Array(items) => MergesField::List(items.iter().map(merge_item).collect()),
        _ => MergesField::Other,
    };
    let added = file["added_tokens"].as_array().map(|tokens| {
        tokens
            .iter()
            .map(|t| AddedToken {
                id: t["id"].as_u64().unwrap() as usize,
                content: t["content"].as_str().unwrap().to_string(),
                special: t["special"].as_bool(),
            })
            .collect::<Vec<_>>()
    });
    Tokenizer::from_parts(vocab, deserialize_merges(&merges), added)
}

fn merge_item(value: &Value) -> MergeItem {
    match value {
        Value::String(s) => MergeItem::Text(s.clone()),
        Value::Array(parts) => {
            MergeItem::List(parts.iter().map(|p| p.as_str().map(|s| s.to_string())).collect())
        }
        _ => MergeItem::Other,
    }
}

fn make_test_tokenizer_json() -> String {
    r#"{
            "version": "1.0",
            "added_tokens": [
                {"id": 0, "content": "<|endoftext|>", "single_word": false, "lstrip": false, "rstrip": false, "normalized": false, "special": true}
            ],
            "model": {
                "type": "BPE",
                "vocab": {
                    "<|endoftext|>": 0,
                    "!": 1,
                    "a": 2,
                    "b": 3,
                    "c": 4,
                    "d": 5,
                    "e": 6,
                    "h": 7,
                    "l": 8,
                    "o": 9,
                    "r": 10,
                    "w": 11,
                    "Ġ": 12,
                    "Ġw": 13,
                    "he": 14,
                    "lo": 15,
                    "or": 16,
                    "hel": 17,
                    "hello": 18,
                    "Ġwor": 19,
                    "ld": 20,
                    "Ġworld": 21,
                    "ll": 22,
                    "Ġworl": 23,
                    "Ġworld!": 24
                },
                "merges": [
                    "Ġ w",
                    "h e",
                    "l o",
                    "he l",
                    "hel lo",
                    "o r",
                    "Ġw or",
                    "l d",
                    "Ġwor ld",
                    "l l",
                    "Ġworl d"
                ]
            }
        }"#
    .to_string()
}

#[test]
fn test_byte_encoder_decoder_roundtrip() {
    let (encoder, decoder) = build_byte_encoder();

    // Every byte value should have a mapping.
    for b in 0u8..=255 {
        let c = encoder[b as usize];
        assert_ne!(c, '\0', "byte {} should have a non-null mapping", b);

        // Roundtrip: byte -> char -> byte.
        let roundtrip = decoder.get(&c).copied();
        assert_eq!(
            roundtrip,
            Some(b),
            "roundtrip failed for byte {}: char {:?} decoded to {:?}",
            b,
            c,
            roundtrip
        );
    }

    // All mapped characters should be unique.
    let chars: Vec<char> = (0..=255).map(|b| encoder[b as usize]).collect();
    let unique: std::collections::HashSet<char> = chars.iter().copied().collect();
    assert_eq!(
        chars.len(),
        unique.len(),
        "byte encoder should map to 256 unique characters"
    );
}

#[test]
fn test_byte_encoder_specific_mappings() {
    let (encoder, _) = build_byte_encoder();

    // Printable ASCII maps to itself.
    assert_eq!(encoder[b'!' as usize], '!');
    assert_eq!(encoder[b'A' as usize], 'A');
    assert_eq!(encoder[b'z' as usize], 'z');
    assert_eq!(encoder[b'~' as usize], '~');

    assert_ne!(encoder[b' ' as usize], ' ', "space should not map to itself");

    // The byte-level character for space is Ġ (U+0120) in GPT-2 encoding.
    assert_eq!(encoder[b' ' as usize], 'Ġ', "space should map to Ġ");
}

#[test]
fn byte_encoder_boundaries() {
    let (encoder, decoder) = build_byte_encoder();
    assert_eq!(encoder[0], '\u{100}');
    assert_eq!(encoder[32], '\u{120}');
    assert_eq!(encoder[33], '!');
    assert_eq!(encoder[127], '\u{121}');
    assert_eq!(encoder[160], '\u{142}');
    assert_eq!(encoder[161], '\u{a1}');
    assert_eq!(encoder[173], '\u{143}');
    assert_eq!(encoder[255], '\u{ff}');
    assert_eq!(decoder.get(&' '), None);
    assert_eq!(decoder.get(&'日'), None);
}

#[test]
fn test_vocab_loading() {
    let json = make_test_tokenizer_json();
    let tokenizer = tokenizer_from_json(&json);

    assert_eq!(tokenizer.vocab_size(), 25);
    assert_eq!(tokenizer.token_id("!"), Some(&1));
    assert_eq!(tokenizer.token_id("hello"), Some(&18));
    assert_eq!(tokenizer.token_id("Ġworld"), Some(&21));
}

#[test]
fn test_special_tokens() {
    let json = make_test_tokenizer_json();
    let tokenizer = tokenizer_from_json(&json);

    assert_eq!(tokenizer.special_tokens().get("<|endoftext|>"), Some(&0));
    assert_eq!(tokenizer.eos_token_id(), 0);
}

#[test]
fn test_eos_token_id_qwen35() {
    // Simulate the Qwen3 tokenizer with its actual EOS token ID.
    let json = r#"{
        "added_tokens": [
            {"id": 151643, "content": "<|endoftext|>", "single_word": false, "lstrip": false, "rstrip": false, "normalized": false, "special": true}
        ],
        "model": {
            "type": "BPE",
            "vocab": {
                "<|endoftext|>": 151643,
                "a": 1
            },
            "merges": []
        }
    }"#;
    let tokenizer = tokenizer_from_json(json);
    assert_eq!(tokenizer.eos_token_id(), 151643);
}

#[test]
fn eos_token_falls_back_to_other_names() {
    let special = |name: &str, id: usize| AddedToken {
        id,
        content: name.to_string(),
        special: Some(true),
    };
    let only_special = Tokenizer::from_parts(vec![], None, Some(vec![special("<|endoftext|>", 9)]));
    assert_eq!(only_special.eos_token_id(), 9);
    let other = Tokenizer::from_parts(
        vec![("<eos>".to_string(), 4)],
        None,
        Some(vec![special("</s>", 7)]),
    );
    assert_eq!(other.eos_token_id(), 7);
    let last = Tokenizer::from_parts(vec![("<|eos|>".to_string(), 5)], None, None);
    assert_eq!(last.eos_token_id(), 5);
    let none = Tokenizer::from_parts(vec![("a".to_string(), 3)], None, None);
    assert_eq!(none.eos_token_id(), 0);
}

#[test]
fn test_encode_hello() {
    let json = make_test_tokenizer_json();
    let tokenizer = tokenizer_from_json(&json);

    let ids = tokenizer.encode("hello");
    assert!(!ids.is_empty(), "encode should produce some token IDs");
    assert_eq!(ids.len(), 1, "fully merged 'hello' should be a single token");
    assert_eq!(ids[0], 18, "hello should have ID 18");
}

#[test]
fn test_encode_hello_world() {
    let json = make_test_tokenizer_json();
    let tokenizer = tokenizer_from_json(&json);

    let ids = tokenizer.encode("hello world");
    assert!(!ids.is_empty(), "encode should produce token IDs");

    let decoded = tokenizer.decode(&ids);
    assert_eq!(decoded, "hello world", "roundtrip should recover original text");
}

#[test]
fn hello_world_has_two_ids() {
    let tokenizer = tokenizer_from_json(&make_test_tokenizer_json());
    assert_eq!(tokenizer.encode("hello world"), vec![18, 21]);
}

#[test]
fn test_decode_roundtrip() {
    let json = make_test_tokenizer_json();
    let tokenizer = tokenizer_from_json(&json);

    let texts = vec!["hello", "hello world", "a", "abc"];
    for text in texts {
        let ids = tokenizer.encode(text);
        let decoded = tokenizer.decode(&ids);
        assert_eq!(
            decoded, text,
            "roundtrip failed for '{:?}': encoded={:?}, decoded='{:?}'",
            text, ids, decoded
        );
    }
}

#[test]
fn roundtrip_with_all_bytes() {
    let (encoder, _) = build_byte_encoder();
    let vocab: Vec<(String, usize)> =
        (0..256).map(|b| (encoder[b].to_string(), b + 1)).collect();
    let added = vec![AddedToken {
        id: 300,
        content: "<end>".to_string(),
        special: Some(true),
    }];
    let mut vocab = vocab;
    vocab.push(("<end>".to_string(), 300));
    let tokenizer = Tokenizer::from_parts(vocab, None, Some(added));
    for text in ["héllo, wörld!", "日本語 12\n\t x", "a<end>b", "\u{0}\u{ad}"] {
        assert_eq!(tokenizer.decode(&tokenizer.encode(text)), text);
    }
    assert_eq!(tokenizer.encode("é"), vec![0xc3 + 1, 0xa9 + 1]);
    assert_eq!(tokenizer.encode("a<end>"), vec![98, 300]);
}

#[test]
fn unknown_tokens_are_zero() {
    let vocab = vec![("a".to_string(), 3), ("b".to_string(), 4)];
    let merges = Some(vec![("a".to_string(), "b".to_string())]);
    let tokenizer = Tokenizer::from_parts(vocab.clone(), merges.clone(), None);
    assert_eq!(tokenizer.encode("ab"), vec![0]);
    assert_eq!(tokenizer.encode("axb"), vec![3, 0, 4]);

    let mut vocab = vocab;
    vocab.push(("ab".to_string(), 5));
    let tokenizer = Tokenizer::from_parts(vocab, merges, None);
    assert_eq!(tokenizer.encode("ab"), vec![5]);
}

#[test]
fn test_decode_individual_tokens() {
    let json = make_test_tokenizer_json();
    let tokenizer = tokenizer_from_json(&json);

    // Decode specific token IDs.
    assert_eq!(tokenizer.decode(&[1]), "!"); // "!" = ID 1
    assert_eq!(tokenizer.decode(&[2]), "a"); // "a" = ID 2
    assert_eq!(tokenizer.decode(&[18]), "hello"); // "hello" = ID 18
    assert_eq!(tokenizer.decode(&[21]), " world"); // "Ġworld" = ID 21, Ġ decodes to space
}

#[test]
fn decoding_skips_unknown_ids_and_replaces_broken_bytes() {
    let (encoder, _) = build_byte_encoder();
    let tokenizer = Tokenizer::from_parts(
        vec![
            (encoder[0xc3].to_string(), 0),
            ("a".to_string(), 1),
            ("日".to_string(), 2),
        ],
        None,
        None,
    );
    assert_eq!(tokenizer.decode(&[1, 77, 1]), "aa");
    assert_eq!(tokenizer.decode(&[0, 1]), "\u{fffd}a");
    assert_eq!(tokenizer.decode(&[2]), "日");
}

#[test]
fn test_pretokenize_simple() {
    let special_tokens = SpecialTokens::new();
    let words = pretokenize("hello world", &special_tokens);
    // "hello" (no leading space), " world" (leading space attached)
    assert_eq!(words, vec!["hello", " world"]);
}

#[test]
fn test_pretokenize_with_punctuation() {
    let special_tokens = SpecialTokens::new();
    let words = pretokenize("hello, world!", &special_tokens);
    // "hello", ",", " world", "!"
    assert_eq!(words, vec!["hello", ",", " world", "!"]);
}

#[test]
fn test_pretokenize_with_numbers() {
    let special_tokens = SpecialTokens::new();
    let words = pretokenize("test 123", &special_tokens);
    assert_eq!(words, vec!["test", " 123"]);
}

#[test]
fn test_pretokenize_with_special_token() {
    let mut special_tokens = SpecialTokens::new();
    special_tokens.insert("<|endoftext|>".to_string(), 0);
    let words = pretokenize("hello<|endoftext|>world", &special_tokens);
    assert_eq!(words, vec!["hello", "<|endoftext|>", "world"]);
}

#[test]
fn pretokenize_whitespace_and_symbols() {
    let none = SpecialTokens::new();
    assert_eq!(pretokenize("a  b", &none), vec!["a", " ", " b"]);
    assert_eq!(pretokenize("a \n b", &none), vec!["a", " \n", " b"]);
    assert_eq!(pretokenize("a   1", &none), vec!["a", "  ", " 1"]);
    assert_eq!(pretokenize("a  !", &none), vec!["a", " ", " !"]);
    assert_eq!(pretokenize("a \tb", &none), vec!["a", " \t", "b"]);
    assert_eq!(pretokenize("a  ", &none), vec!["a", "  "]);
    assert_eq!(pretokenize("x ?!", &none), vec!["x", " ?", "!"]);
    assert_eq!(pretokenize("ab12 ", &none), vec!["ab", "12", " "]);
    assert_eq!(pretokenize("", &none), Vec::<String>::new());
}

#[test]
fn special_tokens_are_found_after_a_space_and_inside_a_run() {
    let mut special_tokens = SpecialTokens::new();
    special_tokens.insert("<|endoftext|>".to_string(), 0);
    special_tokens.insert("xyz".to_string(), 1);
    let words = |text: &str| pretokenize(text, &special_tokens);
    assert_eq!(words("a <|endoftext|>"), vec!["a", " ", "<|endoftext|>"]);
    assert_eq!(words("a  <|endoftext|> b"), vec!["a", "  ", "<|endoftext|>", " b"]);
    assert_eq!(words("abxyzc"), vec!["ab", "xyz", "c"]);
    assert_eq!(words(" abxyz"), vec![" ab", "xyz"]);
    assert_eq!(words(" xyz"), vec![" ", "xyz"]);
}

#[test]
fn a_special_token_after_a_space_is_encoded() {
    let tokenizer = tokenizer_from_json(&make_test_tokenizer_json());
    assert_eq!(tokenizer.encode("a <|endoftext|>"), vec![2, 12, 0]);
    assert_eq!(tokenizer.encode("a <|endoftext|> world"), vec![2, 12, 0, 21]);
    assert_eq!(tokenizer.decode(&[2, 12, 0, 21]), "a <|endoftext|> world");
}

#[test]
fn decoding_joins() {
    let tokenizer = tokenizer_from_json(&make_test_tokenizer_json());
    let joined = tokenizer.decode(&[18]) + &tokenizer.decode(&[21, 1]);
    assert_eq!(tokenizer.decode(&[18, 21, 1]), joined);

    let (encoder, _) = build_byte_encoder();
    let bytes = vec![
        (encoder[0xc3].to_string(), 0),
        (encoder[0xa9].to_string(), 1),
        ("a".to_string(), 2),
    ];
    let tokenizer = Tokenizer::from_parts(bytes, None, None);
    assert_eq!(tokenizer.decode(&[0, 1]), "é");
    assert_eq!(tokenizer.decode(&[2, 0, 2]), "a".to_string() + &tokenizer.decode(&[0, 2]));
    assert_ne!(tokenizer.decode(&[0]) + &tokenizer.decode(&[1]), tokenizer.decode(&[0, 1]));
}

#[test]
fn a_text_without_special_tokens_comes_back_whatever_they_decode_to() {
    let vocab = vec![("a".to_string(), 1), ("b".to_string(), 2), ("odd".to_string(), 3)];
    let added = vec![AddedToken { id: 3, content: "<x>".to_string(), special: Some(true) }];
    let tokenizer = Tokenizer::from_parts(vocab, None, Some(added));
    assert_eq!(tokenizer.decode(&tokenizer.encode("abba")), "abba");
    assert_ne!(tokenizer.decode(&tokenizer.encode("<x>")), "<x>");
}

#[test]
fn a_text_is_encoded_word_by_word() {
    let tokenizer = tokenizer_from_json(&make_test_tokenizer_json());
    let mut special = SpecialTokens::new();
    special.insert("<|endoftext|>".to_string(), 0);
    for text in ["hello world!", "a  hello \n <|endoftext|>world 12", "<|endoftext|>", ""] {
        let words = pretokenize(text, &special);
        let joined: Vec<usize> = words.iter().flat_map(|word| tokenizer.encode(word)).collect();
        assert_eq!(tokenizer.encode(text), joined);
        for word in words {
            assert_eq!(pretokenize(&word, &special), vec![word]);
        }
    }
}

#[test]
fn splitting_follows_the_given_kinds() {
    let word = CharKind { whitespace: false, alphabetic: true, numeric: false };
    let digit = CharKind { whitespace: false, alphabetic: false, numeric: true };
    let chars = chars_of("ab1");
    let none = SpecialTokens::new();
    assert_eq!(split_words(&chars, &[word, word, digit], &none), vec!["ab", "1"]);
    assert_eq!(split_words(&chars, &[digit, word, word], &none), vec!["a", "b1"]);
    assert_eq!(classify(&chars), vec![word, word, digit]);
    assert_eq!(consume_while(&[word, word, digit], &[false; 3], 0, CharClass::Alphabetic), 2);
    assert_eq!(consume_while(&[word, word, digit], &[false; 3], 0, CharClass::Numeric), 0);
    let special = [false, true, false];
    assert_eq!(consume_while(&[word, word, digit], &special, 0, CharClass::Alphabetic), 1);
}

#[test]
fn special_tokens_keep_the_latest_id() {
    let mut tokens = SpecialTokens::new();
    tokens.insert("<a>".to_string(), 1);
    tokens.insert("<b>".to_string(), 2);
    tokens.insert("<a>".to_string(), 5);
    assert_eq!(tokens.len(), 2);
    assert_eq!(tokens.get("<a>"), Some(&5));
    assert_eq!(tokens.get("<b>"), Some(&2));
    assert_eq!(tokens.get("<c>"), None);
    assert_eq!(tokens.name(1), "<b>");
}

#[test]
fn test_apply_bpe_basic() {
    let json = make_test_tokenizer_json();
    let tokenizer = tokenizer_from_json(&json);

    // Test BPE on "hello": h, e, l, l, o
    let input = vec![
        "h".to_string(),
        "e".to_string(),
        "l".to_string(),
        "l".to_string(),
        "o".to_string(),
    ];
    let result = tokenizer.apply_bpe(&input);
    assert_eq!(result, vec!["hello"]);
}

#[test]
fn test_apply_bpe_no_merges() {
    let json = make_test_tokenizer_json();
    let tokenizer = tokenizer_from_json(&json);

    // Tokens with no applicable merges should be returned as-is.
    let input = vec!["x".to_string(), "y".to_string(), "z".to_string()];
    let result = tokenizer.apply_bpe(&input);
    assert_eq!(result, vec!["x", "y", "z"]);
}

#[test]
fn test_apply_bpe_single_token() {
    let json = make_test_tokenizer_json();
    let tokenizer = tokenizer_from_json(&json);

    // Single token cannot be merged.
    let input = vec!["hello".to_string()];
    let result = tokenizer.apply_bpe(&input);
    assert_eq!(result, vec!["hello"]);
}

#[test]
fn merging_joins_from_the_left_and_by_rank() {
    let pair = |a: &str, b: &str| (a.to_string(), b.to_string());
    let tokenizer =
        Tokenizer::from_parts(vec![], Some(vec![pair("b", "c"), pair("a", "b"), pair("a", "a")]), None);
    let split = |s: &str| s.chars().map(|c| c.to_string()).collect::<Vec<_>>();
    assert_eq!(tokenizer.apply_bpe(&split("abc")), vec!["a", "bc"]);
    assert_eq!(tokenizer.apply_bpe(&split("aaa")), vec!["aa", "a"]);
    assert_eq!(tokenizer.apply_bpe(&split("")), Vec::<String>::new());
}

#[test]
fn test_encode_special_token() {
    let json = make_test_tokenizer_json();
    let tokenizer = tokenizer_from_json(&json);

    // Encoding the EOS token string directly should produce its ID.
    let ids = tokenizer.encode("<|endoftext|>");
    assert_eq!(ids, vec![0]);
}

#[test]
fn tokenizer_test_from_file() {
    let tokenizer = tokenizer_from_json(&make_test_tokenizer_json());
    assert_eq!(tokenizer.vocab_size(), 25);
}

#[test]
fn test_merge_ranks_populated() {
    let json = make_test_tokenizer_json();
    let tokenizer = tokenizer_from_json(&json);

    // Verify merge ranks are populated correctly.
    assert_eq!(tokenizer.merge_rank("h", "e"), Some(1));
    assert_eq!(tokenizer.merge_rank("l", "o"), Some(2));
    assert_eq!(tokenizer.merge_rank("Ġ", "w"), Some(0));
}

#[test]
fn a_repeated_rule_has_its_later_rank() {
    let pair = |a: &str, b: &str| (a.to_string(), b.to_string());
    let tokenizer = Tokenizer::from_parts(
        vec![],
        Some(vec![pair("a", "b"), pair("b", "a"), pair("a", "b")]),
        None,
    );
    assert_eq!(tokenizer.merge_rank("a", "b"), Some(2));
    assert_eq!(tokenizer.merge_rank("b", "a"), Some(1));
    assert_eq!(tokenizer.merge_rank("b", "b"), None);
}

#[test]
fn test_empty_input() {
    let json = make_test_tokenizer_json();
    let tokenizer = tokenizer_from_json(&json);

    let ids = tokenizer.encode("");
    assert!(ids.is_empty(), "encoding empty string should produce no tokens");

    let decoded = tokenizer.decode(&[]);
    assert_eq!(decoded, "", "decoding empty IDs should produce empty string");
}

#[test]
fn merge_rules_are_read_in_both_forms() {
    let field = MergesField::List(vec![
        MergeItem::Text("a b c".to_string()),
        MergeItem::Text("ab".to_string()),
        MergeItem::List(vec![Some("x".to_string()), Some("y".to_string())]),
        MergeItem::List(vec![Some("x".to_string()), None]),
        MergeItem::List(vec![Some("x".to_string())]),
        MergeItem::Other,
        MergeItem::Text(" z".to_string()),
    ]);
    let rules = deserialize_merges(&field).unwrap();
    let expected: Vec<(String, String)> = [("a", "b c"), ("x", "y"), ("", "z")]
        .iter()
        .map(|(a, b)| (a.to_string(), b.to_string()))
        .collect();
    assert_eq!(rules, expected);
    assert!(deserialize_merges(&MergesField::Missing).is_none());
    assert!(deserialize_merges(&MergesField::Other).is_none());
}

#[test]
fn only_added_tokens_marked_as_special_are_special() {
    let added = |content: &str, id: usize, special: Option<bool>| AddedToken {
        id,
        content: content.to_string(),
        special,
    };
    let tokenizer = Tokenizer::from_parts(
        vec![],
        None,
        Some(vec![
            added("<a>", 1, Some(true)),
            added("<b>", 2, Some(false)),
            added("<c>", 3, None),
        ]),
    );
    assert_eq!(tokenizer.special_tokens().get("<a>"), Some(&1));
    assert_eq!(tokenizer.special_tokens().get("<b>"), None);
    assert_eq!(tokenizer.special_tokens().get("<c>"), None);
}
