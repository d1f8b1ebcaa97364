//! The byte-level alphabet: every byte value has one visible character.
//!
//! Bytes that are visible characters already stand for themselves. The others
//! (control characters, the space, the soft hyphen and the like) take the code
//! points from U+0100 on, in order.
use std::collections::HashMap;
use vstd::prelude::*;

verus! {

/// Whether byte `b` is a visible character of its own.
pub open spec fn is_direct(b: int) -> bool {
    33 <= b <= 126 || 161 <= b <= 172 || 174 <= b <= 255
}

/// How many of the bytes below `b` are not visible characters.
pub open spec fn hidden_below(b: nat) -> nat
    decreases b,
{
    if b == 0 {
        0
    } else if is_direct(b - 1) {
        hidden_below((b - 1) as nat)
    } else {
        hidden_below((b - 1) as nat) + 1
    }
}

/// The code point of the character that stands for byte `b`.
pub open spec fn byte_code(b: u8) -> u32 {
    if is_direct(b as int) {
        b as u32
    } else {
        (256 + hidden_below(b as nat)) as u32
    }
}

/// The character that stands for byte `b`.
pub open spec fn byte_char(b: u8) -> char {
    byte_code(b) as char
}

/// The alphabet read backwards: from each of the 256 characters to its byte.
pub open spec fn byte_decoding() -> Map<char, u8> {
    Map::new(
        |c: char| exists|b: u8| #[trigger] byte_char(b) == c,
        |c: char| choose|b: u8| #[trigger] byte_char(b) == c,
    )
}

proof fn lemma_hidden_below(b: nat)
    requires
        b <= 255,
    ensures
        b <= 33 ==> hidden_below(b) == b,
        33 <= b <= 127 ==> hidden_below(b) == 33,
        127 <= b <= 161 ==> hidden_below(b) == b - 94,
        161 <= b <= 173 ==> hidden_below(b) == 67,
        174 <= b ==> hidden_below(b) == 68,
    decreases b,
{
    if b > 0 {
        lemma_hidden_below((b - 1) as nat);
    }
}

/// Every byte has a character, and no two bytes share one.
pub proof fn byte_char_is_injective(a: u8, b: u8)
    ensures
        byte_char(a) == byte_char(b) ==> a == b,
        byte_char(a) as u32 == byte_code(a),
        byte_char(a) != '\0',
{
    lemma_hidden_below(a as nat);
    lemma_hidden_below(b as nat);
    assert(byte_code(a) <= 323 && byte_code(b) <= 323);
    assert(byte_char(a) as u32 == byte_code(a));
    assert(byte_char(b) as u32 == byte_code(b));
}

/// Reading a byte's character back gives the byte.
pub proof fn byte_char_reads_back(b: u8)
    ensures
        byte_decoding().contains_key(byte_char(b)),
        byte_decoding()[byte_char(b)] == b,
{
    let c = byte_char(b);
    let back = choose|x: u8| #[trigger] byte_char(x) == c;
    byte_char_is_injective(back, b);
}

/// Visible bytes stand for themselves: the characters of ASCII from the exclamation mark to
/// the tilde, and those of Latin-1 from the inverted exclamation mark on, but for the soft
/// hyphen.
pub proof fn visible_bytes_stand_for_themselves(b: u8)
    ensures
        byte_char(b) as u32 == b <==> 0x21 <= b <= 0x7E || 0xA1 <= b && b != 0xAD,
{
    byte_char_is_injective(b, b);
    lemma_hidden_below(b as nat);
}

/// The other bytes take the characters from U+0100 on, one after the other, in order.
pub proof fn other_bytes_follow_in_order(b: u8)
    ensures
        b <= 0x20 ==> byte_char(b) as u32 == 0x100 + b,
        0x7F <= b <= 0xA0 ==> byte_char(b) as u32 == 0x121 + (b - 0x7F),
        b == 0xAD ==> byte_char(b) as u32 == 0x143,
{
    byte_char_is_injective(b, b);
    lemma_hidden_below(b as nat);
}

/// A map from the characters of the byte-level alphabet to bytes.
pub struct ByteDecoder {
    bytes: HashMap<u32, u8>,
}

impl View for ByteDecoder {
    type V = Map<char, u8>;

    closed spec fn view(&self) -> Map<char, u8> {
        Map::new(
            |c: char| self.bytes@.contains_key(c as u32),
            |c: char| self.bytes@[c as u32],
        )
    }
}

impl ByteDecoder {
    fn new() -> (r: Self)
        ensures
            r@ == Map::<char, u8>::empty(),
    {
        let r = ByteDecoder { bytes: HashMap::new() };
        assert(r@ =~= Map::<char, u8>::empty());
        r
    }

    fn insert(&mut self, c: char, b: u8)
        ensures
            final(self)@ == old(self)@.insert(c, b),
    {
        broadcast use vstd::std_specs::hash::group_hash_axioms;

        self.bytes.insert(c as u32, b);
        proof {
            let expected = old(self)@.insert(c, b);
            assert forall|x: char|
                #![trigger self@.contains_key(x)]
                #![trigger self@[x]]
                self@.contains_key(x) == expected.contains_key(x) && (self@.contains_key(x)
                    ==> self@[x] == expected[x]) by {
                vstd::utf8::char_u32_cast(x, x as u32);
                vstd::utf8::char_u32_cast(c, c as u32);
            }
            assert(self@ =~= expected);
        }
    }

    /// The byte that `c` stands for, if it stands for one.
    pub fn get(&self, c: &char) -> (r: Option<&u8>)
        ensures
            match r {
                Some(b) => self@.contains_key(*c) && *b == self@[*c],
                None => !self@.contains_key(*c),
            },
    {
        broadcast use vstd::std_specs::hash::group_hash_axioms;

        let key: u32 = *c as u32;
        self.bytes.get(&key)
    }
}

/// Builds the alphabet in both directions: `encoder[b]` is the character for
/// byte `b`, and the decoder gives the byte back.
pub fn build_byte_encoder() -> (r: ([char; 256], ByteDecoder))
    ensures
        forall|b: u8| #[trigger] r.0@[b as int] == byte_char(b),
        r.1@ == byte_decoding(),
{
    let mut encoder: [char; 256] = ['\0'; 256];
    let mut decoder = ByteDecoder::new();
    let mut n: u32 = 0;
    let mut i: usize = 0;
    while i < 256
        invariant
            i <= 256,
            n == hidden_below(i as nat),
            n <= i,
            forall|b: u8| b < i ==> #[trigger] encoder@[b as int] == byte_char(b),
            forall|c: char| #[trigger] decoder@.contains_key(c) <==> exists|b: u8|
                b < i && #[trigger] byte_char(b) == c,
            forall|b: u8| b < i ==> decoder@[#[trigger] byte_char(b)] == b,
        decreases 256 - i,
    {
        let b: u8 = i as u8;
        let direct: bool = (33 <= b && b <= 126) || (161 <= b && b <= 172) || 174 <= b;
        let code: u32 = if direct {
            b as u32
        } else {
            256 + n
        };
        let c: char = match char::from_u32(code) {
            Some(c) => c,
            None => '\0',
        };
        assert(c == byte_char(b));
        let ghost before = decoder@;
        encoder[i] = c;
        decoder.insert(c, b);
        if !direct {
            n = n + 1;
        }
        i = i + 1;
        proof {
            assert forall|x: u8| x < i implies decoder@[#[trigger] byte_char(x)] == x by {
                byte_char_is_injective(x, b);
            }
            assert forall|x: char| #[trigger] decoder@.contains_key(x) <==> exists|y: u8|
                y < i && #[trigger] byte_char(y) == x by {
                if decoder@.contains_key(x) {
                    if x == c {
                        assert(byte_char(b) == x);
                    } else {
                        assert(before.contains_key(x));
                    }
                }
                if exists|y: u8| y < i && #[trigger] byte_char(y) == x {
                    let y = choose|y: u8| y < i && #[trigger] byte_char(y) == x;
                    if y != b {
                        assert(before.contains_key(x));
                    }
                }
            }
        }
    }
    proof {
        assert forall|c: char| decoder@.contains_key(c) implies decoder@[c]
            == byte_decoding()[c] by {
            let b = choose|b: u8| b < i && #[trigger] byte_char(b) == c;
            byte_char_reads_back(b);
        }
        assert(decoder@ =~= byte_decoding());
    }
    (encoder, decoder)
}

} // verus!
