//! The parts of std's `char` and `String` that the tokenizer leans on, with the
//! contracts the rest of the crate relies on.
use vstd::prelude::*;

verus! {

/// Whether `c` has the Unicode property `White_Space`.
pub open spec fn char_is_whitespace(c: char) -> bool {
    let code = c as u32;
    ||| 0x9 <= code <= 0xd
    ||| code == 0x20
    ||| code == 0x85
    ||| code == 0xa0
    ||| code == 0x1680
    ||| 0x2000 <= code <= 0x200a
    ||| code == 0x2028
    ||| code == 0x2029
    ||| code == 0x202f
    ||| code == 0x205f
    ||| code == 0x3000
}

/// Whether `c`, which is not ASCII, has the Unicode property `Alphabetic`.
pub uninterp spec fn wide_char_is_alphabetic(c: char) -> bool;

/// Whether `c`, which is not ASCII, belongs to one of the Unicode number categories.
pub uninterp spec fn wide_char_is_numeric(c: char) -> bool;

/// Whether `c` has the Unicode property `Alphabetic`.
pub open spec fn char_is_alphabetic(c: char) -> bool {
    if c as u32 <= 0x7f {
        'a' <= c <= 'z' || 'A' <= c <= 'Z'
    } else {
        wide_char_is_alphabetic(c)
    }
}

/// Whether `c` belongs to one of the Unicode number categories.
pub open spec fn char_is_numeric(c: char) -> bool {
    if c as u32 <= 0x7f {
        '0' <= c <= '9'
    } else {
        wide_char_is_numeric(c)
    }
}

/// The text that std makes of `bytes`, with U+FFFD in place of what is not UTF-8.
pub uninterp spec fn lossy_text(bytes: Seq<u8>) -> Seq<char>;

/// `char::is_whitespace` is true of the characters with the Unicode property
/// `White_Space`, which are listed.
pub assume_specification[ char::is_whitespace ](c: char) -> (r: bool)
    ensures
        r == char_is_whitespace(c),
;

/// `char::is_alphabetic` is true of the ASCII letters and of no other ASCII
/// character. Beyond ASCII it depends on the character alone; its table is not
/// spelled out.
pub assume_specification[ char::is_alphabetic ](c: char) -> (r: bool)
    ensures
        r == (if c as u32 <= 0x7f {
            'a' <= c <= 'z' || 'A' <= c <= 'Z'
        } else {
            wide_char_is_alphabetic(c)
        }),
;

/// `char::is_numeric` is true of the ASCII digits and of no other ASCII character.
/// Beyond ASCII it depends on the character alone; its table is not spelled out.
pub assume_specification[ char::is_numeric ](c: char) -> (r: bool)
    ensures
        r == (if c as u32 <= 0x7f {
            '0' <= c <= '9'
        } else {
            wide_char_is_numeric(c)
        }),
;

/// `char::from_u32` gives the character with code point `i`, and `None` for the
/// surrogates and for everything above U+10FFFF.
pub assume_specification[ char::from_u32 ](i: u32) -> (r: Option<char>)
    ensures
        r == (if vstd::utf8::is_scalar(i) {
            Some(i as char)
        } else {
            None
        }),
;

/// `String::push` appends one character.
pub assume_specification[ String::push ](s: &mut String, c: char)
    ensures
        final(s)@ == old(s)@.push(c),
;

/// `String::from_utf8_lossy` decodes valid UTF-8 as it stands, and so does it with
/// valid UTF-8 that other bytes follow: what it makes of those is what it makes of
/// them alone. That is a function of those bytes and has a name. Where the bytes are
/// not valid UTF-8, U+FFFD is in the text; how often and where is left unsaid.
#[verifier::external_body]
fn text_from_utf8_lossy(bytes: &[u8]) -> (r: String)
    ensures
        r@ == lossy_text(bytes@),
        vstd::utf8::valid_utf8(bytes@) ==> r@ == vstd::utf8::decode_utf8(bytes@),
        !vstd::utf8::valid_utf8(bytes@) ==> r@.contains('\u{fffd}'),
        forall|k: int|
            0 <= k <= bytes@.len() && vstd::utf8::valid_utf8(#[trigger] bytes@.take(k)) ==> r@
                == vstd::utf8::decode_utf8(bytes@.take(k)) + lossy_text(bytes@.skip(k)),
{
    String::from_utf8_lossy(bytes).into_owned()
}

/// `std::str::from_utf8` reads bytes as UTF-8, and fails on bytes that are not.
#[verifier::external_body]
pub(crate) fn text_from_utf8(bytes: &[u8]) -> (r: Option<String>)
    ensures
        match r {
            Some(s) => vstd::utf8::valid_utf8(bytes@) && s@ == vstd::utf8::decode_utf8(bytes@),
            None => !vstd::utf8::valid_utf8(bytes@),
        },
{
    std::str::from_utf8(bytes).ok().map(|s| s.to_string())
}

/// Bytes read as UTF-8 character by character, up to the first that are not; what is
/// made of these and of the bytes after them has a name only.
pub open spec fn bytes_text(bytes: Seq<u8>) -> Seq<char>
    decreases bytes.len(),
{
    if bytes.len() == 0 {
        Seq::empty()
    } else if vstd::utf8::valid_first_scalar(bytes) {
        seq![vstd::utf8::decode_first_scalar(bytes) as char] + bytes_text(
            vstd::utf8::pop_first_scalar(bytes),
        )
    } else {
        lossy_text(bytes)
    }
}

/// Valid UTF-8 is read as it stands, and so are the bytes that follow it.
pub proof fn lemma_valid_part(a: Seq<u8>, b: Seq<u8>)
    requires
        vstd::utf8::valid_utf8(a),
    ensures
        bytes_text(a) == vstd::utf8::decode_utf8(a),
        bytes_text(a + b) == vstd::utf8::decode_utf8(a) + bytes_text(b),
    decreases a.len(),
{
    if a.len() == 0 {
        assert(a + b =~= b);
        assert(vstd::utf8::decode_utf8(a) + bytes_text(b) =~= bytes_text(b));
    } else {
        let rest = vstd::utf8::pop_first_scalar(a);
        assert(vstd::utf8::pop_first_scalar(a + b) =~= rest + b);
        lemma_valid_part(rest, b);
        assert(bytes_text(a + b) =~= vstd::utf8::decode_utf8(a) + bytes_text(b));
    }
}

/// Where the longest valid part in front ends.
proof fn lemma_longest_valid_part(bytes: Seq<u8>) -> (k: int)
    ensures
        0 <= k <= bytes.len(),
        vstd::utf8::valid_utf8(bytes.take(k)),
        k == bytes.len() || !vstd::utf8::valid_first_scalar(bytes.skip(k)),
    decreases bytes.len(),
{
    if bytes.len() == 0 || !vstd::utf8::valid_first_scalar(bytes) {
        assert(bytes.skip(0) =~= bytes);
        0
    } else {
        let rest = vstd::utf8::pop_first_scalar(bytes);
        let l = vstd::utf8::length_of_first_scalar(bytes);
        let k = lemma_longest_valid_part(rest);
        let part = bytes.take(l + k);
        assert(vstd::utf8::valid_first_scalar(part));
        assert(vstd::utf8::pop_first_scalar(part) =~= rest.take(k));
        assert(bytes.skip(l + k) =~= rest.skip(k));
        l + k
    }
}

/// Reads bytes as UTF-8, with U+FFFD in place of what is not.
pub(crate) fn read_text(bytes: &[u8]) -> (r: String)
    ensures
        r@ == bytes_text(bytes@),
        !vstd::utf8::valid_utf8(bytes@) ==> r@.contains('\u{fffd}'),
{
    let r = text_from_utf8_lossy(bytes);
    proof {
        let k = lemma_longest_valid_part(bytes@);
        let (a, b) = (bytes@.take(k), bytes@.skip(k));
        lemma_valid_part(a, b);
        assert(a + b =~= bytes@);
        if k == bytes@.len() {
            assert(a =~= bytes@);
        }
    }
    r
}

/// The texts that a list of strings holds.
pub open spec fn texts(strings: Seq<String>) -> Seq<Seq<char>> {
    Seq::new(strings.len(), |i: int| strings[i]@)
}

pub(crate) proof fn lemma_texts_push(strings: Seq<String>, s: String)
    ensures
        texts(strings.push(s)) == texts(strings).push(s@),
{
    assert(texts(strings.push(s)) =~= texts(strings).push(s@));
}

/// The first `i + 1` parts, joined, are the first `i` parts, joined, and one more.
pub(crate) proof fn lemma_flat_map_step<A, B>(s: Seq<A>, f: spec_fn(A) -> Seq<B>, i: int)
    requires
        0 <= i < s.len(),
    ensures
        s.take(i + 1).map_values(f).flatten() == s.take(i).map_values(f).flatten() + f(s[i]),
{
    let done = s.take(i).map_values(f);
    assert(s.take(i + 1).map_values(f) =~= done.push(f(s[i])));
    done.lemma_flatten_push(f(s[i]));
}

/// Joining parts of two lists is joining the parts of each.
pub(crate) proof fn lemma_flat_map_add<A, B>(a: Seq<A>, b: Seq<A>, f: spec_fn(A) -> Seq<B>)
    ensures
        (a + b).map_values(f).flatten() == a.map_values(f).flatten() + b.map_values(f).flatten(),
{
    assert((a + b).map_values(f) =~= a.map_values(f) + b.map_values(f));
    vstd::seq_lib::lemma_flatten_concat(a.map_values(f), b.map_values(f));
}

/// The part that a single element gives.
pub(crate) proof fn lemma_flat_map_one<A, B>(a: A, f: spec_fn(A) -> Seq<B>)
    ensures
        seq![a].map_values(f).flatten() == f(a),
{
    assert(seq![a].map_values(f) =~= seq![f(a)]);
    seq![f(a)].lemma_flatten_one_element();
}

/// UTF-8 encodes a text character by character.
pub(crate) proof fn lemma_encode_utf8_add(a: Seq<char>, b: Seq<char>)
    ensures
        vstd::utf8::encode_utf8(a + b) == vstd::utf8::encode_utf8(a) + vstd::utf8::encode_utf8(b),
    decreases a.len(),
{
    if a.len() == 0 {
        assert(a + b =~= b);
        assert(vstd::utf8::encode_utf8(a) =~= Seq::<u8>::empty());
        assert(vstd::utf8::encode_utf8(a) + vstd::utf8::encode_utf8(b)
            =~= vstd::utf8::encode_utf8(b));
    } else {
        lemma_encode_utf8_add(a.drop_first(), b);
        assert((a + b).drop_first() =~= a.drop_first() + b);
        assert(vstd::utf8::encode_utf8(a + b) =~= vstd::utf8::encode_utf8(a)
            + vstd::utf8::encode_utf8(b));
    }
}

/// The characters of `s`, in order.
pub fn chars_of(s: &str) -> (r: Vec<char>)
    ensures
        r@ == s@,
{
    let mut r: Vec<char> = Vec::new();
    for c in it: s.chars()
        invariant
            it.seq() == s@,
            r@ == s@.take(it.index()),
    {
        r.push(c);
        assert(s@.take(it.index() + 1) =~= s@.take(it.index()).push(c));
    }
    assert(s@.take(s@.len() as int) =~= s@);
    r
}

/// The text made of the characters from `from` up to `to`.
pub fn text_of(chars: &[char], from: usize, to: usize) -> (r: String)
    requires
        from <= to <= chars@.len(),
    ensures
        r@ == chars@.subrange(from as int, to as int),
{
    let mut r = String::new();
    let mut i: usize = from;
    while i < to
        invariant
            from <= i <= to <= chars@.len(),
            r@ == chars@.subrange(from as int, i as int),
        decreases to - i,
    {
        r.push(chars[i]);
        i = i + 1;
        assert(chars@.subrange(from as int, i as int) =~= chars@.subrange(
            from as int,
            i - 1,
        ).push(chars@[i - 1]));
    }
    r
}

/// The decimal digit of `d`.
pub open spec fn digit(d: nat) -> char {
    (48 + d) as char
}

/// `n` written in decimal.
pub open spec fn decimal_of(n: nat) -> Seq<char>
    decreases n,
{
    if n < 10 {
        seq![digit(n)]
    } else {
        decimal_of(n / 10).push(digit(n % 10))
    }
}

/// `n` written in decimal.
pub fn decimal(n: usize) -> (r: String)
    ensures
        r@ == decimal_of(n as nat),
    decreases n,
{
    let mut r = if n < 10 {
        String::new()
    } else {
        decimal(n / 10)
    };
    let c: char = (48 + (n % 10) as u8) as char;
    r.push(c);
    assert(r@ =~= decimal_of(n as nat));
    r
}

/// Decimal numbers with a comma and a space between them.
pub open spec fn listed(numbers: Seq<usize>) -> Seq<char>
    decreases numbers.len(),
{
    if numbers.len() == 0 {
        Seq::empty()
    } else if numbers.len() == 1 {
        decimal_of(numbers[0] as nat)
    } else {
        listed(numbers.drop_last()) + ", "@ + decimal_of(numbers.last() as nat)
    }
}

/// Decimal numbers as a list in square brackets.
pub open spec fn bracketed(numbers: Seq<usize>) -> Seq<char> {
    "["@ + listed(numbers) + "]"@
}

/// Decimal numbers as a list in square brackets.
pub fn list_text(numbers: &[usize]) -> (r: String)
    ensures
        r@ == bracketed(numbers@),
{
    let mut inner = String::new();
    let mut i: usize = 0;
    assert(inner@ =~= listed(numbers@.take(0)));
    while i < numbers.len()
        invariant
            i <= numbers@.len(),
            inner@ == listed(numbers@.take(i as int)),
        decreases numbers@.len() - i,
    {
        let ghost before = inner@;
        if i > 0 {
            inner.append(", ");
        }
        inner.append(decimal(numbers[i]).as_str());
        i = i + 1;
        assert(numbers@.take(i as int).drop_last() =~= numbers@.take(i - 1));
        assert(inner@ =~= listed(numbers@.take(i as int)));
    }
    assert(numbers@.take(i as int) =~= numbers@);
    let mut r = String::new();
    r.append("[");
    r.append(inner.as_str());
    r.append("]");
    assert(r@ =~= bracketed(numbers@));
    r
}

/// Three texts joined.
pub fn join3(a: &str, b: &str, c: &str) -> (r: String)
    ensures
        r@ == a@ + b@ + c@,
{
    let mut r = a.to_owned();
    r.append(b);
    r.append(c);
    r
}

/// The number that decimal digits say.
pub open spec fn number_of(digits: Seq<char>) -> int
    decreases digits.len(),
{
    if digits.len() == 0 {
        0
    } else {
        number_of(digits.drop_last()) * 10 + (digits.last() as int - '0' as int)
    }
}

/// A number written in decimal says that number, in digits alone, and starts with no zero
/// unless it is zero.
pub proof fn decimals_say_the_number(n: nat)
    ensures
        number_of(decimal_of(n)) == n,
        decimal_of(n).len() > 0,
        forall|i: int| 0 <= i < decimal_of(n).len() ==> '0' <= #[trigger] decimal_of(n)[i] <= '9',
        n > 0 ==> decimal_of(n)[0] != '0',
    decreases n,
{
    let s = decimal_of(n);
    if n < 10 {
        assert(s.drop_last() =~= Seq::empty());
        assert(number_of(Seq::<char>::empty()) == 0);
    } else {
        decimals_say_the_number(n / 10);
        assert(s.drop_last() =~= decimal_of(n / 10));
        assert(s.last() == digit(n % 10));
        assert forall|i: int| 0 <= i < s.len() implies '0' <= #[trigger] s[i] <= '9' by {
            if i < s.len() - 1 {
                assert(s[i] == decimal_of(n / 10)[i]);
            }
        }
    }
}

} // verus!
