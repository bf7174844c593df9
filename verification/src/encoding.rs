//! Face encodings: 128 single-precision numbers, each held as its IEEE 754 bit
//! pattern, and their form as hexadecimal text.

use vstd::prelude::*;
use vstd::string::*;
use vstd::utf8::*;

use crate::error::{ErrorView, FaceAuthError};
use crate::text::{concat2, concat3, decimal, decimal_text};

verus! {

/// A face descriptor: 128 single-precision numbers by their bit patterns.
pub type Encoding = [u32; 128];

// ---------------------------------------------------------------------------
// Hexadecimal text
// ---------------------------------------------------------------------------

/// The lowercase hexadecimal digit for `d`.
pub open spec fn hex_char(d: nat) -> char {
    if d < 10 {
        ('0' as int + d) as char
    } else {
        ('a' as int + (d - 10)) as char
    }
}

/// The last `n` hexadecimal digits of `w`.
pub open spec fn hex_digits(w: nat, n: nat) -> Seq<char>
    decreases n,
{
    if n == 0 {
        Seq::empty()
    } else {
        hex_digits(w / 16, (n - 1) as nat).push(hex_char(w % 16))
    }
}

/// The number that has the four bytes of `w` in the opposite order.
pub open spec fn reversed_bytes(w: u32) -> u32 {
    ((w % 0x100) * 0x100_0000 + (w / 0x100 % 0x100) * 0x1_0000 + (w / 0x1_0000 % 0x100) * 0x100
        + w / 0x100_0000) as u32
}

/// Each of `words` as eight hexadecimal digits, one after another. The least
/// significant byte of a word comes first.
pub open spec fn words_hex(words: Seq<u32>) -> Seq<char>
    decreases words.len(),
{
    if words.len() == 0 {
        Seq::empty()
    } else {
        words_hex(words.drop_last()) + hex_digits(reversed_bytes(words.last()) as nat, 8)
    }
}

/// `b` is a hexadecimal digit, of either case.
pub open spec fn is_hex_digit(b: u8) -> bool {
    48 <= b <= 57 || 97 <= b <= 102 || 65 <= b <= 70
}

pub open spec fn hex_digit_value(b: u8) -> nat {
    if 48 <= b <= 57 {
        (b - 48) as nat
    } else if 97 <= b <= 102 {
        (b - 97 + 10) as nat
    } else {
        (b - 65 + 10) as nat
    }
}

pub open spec fn all_hex_digits(s: Seq<u8>) -> bool {
    forall|i: int| 0 <= i < s.len() ==> is_hex_digit(#[trigger] s[i])
}

/// The number that the hexadecimal digits `s` stand for.
pub open spec fn hex_value(s: Seq<u8>) -> nat
    decreases s.len(),
{
    if s.len() == 0 {
        0
    } else {
        16 * hex_value(s.drop_last()) + hex_digit_value(s.last())
    }
}

/// How many bytes the character takes whose first byte is `b`.
pub open spec fn char_width(b: u8) -> int {
    if b < 0xc0 {
        1
    } else if b < 0xe0 {
        2
    } else if b < 0xf0 {
        3
    } else {
        4
    }
}

/// Where in `group`, from `i` on, a character starts that does not end in it.
pub open spec fn cut_char(group: Seq<u8>, i: int) -> Option<int>
    decreases group.len() - i,
{
    if i < 0 || i >= group.len() {
        None
    } else if i + char_width(group[i]) > group.len() {
        Some(i)
    } else {
        cut_char(group, i + char_width(group[i]))
    }
}

/// The number that one group of eight bytes stands for, or what is wrong with it.
pub open spec fn group_word(group: Seq<u8>) -> Result<u32, Seq<char>> {
    match cut_char(group, 0) {
        Some(i) => Err("incomplete utf-8 byte sequence from index "@ + decimal(i as nat)),
        None => if all_hex_digits(group) {
            Ok(reversed_bytes(hex_value(group) as u32))
        } else {
            Err("invalid digit found in string"@)
        },
    }
}

/// The numbers of the groups of `bytes` from group `k` on, or what is wrong with
/// the first bad one.
pub open spec fn group_words(bytes: Seq<u8>, k: int) -> Result<Seq<u32>, Seq<char>>
    decreases 128 - k,
{
    if k < 0 || k >= 128 {
        Ok(Seq::empty())
    } else {
        match group_word(bytes.subrange(8 * k, 8 * k + 8)) {
            Err(m) => Err(m),
            Ok(w) => match group_words(bytes, k + 1) {
                Err(m) => Err(m),
                Ok(ws) => Ok(seq![w] + ws),
            },
        }
    }
}

/// The encoding that the text with these bytes stands for, or what is wrong with it.
pub open spec fn hex_words(bytes: Seq<u8>) -> Result<Seq<u32>, Seq<char>> {
    if bytes.len() != 1024 {
        Err("encoding hex string must be 1024 chars, got "@ + decimal(bytes.len()))
    } else {
        group_words(bytes, 0)
    }
}

/// The lowercase hexadecimal digit for `d`.
fn hex_digit(d: u8) -> (c: char)
    requires
        d < 16,
    ensures
        c == hex_char(d as nat),
{
    if d < 10 {
        (48u8 + d) as char
    } else {
        (97u8 + (d - 10)) as char
    }
}

/// The number that has the four bytes of `w` in the opposite order.
fn reverse_bytes(w: u32) -> (r: u32)
    ensures
        r == reversed_bytes(w),
{
    (w % 0x100) * 0x100_0000 + (w / 0x100 % 0x100) * 0x1_0000 + (w / 0x1_0000 % 0x100) * 0x100 + w
        / 0x100_0000
}

proof fn lemma_reversed_twice(w: u32)
    ensures
        reversed_bytes(reversed_bytes(w)) == w,
{
    assert(reversed_bytes(reversed_bytes(w)) == w) by (bit_vector);
}

/// Appends the last `n` hexadecimal digits of `w` to `out`.
fn push_hex(out: &mut String, w: u32, n: u8)
    ensures
        final(out)@ == old(out)@ + hex_digits(w as nat, n as nat),
    decreases n,
{
    if n > 0 {
        push_hex(out, w / 16, n - 1);
        out.push(hex_digit((w % 16) as u8));
        proof {
            assert(out@ =~= old(out)@ + hex_digits(w as nat, n as nat));
        }
    } else {
        proof {
            assert(out@ =~= old(out)@ + hex_digits(w as nat, 0));
        }
    }
}

/// An encoding as 1024 lowercase hexadecimal digits, eight for each number, the least
/// significant byte first.
pub fn encoding_to_hex(enc: &Encoding) -> (r: String)
    ensures
        r@ == words_hex(enc@),
        r@.len() == 1024,
{
    let mut out: String = String::new();
    let mut i: usize = 0;
    proof {
        assert(enc@.take(0) =~= Seq::empty());
    }
    while i < 128
        invariant
            i <= 128,
            out@ == words_hex(enc@.take(i as int)),
        decreases 128 - i,
    {
        push_hex(&mut out, reverse_bytes(enc[i]), 8);
        proof {
            assert(enc@.take(i + 1).drop_last() =~= enc@.take(i as int));
        }
        i = i + 1;
    }
    proof {
        assert(enc@.take(128) =~= enc@);
        lemma_words_hex_len(enc@);
    }
    out
}

proof fn lemma_hex_digits_len(w: nat, n: nat)
    ensures
        hex_digits(w, n).len() == n,
    decreases n,
{
    if n > 0 {
        lemma_hex_digits_len(w / 16, (n - 1) as nat);
    }
}

proof fn lemma_words_hex_len(words: Seq<u32>)
    ensures
        words_hex(words).len() == 8 * words.len(),
    decreases words.len(),
{
    if words.len() > 0 {
        lemma_words_hex_len(words.drop_last());
        lemma_hex_digits_len(reversed_bytes(words.last()) as nat, 8);
    }
}

/// `c` is a lowercase hexadecimal digit.
pub open spec fn is_lower_hex(c: char) -> bool {
    '0' <= c <= '9' || 'a' <= c <= 'f'
}

proof fn lemma_hex_digits_lower(w: nat, n: nat)
    ensures
        forall|i: int|
            0 <= i < hex_digits(w, n).len() ==> is_lower_hex(#[trigger] hex_digits(w, n)[i]),
    decreases n,
{
    if n > 0 {
        let front = hex_digits(w / 16, (n - 1) as nat);
        lemma_hex_digits_lower(w / 16, (n - 1) as nat);
        assert forall|i: int| 0 <= i < hex_digits(w, n).len() implies is_lower_hex(
            #[trigger] hex_digits(w, n)[i],
        ) by {
            if i < front.len() {
                assert(hex_digits(w, n)[i] == front[i]);
            } else {
                assert(hex_digits(w, n)[i] == hex_char(w % 16));
            }
        }
    }
}

/// The text of an encoding has eight lowercase hexadecimal digits for each number.
pub proof fn law_hex_text_shape(words: Seq<u32>)
    ensures
        words_hex(words).len() == 8 * words.len(),
        forall|i: int|
            0 <= i < words_hex(words).len() ==> is_lower_hex(#[trigger] words_hex(words)[i]),
    decreases words.len(),
{
    lemma_words_hex_len(words);
    if words.len() > 0 {
        let front = words.drop_last();
        law_hex_text_shape(front);
        lemma_hex_digits_lower(reversed_bytes(words.last()) as nat, 8);
        lemma_hex_digits_len(reversed_bytes(words.last()) as nat, 8);
        assert forall|i: int| 0 <= i < words_hex(words).len() implies is_lower_hex(
            #[trigger] words_hex(words)[i],
        ) by {
            if i < words_hex(front).len() {
                assert(words_hex(words)[i] == words_hex(front)[i]);
            } else {
                assert(words_hex(words)[i] == hex_digits(reversed_bytes(words.last()) as nat, 8)[i - words_hex(
                    front,
                ).len()]);
            }
        }
    }
}

/// Where in `bytes[from..from + 8]`, from `i` on, a character starts that the
/// group cuts off.
fn find_cut(bytes: &[u8], from: usize) -> (r: Option<usize>)
    requires
        from + 8 <= bytes.len(),
    ensures
        match cut_char(bytes@.subrange(from as int, from + 8), 0) {
            Some(i) => r == Some(i as usize) && 0 <= i < 8,
            None => r is None,
        },
{
    let ghost group = bytes@.subrange(from as int, from + 8);
    let mut i: usize = 0;
    while i < 8
        invariant
            from + 8 <= bytes.len(),
            group == bytes@.subrange(from as int, from + 8),
            i <= 8,
            cut_char(group, i as int) == cut_char(group, 0),
        decreases 8 - i,
    {
        let b: u8 = bytes[from + i];
        proof {
            assert(group[i as int] == b);
        }
        let w: usize = if b < 0xc0 {
            1
        } else if b < 0xe0 {
            2
        } else if b < 0xf0 {
            3
        } else {
            4
        };
        if i + w > 8 {
            return Some(i);
        }
        i = i + w;
    }
    None
}

proof fn lemma_hex_value_bound(s: Seq<u8>)
    requires
        all_hex_digits(s),
        s.len() <= 8,
    ensures
        s.len() == 0 ==> hex_value(s) < 1,
        s.len() == 1 ==> hex_value(s) < 0x10,
        s.len() == 2 ==> hex_value(s) < 0x100,
        s.len() == 3 ==> hex_value(s) < 0x1000,
        s.len() == 4 ==> hex_value(s) < 0x1_0000,
        s.len() == 5 ==> hex_value(s) < 0x10_0000,
        s.len() == 6 ==> hex_value(s) < 0x100_0000,
        s.len() == 7 ==> hex_value(s) < 0x1000_0000,
        s.len() == 8 ==> hex_value(s) < 0x1_0000_0000,
    decreases s.len(),
{
    if s.len() > 0 {
        assert(is_hex_digit(s[s.len() - 1]));
        assert forall|i: int| 0 <= i < s.drop_last().len() implies is_hex_digit(
            #[trigger] s.drop_last()[i],
        ) by {
            assert(is_hex_digit(s[i]));
        }
        lemma_hex_value_bound(s.drop_last());
    }
}

/// The number that the group `bytes[from..from + 8]` stands for, if it holds
/// hexadecimal digits only.
fn group_number(bytes: &[u8], from: usize) -> (r: Option<u32>)
    requires
        from + 8 <= bytes.len(),
    ensures
        ({
            let group = bytes@.subrange(from as int, from + 8);
            r == if all_hex_digits(group) {
                Some(hex_value(group) as u32)
            } else {
                None::<u32>
            }
        }),
{
    let ghost group = bytes@.subrange(from as int, from + 8);
    let mut value: u64 = 0;
    let mut i: usize = 0;
    while i < 8
        invariant
            from + 8 <= bytes.len(),
            i <= 8,
            group == bytes@.subrange(from as int, from + 8),
            all_hex_digits(group.take(i as int)),
            value == hex_value(group.take(i as int)),
        decreases 8 - i,
    {
        let b: u8 = bytes[from + i];
        let ghost seen = group.take(i as int);
        let ghost more = group.take(i + 1);
        proof {
            assert(group[i as int] == b);
            assert(more.drop_last() =~= seen);
            assert(more.last() == b);
            lemma_hex_value_bound(seen);
        }
        let d: u8 = if 48 <= b && b <= 57 {
            b - 48
        } else if 97 <= b && b <= 102 {
            b - 97 + 10
        } else if 65 <= b && b <= 70 {
            b - 65 + 10
        } else {
            proof {
                assert(!is_hex_digit(group[i as int]));
            }
            return None;
        };
        value = value * 16 + d as u64;
        proof {
            assert forall|j: int| 0 <= j < more.len() implies is_hex_digit(#[trigger] more[j]) by {
                if j < i {
                    assert(more[j] == seen[j]);
                }
            }
        }
        i = i + 1;
    }
    proof {
        assert(group.take(i as int) =~= group);
        lemma_hex_value_bound(group);
    }
    Some(value as u32)
}

/// The encoding that 1024 hexadecimal digits stand for, or what is wrong with them.
pub fn encoding_from_hex(s: &str) -> (r: Result<Encoding, String>)
    ensures
        match hex_words(s.spec_bytes()) {
            Ok(words) => r matches Ok(enc) && enc@ == words,
            Err(m) => r matches Err(text) && text@ == m,
        },
{
    let bytes: &[u8] = s.as_bytes();
    if bytes.len() != 1024 {
        return Err(
            concat2("encoding hex string must be 1024 chars, got ", decimal_text(bytes.len() as u64).as_str()),
        );
    }
    let mut out: Encoding = [0u32; 128];
    let mut k: usize = 0;
    while k < 128
        invariant
            k <= 128,
            bytes@ == s.spec_bytes(),
            bytes.len() == 1024,
            match group_words(bytes@, k as int) {
                Ok(ws) => hex_words(bytes@) == Ok::<Seq<u32>, Seq<char>>(
                    out@.take(k as int) + ws,
                ),
                Err(m) => hex_words(bytes@) == Err::<Seq<u32>, Seq<char>>(m),
            },
        decreases 128 - k,
    {
        let ghost before = out@;
        if let Some(i) = find_cut(bytes, 8 * k) {
            return Err(
                concat2("incomplete utf-8 byte sequence from index ", decimal_text(i as u64).as_str()),
            );
        }
        match group_number(bytes, 8 * k) {
            None => {
                return Err(String::from_str("invalid digit found in string"));
            },
            Some(digits) => {
                let w: u32 = reverse_bytes(digits);
                out[k] = w;
                proof {
                    assert(out@.take(k + 1) =~= before.take(k as int).push(w));
                    if let Ok(ws) = group_words(bytes@, k + 1) {
                        assert(before.take(k as int) + (seq![w] + ws) =~= out@.take(k + 1) + ws);
                    }
                }
            },
        }
        k = k + 1;
    }
    proof {
        assert(out@.take(128) + Seq::<u32>::empty() =~= out@);
    }
    Ok(out)
}

/// `w` has at most `n` hexadecimal digits.
spec fn fits(w: nat, n: nat) -> bool
    decreases n,
{
    if n == 0 {
        w == 0
    } else {
        fits(w / 16, (n - 1) as nat)
    }
}

/// The characters of `s` by their code points.
spec fn ascii_bytes(s: Seq<char>) -> Seq<u8> {
    s.map_values(|c: char| c as u8)
}

proof fn lemma_hex_digits_value(w: nat, n: nat)
    requires
        fits(w, n),
    ensures
        all_hex_digits(ascii_bytes(hex_digits(w, n))),
        forall|i: int|
            0 <= i < n ==> 48 <= #[trigger] ascii_bytes(hex_digits(w, n))[i] <= 102,
        hex_value(ascii_bytes(hex_digits(w, n))) == w,
        is_ascii_chars(hex_digits(w, n)),
        hex_digits(w, n).len() == n,
    decreases n,
{
    if n > 0 {
        let front = hex_digits(w / 16, (n - 1) as nat);
        let all = hex_digits(w, n);
        lemma_hex_digits_value(w / 16, (n - 1) as nat);
        let b = ascii_bytes(all);
        assert(b.drop_last() =~= ascii_bytes(front));
        let d = w % 16;
        assert(is_hex_digit(b.last()) && hex_digit_value(b.last()) == d && 48 <= b.last() <= 102
            && (all.last() as u32) < 128);
        assert forall|i: int| 0 <= i < n implies is_hex_digit(#[trigger] b[i]) && 48 <= b[i]
            <= 102 by {
            if i < n - 1 {
                assert(b[i] == ascii_bytes(front)[i]);
            }
        }
        assert forall|i: int| 0 <= i < all.len() implies 0 <= all[i] as nat && (#[trigger] all[i] as nat) < 128 by {
            if i < n - 1 {
                assert(all[i] == front[i]);
            }
        }
    } else {
        assert(ascii_bytes(hex_digits(w, n)) =~= Seq::empty());
    }
}

proof fn lemma_words_hex_group(words: Seq<u32>, k: int)
    requires
        0 <= k < words.len(),
    ensures
        words_hex(words).len() == 8 * words.len(),
        words_hex(words).subrange(8 * k, 8 * k + 8) == hex_digits(reversed_bytes(words[k]) as nat, 8),
    decreases words.len(),
{
    let front = words.drop_last();
    lemma_words_hex_len(words);
    lemma_words_hex_len(front);
    lemma_hex_digits_len(reversed_bytes(words.last()) as nat, 8);
    if k < front.len() {
        lemma_words_hex_group(front, k);
        assert(words_hex(words).subrange(8 * k, 8 * k + 8) =~= words_hex(front).subrange(
            8 * k,
            8 * k + 8,
        ));
    } else {
        assert(words_hex(words).subrange(8 * k, 8 * k + 8) =~= hex_digits(reversed_bytes(words[k]) as nat, 8));
    }
}

proof fn lemma_words_hex_ascii(words: Seq<u32>)
    ensures
        is_ascii_chars(words_hex(words)),
    decreases words.len(),
{
    if words.len() > 0 {
        lemma_words_hex_ascii(words.drop_last());
        lemma_fits(reversed_bytes(words.last()));
        lemma_hex_digits_value(reversed_bytes(words.last()) as nat, 8);
    }
}

proof fn lemma_fits(w: u32)
    ensures
        fits(w as nat, 8),
{
    reveal_with_fuel(fits, 9);
}

proof fn lemma_no_cut(group: Seq<u8>, i: int)
    requires
        0 <= i <= group.len(),
        forall|j: int| 0 <= j < group.len() ==> #[trigger] group[j] < 0xc0,
    ensures
        cut_char(group, i) is None,
    decreases group.len() - i,
{
    if i < group.len() {
        lemma_no_cut(group, i + 1);
    }
}

proof fn lemma_group_roundtrip(words: Seq<u32>, bytes: Seq<u8>, k: int)
    requires
        words.len() == 128,
        0 <= k <= 128,
        bytes == ascii_bytes(words_hex(words)),
    ensures
        group_words(bytes, k) == Ok::<Seq<u32>, Seq<char>>(words.skip(k)),
    decreases 128 - k,
{
    if k < 128 {
        lemma_group_roundtrip(words, bytes, k + 1);
        lemma_words_hex_group(words, k);
        lemma_fits(reversed_bytes(words[k]));
        lemma_hex_digits_value(reversed_bytes(words[k]) as nat, 8);
        lemma_reversed_twice(words[k]);
        let group = bytes.subrange(8 * k, 8 * k + 8);
        assert(group =~= ascii_bytes(hex_digits(reversed_bytes(words[k]) as nat, 8)));
        lemma_no_cut(group, 0);
        assert(seq![words[k]] + words.skip(k + 1) =~= words.skip(k));
    } else {
        assert(words.skip(k) =~= Seq::empty());
    }
}

/// Decoding gives back what was encoded, for every bit pattern: infinities,
/// negative zero and every NaN included.
pub proof fn law_hex_roundtrip(words: Seq<u32>)
    requires
        words.len() == 128,
    ensures
        hex_words(encode_utf8(words_hex(words))) == Ok::<Seq<u32>, Seq<char>>(words),
{
    let text = words_hex(words);
    let bytes = ascii_bytes(text);
    lemma_words_hex_len(words);
    lemma_words_hex_ascii(words);
    is_ascii_chars_encode_utf8(text);
    assert(encode_utf8(text) =~= bytes);
    lemma_group_roundtrip(words, bytes, 0);
    assert(words.skip(0) =~= words);
}


// ---------------------------------------------------------------------------
// Matching
// ---------------------------------------------------------------------------

/// The Euclidean distance below which two encodings are the same person's, 0.6,
/// by its bit pattern as a double-precision number.
///
/// Distances are never negative, and the bit patterns of numbers that are not
/// negative are ordered as the numbers are. A NaN has a larger pattern than any
/// number, and so is below no threshold.
pub const DISTANCE_THRESHOLD: u64 = 0x3fe3_3333_3333_3333;

/// Whether a face is one of the enrolled: whether any of its distances to the
/// stored encodings, given by their bit patterns, is below the threshold.
pub fn matches_model(distances: &Vec<u64>) -> (r: bool)
    ensures
        r == exists|i: int| 0 <= i < distances.len() && distances[i] < DISTANCE_THRESHOLD,
{
    let mut i: usize = 0;
    while i < distances.len()
        invariant
            i <= distances.len(),
            forall|j: int| 0 <= j < i ==> distances[j] >= DISTANCE_THRESHOLD,
        decreases distances.len() - i,
    {
        if distances[i] < DISTANCE_THRESHOLD {
            return true;
        }
        i = i + 1;
    }
    false
}

/// `words` as an encoding, if there are 128 of them.
pub fn to_encoding(words: &Vec<u32>) -> (r: Option<Encoding>)
    ensures
        words.len() == 128 <==> r is Some,
        r matches Some(enc) ==> enc@ == words@,
{
    if words.len() != 128 {
        return None;
    }
    let mut out: Encoding = [0u32; 128];
    let mut i: usize = 0;
    while i < 128
        invariant
            i <= 128,
            words.len() == 128,
            forall|j: int| 0 <= j < i ==> out@[j] == words@[j],
        decreases 128 - i,
    {
        out[i] = words[i];
        i = i + 1;
    }
    proof {
        assert(out@ =~= words@);
    }
    Some(out)
}

/// The numbers that the encoder network returned as an encoding; the network is
/// at fault if there are not 128 of them.
pub fn encoding_to_array(words: &Vec<u32>) -> (r: Result<Encoding, FaceAuthError>)
    ensures
        words.len() == 128 <==> r is Ok,
        r matches Ok(enc) ==> enc@ == words@,
        r matches Err(e) ==> e@ == ErrorView::Dlib(
            "expected 128-dimensional encoding, got "@ + decimal(words@.len()),
        ),
{
    match to_encoding(words) {
        Some(enc) => Ok(enc),
        None => Err(
            FaceAuthError::Dlib(
                concat2(
                    "expected 128-dimensional encoding, got ",
                    decimal_text(words.len() as u64).as_str(),
                ),
            ),
        ),
    }
}

/// The encodings of the faces in a frame, as the face library gives them, or what is
/// wrong with the first bad one.
pub fn encode_faces(faces: &Vec<Vec<u32>>) -> (r: Result<Vec<Encoding>, FaceAuthError>)
    ensures
        match r {
            Ok(encs) => encs@.len() == faces@.len() && forall|i: int|
                0 <= i < faces@.len() ==> (#[trigger] encs@[i])@ == faces@[i]@,
            Err(e) => exists|i: int|
                0 <= i < faces@.len() && (#[trigger] faces@[i])@.len() != 128 && e@
                    == ErrorView::Dlib(
                    "expected 128-dimensional encoding, got "@ + decimal(faces@[i]@.len()),
                ) && forall|j: int| 0 <= j < i ==> (#[trigger] faces@[j])@.len() == 128,
        },
{
    let mut out: Vec<Encoding> = Vec::new();
    let mut i: usize = 0;
    while i < faces.len()
        invariant
            i <= faces.len(),
            out@.len() == i,
            forall|j: int|
                0 <= j < i ==> (#[trigger] out@[j])@ == faces@[j]@ && faces@[j]@.len() == 128,
        decreases faces.len() - i,
    {
        match encoding_to_array(&faces[i]) {
            Ok(enc) => {
                out.push(enc);
            },
            Err(e) => {
                proof {
                    assert(faces@[i as int]@.len() != 128);
                    assert forall|j: int| 0 <= j < i implies (
                    #[trigger] faces@[j])@.len() == 128 by {
                        assert(out@[j]@ == faces@[j]@);
                    }
                }
                return Err(e);
            },
        }
        i = i + 1;
    }
    Ok(out)
}

/// The numbers of an encoding, as a list.
pub fn encoding_to_vec(enc: &Encoding) -> (r: Vec<u32>)
    ensures
        r@ == enc@,
{
    let mut data: Vec<u32> = Vec::new();
    let mut i: usize = 0;
    while i < 128
        invariant
            i <= 128,
            enc@.len() == 128,
            data@ == enc@.take(i as int),
        decreases 128 - i,
    {
        data.push(enc[i]);
        proof {
            assert(enc@.take(i + 1) =~= enc@.take(i as int).push(enc@[i as int]));
        }
        i = i + 1;
    }
    proof {
        assert(enc@.take(128) =~= enc@);
    }
    data
}

/// The file of a trained network, once its contents were put where the face library
/// can open them. `made` is what came of making the directory `dir`; `written` is
/// what came of writing the file, which happens only if it is not there yet.
pub fn extract_model(
    dir: &str,
    filename: &str,
    made: Result<(), String>,
    written: Option<Result<(), String>>,
) -> (r: Result<String, FaceAuthError>)
    ensures
        match (made, written) {
            (Err(m), _) => r matches Err(e) && e@ == ErrorView::Dlib(
                "failed to create model extraction dir: "@ + m@,
            ),
            (Ok(_), Some(Err(m))) => r matches Err(e) && e@ == ErrorView::Dlib(
                "failed to extract "@ + filename@ + ": "@ + m@,
            ),
            _ => r matches Ok(path) && path@ == dir@ + "/"@ + filename@,
        },
{
    if let Err(m) = made {
        return Err(
            FaceAuthError::Dlib(concat2("failed to create model extraction dir: ", m.as_str())),
        );
    }
    if let Some(Err(m)) = written {
        let mut text: String = concat3("failed to extract ", filename, ": ");
        text.append(m.as_str());
        return Err(FaceAuthError::Dlib(text));
    }
    Ok(concat3(dir, "/", filename))
}

// ---------------------------------------------------------------------------
// Laws of the hexadecimal form
// ---------------------------------------------------------------------------

/// The number that a lowercase hexadecimal digit stands for.
pub open spec fn nibble(c: char) -> int {
    if c <= '9' {
        c as int - '0' as int
    } else {
        c as int - 'a' as int + 10
    }
}

proof fn lemma_hex_digits_at(w: nat, n: nat, i: int)
    requires
        0 <= i < n,
    ensures
        hex_digits(w, n).len() == n,
        nibble(hex_digits(w, n)[i]) == (w / pow16((n - 1 - i) as nat)) % 16,
    decreases n,
{
    lemma_hex_digits_len(w, n);
    if i == n - 1 {
        assert(pow16(0) == 1);
        assert(w / 1 == w);
    } else {
        lemma_hex_digits_at(w / 16, (n - 1) as nat, i);
        lemma_hex_digits_len(w / 16, (n - 1) as nat);
        let e = (n - 2 - i) as nat;
        assert(pow16((n - 1 - i) as nat) == 16 * pow16(e));
        lemma_pow16_positive(e);
        vstd::arithmetic::div_mod::lemma_div_denominator(w as int, 16, pow16(e) as int);
    }
}

spec fn pow16(n: nat) -> nat
    decreases n,
{
    if n == 0 {
        1
    } else {
        16 * pow16((n - 1) as nat)
    }
}

proof fn lemma_pow16_positive(n: nat)
    ensures
        pow16(n) > 0,
    decreases n,
{
    if n > 0 {
        lemma_pow16_positive((n - 1) as nat);
    }
}

proof fn lemma_nibbles(w: u32, r: u32)
    requires
        r == reversed_bytes(w),
    ensures
        r / 0x1000_0000 % 16 == w / 0x10 % 16,
        r / 0x100_0000 % 16 == w % 16,
        r / 0x10_0000 % 16 == w / 0x1000 % 16,
        r / 0x1_0000 % 16 == w / 0x100 % 16,
        r / 0x1000 % 16 == w / 0x10_0000 % 16,
        r / 0x100 % 16 == w / 0x1_0000 % 16,
        r / 0x10 % 16 == w / 0x1000_0000 % 16,
        r % 16 == w / 0x100_0000 % 16,
{
    assert(r / 0x1000_0000 % 16 == w / 0x10 % 16 && r / 0x100_0000 % 16 == w % 16 && r / 0x10_0000
        % 16 == w / 0x1000 % 16 && r / 0x1_0000 % 16 == w / 0x100 % 16 && r / 0x1000 % 16 == w
        / 0x10_0000 % 16 && r / 0x100 % 16 == w / 0x1_0000 % 16 && r / 0x10 % 16 == w / 0x1000_0000
        % 16 && r % 16 == w / 0x100_0000 % 16) by (bit_vector)
        requires
            r == reversed_bytes(w),
    ;
}

/// In the text of an encoding each number takes eight digits, the least significant
/// byte first and the higher digit of a byte first.
pub proof fn law_hex_little_endian(words: Seq<u32>, k: int)
    requires
        0 <= k < words.len(),
    ensures
        ({
            let text = words_hex(words);
            let w = words[k];
            &&& text.len() == 8 * words.len()
            &&& nibble(text[8 * k]) == w / 0x10 % 16
            &&& nibble(text[8 * k + 1]) == w % 16
            &&& nibble(text[8 * k + 2]) == w / 0x1000 % 16
            &&& nibble(text[8 * k + 3]) == w / 0x100 % 16
            &&& nibble(text[8 * k + 4]) == w / 0x10_0000 % 16
            &&& nibble(text[8 * k + 5]) == w / 0x1_0000 % 16
            &&& nibble(text[8 * k + 6]) == w / 0x1000_0000 % 16
            &&& nibble(text[8 * k + 7]) == w / 0x100_0000 % 16
        }),
{
    let text = words_hex(words);
    let w = words[k];
    let r = reversed_bytes(w);
    let group = text.subrange(8 * k, 8 * k + 8);
    lemma_words_hex_len(words);
    lemma_words_hex_group(words, k);
    reveal_with_fuel(pow16, 9);
    lemma_hex_digits_at(r as nat, 8, 0);
    lemma_hex_digits_at(r as nat, 8, 1);
    lemma_hex_digits_at(r as nat, 8, 2);
    lemma_hex_digits_at(r as nat, 8, 3);
    lemma_hex_digits_at(r as nat, 8, 4);
    lemma_hex_digits_at(r as nat, 8, 5);
    lemma_hex_digits_at(r as nat, 8, 6);
    lemma_hex_digits_at(r as nat, 8, 7);
    lemma_nibbles(w, r);
    assert forall|i: int| 0 <= i < 8 implies text[8 * k + i] == #[trigger] group[i] by {}
    assert(group[0] == text[8 * k]);
    assert(group[1] == text[8 * k + 1]);
    assert(group[2] == text[8 * k + 2]);
    assert(group[3] == text[8 * k + 3]);
    assert(group[4] == text[8 * k + 4]);
    assert(group[5] == text[8 * k + 5]);
    assert(group[6] == text[8 * k + 6]);
    assert(group[7] == text[8 * k + 7]);
}

proof fn lemma_all_hex_uncut(group: Seq<u8>, i: int)
    requires
        0 <= i <= group.len(),
        forall|j: int|
            0 <= j < group.len() ==> 48 <= #[trigger] group[j] <= 57 || 97 <= group[j] <= 102 || 65
                <= group[j] <= 70,
    ensures
        cut_char(group, i) is None,
    decreases group.len() - i,
{
    if i < group.len() {
        assert(48 <= group[i] <= 57 || 97 <= group[i] <= 102 || 65 <= group[i] <= 70);
        lemma_all_hex_uncut(group, i + 1);
    }
}

proof fn lemma_group_words_ok(bytes: Seq<u8>, k: int)
    requires
        bytes.len() == 1024,
        0 <= k <= 128,
    ensures
        group_words(bytes, k) is Ok <==> forall|i: int|
            8 * k <= i < 1024 ==> 48 <= #[trigger] bytes[i] <= 57 || 97 <= bytes[i] <= 102 || 65
                <= bytes[i] <= 70,
        group_words(bytes, k) matches Ok(ws) ==> ws.len() == 128 - k && forall|j: int|
            0 <= j < ws.len() ==> #[trigger] ws[j] == reversed_bytes(
                hex_value(bytes.subrange(8 * (k + j), 8 * (k + j) + 8)) as u32,
            ),
    decreases 128 - k,
{
    if k < 128 {
        lemma_group_words_ok(bytes, k + 1);
        let group = bytes.subrange(8 * k, 8 * k + 8);
        assert forall|i: int| 0 <= i < 8 implies #[trigger] group[i] == bytes[8 * k + i] by {}
        if forall|i: int|
            8 * k <= i < 1024 ==> 48 <= #[trigger] bytes[i] <= 57 || 97 <= bytes[i] <= 102 || 65
                <= bytes[i] <= 70 {
            assert forall|j: int| 0 <= j < group.len() implies 48 <= #[trigger] group[j] <= 57 || 97
                <= group[j] <= 102 || 65 <= group[j] <= 70 by {
                assert(group[j] == bytes[8 * k + j]);
            }
            lemma_all_hex_uncut(group, 0);
            assert forall|j: int| 0 <= j < group.len() implies is_hex_digit(#[trigger] group[j]) by {
                assert(group[j] == bytes[8 * k + j]);
            }
            assert(all_hex_digits(group));
        }
        if group_words(bytes, k) is Ok {
            assert(all_hex_digits(group));
            assert forall|i: int| 8 * k <= i < 1024 implies 48 <= #[trigger] bytes[i] <= 57 || 97
                <= bytes[i] <= 102 || 65 <= bytes[i] <= 70 by {
                if i < 8 * k + 8 {
                    assert(is_hex_digit(group[i - 8 * k]));
                }
            }
            let ws = group_words(bytes, k)->Ok_0;
            let more = group_words(bytes, k + 1)->Ok_0;
            assert(ws.len() == 128 - k);
            assert forall|j: int| 0 <= j < ws.len() implies #[trigger] ws[j] == reversed_bytes(
                hex_value(bytes.subrange(8 * (k + j), 8 * (k + j) + 8)) as u32,
            ) by {
                if j > 0 {
                    assert(ws[j] == more[j - 1]);
                    assert(k + 1 + (j - 1) == k + j);
                } else {
                    assert(k + j == k);
                }
            }
        }
    }
}

/// A text stands for an encoding exactly if it has 1024 characters that are all
/// hexadecimal digits, of either case.
pub proof fn law_hex_accepted(bytes: Seq<u8>)
    ensures
        hex_words(bytes) is Ok <==> bytes.len() == 1024 && forall|i: int|
            0 <= i < bytes.len() ==> ('0' as int <= #[trigger] bytes[i] <= '9' as int) || ('a' as int
                <= bytes[i] <= 'f' as int) || ('A' as int <= bytes[i] <= 'F' as int),
        hex_words(bytes) matches Ok(words) ==> words.len() == 128,
{
    if bytes.len() == 1024 {
        lemma_group_words_ok(bytes, 0);
    }
}

/// Digits of either case are read alike.
pub proof fn law_hex_case(bytes: Seq<u8>, other: Seq<u8>)
    requires
        hex_words(bytes) is Ok,
        other.len() == bytes.len(),
        forall|i: int|
            0 <= i < bytes.len() ==> #[trigger] other[i] == bytes[i] || (65 <= other[i] <= 70
                && bytes[i] == other[i] + 32),
    ensures
        hex_words(other) == hex_words(bytes),
{
    lemma_group_words_ok(bytes, 0);
    assert forall|i: int| 0 <= i < 1024 implies 48 <= #[trigger] other[i] <= 57 || 97 <= other[i]
        <= 102 || 65 <= other[i] <= 70 by {
        assert(48 <= bytes[i] <= 57 || 97 <= bytes[i] <= 102 || 65 <= bytes[i] <= 70);
    }
    lemma_group_words_ok(other, 0);
    let a = hex_words(bytes)->Ok_0;
    let b = hex_words(other)->Ok_0;
    assert forall|j: int| 0 <= j < 128 implies a[j] == b[j] by {
        let x = bytes.subrange(8 * j, 8 * j + 8);
        let y = other.subrange(8 * j, 8 * j + 8);
        assert(a[j] == reversed_bytes(hex_value(bytes.subrange(8 * (0 + j), 8 * (0 + j) + 8)) as u32));
        assert(b[j] == reversed_bytes(hex_value(other.subrange(8 * (0 + j), 8 * (0 + j) + 8)) as u32));
        assert forall|i: int| 0 <= i < 8 implies #[trigger] y[i] == x[i] || (65 <= y[i] <= 70
            && x[i] == y[i] + 32) by {
            assert(other[8 * j + i] == bytes[8 * j + i] || (65 <= other[8 * j + i] <= 70
                && bytes[8 * j + i] == other[8 * j + i] + 32));
        }
        lemma_hex_value_case(x, y);
    }
    assert(a =~= b);
}

proof fn lemma_hex_value_case(x: Seq<u8>, y: Seq<u8>)
    requires
        x.len() == y.len(),
        forall|i: int|
            0 <= i < x.len() ==> #[trigger] y[i] == x[i] || (65 <= y[i] <= 70 && x[i] == y[i] + 32),
    ensures
        hex_value(x) == hex_value(y),
    decreases x.len(),
{
    if x.len() > 0 {
        let n = x.len() - 1;
        assert(y[n] == x[n] || (65 <= y[n] <= 70 && x[n] == y[n] + 32));
        assert forall|i: int| 0 <= i < n implies #[trigger] y.drop_last()[i] == x.drop_last()[i] || (
        65 <= y.drop_last()[i] <= 70 && x.drop_last()[i] == y.drop_last()[i] + 32) by {
            assert(y[i] == x[i] || (65 <= y[i] <= 70 && x[i] == y[i] + 32));
        }
        lemma_hex_value_case(x.drop_last(), y.drop_last());
    }
}

/// A text of another length is refused with its length; one of the right length made of
/// ASCII characters is refused only for a character that is no digit.
pub proof fn law_hex_refused(bytes: Seq<u8>)
    ensures
        bytes.len() != 1024 ==> (hex_words(bytes) matches Err(m) && m
            == "encoding hex string must be 1024 chars, got "@ + decimal(bytes.len())),
        bytes.len() == 1024 && (forall|i: int| 0 <= i < bytes.len() ==> #[trigger] bytes[i] < 128)
            ==> (hex_words(bytes) matches Err(m) ==> m == "invalid digit found in string"@),
{
    if bytes.len() == 1024 && (forall|i: int| 0 <= i < bytes.len() ==> #[trigger] bytes[i] < 128) {
        lemma_ascii_error(bytes, 0);
    }
}

proof fn lemma_ascii_error(bytes: Seq<u8>, k: int)
    requires
        bytes.len() == 1024,
        forall|i: int| 0 <= i < bytes.len() ==> #[trigger] bytes[i] < 128,
        0 <= k <= 128,
    ensures
        group_words(bytes, k) matches Err(m) ==> m == "invalid digit found in string"@,
    decreases 128 - k,
{
    if k < 128 {
        lemma_ascii_error(bytes, k + 1);
        let group = bytes.subrange(8 * k, 8 * k + 8);
        assert forall|i: int| 0 <= i < group.len() implies #[trigger] group[i] < 128 by {
            assert(group[i] == bytes[8 * k + i]);
        }
        lemma_no_cut(group, 0);
    }
}

}
