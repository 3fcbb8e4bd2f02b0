//! Verified text and byte-string utilities shared by the other modules.
//!
//! Text is modelled as `Seq<char>` and its UTF-8 form as `Seq<u8>`. The few std
//! functions that have no specification of their own get one here.

use vstd::prelude::*;
use vstd::utf8::*;

verus! {

/// `core::str::Utf8Error`, the reason `core::str::from_utf8` gives for a refusal.
#[verifier::external_type_specification]
#[verifier::external_body]
pub struct ExUtf8Error(core::str::Utf8Error);

/// `String::push` appends one character.
pub assume_specification[ String::push ](s: &mut String, c: char)
    ensures
        final(s)@ == old(s)@.push(c),
;

/// `String::push_str` appends the whole of the other text.
pub assume_specification[ String::push_str ](s: &mut String, other: &str)
    ensures
        final(s)@ == old(s)@ + other@,
;

/// `core::str::from_utf8` accepts exactly the well-formed UTF-8 byte strings and hands
/// back the text that they encode.
pub assume_specification[ core::str::from_utf8 ](v: &[u8]) -> (res: Result<
    &str,
    core::str::Utf8Error,
>)
    ensures
        res is Ok <==> valid_utf8(v@),
        res matches Ok(s) ==> encode_utf8(s@) == v@,
;

/// The text that `String::from_utf8_lossy` makes of a byte string.
pub uninterp spec fn lossy_text(bytes: Seq<u8>) -> Seq<char>;

/// `String::from_utf8_lossy`: well-formed UTF-8 is decoded as it stands, anything else
/// is patched with replacement characters.
#[verifier::external_body]
pub(crate) fn utf8_lossy(bytes: &[u8]) -> (res: String)
    ensures
        res@ == lossy_text(bytes@),
        valid_utf8(bytes@) ==> res@ == decode_utf8(bytes@),
{
    String::from_utf8_lossy(bytes).into_owned()
}

/// The text of a byte string: what it encodes where it is UTF-8, patched where it is not.
pub open spec fn readable(bytes: Seq<u8>) -> Seq<char> {
    if valid_utf8(bytes) {
        decode_utf8(bytes)
    } else {
        lossy_text(bytes)
    }
}

/// The quoted and escaped form that `Debug` gives a string (`{:?}`).
pub uninterp spec fn quoted(text: Seq<char>) -> Seq<char>;

/// `<str as Debug>::fmt`, the `{:?}` form of a string.
#[verifier::external_body]
pub(crate) fn quote(text: &str) -> (res: String)
    ensures
        res@ == quoted(text@),
{
    format!("{text:?}")
}

// ---------------------------------------------------------------------------------
// UTF-8
// ---------------------------------------------------------------------------------
/// Encoding is a homomorphism: the bytes of a concatenation are the concatenated bytes.
pub proof fn lemma_encode_concat(a: Seq<char>, b: Seq<char>)
    ensures
        encode_utf8(a + b) == encode_utf8(a) + encode_utf8(b),
    decreases a.len(),
{
    if a.len() == 0 {
        assert(a + b =~= b);
        assert(encode_utf8(a) =~= Seq::<u8>::empty());
        assert(encode_utf8(a) + encode_utf8(b) =~= encode_utf8(b));
    } else {
        let rest = a.drop_first();
        assert((a + b).drop_first() =~= rest + b);
        lemma_encode_concat(rest, b);
        assert(encode_utf8(a + b) == encode_scalar(a[0] as u32) + encode_utf8(rest + b));
        assert(encode_scalar(a[0] as u32) + (encode_utf8(rest) + encode_utf8(b)) =~= (
        encode_scalar(a[0] as u32) + encode_utf8(rest)) + encode_utf8(b));
    }
}

/// Two texts with the same UTF-8 form are the same text.
pub proof fn lemma_encode_injective(a: Seq<char>, b: Seq<char>)
    requires
        encode_utf8(a) == encode_utf8(b),
    ensures
        a == b,
{
    encode_utf8_decode_utf8(a);
    encode_utf8_decode_utf8(b);
}

/// True where a cut at `i` does not split a character: just behind or just before an
/// ASCII byte, or at either end.
pub open spec fn ascii_edge(b: Seq<u8>, i: int) -> bool {
    ||| i == 0
    ||| i == b.len()
    ||| (0 < i <= b.len() && b[i - 1] < 0x80)
    ||| (0 <= i < b.len() && b[i] < 0x80)
}

proof fn lemma_after_ascii(b: Seq<u8>, i: int)
    requires
        valid_utf8(b),
        0 <= i < b.len(),
        b[i] < 0x80,
    ensures
        is_char_boundary(b, i),
        is_char_boundary(b, i + 1),
{
    is_char_boundary_iff_not_is_continuation_byte(b, i);
    is_char_boundary_start_end_of_seq(b);
    if i + 1 < b.len() {
        valid_utf8_split(b, i);
        let tail = b.subrange(i, b.len() as int);
        assert(valid_utf8(tail));
        assert(tail[0] == b[i]);
        let rest = pop_first_scalar(tail);
        assert(valid_utf8(rest));
        assert(rest.len() > 0);
        assert(rest[0] == b[i + 1]);
        assert(!is_continuation_byte(rest[0]));
        is_char_boundary_iff_not_is_continuation_byte(b, i + 1);
    }
}

/// A piece of well-formed UTF-8 cut at ASCII edges is well-formed.
pub proof fn lemma_ascii_cut(b: Seq<u8>, i: int, j: int)
    requires
        valid_utf8(b),
        0 <= i <= j <= b.len(),
        ascii_edge(b, i),
        ascii_edge(b, j),
    ensures
        valid_utf8(b.subrange(i, j)),
{
    is_char_boundary_start_end_of_seq(b);
    if 0 < i < b.len() {
        if b[i] < 0x80 {
            lemma_after_ascii(b, i);
        } else {
            lemma_after_ascii(b, i - 1);
        }
    }
    valid_utf8_split(b, i);
    let tail = b.subrange(i, b.len() as int);
    assert(valid_utf8(tail));
    is_char_boundary_start_end_of_seq(tail);
    if i < j < b.len() {
        if b[j] < 0x80 {
            assert(tail[j - i] == b[j]);
            lemma_after_ascii(tail, j - i);
        } else {
            assert(tail[j - i - 1] == b[j - 1]);
            lemma_after_ascii(tail, j - i - 1);
        }
    }
    valid_utf8_split(tail, j - i);
    assert(tail.subrange(0, j - i) =~= b.subrange(i, j));
}

/// Bytes read one by one as characters (every byte is the code point of its value).
pub open spec fn latin(b: Seq<u8>) -> Seq<char> {
    Seq::new(b.len(), |i: int| b[i] as char)
}

/// The text of the well-formed piece `bytes[from..to]`.
pub fn utf8_between(bytes: &[u8], from: usize, to: usize) -> (res: String)
    requires
        from <= to <= bytes@.len(),
        valid_utf8(bytes@.subrange(from as int, to as int)),
    ensures
        res@ == decode_utf8(bytes@.subrange(from as int, to as int)),
        encode_utf8(res@) == bytes@.subrange(from as int, to as int),
{
    let piece = vstd::slice::slice_subrange(bytes, from, to);
    match core::str::from_utf8(piece) {
        Ok(s) => {
            proof {
                encode_utf8_decode_utf8(s@);
            }
            s.to_owned()
        },
        Err(_) => String::new(),
    }
}

/// The characters of a text.
pub fn chars_of(s: &str) -> (out: Vec<char>)
    ensures
        out@ == s@,
{
    let mut out: Vec<char> = Vec::new();
    for c in it: s.chars()
        invariant
            out@ == it.seq().take(it.index() as int),
            it.seq() == s@,
    {
        out.push(c);
    }
    out
}

/// The text made of `chars[from..to]`.
pub fn text_of(chars: &[char], from: usize, to: usize) -> (res: String)
    requires
        from <= to <= chars@.len(),
    ensures
        res@ == chars@.subrange(from as int, to as int),
{
    let mut res = String::new();
    let mut i: usize = from;
    while i < to
        invariant
            from <= i <= to <= chars@.len(),
            res@ == chars@.subrange(from as int, i as int),
        decreases to - i,
    {
        res.push(chars[i]);
        proof {
            assert(chars@.subrange(from as int, i + 1) =~= chars@.subrange(
                from as int,
                i as int,
            ).push(chars@[i as int]));
        }
        i += 1;
    }
    res
}

// ---------------------------------------------------------------------------------
// Comparison and concatenation
// ---------------------------------------------------------------------------------
/// Byte-string equality.
pub fn bytes_eq(a: &[u8], b: &[u8]) -> (res: bool)
    ensures
        res == (a@ == b@),
{
    if a.len() != b.len() {
        return false;
    }
    let mut i: usize = 0;
    while i < a.len()
        invariant
            a@.len() == b@.len(),
            i <= a@.len(),
            forall|k: int| 0 <= k < i ==> a@[k] == b@[k],
        decreases a.len() - i,
    {
        if a[i] != b[i] {
            return false;
        }
        i += 1;
    }
    proof {
        assert(a@ =~= b@);
    }
    true
}

/// Whether a text is empty.
pub fn is_empty(s: &str) -> (res: bool)
    ensures
        res == (s@.len() == 0),
{
    proof {
        if s@.len() == 0 {
            assert(s@ =~= Seq::empty());
        } else {
            reveal_with_fuel(encode_utf8, 2);
        }
    }
    s.as_bytes().len() == 0
}

/// Text equality.
pub fn text_eq(a: &str, b: &str) -> (res: bool)
    ensures
        res == (a@ == b@),
{
    let res = bytes_eq(a.as_bytes(), b.as_bytes());
    proof {
        if res {
            lemma_encode_injective(a@, b@);
        }
    }
    res
}

/// Appends a byte string.
pub fn push_bytes(out: &mut Vec<u8>, more: &[u8])
    ensures
        final(out)@ == old(out)@ + more@,
{
    let ghost start = out@;
    let mut i: usize = 0;
    while i < more.len()
        invariant
            i <= more@.len(),
            out@ == start + more@.take(i as int),
        decreases more.len() - i,
    {
        out.push(more[i]);
        proof {
            assert(more@.take(i + 1) =~= more@.take(i as int).push(more@[i as int]));
        }
        i += 1;
    }
    proof {
        assert(more@.take(more@.len() as int) =~= more@);
    }
}

/// Appends the UTF-8 form of a text.
pub fn push_text(out: &mut Vec<u8>, text: &str)
    ensures
        final(out)@ == old(out)@ + encode_utf8(text@),
{
    push_bytes(out, text.as_bytes());
}

/// A copy of a byte string.
pub fn bytes_copy(b: &[u8]) -> (res: Vec<u8>)
    ensures
        res@ == b@,
{
    let mut res: Vec<u8> = Vec::new();
    push_bytes(&mut res, b);
    proof {
        assert(Seq::<u8>::empty() + b@ =~= b@);
    }
    res
}

// ---------------------------------------------------------------------------------
// Decimal numbers
// ---------------------------------------------------------------------------------
/// The character of a decimal digit.
pub open spec fn digit(d: nat) -> char {
    (48 + d) as char
}

/// The decimal form of a number, without leading zeros.
pub open spec fn dec(n: nat) -> Seq<char>
    decreases n,
{
    if n < 10 {
        seq![digit(n)]
    } else {
        dec(n / 10).push(digit(n % 10))
    }
}

/// The decimal form of a signed number.
pub open spec fn signed_dec(n: int) -> Seq<char> {
    if n < 0 {
        seq!['-'] + dec((-n) as nat)
    } else {
        dec(n as nat)
    }
}

pub open spec fn is_digit(c: char) -> bool {
    '0' <= c <= '9'
}

pub open spec fn all_digits(s: Seq<char>) -> bool {
    forall|i: int| 0 <= i < s.len() ==> is_digit(#[trigger] s[i])
}

/// The number that a run of decimal digits denotes.
pub open spec fn dec_value(s: Seq<char>) -> nat
    decreases s.len(),
{
    if s.len() == 0 {
        0
    } else {
        10 * dec_value(s.drop_last()) + (s.last() as nat - 48) as nat
    }
}

/// Reading back a written number gives the number.
pub proof fn lemma_dec_value(n: nat)
    ensures
        dec_value(dec(n)) == n,
        all_digits(dec(n)),
        dec(n).len() > 0,
    decreases n,
{
    reveal_with_fuel(dec_value, 2);
    if n >= 10 {
        lemma_dec_value(n / 10);
        let head = dec(n / 10);
        assert(dec(n).drop_last() =~= head);
        assert forall|i: int| 0 <= i < dec(n).len() implies is_digit(#[trigger] dec(n)[i]) by {
            if i < head.len() {
                assert(dec(n)[i] == head[i]);
            }
        }
    } else {
        assert(dec(n).drop_last() =~= Seq::<char>::empty());
    }
}

fn digit_char(d: u8) -> (c: char)
    requires
        d < 10,
    ensures
        c == digit(d as nat),
{
    (48u8 + d) as char
}

/// Appends the decimal form of `n`.
pub fn push_dec(out: &mut String, n: u128)
    ensures
        final(out)@ == old(out)@ + dec(n as nat),
    decreases n,
{
    let ghost start = out@;
    if n >= 10 {
        push_dec(out, n / 10);
    }
    let d = (n % 10) as u8;
    out.push(digit_char(d));
    proof {
        if n >= 10 {
            assert(start + dec((n / 10) as nat).push(digit(d as nat)) =~= (start + dec(
                (n / 10) as nat,
            )).push(digit(d as nat)));
        } else {
            assert(start + dec(n as nat) =~= start.push(digit(d as nat)));
        }
    }
}

/// The decimal form of `n`.
pub fn dec_string(n: u128) -> (res: String)
    ensures
        res@ == dec(n as nat),
{
    let mut res = String::new();
    push_dec(&mut res, n);
    proof {
        assert(Seq::<char>::empty() + dec(n as nat) =~= dec(n as nat));
    }
    res
}

/// The number that a run of digits denotes, when it is not above `max`.
pub open spec fn bounded_digits(s: Seq<char>, max: nat) -> Option<nat> {
    if s.len() > 0 && all_digits(s) && dec_value(s) <= max {
        Some(dec_value(s))
    } else {
        None
    }
}

/// Drops one leading plus sign.
pub open spec fn without_plus(s: Seq<char>) -> Seq<char> {
    if s.len() > 0 && s[0] == '+' {
        s.drop_first()
    } else {
        s
    }
}

/// What reading an unsigned decimal number of at most `max` accepts: an optional plus
/// sign and one or more digits.
pub open spec fn unsigned_value(s: Seq<char>, max: nat) -> Option<nat> {
    bounded_digits(without_plus(s), max)
}

/// What reading a signed decimal number between `min` and `max` accepts: an optional
/// sign and one or more digits.
pub open spec fn signed_value(s: Seq<char>, min: int, max: int) -> Option<int> {
    if s.len() > 0 && s[0] == '-' {
        match bounded_digits(s.drop_first(), (-min) as nat) {
            Some(n) => Some(-(n as int)),
            None => None,
        }
    } else {
        match bounded_digits(without_plus(s), max as nat) {
            Some(n) => Some(n as int),
            None => None,
        }
    }
}

proof fn lemma_dec_value_prefix(s: Seq<char>, k: int)
    requires
        0 <= k <= s.len(),
        all_digits(s),
    ensures
        dec_value(s.take(k)) <= dec_value(s),
    decreases s.len() - k,
{
    if k < s.len() {
        lemma_dec_value_prefix(s, k + 1);
        assert(s.take(k + 1).drop_last() =~= s.take(k));
    } else {
        assert(s.take(k) =~= s);
    }
}

/// Reads the digits `chars[from..]` as a number of at most `max`.
pub fn read_digits(chars: &[char], from: usize, max: u128) -> (res: Option<u128>)
    requires
        from <= chars@.len(),
        max <= 0xffff_ffff_ffff_ffff_ffff,
    ensures
        match res {
            Some(n) => bounded_digits(chars@.skip(from as int), max as nat) == Some(n as nat),
            None => bounded_digits(chars@.skip(from as int), max as nat) is None,
        },
{
    let ghost s = chars@.skip(from as int);
    if from == chars.len() {
        return None;
    }
    let mut n: u128 = 0;
    let mut i: usize = from;
    proof {
        assert(s.take(0) =~= Seq::<char>::empty());
    }
    while i < chars.len()
        invariant
            from <= i <= chars@.len(),
            s == chars@.skip(from as int),
            max <= 0xffff_ffff_ffff_ffff_ffff,
            n <= max,
            n == dec_value(s.take(i - from)),
            forall|k: int| 0 <= k < i - from ==> is_digit(#[trigger] s[k]),
        decreases chars.len() - i,
    {
        let c = chars[i];
        proof {
            assert(s[i - from] == c);
        }
        if !('0' <= c && c <= '9') {
            return None;
        }
        let d: u128 = (c as u32 - 48) as u128;
        proof {
            assert(s.take(i - from + 1).drop_last() =~= s.take(i - from));
            assert(s.take(i - from + 1).last() == c);
        }
        let m: u128 = n * 10 + d;
        if m > max {
            proof {
                if all_digits(s) {
                    lemma_dec_value_prefix(s, i - from + 1);
                }
            }
            return None;
        }
        n = m;
        i += 1;
    }
    proof {
        assert(s.take(s.len() as int) =~= s);
    }
    Some(n)
}

/// Reads an unsigned decimal number of at most `max`.
pub fn parse_unsigned(s: &str, max: u64) -> (res: Option<u64>)
    ensures
        match res {
            Some(n) => unsigned_value(s@, max as nat) == Some(n as nat),
            None => unsigned_value(s@, max as nat) is None,
        },
{
    let chars = chars_of(s);
    let from: usize = if chars.len() > 0 && chars[0] == '+' {
        1
    } else {
        0
    };
    proof {
        if from == 1 {
            assert(s@.skip(1) =~= s@.drop_first());
        } else {
            assert(s@.skip(0) =~= s@);
        }
    }
    match read_digits(chars.as_slice(), from, max as u128) {
        Some(n) => Some(n as u64),
        None => None,
    }
}

/// Reads a signed decimal number between `min` and `max`.
pub fn parse_signed(s: &str, min: i64, max: i64) -> (res: Option<i64>)
    requires
        min <= 0 <= max,
    ensures
        match res {
            Some(n) => signed_value(s@, min as int, max as int) == Some(n as int),
            None => signed_value(s@, min as int, max as int) is None,
        },
{
    let chars = chars_of(s);
    if chars.len() > 0 && chars[0] == '-' {
        proof {
            assert(s@.skip(1) =~= s@.drop_first());
        }
        match read_digits(chars.as_slice(), 1, (0i128 - min as i128) as u128) {
            Some(n) => Some((0i128 - n as i128) as i64),
            None => None,
        }
    } else {
        let from: usize = if chars.len() > 0 && chars[0] == '+' {
            1
        } else {
            0
        };
        proof {
            if from == 1 {
                assert(s@.skip(1) =~= s@.drop_first());
            } else {
                assert(s@.skip(0) =~= s@);
            }
        }
        match read_digits(chars.as_slice(), from, max as u128) {
            Some(n) => Some(n as i64),
            None => None,
        }
    }
}

/// Reads a signed decimal number that fits in an `i32`.
pub fn parse_i32(s: &str) -> (res: Option<i32>)
    ensures
        match res {
            Some(n) => signed_value(s@, i32::MIN as int, i32::MAX as int) == Some(n as int),
            None => signed_value(s@, i32::MIN as int, i32::MAX as int) is None,
        },
{
    match parse_signed(s, i32::MIN as i64, i32::MAX as i64) {
        Some(n) => Some(n as i32),
        None => None,
    }
}

/// Appends a signed number in decimal.
pub fn push_signed(out: &mut String, n: i64)
    ensures
        final(out)@ == old(out)@ + signed_dec(n as int),
{
    if n < 0 {
        out.push('-');
        push_dec(out, (0i128 - n as i128) as u128);
    } else {
        push_dec(out, n as u128);
    }
    proof {
        assert(out@ =~= old(out)@ + signed_dec(n as int));
    }
}

// ---------------------------------------------------------------------------------
// White space
// ---------------------------------------------------------------------------------
/// The characters with the Unicode property White_Space.
pub open spec fn is_white(c: char) -> bool {
    ||| '\u{9}' <= c <= '\u{d}'
    ||| c == ' '
    ||| c == '\u{85}'
    ||| c == '\u{a0}'
    ||| c == '\u{1680}'
    ||| '\u{2000}' <= c <= '\u{200a}'
    ||| c == '\u{2028}'
    ||| c == '\u{2029}'
    ||| c == '\u{202f}'
    ||| c == '\u{205f}'
    ||| c == '\u{3000}'
}

/// Drops leading white space.
pub open spec fn trim_start(s: Seq<char>) -> Seq<char>
    decreases s.len(),
{
    if s.len() > 0 && is_white(s[0]) {
        trim_start(s.drop_first())
    } else {
        s
    }
}

/// Drops trailing white space.
pub open spec fn trim_end(s: Seq<char>) -> Seq<char>
    decreases s.len(),
{
    if s.len() > 0 && is_white(s.last()) {
        trim_end(s.drop_last())
    } else {
        s
    }
}

/// Drops white space at both ends.
pub open spec fn trim(s: Seq<char>) -> Seq<char> {
    trim_end(trim_start(s))
}

pub fn white(c: char) -> (res: bool)
    ensures
        res == is_white(c),
{
    ('\u{9}' <= c && c <= '\u{d}') || c == ' ' || c == '\u{85}' || c == '\u{a0}' || c == '\u{1680}'
        || ('\u{2000}' <= c && c <= '\u{200a}') || c == '\u{2028}' || c == '\u{2029}' || c
        == '\u{202f}' || c == '\u{205f}' || c == '\u{3000}'
}

/// Index of the first character that is not white space.
fn white_prefix(chars: &[char]) -> (n: usize)
    ensures
        n <= chars@.len(),
        trim_start(chars@) == chars@.skip(n as int),
{
    let mut n: usize = 0;
    proof {
        assert(chars@.skip(0) =~= chars@);
    }
    while n < chars.len() && white(chars[n])
        invariant
            n <= chars@.len(),
            trim_start(chars@) == trim_start(chars@.skip(n as int)),
        decreases chars.len() - n,
    {
        proof {
            assert(chars@.skip(n as int).drop_first() =~= chars@.skip(n + 1));
        }
        n += 1;
    }
    n
}

/// Drops white space at both ends.
pub fn trimmed(s: &str) -> (res: String)
    ensures
        res@ == trim(s@),
{
    let chars = chars_of(s);
    let from: usize = white_prefix(chars.as_slice());
    let mut to: usize = chars.len();
    proof {
        assert(chars@.subrange(from as int, to as int) =~= chars@.skip(from as int));
    }
    while to > from && white(chars[to - 1])
        invariant
            from <= to <= chars@.len(),
            trim_end(chars@.skip(from as int)) == trim_end(chars@.subrange(from as int, to as int)),
        decreases to,
    {
        proof {
            assert(chars@.subrange(from as int, to as int).drop_last() =~= chars@.subrange(
                from as int,
                to - 1,
            ));
        }
        to -= 1;
    }
    text_of(chars.as_slice(), from, to)
}

/// Drops trailing white space.
pub fn trimmed_end(s: &str) -> (res: String)
    ensures
        res@ == trim_end(s@),
{
    let chars = chars_of(s);
    let mut to: usize = chars.len();
    proof {
        assert(chars@.subrange(0, to as int) =~= chars@);
    }
    while to > 0 && white(chars[to - 1])
        invariant
            to <= chars@.len(),
            trim_end(chars@) == trim_end(chars@.subrange(0, to as int)),
        decreases to,
    {
        proof {
            assert(chars@.subrange(0, to as int).drop_last() =~= chars@.subrange(0, to - 1));
        }
        to -= 1;
    }
    text_of(chars.as_slice(), 0, to)
}

// ---------------------------------------------------------------------------------
// Search
// ---------------------------------------------------------------------------------
/// Offset of the first character `c` at or after `i`, or the length where there is none.
pub open spec fn seek_char(s: Seq<char>, i: int, c: char) -> int
    decreases s.len() - i,
{
    if i >= s.len() {
        s.len() as int
    } else if s[i] == c {
        i
    } else {
        seek_char(s, i + 1, c)
    }
}

pub proof fn lemma_seek_char(s: Seq<char>, i: int, c: char)
    requires
        0 <= i <= s.len(),
    ensures
        i <= seek_char(s, i, c) <= s.len(),
        seek_char(s, i, c) < s.len() ==> s[seek_char(s, i, c)] == c,
        forall|k: int| i <= k < seek_char(s, i, c) ==> s[k] != c,
    decreases s.len() - i,
{
    if i < s.len() && s[i] != c {
        lemma_seek_char(s, i + 1, c);
    }
}

/// Offset of the first character `c` at or after `from`, or the length where there is none.
pub fn find_char(s: &[char], from: usize, c: char) -> (z: usize)
    requires
        from <= s@.len(),
    ensures
        z == seek_char(s@, from as int, c),
        from <= z <= s@.len(),
{
    let mut i: usize = from;
    while i < s.len() && s[i] != c
        invariant
            from <= i <= s@.len(),
            seek_char(s@, from as int, c) == seek_char(s@, i as int, c),
        decreases s.len() - i,
    {
        i += 1;
    }
    i
}

/// Whether a text begins with another.
pub open spec fn starts_with(s: Seq<char>, p: Seq<char>) -> bool {
    p.len() <= s.len() && s.take(p.len() as int) == p
}

/// Whether `s[from..]` begins with `p`.
pub fn begins(s: &[char], from: usize, p: &str) -> (res: bool)
    requires
        from <= s@.len(),
    ensures
        res == starts_with(s@.skip(from as int), p@),
{
    let pc = chars_of(p);
    if pc.len() > s.len() - from {
        return false;
    }
    let mut i: usize = 0;
    while i < pc.len()
        invariant
            i <= pc@.len() <= s.len() - from,
            pc@ == p@,
            from <= s.len(),
            forall|k: int| 0 <= k < i ==> s@[from + k] == pc@[k],
        decreases pc.len() - i,
    {
        if s[from + i] != pc[i] {
            proof {
                assert(s@.skip(from as int).take(p@.len() as int)[i as int] != p@[i as int]);
            }
            return false;
        }
        i += 1;
    }
    proof {
        assert(s@.skip(from as int).take(p@.len() as int) =~= p@);
    }
    true
}

/// Drops leading white space.
pub fn trimmed_start(s: &str) -> (res: String)
    ensures
        res@ == trim_start(s@),
{
    let chars = chars_of(s);
    let from: usize = white_prefix(chars.as_slice());
    proof {
        assert(chars@.subrange(from as int, chars@.len() as int) =~= chars@.skip(from as int));
    }
    text_of(chars.as_slice(), from, chars.len())
}

/// The texts of a list.
pub open spec fn texts(v: Seq<String>) -> Seq<Seq<char>> {
    Seq::new(v.len(), |i: int| v[i]@)
}

/// A text that may be missing.
pub open spec fn maybe(s: Option<String>) -> Option<Seq<char>> {
    match s {
        Some(t) => Some(t@),
        None => None,
    }
}

// ---------------------------------------------------------------------------------
// Lines and occurrences
// ---------------------------------------------------------------------------------
/// A line without the carriage return at its end.
pub open spec fn without_cr(s: Seq<char>) -> Seq<char> {
    if s.len() > 0 && s.last() == '\r' {
        s.drop_last()
    } else {
        s
    }
}

/// The lines of a text. Each ends at a newline, with or without a carriage return before
/// it; the last may end with the text.
pub open spec fn lines(s: Seq<char>) -> Seq<Seq<char>>
    decreases s.len(),
{
    let z = seek_char(s, 0, '\n');
    if s.len() == 0 {
        Seq::empty()
    } else if 0 <= z < s.len() {
        seq![without_cr(s.take(z))] + lines(s.skip(z + 1))
    } else {
        seq![s]
    }
}

/// The lines of a text are what stands between its newlines, in their order, each without a
/// carriage return at its end; behind the last newline there is a line only where there is text.
pub proof fn law_lines_end_at_newlines(a: Seq<char>, b: Seq<char>)
    requires
        forall|i: int| 0 <= i < a.len() ==> a[i] != '\n',
    ensures
        a.len() > 0 ==> lines(a) == seq![a],
        a.len() == 0 ==> lines(a) == Seq::<Seq<char>>::empty(),
        a.len() > 0 && a.last() == '\r' ==> lines(a.push('\n') + b) == seq![a.drop_last()] + lines(b),
        a.len() == 0 || a.last() != '\r' ==> lines(a.push('\n') + b) == seq![a] + lines(b),
{
    lemma_seek_char(a, 0, '\n');
    let s = a.push('\n') + b;
    let z = seek_char(s, 0, '\n');
    lemma_seek_char(s, 0, '\n');
    assert(s[a.len() as int] == '\n');
    assert forall|i: int| 0 <= i < a.len() implies s[i] != '\n' by {
        assert(s[i] == a[i]);
    }
    assert(z == a.len());
    assert(s.take(z) =~= a);
    assert(s.skip(z + 1) =~= b);
}

/// A search from an offset is a search in what follows it.
pub proof fn lemma_seek_rest(s: Seq<char>, i: int, c: char)
    requires
        0 <= i <= s.len(),
    ensures
        seek_char(s.skip(i), 0, c) == seek_char(s, i, c) - i,
{
    let rest = s.skip(i);
    lemma_seek_char(s, i, c);
    lemma_seek_char(rest, 0, c);
    let w = seek_char(rest, 0, c);
    let z = seek_char(s, i, c);
    if w < z - i {
        assert(rest[w] == s[i + w]);
    }
    if z - i < w {
        assert(rest[z - i] == s[z]);
    }
}

/// The lines of a text.
pub fn lines_of(s: &str) -> (res: Vec<String>)
    ensures
        texts(res@) == lines(s@),
{
    let chars = chars_of(s);
    let mut out: Vec<String> = Vec::new();
    let mut from: usize = 0;
    proof {
        assert(chars@.skip(0) =~= s@);
        assert(texts(out@) + lines(s@) =~= lines(s@));
    }
    while from < chars.len()
        invariant
            chars@ == s@,
            from <= chars.len(),
            texts(out@) + lines(s@.skip(from as int)) == lines(s@),
        decreases chars.len() - from,
    {
        let z = find_char(chars.as_slice(), from, '\n');
        let ghost rest = s@.skip(from as int);
        let ghost o0 = texts(out@);
        proof {
            lemma_seek_rest(s@, from as int, '\n');
            lemma_seek_char(s@, from as int, '\n');
            assert(rest.take(z - from) =~= s@.subrange(from as int, z as int));
        }
        if z < chars.len() {
            let mut to = z;
            if to > from && chars[to - 1] == '\r' {
                to -= 1;
            }
            out.push(text_of(chars.as_slice(), from, to));
            proof {
                assert(s@.subrange(from as int, to as int) =~= without_cr(rest.take(z - from)));
                assert(texts(out@) =~= o0.push(without_cr(rest.take(z - from))));
                assert(rest.skip(z - from + 1) =~= s@.skip(z + 1));
                assert(texts(out@) + lines(s@.skip(z + 1)) =~= o0 + lines(rest));
            }
            from = z + 1;
        } else {
            out.push(text_of(chars.as_slice(), from, z));
            proof {
                assert(rest.take(z - from) =~= rest);
                assert(texts(out@) =~= o0.push(rest));
                assert(texts(out@) + lines(s@.skip(z as int)) =~= o0 + lines(rest));
            }
            from = z;
        }
    }
    proof {
        assert(texts(out@) + lines(s@.skip(from as int)) =~= texts(out@));
    }
    out
}

/// Whether `p` stands in `s` at offset `i`.
pub open spec fn occurs_at(s: Seq<char>, i: int, p: Seq<char>) -> bool {
    0 <= i && i + p.len() <= s.len() && s.subrange(i, i + p.len()) == p
}

/// Number of places at or after `i` where `p` stands in `s`; they may overlap. An empty `p`
/// stands between any two characters and at both ends.
pub open spec fn occurrences(s: Seq<char>, p: Seq<char>, i: int) -> nat
    decreases s.len() + 1 - i,
{
    if i > s.len() {
        0
    } else if occurs_at(s, i, p) {
        1 + occurrences(s, p, i + 1)
    } else {
        occurrences(s, p, i + 1)
    }
}

/// The first place at or after `i` where `p` stands in `s`, or the length.
pub open spec fn first_place(s: Seq<char>, p: Seq<char>, i: int) -> int
    decreases s.len() - i,
{
    if i >= s.len() || occurs_at(s, i, p) {
        i
    } else {
        first_place(s, p, i + 1)
    }
}

/// Whether `p` stands in `s` at offset `i`.
pub fn stands(s: &[char], i: usize, p: &[char]) -> (res: bool)
    requires
        i <= s@.len(),
    ensures
        res == occurs_at(s@, i as int, p@),
{
    if p.len() > s.len() - i {
        return false;
    }
    let mut k: usize = 0;
    while k < p.len()
        invariant
            k <= p@.len(),
            i + p.len() <= s.len(),
            forall|j: int| 0 <= j < k ==> #[trigger] p@[j] == s@[i + j],
        decreases p.len() - k,
    {
        if s[i + k] != p[k] {
            proof {
                assert(s@.subrange(i as int, i + p@.len())[k as int] != p@[k as int]);
            }
            return false;
        }
        k += 1;
    }
    proof {
        assert(s@.subrange(i as int, i + p@.len()) =~= p@);
    }
    true
}

/// Counts the places where `p` stands in `s`, and gives the first of them.
pub fn count_places(s: &[char], p: &[char]) -> (res: (u128, usize))
    ensures
        res.0 == occurrences(s@, p@, 0),
        res.0 > 0 ==> res.1 == first_place(s@, p@, 0) && occurs_at(s@, res.1 as int, p@),
{
    let mut n: u128 = 0;
    let mut first: usize = 0;
    let mut i: usize = 0;
    while i < s.len()
        invariant
            i <= s.len(),
            n <= i,
            n + occurrences(s@, p@, i as int) == occurrences(s@, p@, 0),
            n > 0 ==> first == first_place(s@, p@, 0) && occurs_at(s@, first as int, p@),
            n == 0 ==> first_place(s@, p@, 0) == first_place(s@, p@, i as int),
        decreases s.len() - i,
    {
        if stands(s, i, p) {
            if n == 0 {
                first = i;
            }
            n += 1;
        }
        i += 1;
    }
    proof {
        reveal_with_fuel(occurrences, 2);
    }
    if stands(s, i, p) {
        if n == 0 {
            first = i;
        }
        n += 1;
    }
    (n, first)
}

/// Text of the error for bytes that are not UTF-8. It says where they stop being so.
pub uninterp spec fn utf8_fault(bytes: Seq<u8>) -> Seq<char>;

/// Text of the error of `core::str::from_utf8`, which depends on the bytes alone.
#[verifier::external_body]
pub(crate) fn utf8_error(bytes: &[u8]) -> (res: String)
    requires
        !vstd::utf8::valid_utf8(bytes@),
    ensures
        res@ == utf8_fault(bytes@),
{
    match core::str::from_utf8(bytes) {
        Ok(s) => s.to_owned(),
        Err(e) => e.to_string(),
    }
}

/// A path between double quotes, with what cannot be printed escaped.
pub uninterp spec fn quoted_path(path: Seq<char>) -> Seq<char>;

/// `<Path as Debug>::fmt`, the `{:?}` form of a path, which depends on its text alone.
#[verifier::external_body]
pub(crate) fn quote_path(path: &str) -> (res: String)
    ensures
        res@ == quoted_path(path@),
{
    format!("{:?}", std::path::Path::new(path))
}

// ---------------------------------------------------------------------------------
// Words
// ---------------------------------------------------------------------------------
/// Offset of the first white character at or after `i`, or the length.
pub open spec fn word_end(s: Seq<char>, i: int) -> int
    decreases s.len() - i,
{
    if i >= s.len() || is_white(s[i]) {
        i
    } else {
        word_end(s, i + 1)
    }
}

/// The first `n` words with a blank between two.
pub open spec fn spaced(w: Seq<Seq<char>>, n: int) -> Seq<char>
    decreases n,
{
    if n <= 0 {
        Seq::empty()
    } else if n == 1 {
        w[0]
    } else {
        spaced(w, n - 1).push(' ') + w[n - 1]
    }
}

/// The words with a blank between two.
pub fn join_words(w: &Vec<String>) -> (res: String)
    ensures
        res@ == spaced(texts(w@), w@.len() as int),
{
    let mut res = String::new();
    let mut i: usize = 0;
    let ghost t = texts(w@);
    while i < w.len()
        invariant
            i <= w@.len(),
            t == texts(w@),
            res@ == spaced(t, i as int),
        decreases w.len() - i,
    {
        if i > 0 {
            res.push(' ');
        }
        res.push_str(w[i].as_str());
        proof {
            assert(t[i as int] == w@[i as int]@);
            assert(res@ =~= spaced(t, i + 1));
        }
        i += 1;
    }
    res
}

/// Trimming takes the white space at both ends and nothing else.
pub proof fn law_trim_takes_the_ends(s: Seq<char>)
    ensures
        exists|a: int, b: int| #[trigger] trimmed_at(s, a, b),
        trim(s).len() > 0 ==> !is_white(trim(s)[0]) && !is_white(trim(s).last()),
{
    let t = trim_start(s);
    let a = lemma_trim_start(s);
    let n = lemma_trim_end(t);
    assert(trim(s) =~= s.subrange(a, a + n));
    assert forall|i: int| 0 <= i < s.len() && !(a <= i < a + n) implies is_white(#[trigger] s[i]) by {
        if i >= a + n {
            assert(t[i - a] == s[i]);
        }
    }
    assert(trimmed_at(s, a, a + n));
    if n > 0 {
        assert(trim(s)[0] == t[0]);
    }
}

/// Whether `trim(s)` is what stands from `a` to `b`, with nothing but white space around it.
pub open spec fn trimmed_at(s: Seq<char>, a: int, b: int) -> bool {
    &&& 0 <= a <= b <= s.len()
    &&& trim(s) == s.subrange(a, b)
    &&& forall|i: int| 0 <= i < s.len() && !(a <= i < b) ==> is_white(#[trigger] s[i])
}

proof fn lemma_trim_start(s: Seq<char>) -> (a: int)
    ensures
        0 <= a <= s.len(),
        trim_start(s) == s.skip(a),
        forall|i: int| 0 <= i < a ==> is_white(#[trigger] s[i]),
        trim_start(s).len() > 0 ==> !is_white(trim_start(s)[0]),
    decreases s.len(),
{
    if s.len() > 0 && is_white(s[0]) {
        let t = s.drop_first();
        let a = lemma_trim_start(t);
        assert(s.skip(a + 1) =~= t.skip(a));
        assert forall|i: int| 0 <= i < a + 1 implies is_white(#[trigger] s[i]) by {
            if i > 0 {
                assert(t[i - 1] == s[i]);
            }
        }
        a + 1
    } else {
        assert(s.skip(0) =~= s);
        0
    }
}

proof fn lemma_trim_end(s: Seq<char>) -> (n: int)
    ensures
        0 <= n <= s.len(),
        trim_end(s) == s.take(n),
        forall|i: int| n <= i < s.len() ==> is_white(#[trigger] s[i]),
        n > 0 ==> !is_white(s[n - 1]),
    decreases s.len(),
{
    if s.len() > 0 && is_white(s.last()) {
        let t = s.drop_last();
        let n = lemma_trim_end(t);
        assert(s.take(n) =~= t.take(n));
        assert forall|i: int| n <= i < s.len() implies is_white(#[trigger] s[i]) by {
            if i < t.len() {
                assert(t[i] == s[i]);
            }
        }
        n
    } else {
        assert(s.take(s.len() as int) =~= s);
        s.len() as int
    }
}

/// A number that is written in decimal digits is read back, with or without a plus before it, if it
/// is not too large; with a minus before it, it is read as a negative one.
pub proof fn law_numbers_read_back(n: nat, max: nat)
    ensures
        unsigned_value(dec(n), max) == (if n <= max {
            Some(n)
        } else {
            None
        }),
        unsigned_value(seq!['+'] + dec(n), max) == unsigned_value(dec(n), max),
        unsigned_value(seq!['-'] + dec(n), max) is None,
        unsigned_value(Seq::empty(), max) is None,
        signed_value(seq!['-'] + dec(n), -(max as int), max as int) == (if n <= max {
            Some(-(n as int))
        } else {
            None
        }),
        signed_value(dec(n), -(max as int), max as int) == (if n <= max {
            Some(n as int)
        } else {
            None
        }),
        n < 10 ==> dec(n) == seq![(48 + n) as char],
        n >= 10 ==> dec(n) == dec(n / 10) + dec(n % 10),
{
    lemma_dec_value(n);
    let d = dec(n);
    assert(is_digit(d[0]));
    assert((seq!['+'] + d).drop_first() =~= d);
    assert((seq!['-'] + d).drop_first() =~= d);
    let m = seq!['-'] + d;
    assert(!is_digit(m[0]));
    if n >= 10 {
        assert(dec(n) =~= dec(n / 10) + dec(n % 10));
    }
}

/// Bytes that are UTF-8 are read as the text that they encode.
pub proof fn law_text_is_readable(s: Seq<char>)
    ensures
        readable(encode_utf8(s)) == s,
{
    encode_utf8_valid_utf8(s);
    encode_utf8_decode_utf8(s);
}

} // verus!
