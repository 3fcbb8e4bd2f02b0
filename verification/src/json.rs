//! JSON values: reading, writing and looking up.
//!
//! Numbers keep their source text, and objects keep the order of their members, so what
//! was read can be written again as it was.

use vstd::prelude::*;
use vstd::utf8::*;

use crate::text::{
    chars_of, dec, is_digit, lemma_dec_value, quote, quoted, signed_dec, signed_value, text_eq,
    text_of, texts, unsigned_value,
};

verus! {

/// A JSON value.
#[derive(Debug, PartialEq, Eq)]
pub enum Json {
    Null,
    Bool(bool),
    /// The source text of a number.
    Num(String),
    Str(String),
    Arr(Vec<Json>),
    /// Members in their order.
    Obj(Vec<(String, Json)>),
}

/// Mathematical form of a `Json`.
pub enum Val {
    Null,
    Bool(bool),
    Num(Seq<char>),
    Str(Seq<char>),
    Arr(Seq<Val>),
    Obj(Seq<(Seq<char>, Val)>),
}

/// Mathematical form of a value.
pub open spec fn val_of(j: Json) -> Val
    decreases j,
{
    match j {
        Json::Null => Val::Null,
        Json::Bool(b) => Val::Bool(b),
        Json::Num(n) => Val::Num(n@),
        Json::Str(s) => Val::Str(s@),
        Json::Arr(a) => Val::Arr(vals_of(a@)),
        Json::Obj(o) => Val::Obj(members_of(o@)),
    }
}

pub open spec fn vals_of(a: Seq<Json>) -> Seq<Val>
    decreases a,
{
    Seq::new(
        a.len(),
        |i: int|
            if 0 <= i < a.len() {
                val_of(a[i])
            } else {
                Val::Null
            },
    )
}

pub open spec fn members_of(o: Seq<(String, Json)>) -> Seq<(Seq<char>, Val)>
    decreases o,
{
    Seq::new(
        o.len(),
        |i: int|
            if 0 <= i < o.len() {
                (o[i].0@, val_of(o[i].1))
            } else {
                (Seq::empty(), Val::Null)
            },
    )
}

impl View for Json {
    type V = Val;

    open spec fn view(&self) -> Val {
        val_of(*self)
    }
}

// ---------------------------------------------------------------------------------
// Writing
// ---------------------------------------------------------------------------------
/// A hexadecimal digit.
pub open spec fn hex(d: int) -> char {
    if d < 10 {
        (48 + d) as char
    } else {
        (87 + d) as char
    }
}

/// A character as it stands inside a JSON string.
pub open spec fn esc_char(c: char) -> Seq<char> {
    if c == '"' {
        seq!['\\', '"']
    } else if c == '\\' {
        seq!['\\', '\\']
    } else if c == '\n' {
        seq!['\\', 'n']
    } else if c == '\r' {
        seq!['\\', 'r']
    } else if c == '\t' {
        seq!['\\', 't']
    } else if '\0' <= c <= '\u{1f}' {
        seq!['\\', 'u', '0', '0', hex(c as int / 16), hex(c as int % 16)]
    } else {
        seq![c]
    }
}

/// A text as it stands inside a JSON string.
pub open spec fn esc(s: Seq<char>) -> Seq<char>
    decreases s.len(),
{
    if s.len() == 0 {
        Seq::empty()
    } else {
        esc(s.drop_last()) + esc_char(s.last())
    }
}

/// A text as a JSON string.
pub open spec fn str_text(s: Seq<char>) -> Seq<char> {
    seq!['"'] + esc(s) + seq!['"']
}

/// The text of a value, without white space.
pub open spec fn text(v: Val) -> Seq<char>
    decreases v, 0int,
{
    match v {
        Val::Null => "null"@,
        Val::Bool(b) => if b {
            "true"@
        } else {
            "false"@
        },
        Val::Num(n) => n,
        Val::Str(s) => str_text(s),
        Val::Arr(a) => seq!['['] + items_text(a, a.len() as int) + seq![']'],
        Val::Obj(o) => seq!['{'] + members_text(o, o.len() as int) + seq!['}'],
    }
}

/// The first `n` items with commas between them.
pub open spec fn items_text(a: Seq<Val>, n: int) -> Seq<char>
    decreases a, n,
{
    if n <= 0 || n > a.len() {
        Seq::empty()
    } else if n == 1 {
        text(a[0])
    } else {
        items_text(a, n - 1) + seq![','] + text(a[n - 1])
    }
}

/// The first `n` members with commas between them.
pub open spec fn members_text(o: Seq<(Seq<char>, Val)>, n: int) -> Seq<char>
    decreases o, n,
{
    if n <= 0 || n > o.len() {
        Seq::empty()
    } else if n == 1 {
        str_text(o[0].0) + seq![':'] + text(o[0].1)
    } else {
        members_text(o, n - 1) + seq![','] + str_text(o[n - 1].0) + seq![':'] + text(o[n - 1].1)
    }
}

/// Texts with commas between them: the first `n`.
pub open spec fn joined(p: Seq<Seq<char>>, n: int) -> Seq<char>
    decreases n,
{
    if n <= 0 {
        Seq::empty()
    } else if n == 1 {
        p[0]
    } else {
        joined(p, n - 1) + seq![','] + p[n - 1]
    }
}

/// An array of JSON texts.
#[verifier::opaque]
pub open spec fn raw_arr(p: Seq<Seq<char>>) -> Seq<char> {
    seq!['['] + joined(p, p.len() as int) + seq![']']
}

/// Members of an object: a name and a JSON text each.
pub open spec fn member_texts(m: Seq<(Seq<char>, Seq<char>)>) -> Seq<Seq<char>> {
    Seq::new(m.len(), |i: int| str_text(m[i].0) + seq![':'] + m[i].1)
}

/// An object whose members are JSON texts.
#[verifier::opaque]
pub open spec fn raw_obj(m: Seq<(Seq<char>, Seq<char>)>) -> Seq<char> {
    seq!['{'] + joined(member_texts(m), m.len() as int) + seq!['}']
}

fn hex_digit(d: u32) -> (c: char)
    requires
        d < 16,
    ensures
        c == hex(d as int),
{
    if d < 10 {
        (48u8 + d as u8) as char
    } else {
        (87u8 + d as u8) as char
    }
}

/// Appends a text as it stands inside a JSON string.
pub fn escape_into(out: &mut String, s: &str)
    ensures
        final(out)@ == old(out)@ + esc(s@),
{
    let chars = chars_of(s);
    let ghost start = out@;
    let mut i: usize = 0;
    proof {
        assert(s@.take(0) =~= Seq::<char>::empty());
        assert(start + esc(s@.take(0)) =~= start);
    }
    while i < chars.len()
        invariant
            i <= chars@.len(),
            chars@ == s@,
            out@ == start + esc(s@.take(i as int)),
        decreases chars.len() - i,
    {
        let c = chars[i];
        let ghost mid = out@;
        if c == '"' {
            out.push_str("\\\"");
        } else if c == '\\' {
            out.push_str("\\\\");
        } else if c == '\n' {
            out.push_str("\\n");
        } else if c == '\r' {
            out.push_str("\\r");
        } else if c == '\t' {
            out.push_str("\\t");
        } else if '\0' <= c && c <= '\u{1f}' {
            let code: u32 = c as u32;
            out.push_str("\\u00");
            out.push(hex_digit(code / 16));
            out.push(hex_digit(code % 16));
            proof {
                reveal_strlit("\\u00");
                assert("\\u00"@ =~= seq!['\\', 'u', '0', '0']);
                assert(out@ =~= mid + seq![
                    '\\',
                    'u',
                    '0',
                    '0',
                    hex(c as int / 16),
                    hex(c as int % 16),
                ]);
            }
        } else {
            out.push(c);
        }
        proof {
            reveal_strlit("\\\"");
            reveal_strlit("\\\\");
            reveal_strlit("\\n");
            reveal_strlit("\\r");
            reveal_strlit("\\t");
            assert(out@ =~= mid + esc_char(c));
            assert(s@.take(i + 1).drop_last() =~= s@.take(i as int));
            assert(s@.take(i + 1).last() == c);
            assert(out@ =~= start + esc(s@.take(i + 1)));
        }
        i += 1;
    }
    proof {
        assert(s@.take(i as int) =~= s@);
    }
}

/// Appends a text as a JSON string.
pub fn push_str_text(out: &mut String, s: &str)
    ensures
        final(out)@ == old(out)@ + str_text(s@),
{
    let ghost start = out@;
    out.push('"');
    escape_into(out, s);
    out.push('"');
    proof {
        assert(out@ =~= start + str_text(s@));
    }
}

/// A text as a JSON string.
pub fn str_json(s: &str) -> (res: String)
    ensures
        res@ == str_text(s@),
{
    let mut res = String::new();
    push_str_text(&mut res, s);
    proof {
        assert(Seq::<char>::empty() + str_text(s@) =~= str_text(s@));
    }
    res
}

/// Members as pairs of texts.
pub open spec fn raw_members(m: Seq<(&str, String)>) -> Seq<(Seq<char>, Seq<char>)> {
    Seq::new(m.len(), |i: int| (m[i].0@, m[i].1@))
}

/// An object whose members are JSON texts.
pub fn object_json(m: &Vec<(&str, String)>) -> (res: String)
    ensures
        res@ == raw_obj(raw_members(m@)),
{
    proof {
        reveal(raw_obj);
    }
    let ghost p = member_texts(raw_members(m@));
    let mut res = String::new();
    res.push('{');
    let mut i: usize = 0;
    while i < m.len()
        invariant
            i <= m@.len(),
            p == member_texts(raw_members(m@)),
            res@ =~= seq!['{'] + joined(p, i as int),
        decreases m.len() - i,
    {
        if i > 0 {
            res.push(',');
        }
        push_str_text(&mut res, m[i].0);
        res.push(':');
        res.push_str(m[i].1.as_str());
        proof {
            assert(p[i as int] == str_text(m@[i as int].0@) + seq![':'] + m@[i as int].1@);
        }
        i += 1;
    }
    res.push('}');
    proof {
        assert(res@ =~= raw_obj(raw_members(m@)));
    }
    res
}

/// An array of JSON texts.
pub fn array_json(p: &Vec<String>) -> (res: String)
    ensures
        res@ == raw_arr(texts(p@)),
{
    proof {
        reveal(raw_arr);
    }
    let ghost t = texts(p@);
    let mut res = String::new();
    res.push('[');
    let mut i: usize = 0;
    while i < p.len()
        invariant
            i <= p@.len(),
            t == texts(p@),
            res@ =~= seq!['['] + joined(t, i as int),
        decreases p.len() - i,
    {
        if i > 0 {
            res.push(',');
        }
        res.push_str(p[i].as_str());
        proof {
            assert(t[i as int] == p@[i as int]@);
        }
        i += 1;
    }
    res.push(']');
    proof {
        assert(res@ =~= raw_arr(t));
    }
    res
}

/// `true` or `false`.
pub open spec fn bool_text(b: bool) -> Seq<char> {
    if b {
        "true"@
    } else {
        "false"@
    }
}

/// `true` or `false`.
pub fn bool_json(b: bool) -> (res: String)
    ensures
        res@ == bool_text(b),
{
    if b {
        "true".to_owned()
    } else {
        "false".to_owned()
    }
}

/// Appends the text of a value.
pub fn write_json(out: &mut String, v: &Json)
    ensures
        final(out)@ == old(out)@ + text(v@),
    decreases v,
{
    let ghost start = out@;
    match v {
        Json::Null => out.push_str("null"),
        Json::Bool(b) => {
            if *b {
                out.push_str("true");
            } else {
                out.push_str("false");
            }
        },
        Json::Num(n) => out.push_str(n.as_str()),
        Json::Str(s) => push_str_text(out, s.as_str()),
        Json::Arr(a) => {
            let ghost m = vals_of(a@);
            out.push('[');
            let mut i: usize = 0;
            while i < a.len()
                invariant
                    i <= a@.len(),
                    m == vals_of(a@),
                    out@ =~= start + seq!['['] + items_text(m, i as int),
                    v matches Json::Arr(w) && w == a,
                decreases a.len() - i,
            {
                if i > 0 {
                    out.push(',');
                }
                proof {
                    assert(decreases_to!(v => a));
                    assert(decreases_to!(a => a@));
                    assert(decreases_to!(a@ => a@[i as int]));
                    assert(m[i as int] == a@[i as int]@);
                }
                write_json(out, &a[i]);
                i += 1;
            }
            out.push(']');
            proof {
                assert(out@ =~= start + text(v@));
            }
        },
        Json::Obj(o) => {
            let ghost m = members_of(o@);
            out.push('{');
            let mut i: usize = 0;
            while i < o.len()
                invariant
                    i <= o@.len(),
                    m == members_of(o@),
                    out@ =~= start + seq!['{'] + members_text(m, i as int),
                    v matches Json::Obj(w) && w == o,
                decreases o.len() - i,
            {
                if i > 0 {
                    out.push(',');
                }
                proof {
                    assert(decreases_to!(v => o));
                    assert(decreases_to!(o => o@));
                    assert(decreases_to!(o@ => o@[i as int]));
                    assert(decreases_to!(o@[i as int] => o@[i as int].1));
                    assert(m[i as int] == (o@[i as int].0@, o@[i as int].1@));
                }
                push_str_text(out, o[i].0.as_str());
                out.push(':');
                write_json(out, &o[i].1);
                i += 1;
            }
            out.push('}');
            proof {
                assert(out@ =~= start + text(v@));
            }
        },
    }
}

/// The text of a value.
pub fn json_to_string(v: &Json) -> (res: String)
    ensures
        res@ == text(v@),
{
    let mut res = String::new();
    write_json(&mut res, v);
    proof {
        assert(Seq::<char>::empty() + text(v@) =~= text(v@));
    }
    res
}

// ---------------------------------------------------------------------------------
// Showing
// ---------------------------------------------------------------------------------
/// The form in which a value is shown in an error.
pub open spec fn show(v: Val) -> Seq<char>
    decreases v, 0int,
{
    match v {
        Val::Null => "Null"@,
        Val::Bool(b) => "Bool("@ + bool_text(b) + ")"@,
        Val::Num(n) => "Num("@ + quoted(n) + ")"@,
        Val::Str(s) => "Str("@ + quoted(s) + ")"@,
        Val::Arr(a) => "Arr(["@ + show_items(a, a.len() as int) + "])"@,
        Val::Obj(o) => "Obj(["@ + show_members(o, o.len() as int) + "])"@,
    }
}

pub open spec fn show_items(a: Seq<Val>, n: int) -> Seq<char>
    decreases a, n,
{
    if n <= 0 || n > a.len() {
        Seq::empty()
    } else if n == 1 {
        show(a[0])
    } else {
        show_items(a, n - 1) + ", "@ + show(a[n - 1])
    }
}

pub open spec fn show_members(o: Seq<(Seq<char>, Val)>, n: int) -> Seq<char>
    decreases o, n,
{
    if n <= 0 || n > o.len() {
        Seq::empty()
    } else if n == 1 {
        "("@ + quoted(o[0].0) + ", "@ + show(o[0].1) + ")"@
    } else {
        show_members(o, n - 1) + ", "@ + "("@ + quoted(o[n - 1].0) + ", "@ + show(o[n - 1].1)
            + ")"@
    }
}

/// Appends the form in which a value is shown in an error.
pub fn push_shown(out: &mut String, v: &Json)
    ensures
        final(out)@ == old(out)@ + show(v@),
    decreases v,
{
    let ghost start = out@;
    match v {
        Json::Null => out.push_str("Null"),
        Json::Bool(b) => {
            out.push_str("Bool(");
            out.push_str(bool_json(*b).as_str());
            out.push_str(")");
        },
        Json::Num(n) => {
            out.push_str("Num(");
            out.push_str(quote(n.as_str()).as_str());
            out.push_str(")");
        },
        Json::Str(s) => {
            out.push_str("Str(");
            out.push_str(quote(s.as_str()).as_str());
            out.push_str(")");
        },
        Json::Arr(a) => {
            let ghost m = vals_of(a@);
            out.push_str("Arr([");
            let mut i: usize = 0;
            while i < a.len()
                invariant
                    i <= a@.len(),
                    m == vals_of(a@),
                    out@ =~= start + "Arr(["@ + show_items(m, i as int),
                    v matches Json::Arr(w) && w == a,
                decreases a.len() - i,
            {
                if i > 0 {
                    out.push_str(", ");
                }
                proof {
                    assert(decreases_to!(v => a));
                    assert(decreases_to!(a => a@));
                    assert(decreases_to!(a@ => a@[i as int]));
                    assert(m[i as int] == a@[i as int]@);
                }
                push_shown(out, &a[i]);
                i += 1;
            }
            out.push_str("])");
        },
        Json::Obj(o) => {
            let ghost m = members_of(o@);
            out.push_str("Obj([");
            let mut i: usize = 0;
            while i < o.len()
                invariant
                    i <= o@.len(),
                    m == members_of(o@),
                    out@ =~= start + "Obj(["@ + show_members(m, i as int),
                    v matches Json::Obj(w) && w == o,
                decreases o.len() - i,
            {
                if i > 0 {
                    out.push_str(", ");
                }
                proof {
                    assert(decreases_to!(v => o));
                    assert(decreases_to!(o => o@));
                    assert(decreases_to!(o@ => o@[i as int]));
                    assert(decreases_to!(o@[i as int] => o@[i as int].1));
                    assert(m[i as int] == (o@[i as int].0@, o@[i as int].1@));
                }
                out.push_str("(");
                out.push_str(quote(o[i].0.as_str()).as_str());
                out.push_str(", ");
                push_shown(out, &o[i].1);
                out.push_str(")");
                i += 1;
            }
            out.push_str("])");
        },
    }
    proof {
        assert(out@ =~= start + show(v@));
    }
}

// ---------------------------------------------------------------------------------
// Reading
// ---------------------------------------------------------------------------------
/// Whether the character at `i` is there and is `c`.
pub open spec fn at(s: Seq<char>, i: int, c: char) -> bool {
    0 <= i < s.len() && s[i] == c
}

pub open spec fn is_space(c: char) -> bool {
    c == ' ' || c == '\t' || c == '\n' || c == '\r'
}

/// Offset of the first character at or after `i` that is not white space.
pub open spec fn skip(s: Seq<char>, i: int) -> int
    decreases s.len() - i,
{
    if 0 <= i < s.len() && is_space(s[i]) {
        skip(s, i + 1)
    } else {
        i
    }
}

pub open spec fn is_dec(c: char) -> bool {
    '0' <= c <= '9'
}

/// Offset of the first character at or after `i` that is not a digit.
pub open spec fn digits_end(s: Seq<char>, i: int) -> int
    decreases s.len() - i,
{
    if 0 <= i < s.len() && is_dec(s[i]) {
        digits_end(s, i + 1)
    } else {
        i
    }
}

/// Offset behind the integer part of a number: no leading zeros.
pub open spec fn int_end(s: Seq<char>, i: int) -> Option<int> {
    let a = if at(s, i, '-') {
        i + 1
    } else {
        i
    };
    if at(s, a, '0') {
        Some(a + 1)
    } else if digits_end(s, a) > a {
        Some(digits_end(s, a))
    } else {
        None
    }
}

/// Offset behind the fraction of a number, where it has one.
pub open spec fn frac_end(s: Seq<char>, i: int) -> Option<int> {
    if at(s, i, '.') {
        if digits_end(s, i + 1) > i + 1 {
            Some(digits_end(s, i + 1))
        } else {
            None
        }
    } else {
        Some(i)
    }
}

/// Offset behind the exponent of a number, where it has one.
pub open spec fn exp_end(s: Seq<char>, i: int) -> Option<int> {
    if at(s, i, 'e') || at(s, i, 'E') {
        let a = if at(s, i + 1, '+') || at(s, i + 1, '-') {
            i + 2
        } else {
            i + 1
        };
        if digits_end(s, a) > a {
            Some(digits_end(s, a))
        } else {
            None
        }
    } else {
        Some(i)
    }
}

/// Offset behind the number that starts at `i`.
pub open spec fn num_end(s: Seq<char>, i: int) -> Option<int> {
    match int_end(s, i) {
        Some(a) => match frac_end(s, a) {
            Some(b) => exp_end(s, b),
            None => None,
        },
        None => None,
    }
}

pub open spec fn hex_value(c: char) -> Option<int> {
    if is_dec(c) {
        Some(c as int - 48)
    } else if 'a' <= c <= 'f' {
        Some(c as int - 87)
    } else if 'A' <= c <= 'F' {
        Some(c as int - 55)
    } else {
        None
    }
}

/// The number that four hexadecimal digits at `i` denote.
pub open spec fn hex4(s: Seq<char>, i: int) -> Option<int> {
    if i < 0 || i + 4 > s.len() {
        None
    } else {
        match (hex_value(s[i]), hex_value(s[i + 1]), hex_value(s[i + 2]), hex_value(s[i + 3])) {
            (Some(a), Some(b), Some(c), Some(d)) => Some(4096 * a + 256 * b + 16 * c + d),
            _ => None,
        }
    }
}

/// The character that the escape at `i` stands for, and the offset behind it. A code point
/// beyond the first plane takes two escapes, a high and a low surrogate.
pub open spec fn escape_at(s: Seq<char>, i: int) -> Option<(char, int)> {
    if i + 1 >= s.len() {
        None
    } else {
        let e = s[i + 1];
        if e == '"' || e == '\\' || e == '/' {
            Some((e, i + 2))
        } else if e == 'b' {
            Some(('\u{8}', i + 2))
        } else if e == 'f' {
            Some(('\u{c}', i + 2))
        } else if e == 'n' {
            Some(('\n', i + 2))
        } else if e == 'r' {
            Some(('\r', i + 2))
        } else if e == 't' {
            Some(('\t', i + 2))
        } else if e == 'u' {
            match hex4(s, i + 2) {
                Some(x) => if 0xd800 <= x <= 0xdbff {
                    match hex4(s, i + 8) {
                        Some(y) => if at(s, i + 6, '\\') && at(s, i + 7, 'u') && 0xdc00 <= y
                            <= 0xdfff {
                            Some(
                                (
                                    (0x10000 + 0x400 * (x - 0xd800) + (y - 0xdc00)) as char,
                                    i + 12,
                                ),
                            )
                        } else {
                            None
                        },
                        None => None,
                    }
                } else if 0xdc00 <= x <= 0xdfff {
                    None
                } else {
                    Some((x as char, i + 6))
                },
                None => None,
            }
        } else {
            None
        }
    }
}

/// Reads the inside of a string from `i`, behind the text so far: the text and the offset
/// behind the closing quote.
pub open spec fn str_end(s: Seq<char>, i: int, acc: Seq<char>) -> Option<(Seq<char>, int)>
    decreases s.len() - i,
{
    if i < 0 || i >= s.len() {
        None
    } else if s[i] == '"' {
        Some((acc, i + 1))
    } else if s[i] == '\\' {
        match escape_at(s, i) {
            Some((c, n)) => str_end(s, n, acc.push(c)),
            None => None,
        }
    } else if s[i] <= '\u{1f}' {
        None
    } else {
        str_end(s, i + 1, acc.push(s[i]))
    }
}

/// Whether `w` stands at `i`.
pub open spec fn word_at(s: Seq<char>, i: int, w: Seq<char>) -> bool {
    0 <= i && i + w.len() <= s.len() && s.subrange(i, i + w.len()) == w
}

/// Reads a value from `i`, white space in front of it included: the value and the offset
/// behind it.
pub open spec fn value(s: Seq<char>, i: int) -> Option<(Val, int)>
    decreases s.len() - i, 0int,
    when 0 <= i
{
    let j = skip(s, i);
    if j < i || j >= s.len() {
        None
    } else if s[j] == '"' {
        match str_end(s, j + 1, Seq::empty()) {
            Some((t, n)) => Some((Val::Str(t), n)),
            None => None,
        }
    } else if s[j] == '[' {
        let k = skip(s, j + 1);
        if at(s, k, ']') {
            Some((Val::Arr(Seq::empty()), k + 1))
        } else {
            match items(s, j + 1, Seq::empty()) {
                Some((a, n)) => Some((Val::Arr(a), n)),
                None => None,
            }
        }
    } else if s[j] == '{' {
        let k = skip(s, j + 1);
        if at(s, k, '}') {
            Some((Val::Obj(Seq::empty()), k + 1))
        } else {
            match members(s, j + 1, Seq::empty()) {
                Some((o, n)) => Some((Val::Obj(o), n)),
                None => None,
            }
        }
    } else if word_at(s, j, "null"@) {
        Some((Val::Null, j + 4))
    } else if word_at(s, j, "true"@) {
        Some((Val::Bool(true), j + 4))
    } else if word_at(s, j, "false"@) {
        Some((Val::Bool(false), j + 5))
    } else {
        match num_end(s, j) {
            Some(n) => Some((Val::Num(s.subrange(j, n)), n)),
            None => None,
        }
    }
}

/// Reads the items of an array from `i`, behind those so far, and the bracket behind them.
pub open spec fn items(s: Seq<char>, i: int, acc: Seq<Val>) -> Option<(Seq<Val>, int)>
    decreases s.len() - i, 1int,
    when 0 <= i
{
    match value(s, i) {
        Some((v, n)) => {
            let k = skip(s, n);
            if k < i || k >= s.len() {
                None
            } else if s[k] == ',' {
                items(s, k + 1, acc.push(v))
            } else if s[k] == ']' {
                Some((acc.push(v), k + 1))
            } else {
                None
            }
        },
        None => None,
    }
}

/// Reads the members of an object from `i`, behind those so far, and the brace behind
/// them.
pub open spec fn members(s: Seq<char>, i: int, acc: Seq<(Seq<char>, Val)>) -> Option<
    (Seq<(Seq<char>, Val)>, int),
>
    decreases s.len() - i, 1int,
    when 0 <= i
{
    let q = skip(s, i);
    if !at(s, q, '"') {
        None
    } else {
        match str_end(s, q + 1, Seq::empty()) {
            Some((key, m)) => {
                let c = skip(s, m);
                if c < i || !at(s, c, ':') {
                    None
                } else {
                    match value(s, c + 1) {
                        Some((v, n)) => {
                            let k = skip(s, n);
                            if k < i || k >= s.len() {
                                None
                            } else if s[k] == ',' {
                                members(s, k + 1, acc.push((key, v)))
                            } else if s[k] == '}' {
                                Some((acc.push((key, v)), k + 1))
                            } else {
                                None
                            }
                        },
                        None => None,
                    }
                }
            },
            None => None,
        }
    }
}

/// The value of a whole text: nothing but white space stands behind it.
#[verifier::opaque]
pub open spec fn document(s: Seq<char>) -> Option<Val> {
    match value(s, 0) {
        Some((v, n)) => if skip(s, n) == s.len() {
            Some(v)
        } else {
            None
        },
        None => None,
    }
}

/// The value that a byte string denotes: it is well-formed UTF-8 and a JSON text.
pub open spec fn parsed(b: Seq<u8>) -> Option<Val> {
    if valid_utf8(b) {
        document(decode_utf8(b))
    } else {
        None
    }
}

/// The bytes are no JSON text.
#[derive(Debug, Clone, Copy, PartialEq, Eq, Structural)]
pub struct JsonError;

impl JsonError {
    /// The text that describes the error.
    pub fn message(&self) -> (res: String)
        ensures
            res@ == "invalid response: invalid JSON"@,
    {
        "invalid response: invalid JSON".to_owned()
    }
}

/// `char::from_u32` gives the character with a code point, where there is one.
pub assume_specification[ char::from_u32 ](i: u32) -> (res: Option<char>)
    ensures
        res is Some <==> is_scalar(i),
        res matches Some(c) ==> c as u32 == i,
;

fn skip_space(s: &[char], from: usize) -> (z: usize)
    requires
        from <= s@.len(),
    ensures
        z == skip(s@, from as int),
        from <= z <= s@.len(),
{
    let mut i: usize = from;
    while i < s.len() && (s[i] == ' ' || s[i] == '\t' || s[i] == '\n' || s[i] == '\r')
        invariant
            from <= i <= s@.len(),
            skip(s@, from as int) == skip(s@, i as int),
        decreases s.len() - i,
    {
        i += 1;
    }
    i
}

fn skip_digits(s: &[char], from: usize) -> (z: usize)
    requires
        from <= s@.len(),
    ensures
        z == digits_end(s@, from as int),
        from <= z <= s@.len(),
{
    let mut i: usize = from;
    while i < s.len() && '0' <= s[i] && s[i] <= '9'
        invariant
            from <= i <= s@.len(),
            digits_end(s@, from as int) == digits_end(s@, i as int),
        decreases s.len() - i,
    {
        i += 1;
    }
    i
}

fn char_at(s: &[char], i: usize, c: char) -> (res: bool)
    ensures
        res == at(s@, i as int, c),
        res ==> i < s.len(),
{
    i < s.len() && s[i] == c
}

fn read_number(s: &[char], from: usize) -> (res: Option<usize>)
    requires
        from < s@.len(),
    ensures
        match res {
            Some(z) => num_end(s@, from as int) == Some(z as int) && from < z <= s@.len(),
            None => num_end(s@, from as int) is None,
        },
{
    let a: usize = if char_at(s, from, '-') {
        from + 1
    } else {
        from
    };
    let b: usize = if char_at(s, a, '0') {
        a + 1
    } else {
        let z = skip_digits(s, a);
        if z == a {
            return None;
        }
        z
    };
    let c: usize = if char_at(s, b, '.') {
        let z = skip_digits(s, b + 1);
        if z == b + 1 {
            return None;
        }
        z
    } else {
        b
    };
    if char_at(s, c, 'e') || char_at(s, c, 'E') {
        let e: usize = if char_at(s, c + 1, '+') || char_at(s, c + 1, '-') {
            c + 2
        } else {
            c + 1
        };
        let z = skip_digits(s, e);
        if z == e {
            return None;
        }
        Some(z)
    } else {
        Some(c)
    }
}

fn hex_of(c: char) -> (res: Option<u32>)
    ensures
        match res {
            Some(n) => hex_value(c) == Some(n as int) && n < 16,
            None => hex_value(c) is None,
        },
{
    if '0' <= c && c <= '9' {
        Some(c as u32 - 48)
    } else if 'a' <= c && c <= 'f' {
        Some(c as u32 - 87)
    } else if 'A' <= c && c <= 'F' {
        Some(c as u32 - 55)
    } else {
        None
    }
}

fn read_hex4(s: &[char], from: usize) -> (res: Option<u32>)
    requires
        from <= s@.len(),
    ensures
        match res {
            Some(n) => hex4(s@, from as int) == Some(n as int) && n < 65536 && from + 4 <= s@.len(),
            None => hex4(s@, from as int) is None,
        },
{
    if s.len() - from < 4 {
        return None;
    }
    match (hex_of(s[from]), hex_of(s[from + 1]), hex_of(s[from + 2]), hex_of(s[from + 3])) {
        (Some(a), Some(b), Some(c), Some(d)) => Some(4096 * a + 256 * b + 16 * c + d),
        _ => None,
    }
}

fn read_escape(s: &[char], from: usize) -> (res: Option<(char, usize)>)
    requires
        from < s@.len(),
    ensures
        match res {
            Some((c, z)) => escape_at(s@, from as int) == Some((c, z as int)) && from < z
                <= s@.len(),
            None => escape_at(s@, from as int) is None,
        },
{
    if s.len() - from < 2 {
        return None;
    }
    let e = s[from + 1];
    if e == '"' || e == '\\' || e == '/' {
        Some((e, from + 2))
    } else if e == 'b' {
        Some(('\u{8}', from + 2))
    } else if e == 'f' {
        Some(('\u{c}', from + 2))
    } else if e == 'n' {
        Some(('\n', from + 2))
    } else if e == 'r' {
        Some(('\r', from + 2))
    } else if e == 't' {
        Some(('\t', from + 2))
    } else if e == 'u' {
        let x = match read_hex4(s, from + 2) {
            Some(x) => x,
            None => {
                return None;
            },
        };
        if 0xd800 <= x && x <= 0xdbff {
            if s.len() - from < 8 {
                return None;
            }
            match read_hex4(s, from + 8) {
                Some(y) => {
                    if s[from + 6] == '\\' && s[from + 7] == 'u' && 0xdc00 <= y && y <= 0xdfff {
                        let code: u32 = 0x10000 + 0x400 * (x - 0xd800) + (y - 0xdc00);
                        match char::from_u32(code) {
                            Some(c) => {
                                proof {
                                    char_u32_cast(c, code);
                                }
                                Some((c, from + 12))
                            },
                            None => None,
                        }
                    } else {
                        None
                    }
                },
                None => None,
            }
        } else {
            match char::from_u32(x) {
                Some(c) => {
                    proof {
                        char_u32_cast(c, x);
                    }
                    Some((c, from + 6))
                },
                None => None,
            }
        }
    } else {
        None
    }
}

/// Reads the inside of a string.
fn read_str(s: &[char], from: usize) -> (res: Option<(String, usize)>)
    requires
        from <= s@.len(),
    ensures
        match res {
            Some((t, z)) => str_end(s@, from as int, Seq::empty()) == Some((t@, z as int)) && from
                < z <= s@.len(),
            None => str_end(s@, from as int, Seq::empty()) is None,
        },
{
    let mut acc = String::new();
    let mut i: usize = from;
    while i < s.len()
        invariant
            from <= i <= s@.len(),
            str_end(s@, from as int, Seq::empty()) == str_end(s@, i as int, acc@),
        decreases s.len() - i,
    {
        let c = s[i];
        if c == '"' {
            return Some((acc, i + 1));
        }
        if c == '\\' {
            match read_escape(s, i) {
                Some((e, z)) => {
                    acc.push(e);
                    i = z;
                },
                None => {
                    return None;
                },
            }
        } else if c <= '\u{1f}' {
            return None;
        } else {
            acc.push(c);
            i += 1;
        }
    }
    None
}

fn read_word(s: &[char], from: usize, w: &str) -> (res: bool)
    requires
        from <= s@.len(),
    ensures
        res == word_at(s@, from as int, w@),
{
    let res = crate::text::begins(s, from, w);
    proof {
        if from + w@.len() <= s@.len() {
            assert(s@.skip(from as int).take(w@.len() as int) =~= s@.subrange(
                from as int,
                from + w@.len(),
            ));
        }
    }
    res
}

/// Reads a value.
fn read_value(s: &[char], from: usize) -> (res: Option<(Json, usize)>)
    requires
        from <= s@.len(),
    ensures
        match res {
            Some((v, z)) => value(s@, from as int) == Some((v@, z as int)) && from < z <= s@.len(),
            None => value(s@, from as int) is None,
        },
    decreases s@.len() - from, 0int,
{
    let j = skip_space(s, from);
    if j >= s.len() {
        return None;
    }
    let c = s[j];
    if c == '"' {
        match read_str(s, j + 1) {
            Some((t, z)) => Some((Json::Str(t), z)),
            None => None,
        }
    } else if c == '[' {
        let k = skip_space(s, j + 1);
        if char_at(s, k, ']') {
            let a: Vec<Json> = Vec::new();
            proof {
                assert(vals_of(a@) =~= Seq::<Val>::empty());
            }
            return Some((Json::Arr(a), k + 1));
        }
        match read_items(s, j + 1) {
            Some((a, z)) => Some((Json::Arr(a), z)),
            None => None,
        }
    } else if c == '{' {
        let k = skip_space(s, j + 1);
        if char_at(s, k, '}') {
            let o: Vec<(String, Json)> = Vec::new();
            proof {
                assert(members_of(o@) =~= Seq::<(Seq<char>, Val)>::empty());
            }
            return Some((Json::Obj(o), k + 1));
        }
        match read_members(s, j + 1) {
            Some((o, z)) => Some((Json::Obj(o), z)),
            None => None,
        }
    } else {
        proof {
            reveal_strlit("null");
            reveal_strlit("true");
            reveal_strlit("false");
        }
        if read_word(s, j, "null") {
            Some((Json::Null, j + 4))
        } else if read_word(s, j, "true") {
            Some((Json::Bool(true), j + 4))
        } else if read_word(s, j, "false") {
            Some((Json::Bool(false), j + 5))
        } else {
            match read_number(s, j) {
                Some(z) => Some((Json::Num(text_of(s, j, z)), z)),
                None => None,
            }
        }
    }
}

fn read_items(s: &[char], from: usize) -> (res: Option<(Vec<Json>, usize)>)
    requires
        from <= s@.len(),
    ensures
        match res {
            Some((a, z)) => items(s@, from as int, Seq::empty()) == Some((vals_of(a@), z as int))
                && from < z <= s@.len(),
            None => items(s@, from as int, Seq::empty()) is None,
        },
    decreases s@.len() - from, 1int,
{
    let mut a: Vec<Json> = Vec::new();
    let mut i: usize = from;
    proof {
        assert(vals_of(a@) =~= Seq::<Val>::empty());
    }
    loop
        invariant
            from <= i <= s@.len(),
            items(s@, from as int, Seq::empty()) == items(s@, i as int, vals_of(a@)),
        decreases s@.len() - i,
    {
        let ghost before = a@;
        match read_value(s, i) {
            Some((v, n)) => {
                a.push(v);
                proof {
                    assert(vals_of(a@) =~= vals_of(before).push(v@));
                }
                let k = skip_space(s, n);
                if k >= s.len() {
                    return None;
                }
                if s[k] == ',' {
                    i = k + 1;
                } else if s[k] == ']' {
                    return Some((a, k + 1));
                } else {
                    return None;
                }
            },
            None => {
                return None;
            },
        }
    }
}

fn read_members(s: &[char], from: usize) -> (res: Option<(Vec<(String, Json)>, usize)>)
    requires
        from <= s@.len(),
    ensures
        match res {
            Some((o, z)) => members(s@, from as int, Seq::empty()) == Some(
                (members_of(o@), z as int),
            ) && from < z <= s@.len(),
            None => members(s@, from as int, Seq::empty()) is None,
        },
    decreases s@.len() - from, 1int,
{
    let mut o: Vec<(String, Json)> = Vec::new();
    let mut i: usize = from;
    proof {
        assert(members_of(o@) =~= Seq::<(Seq<char>, Val)>::empty());
    }
    loop
        invariant
            from <= i <= s@.len(),
            members(s@, from as int, Seq::empty()) == members(s@, i as int, members_of(o@)),
        decreases s@.len() - i,
    {
        let ghost before = o@;
        let q = skip_space(s, i);
        if !char_at(s, q, '"') {
            return None;
        }
        let (key, m) = match read_str(s, q + 1) {
            Some(r) => r,
            None => {
                return None;
            },
        };
        let c = skip_space(s, m);
        if !char_at(s, c, ':') {
            return None;
        }
        match read_value(s, c + 1) {
            Some((v, n)) => {
                o.push((key, v));
                proof {
                    assert(members_of(o@) =~= members_of(before).push((key@, v@)));
                }
                let k = skip_space(s, n);
                if k >= s.len() {
                    return None;
                }
                if s[k] == ',' {
                    i = k + 1;
                } else if s[k] == '}' {
                    return Some((o, k + 1));
                } else {
                    return None;
                }
            },
            None => {
                return None;
            },
        }
    }
}

/// Reads the value that a byte string denotes.
pub fn parse(bytes: &[u8]) -> (res: Result<Json, JsonError>)
    ensures
        match res {
            Ok(v) => parsed(bytes@) == Some(v@),
            Err(_) => parsed(bytes@) is None,
        },
{
    proof {
        reveal(document);
    }
    match core::str::from_utf8(bytes) {
        Ok(text) => {
            proof {
                encode_utf8_decode_utf8(text@);
            }
            let chars = chars_of(text);
            match read_value(chars.as_slice(), 0) {
                Some((v, n)) => {
                    if skip_space(chars.as_slice(), n) == chars.len() {
                        Ok(v)
                    } else {
                        Err(JsonError)
                    }
                },
                None => Err(JsonError),
            }
        },
        Err(_) => Err(JsonError),
    }
}

// ---------------------------------------------------------------------------------
// Looking up
// ---------------------------------------------------------------------------------
/// The first member with a name, from `i` on.
pub open spec fn member_from(o: Seq<(Seq<char>, Val)>, i: int, key: Seq<char>) -> Option<Val>
    decreases o.len() - i,
{
    if i < 0 || i >= o.len() {
        None
    } else if o[i].0 == key {
        Some(o[i].1)
    } else {
        member_from(o, i + 1, key)
    }
}

/// The member of an object with a name; nothing of any other value.
pub open spec fn member(v: Val, key: Seq<char>) -> Option<Val> {
    match v {
        Val::Obj(o) => member_from(o, 0, key),
        _ => None,
    }
}

/// The text of a string; nothing of any other value.
pub open spec fn str_of(v: Val) -> Option<Seq<char>> {
    match v {
        Val::Str(s) => Some(s),
        _ => None,
    }
}

/// The text of the member with a name, where it is a string.
pub open spec fn member_str(v: Val, key: Seq<char>) -> Option<Seq<char>> {
    match member(v, key) {
        Some(m) => str_of(m),
        None => None,
    }
}

impl Json {
    /// The member of an object with a name.
    pub fn get(&self, key: &str) -> (res: Option<&Json>)
        ensures
            match res {
                Some(v) => member(self@, key@) == Some(v@),
                None => member(self@, key@) is None,
            },
    {
        match self {
            Json::Obj(o) => {
                let ghost m = members_of(o@);
                let mut i: usize = 0;
                while i < o.len()
                    invariant
                        i <= o@.len(),
                        m == members_of(o@),
                        self@ == Val::Obj(m),
                        member_from(m, 0, key@) == member_from(m, i as int, key@),
                    decreases o.len() - i,
                {
                    proof {
                        assert(m[i as int] == (o@[i as int].0@, o@[i as int].1@));
                    }
                    if text_eq(o[i].0.as_str(), key) {
                        return Some(&o[i].1);
                    }
                    i += 1;
                }
                None
            },
            _ => None,
        }
    }

    /// The text of a string.
    pub fn as_str(&self) -> (res: Option<&str>)
        ensures
            match res {
                Some(s) => str_of(self@) == Some(s@),
                None => str_of(self@) is None,
            },
    {
        match self {
            Json::Str(s) => Some(s.as_str()),
            _ => None,
        }
    }

    /// The text of the member with a name, where it is a string.
    pub fn get_str(&self, key: &str) -> (res: Option<&str>)
        ensures
            match res {
                Some(s) => member_str(self@, key@) == Some(s@),
                None => member_str(self@, key@) is None,
            },
    {
        match self.get(key) {
            Some(v) => v.as_str(),
            None => None,
        }
    }
}

/// The text of a member of a value that may be missing, empty where there is none.
pub open spec fn text_at(v: Option<Val>, key: Seq<char>) -> Seq<char> {
    match v {
        Some(x) => match member_str(x, key) {
            Some(s) => s,
            None => Seq::empty(),
        },
        None => Seq::empty(),
    }
}

/// A value that may be missing.
pub open spec fn maybe_val(v: Option<&Json>) -> Option<Val> {
    match v {
        Some(x) => Some(x@),
        None => None,
    }
}

/// The text of a member of a value that may be missing, empty where there is none.
pub fn text_in(v: Option<&Json>, key: &str) -> (res: String)
    ensures
        res@ == text_at(maybe_val(v), key@),
{
    if let Some(x) = v {
        if let Some(s) = x.get_str(key) {
            return s.to_owned();
        }
    }
    let res = String::new();
    proof {
        assert(res@ =~= Seq::empty());
    }
    res
}

// ---------------------------------------------------------------------------------
// A value inside a longer text
// ---------------------------------------------------------------------------------
/// Characters that may follow a value.
pub open spec fn is_delim(c: char) -> bool {
    c == ',' || c == ']' || c == '}'
}

/// `a` stands in `b` at `d`, and behind it nothing or a delimiter.
pub open spec fn embeds(a: Seq<char>, b: Seq<char>, d: int) -> bool {
    &&& 0 <= d
    &&& d + a.len() <= b.len()
    &&& forall|i: int| 0 <= i < a.len() ==> #[trigger] a[i] == b[i + d]
    &&& d + a.len() < b.len() ==> is_delim(b[d + a.len()])
}

proof fn lemma_skip(a: Seq<char>, i: int)
    requires
        0 <= i <= a.len(),
    ensures
        i <= skip(a, i) <= a.len(),
    decreases a.len() - i,
{
    if i < a.len() && is_space(a[i]) {
        lemma_skip(a, i + 1);
    }
}

proof fn lemma_digits(a: Seq<char>, i: int)
    requires
        0 <= i <= a.len(),
    ensures
        i <= digits_end(a, i) <= a.len(),
    decreases a.len() - i,
{
    if i < a.len() && is_dec(a[i]) {
        lemma_digits(a, i + 1);
    }
}

proof fn lemma_embed_skip(a: Seq<char>, b: Seq<char>, d: int, i: int)
    requires
        embeds(a, b, d),
        0 <= i <= a.len(),
    ensures
        i <= skip(a, i) <= a.len(),
        skip(b, i + d) == skip(a, i) + d,
    decreases a.len() - i,
{
    if i < a.len() {
        assert(a[i] == b[i + d]);
        if is_space(a[i]) {
            lemma_embed_skip(a, b, d, i + 1);
        }
    }
}

proof fn lemma_embed_digits(a: Seq<char>, b: Seq<char>, d: int, i: int)
    requires
        embeds(a, b, d),
        0 <= i <= a.len(),
    ensures
        i <= digits_end(a, i) <= a.len(),
        digits_end(b, i + d) == digits_end(a, i) + d,
    decreases a.len() - i,
{
    if i < a.len() {
        assert(a[i] == b[i + d]);
        if is_dec(a[i]) {
            lemma_embed_digits(a, b, d, i + 1);
        }
    }
}

proof fn lemma_embed_at(a: Seq<char>, b: Seq<char>, d: int, i: int, c: char)
    requires
        embeds(a, b, d),
        0 <= i <= a.len(),
        !is_delim(c),
    ensures
        at(b, i + d, c) == at(a, i, c),
{
    if i < a.len() {
        assert(a[i] == b[i + d]);
    }
}

proof fn lemma_embed_num(a: Seq<char>, b: Seq<char>, d: int, i: int)
    requires
        embeds(a, b, d),
        0 <= i < a.len(),
        num_end(a, i) is Some,
    ensures
        i < num_end(a, i)->0 <= a.len(),
        num_end(b, i + d) == Some(num_end(a, i)->0 + d),
{
    lemma_embed_at(a, b, d, i, '-');
    let x = if at(a, i, '-') {
        i + 1
    } else {
        i
    };
    lemma_embed_at(a, b, d, x, '0');
    lemma_embed_digits(a, b, d, x);
    let y = int_end(a, i)->0;
    assert(int_end(b, i + d) == Some(y + d));
    lemma_embed_at(a, b, d, y, '.');
    if at(a, y, '.') {
        lemma_embed_digits(a, b, d, y + 1);
    }
    let z = frac_end(a, y)->0;
    assert(frac_end(b, y + d) == Some(z + d));
    lemma_embed_at(a, b, d, z, 'e');
    lemma_embed_at(a, b, d, z, 'E');
    if at(a, z, 'e') || at(a, z, 'E') {
        lemma_embed_at(a, b, d, z + 1, '+');
        lemma_embed_at(a, b, d, z + 1, '-');
        let e = if at(a, z + 1, '+') || at(a, z + 1, '-') {
            z + 2
        } else {
            z + 1
        };
        lemma_embed_digits(a, b, d, e);
    }
}

proof fn lemma_embed_str(a: Seq<char>, b: Seq<char>, d: int, i: int, acc: Seq<char>)
    requires
        embeds(a, b, d),
        0 <= i <= a.len(),
        str_end(a, i, acc) is Some,
    ensures
        i < (str_end(a, i, acc)->0).1 <= a.len(),
        str_end(b, i + d, acc) == Some(((str_end(a, i, acc)->0).0, (str_end(a, i, acc)->0).1 + d)),
    decreases a.len() - i,
{
    assert(a[i] == b[i + d]);
    if a[i] == '"' {
    } else if a[i] == '\\' {
        let (c, n) = escape_at(a, i)->0;
        assert(a[i + 1] == b[i + 1 + d]);
        if a[i + 1] == 'u' {
            assert(a[i + 2] == b[i + 2 + d]);
            assert(a[i + 3] == b[i + 3 + d]);
            assert(a[i + 4] == b[i + 4 + d]);
            assert(a[i + 5] == b[i + 5 + d]);
            assert(hex4(b, i + d + 2) == hex4(a, i + 2));
            let x = hex4(a, i + 2)->0;
            if 0xd800 <= x <= 0xdbff {
                assert(a[i + 6] == b[i + 6 + d]);
                assert(a[i + 7] == b[i + 7 + d]);
                assert(a[i + 8] == b[i + 8 + d]);
                assert(a[i + 9] == b[i + 9 + d]);
                assert(a[i + 10] == b[i + 10 + d]);
                assert(a[i + 11] == b[i + 11 + d]);
                assert(hex4(b, i + d + 8) == hex4(a, i + 8));
            }
        }
        assert(escape_at(b, i + d) == Some((c, n + d)));
        lemma_embed_str(a, b, d, n, acc.push(c));
    } else {
        lemma_embed_str(a, b, d, i + 1, acc.push(a[i]));
    }
}

proof fn lemma_embed_word(a: Seq<char>, b: Seq<char>, d: int, i: int, w: Seq<char>)
    requires
        embeds(a, b, d),
        word_at(a, i, w),
    ensures
        word_at(b, i + d, w),
{
    assert(b.subrange(i + d, i + d + w.len()) =~= w) by {
        assert forall|k: int| 0 <= k < w.len() implies b.subrange(i + d, i + d + w.len())[k]
            == w[k] by {
            assert(w[k] == a.subrange(i, i + w.len())[k]);
            assert(a[i + k] == b[i + k + d]);
        }
    }
}

/// A word does not stand where another character than its first does.
pub proof fn lemma_not_word(s: Seq<char>, i: int, w: Seq<char>)
    requires
        w.len() > 0,
        0 <= i < s.len(),
        s[i] != w[0],
    ensures
        !word_at(s, i, w),
{
    if word_at(s, i, w) {
        assert(s.subrange(i, i + w.len())[0] == s[i]);
    }
}

/// A number starts with a minus sign or a digit.
proof fn lemma_num_first(s: Seq<char>, i: int)
    requires
        0 <= i < s.len(),
        num_end(s, i) is Some,
    ensures
        s[i] == '-' || is_dec(s[i]),
{
}

/// A value is read in the same way wherever it stands.
proof fn lemma_embed_value(a: Seq<char>, b: Seq<char>, d: int, i: int)
    requires
        embeds(a, b, d),
        0 <= i <= a.len(),
        value(a, i) is Some,
    ensures
        i < (value(a, i)->0).1 <= a.len(),
        value(b, i + d) == Some(((value(a, i)->0).0, (value(a, i)->0).1 + d)),
    decreases a.len() - i, 0int,
{
    lemma_embed_skip(a, b, d, i);
    let j = skip(a, i);
    assert(a[j] == b[j + d]);
    reveal_strlit("null");
    reveal_strlit("true");
    reveal_strlit("false");
    if a[j] == '"' {
        lemma_embed_str(a, b, d, j + 1, Seq::empty());
    } else if a[j] == '[' {
        lemma_embed_skip(a, b, d, j + 1);
        let k = skip(a, j + 1);
        if at(a, k, ']') {
            assert(a[k] == b[k + d]);
        } else {
            lemma_embed_items(a, b, d, j + 1, Seq::empty());
            lemma_items_first(a, j + 1, Seq::empty());
            assert(a[k] == b[k + d]);
        }
    } else if a[j] == '{' {
        lemma_embed_skip(a, b, d, j + 1);
        let k = skip(a, j + 1);
        if at(a, k, '}') {
            assert(a[k] == b[k + d]);
        } else {
            lemma_embed_members(a, b, d, j + 1, Seq::empty());
            assert(a[k] == b[k + d]);
        }
    } else if word_at(a, j, "null"@) {
        lemma_embed_word(a, b, d, j, "null"@);
    } else if word_at(a, j, "true"@) {
        assert(a.subrange(j, j + 4)[0] == a[j]);
        lemma_not_word(b, j + d, "null"@);
        lemma_embed_word(a, b, d, j, "true"@);
    } else if word_at(a, j, "false"@) {
        assert(a.subrange(j, j + 5)[0] == a[j]);
        lemma_not_word(b, j + d, "null"@);
        lemma_not_word(b, j + d, "true"@);
        lemma_embed_word(a, b, d, j, "false"@);
    } else {
        lemma_num_first(a, j);
        lemma_not_word(b, j + d, "null"@);
        lemma_not_word(b, j + d, "true"@);
        lemma_not_word(b, j + d, "false"@);
        lemma_embed_num(a, b, d, j);
        let n = num_end(a, j)->0;
        assert(b.subrange(j + d, n + d) =~= a.subrange(j, n)) by {
            assert forall|k: int| 0 <= k < n - j implies b.subrange(j + d, n + d)[k] == a.subrange(
                j,
                n,
            )[k] by {
                assert(a[j + k] == b[j + k + d]);
            }
        }
    }
}

/// Where items can be read, the next character is there and is no closing bracket.
proof fn lemma_items_first(s: Seq<char>, i: int, acc: Seq<Val>)
    requires
        0 <= i <= s.len(),
        items(s, i, acc) is Some,
    ensures
        skip(s, i) < s.len(),
        s[skip(s, i)] != ']',
{
    lemma_skip(s, i);
    let j = skip(s, i);
    assert(value(s, i) is Some);
    if j < s.len() && s[j] == ']' {
        reveal_strlit("null");
        reveal_strlit("true");
        reveal_strlit("false");
        lemma_not_word(s, j, "null"@);
        lemma_not_word(s, j, "true"@);
        lemma_not_word(s, j, "false"@);
        assert(num_end(s, j) is None);
    }
}

proof fn lemma_embed_items(a: Seq<char>, b: Seq<char>, d: int, i: int, acc: Seq<Val>)
    requires
        embeds(a, b, d),
        0 <= i <= a.len(),
        items(a, i, acc) is Some,
    ensures
        i < (items(a, i, acc)->0).1 <= a.len(),
        items(b, i + d, acc) == Some(((items(a, i, acc)->0).0, (items(a, i, acc)->0).1 + d)),
    decreases a.len() - i, 1int,
{
    lemma_embed_value(a, b, d, i);
    let (v, n) = value(a, i)->0;
    lemma_embed_skip(a, b, d, n);
    let k = skip(a, n);
    assert(a[k] == b[k + d]);
    if a[k] == ',' {
        lemma_embed_items(a, b, d, k + 1, acc.push(v));
    }
}

proof fn lemma_embed_members(
    a: Seq<char>,
    b: Seq<char>,
    d: int,
    i: int,
    acc: Seq<(Seq<char>, Val)>,
)
    requires
        embeds(a, b, d),
        0 <= i <= a.len(),
        members(a, i, acc) is Some,
    ensures
        i < (members(a, i, acc)->0).1 <= a.len(),
        members(b, i + d, acc) == Some(((members(a, i, acc)->0).0, (members(a, i, acc)->0).1 + d)),
    decreases a.len() - i, 1int,
{
    lemma_embed_skip(a, b, d, i);
    let q = skip(a, i);
    assert(a[q] == b[q + d]);
    lemma_embed_str(a, b, d, q + 1, Seq::empty());
    let (key, m) = str_end(a, q + 1, Seq::empty())->0;
    lemma_embed_skip(a, b, d, m);
    let c = skip(a, m);
    assert(a[c] == b[c + d]);
    lemma_embed_value(a, b, d, c + 1);
    let (v, n) = value(a, c + 1)->0;
    lemma_embed_skip(a, b, d, n);
    let k = skip(a, n);
    assert(a[k] == b[k + d]);
    if a[k] == ',' {
        lemma_embed_members(a, b, d, k + 1, acc.push((key, v)));
    }
}

/// A value that fills a text can be read where that text stands in a longer one: it takes
/// up at most the text, and only white space is left of it.
pub proof fn lemma_document_inside(a: Seq<char>, b: Seq<char>, d: int)
    requires
        embeds(a, b, d),
        document(a) is Some,
    ensures
        value(b, d) matches Some((v, n)) && document(a) == Some(v) && d < n <= d + a.len() && skip(
            b,
            n,
        ) == d + a.len(),
{
    reveal(document);
    lemma_embed_value(a, b, d, 0);
    lemma_embed_skip(a, b, d, (value(a, 0)->0).1);
}

// ---------------------------------------------------------------------------------
// Reading back what was written
// ---------------------------------------------------------------------------------
/// A text that is a number.
pub open spec fn is_number(n: Seq<char>) -> bool {
    num_end(n, 0) == Some(n.len() as int)
}

/// The numbers in a value are numbers.
pub open spec fn well_formed(v: Val) -> bool
    decreases v,
{
    match v {
        Val::Num(n) => is_number(n),
        Val::Arr(a) => forall|i: int| 0 <= i < a.len() ==> well_formed(#[trigger] a[i]),
        Val::Obj(o) => forall|i: int| 0 <= i < o.len() ==> well_formed((#[trigger] o[i]).1),
        _ => true,
    }
}

/// Escaping goes character by character.
pub proof fn lemma_esc_first(s: Seq<char>)
    requires
        s.len() > 0,
    ensures
        esc(s) == esc_char(s[0]) + esc(s.drop_first()),
    decreases s.len(),
{
    if s.len() == 1 {
        assert(s.drop_last() =~= Seq::<char>::empty());
        assert(s.drop_first() =~= Seq::<char>::empty());
        assert(esc(s) =~= esc_char(s[0]) + esc(s.drop_first()));
    } else {
        lemma_esc_first(s.drop_last());
        assert(s.drop_last().drop_first() =~= s.drop_first().drop_last());
        assert(esc(s) =~= esc_char(s[0]) + (esc(s.drop_first().drop_last()) + esc_char(s.last())));
    }
}

proof fn lemma_read_esc_char(s: Seq<char>, i: int, c: char, acc: Seq<char>)
    requires
        0 <= i,
        i + esc_char(c).len() <= s.len(),
        s.subrange(i, i + esc_char(c).len()) == esc_char(c),
    ensures
        str_end(s, i, acc) == str_end(s, i + esc_char(c).len(), acc.push(c)),
{
    let e = esc_char(c);
    assert(s.subrange(i, i + e.len())[0] == s[i]);
    if e.len() > 1 {
        assert(s.subrange(i, i + e.len())[1] == s[i + 1]);
        if e.len() == 6 {
            assert(s.subrange(i, i + e.len())[2] == s[i + 2]);
            assert(s.subrange(i, i + e.len())[3] == s[i + 3]);
            assert(s.subrange(i, i + e.len())[4] == s[i + 4]);
            assert(s.subrange(i, i + e.len())[5] == s[i + 5]);
            assert(hex_value(hex(c as int / 16)) == Some(c as int / 16));
            assert(hex_value(hex(c as int % 16)) == Some(c as int % 16));
            assert(hex4(s, i + 2) == Some(c as int));
            assert((c as int) as char == c);
        }
        assert(escape_at(s, i) == Some((c, i + e.len())));
    }
}

/// An escaped text and a quote behind it read as the text.
proof fn lemma_read_esc(s: Seq<char>, i: int, t: Seq<char>, acc: Seq<char>)
    requires
        0 <= i,
        i + esc(t).len() < s.len(),
        s.subrange(i, i + esc(t).len()) == esc(t),
        s[i + esc(t).len()] == '"',
    ensures
        str_end(s, i, acc) == Some((acc + t, i + esc(t).len() + 1)),
    decreases t.len(),
{
    if t.len() == 0 {
        assert(acc + t =~= acc);
    } else {
        let c = t[0];
        let rest = t.drop_first();
        lemma_esc_first(t);
        let n = esc_char(c).len();
        assert(s.subrange(i, i + n) =~= esc_char(c)) by {
            assert forall|k: int| 0 <= k < n implies s.subrange(i, i + n)[k] == esc_char(c)[k] by {
                assert(s.subrange(i, i + esc(t).len())[k] == esc(t)[k]);
            }
        }
        lemma_read_esc_char(s, i, c, acc);
        assert(s.subrange(i + n, i + n + esc(rest).len()) =~= esc(rest)) by {
            assert forall|k: int| 0 <= k < esc(rest).len() implies s.subrange(
                i + n,
                i + n + esc(rest).len(),
            )[k] == esc(rest)[k] by {
                assert(s.subrange(i, i + esc(t).len())[n + k] == esc(t)[n + k]);
            }
        }
        lemma_read_esc(s, i + n, rest, acc.push(c));
        assert(acc.push(c) + rest =~= acc + t);
    }
}

/// A string that stands at `i` reads as its text.
proof fn lemma_read_str(s: Seq<char>, i: int, t: Seq<char>)
    requires
        0 <= i,
        i + str_text(t).len() <= s.len(),
        s.subrange(i, i + str_text(t).len()) == str_text(t),
    ensures
        s[i] == '"',
        str_end(s, i + 1, Seq::empty()) == Some((t, i + str_text(t).len())),
{
    let w = str_text(t);
    let n = esc(t).len() as int;
    assert(s.subrange(i, i + w.len())[0] == s[i]);
    assert(s.subrange(i, i + w.len())[n + 1] == s[i + n + 1]);
    assert(s.subrange(i + 1, i + 1 + n) =~= esc(t)) by {
        assert forall|k: int| 0 <= k < n implies s.subrange(i + 1, i + 1 + n)[k] == esc(t)[k] by {
            assert(s.subrange(i, i + w.len())[k + 1] == w[k + 1]);
        }
    }
    lemma_read_esc(s, i + 1, t, Seq::empty());
    assert(Seq::<char>::empty() + t =~= t);
}

/// Offset of piece `k` among the joined ones.
spec fn piece_at(p: Seq<Seq<char>>, k: int) -> int {
    joined(p, k).len() + (if k > 0 {
        1int
    } else {
        0
    })
}

proof fn lemma_piece_place(p: Seq<Seq<char>>, n: int, k: int)
    requires
        0 <= k < n <= p.len(),
    ensures
        ({
            let t = joined(p, n);
            let q = piece_at(p, k);
            &&& q + p[k].len() <= t.len()
            &&& t.subrange(q, q + p[k].len()) == p[k]
            &&& k < n - 1 ==> q + p[k].len() < t.len() && t[q + p[k].len()] == ','
            &&& k == n - 1 ==> q + p[k].len() == t.len()
            &&& joined(p, k + 1).len() == q + p[k].len()
        }),
    decreases n,
{
    let t = joined(p, n);
    let q = piece_at(p, k);
    if k == n - 1 {
        assert(t.subrange(q, q + p[k].len()) =~= p[k]);
    } else {
        lemma_piece_place(p, n - 1, k);
        let u = joined(p, n - 1);
        assert(t.subrange(q, q + p[k].len()) =~= u.subrange(q, q + p[k].len()));
    }
}

/// The items from `k` on are read from the text of an array.
proof fn lemma_read_items(p: Seq<Seq<char>>, a: Seq<Val>, k: int)
    requires
        0 <= k < a.len(),
        p.len() == a.len(),
        forall|i: int| 0 <= i < a.len() ==> document(#[trigger] p[i]) == Some(a[i]),
    ensures
        ({
            let s = raw_arr(p);
            let q = 1 + piece_at(p, k);
            &&& items(s, q, a.take(k)) == Some((a, s.len() as int))
            &&& skip(s, q) < s.len()
            &&& s[skip(s, q)] != ']'
        }),
    decreases a.len() - k,
{
    reveal(document);
    reveal(raw_arr);
    let s = raw_arr(p);
    let n = a.len() as int;
    let t = joined(p, n);
    let q = 1 + piece_at(p, k);
    let w = p[k];
    lemma_piece_place(p, n, k);
    assert(embeds(w, s, q)) by {
        assert forall|i: int| 0 <= i < w.len() implies #[trigger] w[i] == s[i + q] by {
            assert(t.subrange(q - 1, q - 1 + w.len())[i] == w[i]);
        }
    }
    assert(document(p[k]) == Some(a[k]));
    lemma_document_inside(w, s, q);
    let z = q + w.len();
    assert(s[z] == (if k < n - 1 {
        ','
    } else {
        ']'
    }));
    assert(a.take(k).push(a[k]) =~= a.take(k + 1));
    if k < n - 1 {
        lemma_read_items(p, a, k + 1);
        assert(z + 1 == 1 + piece_at(p, k + 1));
    } else {
        assert(a.take(k + 1) =~= a);
    }
    lemma_items_first(s, q, a.take(k));
}

/// An array of JSON texts reads as the array of their values.
pub proof fn lemma_array(p: Seq<Seq<char>>, a: Seq<Val>)
    requires
        p.len() == a.len(),
        forall|i: int| 0 <= i < a.len() ==> document(#[trigger] p[i]) == Some(a[i]),
    ensures
        document(raw_arr(p)) == Some(Val::Arr(a)),
{
    reveal(document);
    reveal(raw_arr);
    let s = raw_arr(p);
    if a.len() == 0 {
        assert(s[1] == ']');
        assert(skip(s, 1) == 1);
        assert(a =~= Seq::<Val>::empty());
    } else {
        lemma_read_items(p, a, 0);
        assert(piece_at(p, 0) == 0);
        assert(a.take(0) =~= Seq::<Val>::empty());
    }
    assert(skip(s, s.len() as int) == s.len());
}

/// The members from `k` on are read from the text of an object.
#[verifier::rlimit(40)]
#[verifier::spinoff_prover]
proof fn lemma_read_members(m: Seq<(Seq<char>, Seq<char>)>, o: Seq<(Seq<char>, Val)>, k: int)
    requires
        0 <= k < o.len(),
        m.len() == o.len(),
        forall|i: int|
            0 <= i < o.len() ==> (#[trigger] m[i]).0 == o[i].0 && document(m[i].1) == Some(o[i].1),
    ensures
        ({
            let s = raw_obj(m);
            let q = 1 + piece_at(member_texts(m), k);
            &&& members(s, q, o.take(k)) == Some((o, s.len() as int))
            &&& skip(s, q) < s.len()
            &&& s[skip(s, q)] == '"'
        }),
    decreases o.len() - k,
{
    reveal(document);
    reveal(raw_obj);
    let s = raw_obj(m);
    let p = member_texts(m);
    let n = o.len() as int;
    let t = joined(p, n);
    let q = 1 + piece_at(p, k);
    let u = p[k];
    let key = str_text(m[k].0);
    let w = m[k].1;
    lemma_piece_place(p, n, k);
    assert forall|i: int| 0 <= i < u.len() implies u[i] == #[trigger] s[i + q] by {
        assert(t.subrange(q - 1, q - 1 + u.len())[i] == u[i]);
    }
    assert(s.subrange(q, q + key.len()) =~= key) by {
        assert forall|i: int| 0 <= i < key.len() implies s.subrange(q, q + key.len())[i]
            == key[i] by {
            assert(u[i] == s[i + q]);
        }
    }
    lemma_read_str(s, q, m[k].0);
    assert(skip(s, q) == q);
    let c = q + key.len();
    assert(u[key.len() as int] == s[key.len() + q]);
    assert(s[c] == ':');
    assert(skip(s, c) == c);
    assert(embeds(w, s, c + 1)) by {
        assert forall|i: int| 0 <= i < w.len() implies #[trigger] w[i] == s[i + (c + 1)] by {
            assert(u[key.len() + 1 + i] == s[key.len() + 1 + i + q]);
        }
    }
    assert(document(m[k].1) == Some(o[k].1));
    lemma_document_inside(w, s, c + 1);
    let z = c + 1 + w.len();
    assert(s[z] == (if k < n - 1 {
        ','
    } else {
        '}'
    }));
    assert(o[k] == (o[k].0, o[k].1));
    assert(o.take(k).push(o[k]) =~= o.take(k + 1));
    if k < n - 1 {
        lemma_read_members(m, o, k + 1);
        assert(z + 1 == 1 + piece_at(p, k + 1));
    } else {
        assert(o.take(k + 1) =~= o);
    }
}

/// An object whose members are JSON texts reads as the object of their values.
pub proof fn lemma_object(m: Seq<(Seq<char>, Seq<char>)>, o: Seq<(Seq<char>, Val)>)
    requires
        m.len() == o.len(),
        forall|i: int|
            0 <= i < o.len() ==> (#[trigger] m[i]).0 == o[i].0 && document(m[i].1) == Some(o[i].1),
    ensures
        document(raw_obj(m)) == Some(Val::Obj(o)),
{
    reveal(document);
    reveal(raw_obj);
    let s = raw_obj(m);
    if o.len() == 0 {
        assert(s[1] == '}');
        assert(skip(s, 1) == 1);
        assert(o =~= Seq::<(Seq<char>, Val)>::empty());
    } else {
        lemma_read_members(m, o, 0);
        assert(piece_at(member_texts(m), 0) == 0);
        assert(o.take(0) =~= Seq::<(Seq<char>, Val)>::empty());
    }
    assert(skip(s, s.len() as int) == s.len());
}

/// A string reads as its text.
pub proof fn lemma_string(t: Seq<char>)
    ensures
        document(str_text(t)) == Some(Val::Str(t)),
{
    reveal(document);
    let s = str_text(t);
    assert(s.subrange(0, s.len() as int) =~= s);
    lemma_read_str(s, 0, t);
}

proof fn lemma_items_joined(a: Seq<Val>, n: int)
    requires
        0 <= n <= a.len(),
    ensures
        items_text(a, n) == joined(Seq::new(a.len(), |i: int| text(a[i])), n),
    decreases n,
{
    if n > 1 {
        lemma_items_joined(a, n - 1);
    }
}

proof fn lemma_members_joined(o: Seq<(Seq<char>, Val)>, n: int)
    requires
        0 <= n <= o.len(),
    ensures
        members_text(o, n) == joined(
            member_texts(Seq::new(o.len(), |i: int| (o[i].0, text(o[i].1)))),
            n,
        ),
    decreases n,
{
    if n > 1 {
        lemma_members_joined(o, n - 1);
        let p = member_texts(Seq::new(o.len(), |i: int| (o[i].0, text(o[i].1))));
        assert(members_text(o, n) =~= joined(p, n - 1) + seq![','] + p[n - 1]);
    }
}

proof fn lemma_read_text(v: Val)
    requires
        well_formed(v),
    ensures
        document(text(v)) == Some(v),
    decreases v,
{
    reveal(document);
    reveal(raw_arr);
    reveal(raw_obj);
    let s = text(v);
    reveal_strlit("null");
    reveal_strlit("true");
    reveal_strlit("false");
    match v {
        Val::Null => {
            assert(s.subrange(0, 4) =~= s);
        },
        Val::Bool(b) => {
            assert(s.subrange(0, s.len() as int) =~= s);
            lemma_not_word(s, 0, "null"@);
            if !b {
                lemma_not_word(s, 0, "true"@);
            }
        },
        Val::Num(n) => {
            lemma_number(n);
        },
        Val::Str(t) => {
            lemma_string(t);
        },
        Val::Arr(a) => {
            let p = Seq::new(a.len(), |i: int| text(a[i]));
            assert forall|i: int| 0 <= i < a.len() implies document(#[trigger] p[i]) == Some(
                a[i],
            ) by {
                assert(well_formed(a[i]));
                lemma_read_text(a[i]);
            }
            lemma_items_joined(a, a.len() as int);
            lemma_array(p, a);
        },
        Val::Obj(o) => {
            let m = Seq::new(o.len(), |i: int| (o[i].0, text(o[i].1)));
            assert forall|i: int| 0 <= i < o.len() implies (#[trigger] m[i]).0 == o[i].0 && document(
                m[i].1,
            ) == Some(o[i].1) by {
                assert(well_formed(o[i].1));
                lemma_read_text(o[i].1);
            }
            lemma_members_joined(o, o.len() as int);
            lemma_object(m, o);
        },
    }
}

/// A number reads as itself.
pub proof fn lemma_number(n: Seq<char>)
    requires
        is_number(n),
    ensures
        document(n) == Some(Val::Num(n)),
{
    reveal(document);
    assert(n.len() > 0) by {
        if n.len() == 0 {
            assert(int_end(n, 0) is None);
        }
    }
    lemma_num_first(n, 0);
    reveal_strlit("null");
    reveal_strlit("true");
    reveal_strlit("false");
    lemma_not_word(n, 0, "null"@);
    lemma_not_word(n, 0, "true"@);
    lemma_not_word(n, 0, "false"@);
    assert(n.subrange(0, n.len() as int) =~= n);
}

/// The word for null reads as null.
pub proof fn lemma_null()
    ensures
        document("null"@) == Some(Val::Null),
{
    reveal(document);
    reveal_strlit("null");
    let s = "null"@;
    assert(s.subrange(0, 4) =~= s);
}

/// The word for false reads as false.
pub proof fn lemma_false()
    ensures
        document("false"@) == Some(Val::Bool(false)),
{
    reveal(document);
    reveal_strlit("false");
    reveal_strlit("true");
    reveal_strlit("null");
    let s = "false"@;
    assert(s.subrange(0, 5) =~= s);
    lemma_not_word(s, 0, "null"@);
    lemma_not_word(s, 0, "true"@);
}

/// The word for true reads as true.
pub proof fn lemma_true()
    ensures
        document("true"@) == Some(Val::Bool(true)),
{
    reveal(document);
    reveal_strlit("true");
    reveal_strlit("null");
    let s = "true"@;
    assert(s.subrange(0, 4) =~= s);
    lemma_not_word(s, 0, "null"@);
}

proof fn lemma_digits_end(s: Seq<char>, i: int)
    requires
        0 <= i <= s.len(),
        forall|k: int| i <= k < s.len() ==> is_dec(#[trigger] s[k]),
    ensures
        digits_end(s, i) == s.len(),
    decreases s.len() - i,
{
    if i < s.len() {
        lemma_digits_end(s, i + 1);
    }
}

proof fn lemma_dec_first(n: nat)
    ensures
        dec(n).len() > 0,
        n > 0 ==> dec(n)[0] != '0',
        n == 0 ==> dec(n) == seq!['0'],
    decreases n,
{
    if n >= 10 {
        lemma_dec_first(n / 10);
        assert(dec(n)[0] == dec(n / 10)[0]);
    }
}

/// A written number is a JSON number, and reading it gives the number back.
pub proof fn lemma_signed_number(n: int, min: int, max: int)
    requires
        min <= n <= max,
        min <= 0 <= max,
    ensures
        is_number(signed_dec(n)),
        signed_value(signed_dec(n), min, max) == Some(n),
        n >= 0 ==> signed_dec(n) == dec(n as nat) && unsigned_value(dec(n as nat), max as nat)
            == Some(n as nat),
{
    let s = signed_dec(n);
    let m: nat = if n < 0 {
        (-n) as nat
    } else {
        n as nat
    };
    let d = dec(m);
    lemma_dec_value(m);
    lemma_dec_first(m);
    assert(is_digit(d[0]));
    let a: int = if n < 0 {
        1
    } else {
        0
    };
    assert forall|k: int| a <= k < s.len() implies is_dec(#[trigger] s[k]) by {
        assert(s[k] == d[k - a]);
        assert(is_digit(d[k - a]));
    }
    lemma_digits_end(s, a);
    assert(s[a] == d[0]);
    if n < 0 {
        assert(s.drop_first() =~= d);
    } else {
        assert(s[0] != '-' && s[0] != '+');
    }
}

/// What was written is read back as it was.
pub proof fn law_write_read(v: Val)
    requires
        well_formed(v),
    ensures
        document(text(v)) == Some(v),
        parsed(encode_utf8(text(v))) == Some(v),
{
    lemma_read_text(v);
    encode_utf8_valid_utf8(text(v));
    encode_utf8_decode_utf8(text(v));
}

proof fn lemma_digits_cut(s: Seq<char>, j: int, n: int, p: int)
    requires
        0 <= j <= p <= n <= s.len(),
        digits_end(s, p) <= n,
    ensures
        digits_end(s.subrange(j, n), p - j) == digits_end(s, p) - j,
    decreases n - p,
{
    if p < n {
        assert(s.subrange(j, n)[p - j] == s[p]);
        if is_dec(s[p]) {
            lemma_digits_cut(s, j, n, p + 1);
        }
    } else if p < s.len() && is_dec(s[p]) {
        lemma_digits(s, p + 1);
    }
}

/// A number taken out of a text is a number.
proof fn lemma_num_cut(s: Seq<char>, j: int)
    requires
        0 <= j < s.len(),
        num_end(s, j) is Some,
    ensures
        j < num_end(s, j)->0 <= s.len(),
        is_number(s.subrange(j, num_end(s, j)->0)),
{
    let n = num_end(s, j)->0;
    let x = if at(s, j, '-') {
        j + 1
    } else {
        j
    };
    lemma_digits(s, x);
    let y = int_end(s, j)->0;
    if at(s, y, '.') {
        lemma_digits(s, y + 1);
    }
    let z = frac_end(s, y)->0;
    let e = if at(s, z + 1, '+') || at(s, z + 1, '-') {
        z + 2
    } else {
        z + 1
    };
    if at(s, z, 'e') || at(s, z, 'E') {
        lemma_digits(s, e);
    }
    let t = s.subrange(j, n);
    assert forall|p: int, c: char| j <= p < n implies #[trigger] at(t, p - j, c) == at(s, p, c) by {}
    assert(at(t, 0, '-') == at(s, j, '-')) by {
        assert(at(t, j - j, '-') == at(s, j, '-'));
    }
    if !at(s, x, '0') {
        lemma_digits_cut(s, j, n, x);
    }
    assert(at(t, x - j, '0') == at(s, x, '0'));
    assert(int_end(t, 0) == Some(y - j));
    if at(s, y, '.') {
        lemma_digits_cut(s, j, n, y + 1);
        assert(at(t, y - j, '.'));
    } else if y < n {
        assert(at(t, y - j, '.') == at(s, y, '.'));
    }
    assert(frac_end(t, y - j) == Some(z - j));
    if at(s, z, 'e') || at(s, z, 'E') {
        lemma_digits_cut(s, j, n, e);
        assert(at(t, z - j, 'e') == at(s, z, 'e'));
        assert(at(t, z - j, 'E') == at(s, z, 'E'));
        assert(at(t, z + 1 - j, '+') == at(s, z + 1, '+'));
        assert(at(t, z + 1 - j, '-') == at(s, z + 1, '-'));
    }
    assert(exp_end(t, z - j) == Some(n - j));
}

proof fn lemma_value_wf(s: Seq<char>, i: int)
    requires
        0 <= i <= s.len(),
    ensures
        value(s, i) matches Some((v, n)) ==> well_formed(v) && i < n <= s.len(),
    decreases s.len() - i, 0int,
{
    lemma_skip(s, i);
    assert(embeds(s, s, 0));
    if value(s, i) is Some {
        lemma_embed_value(s, s, 0, i);
        let j = skip(s, i);
        reveal_strlit("null");
        reveal_strlit("true");
        reveal_strlit("false");
        if s[j] == '"' {
        } else if s[j] == '[' {
            if !at(s, skip(s, j + 1), ']') {
                lemma_items_wf(s, j + 1, Seq::empty());
            }
        } else if s[j] == '{' {
            if !at(s, skip(s, j + 1), '}') {
                lemma_members_wf(s, j + 1, Seq::empty());
            }
        } else if !word_at(s, j, "null"@) && !word_at(s, j, "true"@) && !word_at(s, j, "false"@) {
            lemma_num_cut(s, j);
        }
    }
}

proof fn lemma_items_wf(s: Seq<char>, i: int, acc: Seq<Val>)
    requires
        0 <= i <= s.len(),
        forall|k: int| 0 <= k < acc.len() ==> well_formed(#[trigger] acc[k]),
    ensures
        items(s, i, acc) matches Some((a, _)) ==> forall|k: int|
            0 <= k < a.len() ==> well_formed(#[trigger] a[k]),
    decreases s.len() - i, 1int,
{
    lemma_value_wf(s, i);
    if let Some((v, n)) = value(s, i) {
        lemma_skip(s, n);
        let k = skip(s, n);
        let more = acc.push(v);
        assert forall|x: int| 0 <= x < more.len() implies well_formed(#[trigger] more[x]) by {
            if x < acc.len() {
                assert(more[x] == acc[x]);
            }
        }
        if k < s.len() && s[k] == ',' {
            lemma_items_wf(s, k + 1, more);
        }
    }
}

proof fn lemma_members_wf(s: Seq<char>, i: int, acc: Seq<(Seq<char>, Val)>)
    requires
        0 <= i <= s.len(),
        forall|k: int| 0 <= k < acc.len() ==> well_formed((#[trigger] acc[k]).1),
    ensures
        members(s, i, acc) matches Some((o, _)) ==> forall|k: int|
            0 <= k < o.len() ==> well_formed((#[trigger] o[k]).1),
    decreases s.len() - i, 1int,
{
    lemma_skip(s, i);
    let q = skip(s, i);
    assert(embeds(s, s, 0));
    if at(s, q, '"') {
        if let Some((key, m)) = str_end(s, q + 1, Seq::empty()) {
            lemma_embed_str(s, s, 0, q + 1, Seq::empty());
            lemma_skip(s, m);
            let c = skip(s, m);
            if at(s, c, ':') {
                lemma_value_wf(s, c + 1);
                if let Some((v, n)) = value(s, c + 1) {
                    lemma_skip(s, n);
                    let k = skip(s, n);
                    let more = acc.push((key, v));
                    assert forall|x: int| 0 <= x < more.len() implies well_formed(
                        (#[trigger] more[x]).1,
                    ) by {
                        if x < acc.len() {
                            assert(more[x] == acc[x]);
                        }
                    }
                    if k < s.len() && s[k] == ',' {
                        lemma_members_wf(s, k + 1, more);
                    }
                }
            }
        }
    }
}

/// What was read is well-formed, so that writing it and reading that again gives it back:
/// the text of a value that was read is a canonical form of what it was read from.
pub proof fn law_read_write(s: Seq<char>)
    requires
        document(s) is Some,
    ensures
        well_formed(document(s)->0),
        document(text(document(s)->0)) == document(s),
{
    reveal(document);
    lemma_value_wf(s, 0);
    law_write_read(document(s)->0);
}

/// Values as they are written: the words, numbers as they are, strings between quotes, arrays and
/// objects with commas between what they hold, and a colon behind each name.
pub proof fn law_values_are_written(
    v: Val,
    w: Val,
    a: Seq<Val>,
    key: Seq<char>,
    o: Seq<(Seq<char>, Val)>,
    n: Seq<char>,
)
    ensures
        text(Val::Null) == "null"@,
        text(Val::Bool(true)) == "true"@,
        text(Val::Bool(false)) == "false"@,
        text(Val::Num(n)) == n,
        text(Val::Str(n)) == seq!['"'] + esc(n) + seq!['"'],
        text(Val::Arr(Seq::empty())) == seq!['[', ']'],
        text(Val::Arr(seq![v])) == seq!['['] + text(v) + seq![']'],
        text(Val::Arr(seq![v, w])) == seq!['['] + text(v) + seq![','] + text(w) + seq![']'],
        a.len() > 0 ==> text(Val::Arr(a.push(w))) == text(Val::Arr(a)).drop_last() + seq![','] + text(w)
            + seq![']'],
        text(Val::Obj(Seq::empty())) == seq!['{', '}'],
        text(Val::Obj(seq![(key, v)])) == seq!['{'] + text(Val::Str(key)) + seq![':'] + text(v) + seq![
            '}',
        ],
        o.len() > 0 ==> text(Val::Obj(o.push((key, w)))) == text(Val::Obj(o)).drop_last() + seq![',']
            + text(Val::Str(key)) + seq![':'] + text(w) + seq!['}'],
{
    reveal_with_fuel(items_text, 3);
    reveal_with_fuel(members_text, 2);
    let none: Seq<Val> = Seq::empty();
    assert(text(Val::Arr(none)) =~= seq!['[', ']']);
    let empty: Seq<(Seq<char>, Val)> = Seq::empty();
    assert(text(Val::Obj(empty)) =~= seq!['{', '}']);
    assert(text(Val::Arr(seq![v])) =~= seq!['['] + text(v) + seq![']']);
    lemma_one_item(v, w);
    assert(text(Val::Arr(seq![v, w])) =~= seq!['['] + text(v) + seq![','] + text(w) + seq![']']);
    assert(text(Val::Obj(seq![(key, v)])) =~= seq!['{'] + text(Val::Str(key)) + seq![':'] + text(v)
        + seq!['}']);
    if a.len() > 0 {
        let b = a.push(w);
        lemma_items_prefix(a, b, a.len() as int);
        assert(text(Val::Arr(a)).drop_last() =~= seq!['['] + items_text(a, a.len() as int));
        assert(items_text(b, b.len() as int) == items_text(b, a.len() as int) + seq![','] + text(w));
        assert(text(Val::Arr(b)) =~= text(Val::Arr(a)).drop_last() + seq![','] + text(w) + seq![']']);
    }
    if o.len() > 0 {
        let b = o.push((key, w));
        lemma_members_prefix(o, b, o.len() as int);
        assert(text(Val::Obj(o)).drop_last() =~= seq!['{'] + members_text(o, o.len() as int));
        assert(members_text(b, b.len() as int) == members_text(b, o.len() as int) + seq![',']
            + str_text(key) + seq![':'] + text(w));
        assert(text(Val::Obj(b)) =~= text(Val::Obj(o)).drop_last() + seq![','] + text(Val::Str(key))
            + seq![':'] + text(w) + seq!['}']);
    }
}

proof fn lemma_one_item(v: Val, w: Val)
    ensures
        items_text(seq![v, w], 2) == text(v) + seq![','] + text(w),
{
    reveal_with_fuel(items_text, 2);
    let a = seq![v, w];
    assert(items_text(a, 1) == text(a[0]));
}

proof fn lemma_items_prefix(a: Seq<Val>, b: Seq<Val>, n: int)
    requires
        n <= a.len() <= b.len(),
        forall|i: int| 0 <= i < a.len() ==> a[i] == b[i],
    ensures
        items_text(a, n) == items_text(b, n),
    decreases n,
{
    if n > 1 {
        lemma_items_prefix(a, b, n - 1);
    }
}

proof fn lemma_members_prefix(a: Seq<(Seq<char>, Val)>, b: Seq<(Seq<char>, Val)>, n: int)
    requires
        n <= a.len() <= b.len(),
        forall|i: int| 0 <= i < a.len() ==> a[i] == b[i],
    ensures
        members_text(a, n) == members_text(b, n),
    decreases n,
{
    if n > 1 {
        lemma_members_prefix(a, b, n - 1);
    }
}

/// Characters as they are written in a string: the quote, the backslash and the control characters
/// are escaped, and every other stands for itself.
pub proof fn law_characters_are_escaped(s: Seq<char>, c: char)
    ensures
        esc(Seq::empty()) == Seq::<char>::empty(),
        esc(s.push(c)) == esc(s) + esc_char(c),
        esc_char('"') == seq!['\\', '"'],
        esc_char('\\') == seq!['\\', '\\'],
        esc_char('\n') == seq!['\\', 'n'],
        esc_char('\r') == seq!['\\', 'r'],
        esc_char('\t') == seq!['\\', 't'],
        c > '\u{1f}' && c != '"' && c != '\\' ==> esc_char(c) == seq![c],
        c <= '\u{1f}' && c != '\n' && c != '\r' && c != '\t' ==> {
            let e = esc_char(c);
            &&& e.len() == 6 && e[0] == '\\' && e[1] == 'u' && e[2] == '0' && e[3] == '0'
            &&& e[4] == (if c <= '\u{f}' {
                '0'
            } else {
                '1'
            })
            &&& ('0' <= e[5] <= '9' && e[5] as int - 48 == c as int % 16) || ('a' <= e[5] <= 'f'
                && e[5] as int - 87 == c as int % 16)
        },
{
    assert(s.push(c).drop_last() =~= s);
}

/// Escapes as they are read: those of two characters, and those of a `\u` with four hexadecimal
/// digits, of which two make one character where the first is a high surrogate and the second a low
/// one. A surrogate alone and any other escape are refused.
pub proof fn law_escapes_are_read(s: Seq<char>, i: int, x: int, y: int)
    requires
        0 <= i,
        i + 1 < s.len(),
        s[i] == '\\',
    ensures
        s[i + 1] == '"' ==> escape_at(s, i) == Some(('"', i + 2)),
        s[i + 1] == '\\' ==> escape_at(s, i) == Some(('\\', i + 2)),
        s[i + 1] == '/' ==> escape_at(s, i) == Some(('/', i + 2)),
        s[i + 1] == 'b' ==> escape_at(s, i) == Some(('\u{8}', i + 2)),
        s[i + 1] == 'f' ==> escape_at(s, i) == Some(('\u{c}', i + 2)),
        s[i + 1] == 'n' ==> escape_at(s, i) == Some(('\n', i + 2)),
        s[i + 1] == 'r' ==> escape_at(s, i) == Some(('\r', i + 2)),
        s[i + 1] == 't' ==> escape_at(s, i) == Some(('\t', i + 2)),
        s[i + 1] == 'u' && hex4(s, i + 2) == Some(x) && (x < 0xd800 || x > 0xdfff) ==> escape_at(s, i)
            == Some((x as char, i + 6)),
        s[i + 1] == 'u' && hex4(s, i + 2) == Some(x) && 0xdc00 <= x <= 0xdfff ==> escape_at(s, i) is None,
        s[i + 1] == 'u' && hex4(s, i + 2) == Some(x) && 0xd800 <= x <= 0xdbff && hex4(s, i + 8) == Some(
            y,
        ) && 0xdc00 <= y <= 0xdfff && s[i + 6] == '\\' && s[i + 7] == 'u' ==> escape_at(s, i) == Some(
            ((65536 + (x - 55296) * 1024 + (y - 56320)) as char, i + 12),
        ),
        !(s[i + 1] == '"' || s[i + 1] == '\\' || s[i + 1] == '/' || s[i + 1] == 'b' || s[i + 1] == 'f'
            || s[i + 1] == 'n' || s[i + 1] == 'r' || s[i + 1] == 't' || s[i + 1] == 'u') ==> escape_at(
            s,
            i,
        ) is None,
{
}

/// Hexadecimal digits count in their order, whatever their case.
pub proof fn law_hexadecimal_digits(s: Seq<char>, i: int, a: int, b: int, c: int, d: int)
    requires
        0 <= i,
        i + 4 <= s.len(),
    ensures
        hex_value(s[i]) == Some(a) && hex_value(s[i + 1]) == Some(b) && hex_value(s[i + 2]) == Some(c)
            && hex_value(s[i + 3]) == Some(d) ==> hex4(s, i) == Some(
            ((a * 16 + b) * 16 + c) * 16 + d,
        ),
        '0' <= s[i] <= '9' ==> hex_value(s[i]) == Some(s[i] as int - '0' as int),
        'a' <= s[i] <= 'f' ==> hex_value(s[i]) == Some(10 + s[i] as int - 'a' as int),
        'A' <= s[i] <= 'F' ==> hex_value(s[i]) == Some(10 + s[i] as int - 'A' as int),
        !('0' <= s[i] <= '9') && !('a' <= s[i] <= 'f') && !('A' <= s[i] <= 'F') ==> hex_value(s[i])
            is None,
{
}

/// Strings as they are read: up to the closing quote each character stands for itself and each
/// escape for its character; a control character and a missing quote are refused.
pub proof fn law_strings_are_read(s: Seq<char>, i: int, acc: Seq<char>)
    requires
        0 <= i <= s.len(),
    ensures
        i == s.len() ==> str_end(s, i, acc) is None,
        i < s.len() && s[i] == '"' ==> str_end(s, i, acc) == Some((acc, i + 1)),
        i < s.len() && s[i] == '\\' ==> (match escape_at(s, i) {
            Some((c, n)) => n > i ==> str_end(s, i, acc) == str_end(s, n, acc.push(c)),
            None => str_end(s, i, acc) is None,
        }),
        i < s.len() && s[i] <= '\u{1f}' ==> str_end(s, i, acc) is None,
        i < s.len() && s[i] > '\u{1f}' && s[i] != '"' && s[i] != '\\' ==> str_end(s, i, acc) == str_end(
            s,
            i + 1,
            acc.push(s[i]),
        ),
{
}

/// White space before a value, and around what stands between values, makes no difference: it is
/// blanks, tabs, newlines and carriage returns.
pub proof fn law_white_space_is_skipped(s: Seq<char>, i: int)
    requires
        0 <= i < s.len(),
    ensures
        s[i] == ' ' || s[i] == '\t' || s[i] == '\n' || s[i] == '\r' ==> skip(s, i) == skip(s, i + 1)
            && value(s, i) == value(s, i + 1),
        s[i] != ' ' && s[i] != '\t' && s[i] != '\n' && s[i] != '\r' ==> skip(s, i) == i,
{
    if is_space(s[i]) {
        lemma_skip_range(s, i + 1);
    }
}

proof fn lemma_skip_range(s: Seq<char>, i: int)
    requires
        0 <= i <= s.len(),
    ensures
        i <= skip(s, i) <= s.len(),
    decreases s.len() - i,
{
    if i < s.len() && is_space(s[i]) {
        lemma_skip_range(s, i + 1);
    }
}

/// Values as they are read, by their first character: a string, an array, an object, one of the
/// three words, or a number.
pub proof fn law_values_are_read(s: Seq<char>, i: int, n: int)
    requires
        0 <= i < s.len(),
        !is_space(s[i]),
    ensures
        s[i] == '"' ==> (match str_end(s, i + 1, Seq::empty()) {
            Some((t, z)) => value(s, i) == Some((Val::Str(t), z)),
            None => value(s, i) is None,
        }),
        i + 4 <= s.len() && s.subrange(i, i + 4) == "null"@ ==> value(s, i) == Some((Val::Null, i + 4)),
        i + 4 <= s.len() && s.subrange(i, i + 4) == "true"@ ==> value(s, i) == Some(
            (Val::Bool(true), i + 4),
        ),
        i + 5 <= s.len() && s.subrange(i, i + 5) == "false"@ ==> value(s, i) == Some(
            (Val::Bool(false), i + 5),
        ),
        ('0' <= s[i] <= '9' || s[i] == '-') && num_end(s, i) == Some(n) ==> value(s, i) == Some(
            (Val::Num(s.subrange(i, n)), n),
        ),
        s[i] == '[' && i + 1 < s.len() && s[i + 1] == ']' ==> value(s, i) == Some(
            (Val::Arr(Seq::empty()), i + 2),
        ),
        s[i] == '{' && i + 1 < s.len() && s[i + 1] == '}' ==> value(s, i) == Some(
            (Val::Obj(Seq::empty()), i + 2),
        ),
{
    reveal_strlit("null");
    reveal_strlit("true");
    reveal_strlit("false");
    assert("null"@[0] == 'n' && "true"@[0] == 't' && "false"@[0] == 'f');
    if i + 4 <= s.len() {
        assert(s.subrange(i, i + 4)[0] == s[i]);
    }
    if i + 5 <= s.len() {
        assert(s.subrange(i, i + 5)[0] == s[i]);
    }
    if s[i] != 'n' {
        lemma_not_word(s, i, "null"@);
    }
    if s[i] != 't' {
        lemma_not_word(s, i, "true"@);
    }
    if s[i] != 'f' {
        lemma_not_word(s, i, "false"@);
    }
}

/// The items of an array and the members of an object are read in their order, with a comma behind
/// each but the last; a member is a string, a colon and a value.
pub proof fn law_items_are_read(
    s: Seq<char>,
    i: int,
    v: Val,
    n: int,
    acc: Seq<Val>,
    key: Seq<char>,
    m: int,
    mem: Seq<(Seq<char>, Val)>,
)
    requires
        0 <= i <= n < s.len(),
        !is_space(s[n]),
    ensures
        value(s, i) == Some((v, n)) && s[n] == ',' ==> items(s, i, acc) == items(
            s,
            n + 1,
            acc.push(v),
        ),
        value(s, i) == Some((v, n)) && s[n] == ']' ==> items(s, i, acc) == Some((acc.push(v), n + 1)),
        value(s, i) == Some((v, n)) && s[n] != ',' && s[n] != ']' ==> items(s, i, acc) is None,
        s[i] == '"' && str_end(s, i + 1, Seq::empty()) == Some((key, m)) && i < m < s.len() && s[m] == ':'
            && value(s, m + 1) == Some((v, n)) ==> {
            &&& s[n] == ',' ==> members(s, i, mem) == members(s, n + 1, mem.push((key, v)))
            &&& s[n] == '}' ==> members(s, i, mem) == Some((mem.push((key, v)), n + 1))
            &&& s[n] != ',' && s[n] != '}' ==> members(s, i, mem) is None
        },
{
}

/// A text is a value with nothing but white space around it.
pub proof fn law_a_text_is_one_value(s: Seq<char>, v: Val, n: int)
    ensures
        value(s, 0) == Some((v, n)) && n == s.len() ==> document(s) == Some(v),
        value(s, 0) is None ==> document(s) is None,
        value(s, 0) == Some((v, n)) && 0 <= n < s.len() && !is_space(s[n]) ==> document(s) is None,
{
    reveal(document);
}

/// A member is the first with its name.
pub proof fn law_first_member_counts(o: Seq<(Seq<char>, Val)>, key: Seq<char>, i: int)
    requires
        0 <= i <= o.len(),
        forall|k: int| 0 <= k < i ==> (#[trigger] o[k]).0 != key,
    ensures
        i < o.len() && o[i].0 == key ==> member(Val::Obj(o), key) == Some(o[i].1),
        i == o.len() ==> member(Val::Obj(o), key) is None,
        i < o.len() && o[i].0 == key ==> (o[i].1 matches Val::Str(t) ==> member_str(Val::Obj(o), key)
            == Some(t)),
        i < o.len() && o[i].0 == key && !(o[i].1 is Str) ==> member_str(Val::Obj(o), key) is None,
{
    lemma_member_skip(o, key, 0, i);
}

proof fn lemma_member_skip(o: Seq<(Seq<char>, Val)>, key: Seq<char>, j: int, i: int)
    requires
        0 <= j <= i <= o.len(),
        forall|k: int| 0 <= k < i ==> (#[trigger] o[k]).0 != key,
    ensures
        member_from(o, j, key) == member_from(o, i, key),
    decreases i - j,
{
    if j < i {
        assert(o[j].0 != key);
        lemma_member_skip(o, key, j + 1, i);
    }
}

proof fn lemma_digits_to(s: Seq<char>, i: int, z: int)
    requires
        0 <= i <= z <= s.len(),
        forall|k: int| i <= k < z ==> '0' <= #[trigger] s[k] <= '9',
        z == s.len() || !('0' <= s[z] <= '9'),
    ensures
        digits_end(s, i) == z,
    decreases z - i,
{
    if i < z {
        assert('0' <= s[i] <= '9');
        lemma_digits_to(s, i + 1, z);
    }
}

/// Numbers as they are read: a minus or none; one digit 0, or digits that begin otherwise; a point
/// and digits, or none; an `e`, a sign or none, and digits, or none.
pub proof fn law_numbers_are_read(s: Seq<char>, i: int, z: int)
    requires
        0 <= i <= z <= s.len(),
        forall|k: int| i <= k < z ==> '0' <= #[trigger] s[k] <= '9',
        z == s.len() || !('0' <= s[z] <= '9'),
    ensures
        i < z && s[i] != '0' ==> int_end(s, i) == Some(z),
        i < z && s[i] == '0' ==> int_end(s, i) == Some(i + 1),
        i == z && !(z < s.len() && s[z] == '-') ==> int_end(s, i) is None,
        i > 0 && s[i - 1] == '-' ==> int_end(s, i - 1) == (if i == z {
            None
        } else if s[i] == '0' {
            Some(i + 1)
        } else {
            Some(z)
        }),
        i > 0 && s[i - 1] == '.' ==> frac_end(s, i - 1) == (if i == z {
            None
        } else {
            Some(z)
        }),
        i > 0 && (s[i - 1] == 'e' || s[i - 1] == 'E') && !(i < s.len() && (s[i] == '+' || s[i] == '-'))
            ==> exp_end(s, i - 1) == (if i == z {
            None
        } else {
            Some(z)
        }),
        i > 1 && (s[i - 2] == 'e' || s[i - 2] == 'E') && (s[i - 1] == '+' || s[i - 1] == '-')
            ==> exp_end(s, i - 2) == (if i == z {
            None
        } else {
            Some(z)
        }),
        i < s.len() && s[i] != '.' ==> frac_end(s, i) == Some(i),
        i < s.len() && s[i] != 'e' && s[i] != 'E' ==> exp_end(s, i) == Some(i),
        match int_end(s, i) {
            Some(a) => match frac_end(s, a) {
                Some(b) => num_end(s, i) == exp_end(s, b),
                None => num_end(s, i) is None,
            },
            None => num_end(s, i) is None,
        },
{
    lemma_digits_to(s, i, z);
}

} // verus!
