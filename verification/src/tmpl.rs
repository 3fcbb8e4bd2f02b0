//! `{{KEY}}` prompt templates, and skills and roles written in Markdown.
//!
//! `substitute` replaces `{{KEY}}` placeholders by values; a key is `[A-Z][A-Z0-9_]*`. A
//! placeholder without a value is an error. A value without a placeholder is not, but
//! `substitute_warn_unused` names it.
//!
//! `load_skill` and `load_role` read the text of a file under
//! `<root>/.agents/{skills,roles}/<name>.md`: an optional frontmatter with `name`,
//! `description` and `args`, and the body behind it.

use vstd::prelude::*;
use vstd::utf8::*;

use crate::paths::{path_for, path_in};
use crate::table::{distinct, lemma_names, Table};
use crate::text::{
    begins, chars_of, dec, find_char, is_white, lemma_seek_char, maybe, push_dec, quote, quoted, seek_char,
    starts_with, text_eq, text_of, texts, trim, trim_end, trim_start, trimmed, trimmed_end,
    trimmed_start,
};

verus! {

/// Why a template or a file could not be used.
#[derive(Debug)]
pub enum TmplError {
    /// The template has a placeholder for which there is no value.
    MissingArg(String),
    /// A value that the template does not use; never returned by `substitute`.
    UnknownArg(String),
    /// The text of an operating-system error.
    Io(String),
    /// A malformed placeholder or a malformed frontmatter, and why.
    BadFrontmatter(String),
}

/// Mathematical form of a `TmplError`.
pub enum Trouble {
    Missing(Seq<char>),
    Unknown(Seq<char>),
    Io(Seq<char>),
    Bad(Seq<char>),
}

impl View for TmplError {
    type V = Trouble;

    open spec fn view(&self) -> Trouble {
        match *self {
            TmplError::MissingArg(s) => Trouble::Missing(s@),
            TmplError::UnknownArg(s) => Trouble::Unknown(s@),
            TmplError::Io(s) => Trouble::Io(s@),
            TmplError::BadFrontmatter(s) => Trouble::Bad(s@),
        }
    }
}

/// The line that describes an error.
pub open spec fn trouble_text(t: Trouble) -> Seq<char> {
    match t {
        Trouble::Missing(k) => "missing template arg: {{"@ + k + "}}"@,
        Trouble::Unknown(k) => "unused template arg: "@ + k,
        Trouble::Io(e) => "io: "@ + e,
        Trouble::Bad(s) => "bad template/frontmatter: "@ + s,
    }
}

impl TmplError {
    /// The text that describes the error.
    pub fn message(&self) -> (res: String)
        ensures
            res@ == trouble_text(self@),
    {
        match self {
            TmplError::MissingArg(k) => {
                let mut res = "missing template arg: {{".to_owned();
                res.push_str(k.as_str());
                res.push_str("}}");
                res
            },
            TmplError::UnknownArg(k) => {
                let mut res = "unused template arg: ".to_owned();
                res.push_str(k.as_str());
                res
            },
            TmplError::Io(e) => {
                let mut res = "io: ".to_owned();
                res.push_str(e.as_str());
                res
            },
            TmplError::BadFrontmatter(s) => {
                let mut res = "bad template/frontmatter: ".to_owned();
                res.push_str(s.as_str());
                res
            },
        }
    }
}

// ---------------------------------------------------------------------------------
// Placeholders
// ---------------------------------------------------------------------------------
/// Offset of the first place at or after `i` where `c` stands twice in a row, or the
/// length where there is none.
pub open spec fn twice(s: Seq<char>, i: int, c: char) -> int
    decreases s.len() - i,
{
    if i + 1 >= s.len() {
        s.len() as int
    } else if s[i] == c && s[i + 1] == c {
        i
    } else {
        twice(s, i + 1, c)
    }
}

pub proof fn lemma_twice(s: Seq<char>, i: int, c: char)
    requires
        0 <= i <= s.len(),
    ensures
        i <= twice(s, i, c) <= s.len(),
        twice(s, i, c) < s.len() ==> twice(s, i, c) + 2 <= s.len(),
    decreases s.len() - i,
{
    if i + 1 < s.len() && !(s[i] == c && s[i + 1] == c) {
        lemma_twice(s, i + 1, c);
    }
}

pub open spec fn is_upper(c: char) -> bool {
    'A' <= c <= 'Z'
}

pub open spec fn is_key_char(c: char) -> bool {
    is_upper(c) || '0' <= c <= '9' || c == '_'
}

pub open spec fn all_key_chars(s: Seq<char>) -> bool {
    forall|i: int| 0 <= i < s.len() ==> is_key_char(#[trigger] s[i])
}

/// Why a key at byte `at` is refused, if it is.
pub open spec fn key_fault(key: Seq<char>, at: nat) -> Option<Seq<char>> {
    if key.len() == 0 {
        Some("empty key in '{{}}' at byte "@ + dec(at))
    } else if !is_upper(key[0]) {
        Some(
            "invalid template key "@ + quoted(key) + " at byte "@ + dec(at)
                + ": must start with [A-Z]"@,
        )
    } else if !all_key_chars(key) {
        Some(
            "invalid template key "@ + quoted(key) + " at byte "@ + dec(at)
                + ": must match [A-Z][A-Z0-9_]*"@,
        )
    } else {
        None
    }
}

/// The template from `i` on with its placeholders replaced, behind the text so far, and
/// the keys used, each once, in the order of their first use.
pub open spec fn filled(
    t: Seq<char>,
    i: int,
    args: Map<Seq<char>, String>,
    out: Seq<char>,
    used: Seq<Seq<char>>,
) -> Result<(Seq<char>, Seq<Seq<char>>), Trouble>
    decreases t.len() - i,
    when 0 <= i <= t.len()
{
    let open = twice(t, i, '{');
    if open >= t.len() {
        Ok((out + t.skip(i), used))
    } else {
        let at = encode_utf8(t.take(open)).len();
        let close = twice(t, open + 2, '}');
        if close >= t.len() {
            Err(
                Trouble::Bad(
                    "unterminated '{{' starting at byte "@ + dec(at) + ": no matching '}}'"@,
                ),
            )
        } else {
            let key = t.subrange(open + 2, close);
            match key_fault(key, at) {
                Some(why) => Err(Trouble::Bad(why)),
                None => if args.contains_key(key) {
                    proof {
                        lemma_twice(t, i, '{');
                        lemma_twice(t, open + 2, '}');
                    }
                    filled(
                        t,
                        close + 2,
                        args,
                        out + t.subrange(i, open) + args[key]@,
                        if used.contains(key) {
                            used
                        } else {
                            used.push(key)
                        },
                    )
                } else {
                    Err(Trouble::Missing(key))
                },
            }
        }
    }
}

/// The template with its placeholders replaced, and the keys used.
pub open spec fn substitution(t: Seq<char>, args: Map<Seq<char>, String>) -> Result<
    (Seq<char>, Seq<Seq<char>>),
    Trouble,
> {
    filled(t, 0, args, Seq::empty(), Seq::empty())
}

fn find_twice(s: &[char], from: usize, c: char) -> (z: usize)
    requires
        from <= s@.len(),
    ensures
        z == twice(s@, from as int, c),
        from <= z <= s@.len(),
        z < s@.len() ==> z + 2 <= s.len(),
{
    let mut i: usize = from;
    while i < s.len() && s.len() - i > 1
        invariant
            from <= i <= s@.len(),
            twice(s@, from as int, c) == twice(s@, i as int, c),
        decreases s.len() - i,
    {
        if s[i] == c && s[i + 1] == c {
            return i;
        }
        i += 1;
    }
    s.len()
}

fn bad(msg: String) -> (e: TmplError)
    ensures
        e@ == Trouble::Bad(msg@),
{
    TmplError::BadFrontmatter(msg)
}

fn invalid_key(key: &str, at: usize, why: &str) -> (msg: String)
    ensures
        msg@ == "invalid template key "@ + quoted(key@) + " at byte "@ + dec(at as nat) + why@,
{
    let mut msg = "invalid template key ".to_owned();
    msg.push_str(quote(key).as_str());
    msg.push_str(" at byte ");
    push_dec(&mut msg, at as u128);
    msg.push_str(why);
    msg
}

/// Checks a key that was found at byte `at`.
fn validate_key(key: &str, at: usize) -> (res: Result<(), TmplError>)
    ensures
        match res {
            Ok(_) => key_fault(key@, at as nat) is None,
            Err(e) => key_fault(key@, at as nat) matches Some(why) && e@ == Trouble::Bad(why),
        },
{
    let chars = chars_of(key);
    if chars.len() == 0 {
        let mut msg = "empty key in '{{}}' at byte ".to_owned();
        push_dec(&mut msg, at as u128);
        return Err(bad(msg));
    }
    if !('A' <= chars[0] && chars[0] <= 'Z') {
        return Err(bad(invalid_key(key, at, ": must start with [A-Z]")));
    }
    let mut i: usize = 0;
    while i < chars.len()
        invariant
            i <= chars@.len(),
            chars@ == key@,
            key@.len() > 0,
            is_upper(key@[0]),
            forall|k: int| 0 <= k < i ==> is_key_char(#[trigger] key@[k]),
        decreases chars.len() - i,
    {
        let c = chars[i];
        if !(('A' <= c && c <= 'Z') || ('0' <= c && c <= '9') || c == '_') {
            proof {
                assert(!is_key_char(key@[i as int]));
            }
            return Err(bad(invalid_key(key, at, ": must match [A-Z][A-Z0-9_]*")));
        }
        i += 1;
    }
    Ok(())
}

fn listed(list: &Vec<String>, name: &str) -> (res: bool)
    ensures
        res == texts(list@).contains(name@),
{
    let mut i: usize = 0;
    while i < list.len()
        invariant
            i <= list@.len(),
            forall|k: int| 0 <= k < i ==> (#[trigger] texts(list@)[k]) != name@,
        decreases list.len() - i,
    {
        if text_eq(list[i].as_str(), name) {
            proof {
                assert(texts(list@)[i as int] == name@);
            }
            return true;
        }
        i += 1;
    }
    false
}

fn substitute_impl(template: &str, args: &Table<String>) -> (res: Result<
    (String, Vec<String>),
    TmplError,
>)
    ensures
        match res {
            Ok((out, used)) => substitution(template@, args@) == Ok::<_, Trouble>(
                (out@, texts(used@)),
            ),
            Err(e) => substitution(template@, args@) == Err::<(Seq<char>, Seq<Seq<char>>), _>(e@),
        },
{
    let chars = chars_of(template);
    let t = chars.as_slice();
    let ghost goal = substitution(template@, args@);
    let mut out = String::new();
    let mut used: Vec<String> = Vec::new();
    let mut i: usize = 0;
    proof {
        assert(texts(used@) =~= Seq::<Seq<char>>::empty());
    }
    loop
        invariant
            i <= t@.len(),
            t@ == template@,
            goal == substitution(template@, args@),
            goal == filled(t@, i as int, args@, out@, texts(used@)),
        decreases t@.len() - i,
    {
        let open = find_twice(t, i, '{');
        if open >= t.len() {
            out.push_str(text_of(t, i, t.len()).as_str());
            proof {
                assert(t@.subrange(i as int, t@.len() as int) =~= t@.skip(i as int));
            }
            return Ok((out, used));
        }
        out.push_str(text_of(t, i, open).as_str());
        let before = text_of(t, 0, open);
        let at = before.as_str().as_bytes().len();
        proof {
            assert(t@.subrange(0, open as int) =~= t@.take(open as int));
        }
        let close = find_twice(t, open + 2, '}');
        if close >= t.len() {
            let mut msg = "unterminated '{{' starting at byte ".to_owned();
            push_dec(&mut msg, at as u128);
            msg.push_str(": no matching '}}'");
            return Err(bad(msg));
        }
        let key = text_of(t, open + 2, close);
        if let Err(e) = validate_key(key.as_str(), at) {
            return Err(e);
        }
        match args.get(key.as_str()) {
            Some(v) => {
                out.push_str(v.as_str());
                if !listed(&used, key.as_str()) {
                    let ghost u0 = used@;
                    used.push(key);
                    proof {
                        assert(texts(used@) =~= texts(u0).push(key@));
                    }
                }
            },
            None => {
                return Err(TmplError::MissingArg(key));
            },
        }
        i = close + 2;
    }
}

/// Replaces the placeholders of a template. Values without a placeholder are ignored.
pub fn substitute(template: &str, args: &Table<String>) -> (res: Result<String, TmplError>)
    ensures
        match res {
            Ok(out) => substitution(template@, args@) matches Ok((text, _)) && out@ == text,
            Err(e) => substitution(template@, args@) == Err::<(Seq<char>, Seq<Seq<char>>), _>(e@),
        },
{
    match substitute_impl(template, args) {
        Ok((out, _)) => Ok(out),
        Err(e) => Err(e),
    }
}

/// Replaces the placeholders of a template and names the values that it does not use.
pub fn substitute_warn_unused(template: &str, args: &Table<String>) -> (res: Result<
    (String, Vec<String>),
    TmplError,
>)
    ensures
        match res {
            Ok((out, unused)) => {
                &&& substitution(template@, args@) matches Ok((text, used)) && out@ == text
                    && forall|k: Seq<char>| #[trigger]
                    texts(unused@).contains(k) <==> args@.contains_key(k) && !used.contains(k)
                &&& texts(unused@).no_duplicates()
            },
            Err(e) => substitution(template@, args@) == Err::<(Seq<char>, Seq<Seq<char>>), _>(e@),
        },
{
    let (out, used) = match substitute_impl(template, args) {
        Ok(r) => r,
        Err(e) => {
            return Err(e);
        },
    };
    let ghost e = args.entries_view();
    let mut unused: Vec<String> = Vec::new();
    let mut i: usize = 0;
    let n = args.len();
    while i < n
        invariant
            n == e.len(),
            i <= n,
            e == args.entries_view(),
            distinct(e),
            forall|k: int|
                0 <= k < i && !texts(used@).contains((#[trigger] e[k]).0@) ==> texts(
                    unused@,
                ).contains(e[k].0@),
            forall|j: int|
                0 <= j < unused@.len() ==> !texts(used@).contains(#[trigger] texts(unused@)[j])
                    && exists|k: int| 0 <= k < i && (#[trigger] e[k]).0@ == texts(unused@)[j],
            texts(unused@).no_duplicates(),
        decreases n - i,
    {
        let (name, _) = args.entry(i);
        let ghost u0 = texts(unused@);
        if !listed(&used, name.as_str()) {
            unused.push(name.clone());
            proof {
                let u1 = texts(unused@);
                assert(u1 =~= u0.push(name@));
                if u0.contains(name@) {
                    let j = choose|j: int| 0 <= j < u0.len() && u0[j] == name@;
                    assert(texts(unused@)[j] == u0[j]);
                    let k = choose|k: int| 0 <= k < i && (#[trigger] e[k]).0@ == u0[j];
                    assert(e[k].0@ != e[i as int].0@);
                }
                assert forall|k: int|
                    0 <= k < i + 1 && !texts(used@).contains((#[trigger] e[k]).0@) implies u1.contains(
                    e[k].0@,
                ) by {
                    if k < i {
                        let j = choose|j: int| 0 <= j < u0.len() && u0[j] == e[k].0@;
                        assert(u1[j] == e[k].0@);
                    } else {
                        assert(u1[u0.len() as int] == name@);
                    }
                }
                assert forall|j: int| 0 <= j < unused@.len() implies !texts(used@).contains(
                    #[trigger] u1[j],
                ) && exists|k: int| 0 <= k < i + 1 && (#[trigger] e[k]).0@ == u1[j] by {
                    if j < u0.len() {
                        assert(u1[j] == u0[j]);
                        let k = choose|k: int| 0 <= k < i && (#[trigger] e[k]).0@ == u0[j];
                        assert(e[k].0@ == u1[j]);
                    } else {
                        assert(e[i as int].0@ == u1[j]);
                    }
                }
            }
        }
        i += 1;
    }
    proof {
        args.lemma_entries();
        assert forall|k: Seq<char>| #[trigger] texts(unused@).contains(k) <==> args@.contains_key(k)
            && !texts(used@).contains(k) by {
            lemma_names(e, k);
            if texts(unused@).contains(k) {
                let j = choose|j: int| 0 <= j < texts(unused@).len() && texts(unused@)[j] == k;
                assert(!texts(used@).contains(texts(unused@)[j]));
            }
            if args@.contains_key(k) && !texts(used@).contains(k) {
                let m = choose|m: int| 0 <= m < e.len() && (#[trigger] e[m]).0@ == k;
                assert(texts(unused@).contains(e[m].0@));
            }
        }
    }
    Ok((out, unused))
}

// ---------------------------------------------------------------------------------
// Frontmatter
// ---------------------------------------------------------------------------------
/// A text without the carriage returns and newlines at its end.
pub open spec fn strip_breaks(s: Seq<char>) -> Seq<char>
    decreases s.len(),
{
    if s.len() > 0 && (s.last() == '\r' || s.last() == '\n') {
        strip_breaks(s.drop_last())
    } else {
        s
    }
}

/// Offset behind the line that starts at `i`, its newline included.
pub open spec fn line_end(s: Seq<char>, i: int) -> int {
    let z = seek_char(s, i, '\n');
    if z < s.len() {
        z + 1
    } else {
        z
    }
}

/// Offset of the line that is `---`, looking from the line at `i` on.
pub open spec fn closer(s: Seq<char>, i: int) -> Option<int>
    decreases s.len() - i,
    when 0 <= i <= s.len()
{
    if i >= s.len() {
        None
    } else if strip_breaks(s.subrange(i, line_end(s, i))) == "---"@ {
        Some(i)
    } else {
        proof {
            lemma_seek_char(s, i, '\n');
        }
        closer(s, line_end(s, i))
    }
}

/// A text without one newline at its beginning.
pub open spec fn drop_newline(s: Seq<char>) -> Seq<char> {
    if s.len() > 0 && s[0] == '\n' {
        s.drop_first()
    } else {
        s
    }
}

/// Length of the line that opens a frontmatter, 0 where there is none.
pub open spec fn opener(raw: Seq<char>) -> int {
    if starts_with(raw, "---\n"@) {
        4
    } else if starts_with(raw, "---\r\n"@) {
        5
    } else {
        0
    }
}

/// The frontmatter of a file, if it has one, and its body.
pub open spec fn split(raw: Seq<char>) -> Result<(Option<Seq<char>>, Seq<char>), Trouble> {
    let o = opener(raw);
    if o == 0 {
        Ok((None, raw))
    } else {
        let rest = raw.skip(o);
        match closer(rest, 0) {
            Some(i) => Ok((Some(rest.take(i)), drop_newline(rest.skip(line_end(rest, i))))),
            None => Err(
                Trouble::Bad("frontmatter opened with '---' but no closing '---' found"@),
            ),
        }
    }
}

/// Mathematical form of a `Frontmatter`.
pub struct Meta {
    pub name: Option<Seq<char>>,
    pub description: Option<Seq<char>>,
    pub args: Seq<Seq<char>>,
}

pub open spec fn no_meta() -> Meta {
    Meta { name: None, description: None, args: Seq::empty() }
}

pub open spec fn on_line(n: int, why: Seq<char>) -> Trouble {
    Trouble::Bad("line "@ + dec(n as nat) + ": "@ + why)
}

/// What a line of the frontmatter makes of what was read so far, and whether the lines
/// behind it may be list items. `n` is the number of the line.
pub open spec fn meta_line(raw: Seq<char>, n: int, m: Meta, in_args: bool) -> Result<
    (Meta, bool),
    Trouble,
> {
    let line = trim_end(raw);
    let item = trim_start(line);
    if trim(line).len() == 0 {
        Ok((m, in_args))
    } else if starts_with(item, "#"@) {
        Ok((m, in_args))
    } else if in_args && (line[0] == ' ' || line[0] == '\t') && starts_with(item, "- "@) {
        Ok((Meta { args: m.args.push(trim(item.skip(2))), ..m }, true))
    } else if in_args && item == "-"@ {
        Err(on_line(n, "empty list item under 'args:'"@))
    } else if line[0] == ' ' || line[0] == '\t' {
        Err(on_line(n, "unexpected indentation"@))
    } else {
        let colon = seek_char(line, 0, ':');
        if colon >= line.len() {
            Err(on_line(n, "expected 'key: value' or 'key:'"@))
        } else {
            meta_entry(trim(line.take(colon)), trim(line.skip(colon + 1)), n, m)
        }
    }
}

/// What a `key: value` line makes of what was read so far.
pub open spec fn meta_entry(key: Seq<char>, value: Seq<char>, n: int, m: Meta) -> Result<
    (Meta, bool),
    Trouble,
> {
    if key == "name"@ {
        if value.len() == 0 {
            Err(on_line(n, "'name' requires a value"@))
        } else {
            Ok((Meta { name: Some(value), ..m }, false))
        }
    } else if key == "description"@ {
        if value.len() == 0 {
            Err(on_line(n, "'description' requires a value"@))
        } else {
            Ok((Meta { description: Some(value), ..m }, false))
        }
    } else if key == "args"@ {
        if value.len() != 0 {
            Err(on_line(n, "'args:' must be followed by a list, not a value"@))
        } else {
            Ok((m, true))
        }
    } else {
        Err(on_line(n, "unknown frontmatter key "@ + quoted(key)))
    }
}

/// Reads the frontmatter from the line at `i` on; `n` is the number of that line.
pub open spec fn meta(src: Seq<char>, i: int, n: int, m: Meta, in_args: bool) -> Result<
    Meta,
    Trouble,
>
    decreases src.len() - i,
    when 0 <= i <= src.len()
{
    if i >= src.len() {
        Ok(m)
    } else {
        match meta_line(src.subrange(i, seek_char(src, i, '\n')), n, m, in_args) {
            Ok((m2, in2)) => {
                proof {
                    lemma_seek_char(src, i, '\n');
                }
                meta(src, line_end(src, i), n + 1, m2, in2)
            },
            Err(e) => Err(e),
        }
    }
}

/// A frontmatter.
#[derive(Debug)]
pub struct Frontmatter {
    pub name: Option<String>,
    pub description: Option<String>,
    pub args: Vec<String>,
}

impl View for Frontmatter {
    type V = Meta;

    open spec fn view(&self) -> Meta {
        Meta {
            name: maybe(self.name),
            description: maybe(self.description),
            args: texts(self.args@),
        }
    }
}

fn stripped_breaks(s: &[char], from: usize, to: usize) -> (z: usize)
    requires
        from <= to <= s@.len(),
    ensures
        from <= z <= to,
        strip_breaks(s@.subrange(from as int, to as int)) == s@.subrange(from as int, z as int),
{
    let mut z: usize = to;
    while z > from && (s[z - 1] == '\r' || s[z - 1] == '\n')
        invariant
            from <= z <= to <= s@.len(),
            strip_breaks(s@.subrange(from as int, to as int)) == strip_breaks(
                s@.subrange(from as int, z as int),
            ),
        decreases z,
    {
        proof {
            assert(s@.subrange(from as int, z as int).drop_last() =~= s@.subrange(
                from as int,
                z - 1,
            ));
        }
        z -= 1;
    }
    z
}

fn end_of_line(s: &[char], from: usize) -> (z: usize)
    requires
        from <= s@.len(),
    ensures
        z == line_end(s@, from as int),
        from <= z <= s@.len(),
        from < s@.len() ==> from < z,
{
    let z = find_char(s, from, '\n');
    if z < s.len() {
        z + 1
    } else {
        z
    }
}

/// Parts a file into its frontmatter, if it has one, and its body.
pub fn split_frontmatter(raw: &str) -> (res: Result<(Option<String>, String), TmplError>)
    ensures
        match res {
            Ok((fm, body)) => split(raw@) == Ok::<_, Trouble>((maybe(fm), body@)),
            Err(e) => split(raw@) == Err::<(Option<Seq<char>>, Seq<char>), _>(e@),
        },
{
    let chars = chars_of(raw);
    let c = chars.as_slice();
    proof {
        assert(c@.skip(0) =~= c@);
        reveal_strlit("---\n");
        reveal_strlit("---\r\n");
    }
    let o: usize = if begins(c, 0, "---\n") {
        4
    } else if begins(c, 0, "---\r\n") {
        5
    } else {
        return Ok((None, raw.to_owned()));
    };
    let rest_text = text_of(c, o, c.len());
    let rest_chars = chars_of(rest_text.as_str());
    let rest = rest_chars.as_slice();
    proof {
        assert(c@.subrange(o as int, c@.len() as int) =~= raw@.skip(o as int));
    }
    let mut i: usize = 0;
    while i < rest.len()
        invariant
            i <= rest@.len(),
            rest@ == raw@.skip(o as int),
            o == opener(raw@),
            o != 0,
            closer(rest@, 0) == closer(rest@, i as int),
        decreases rest.len() - i,
    {
        let end = end_of_line(rest, i);
        let z = stripped_breaks(rest, i, end);
        if text_eq(text_of(rest, i, z).as_str(), "---") {
            let body_at: usize = if end < rest.len() && rest[end] == '\n' {
                end + 1
            } else {
                end
            };
            let fm = text_of(rest, 0, i);
            let body = text_of(rest, body_at, rest.len());
            proof {
                assert(fm@ =~= rest@.take(i as int));
                let b = rest@.skip(end as int);
                assert(body@ =~= drop_newline(b));
            }
            return Ok((Some(fm), body));
        }
        i = end;
    }
    Err(bad("frontmatter opened with '---' but no closing '---' found".to_owned()))
}

fn line_error(n: usize, why: &str) -> (e: TmplError)
    ensures
        e@ == on_line(n as int, why@),
{
    let mut msg = "line ".to_owned();
    push_dec(&mut msg, n as u128);
    msg.push_str(": ");
    msg.push_str(why);
    bad(msg)
}

/// Takes in one `key: value` line; whether list items may follow.
fn read_entry(m: &mut Frontmatter, key: &str, value: String, n: usize) -> (res: Result<
    bool,
    TmplError,
>)
    ensures
        match res {
            Ok(in_args) => meta_entry(key@, value@, n as int, old(m)@) == Ok::<_, Trouble>(
                (final(m)@, in_args),
            ),
            Err(e) => meta_entry(key@, value@, n as int, old(m)@) == Err::<(Meta, bool), _>(e@),
        },
{
    if text_eq(key, "name") {
        if value.as_str().is_empty() {
            return Err(line_error(n, "'name' requires a value"));
        }
        m.name = Some(value);
        Ok(false)
    } else if text_eq(key, "description") {
        if value.as_str().is_empty() {
            return Err(line_error(n, "'description' requires a value"));
        }
        m.description = Some(value);
        Ok(false)
    } else if text_eq(key, "args") {
        if !value.as_str().is_empty() {
            return Err(line_error(n, "'args:' must be followed by a list, not a value"));
        }
        Ok(true)
    } else {
        let mut why = "unknown frontmatter key ".to_owned();
        why.push_str(quote(key).as_str());
        Err(line_error(n, why.as_str()))
    }
}

/// Takes in one line of a frontmatter; whether list items may follow.
fn read_line(m: &mut Frontmatter, raw: &str, n: usize, in_args: bool) -> (res: Result<
    bool,
    TmplError,
>)
    ensures
        match res {
            Ok(in2) => meta_line(raw@, n as int, old(m)@, in_args) == Ok::<_, Trouble>(
                (final(m)@, in2),
            ),
            Err(e) => meta_line(raw@, n as int, old(m)@, in_args) == Err::<(Meta, bool), _>(e@),
        },
{
    let line = trimmed_end(raw);
    let bare = trimmed(line.as_str());
    if bare.as_str().is_empty() {
        return Ok(in_args);
    }
    let item = trimmed_start(line.as_str());
    let item_chars = chars_of(item.as_str());
    proof {
        assert(item@.skip(0) =~= item@);
        reveal_strlit("- ");
        if line@.len() == 0 {
            assert(trim(line@) =~= Seq::<char>::empty());
        }
    }
    if begins(item_chars.as_slice(), 0, "#") {
        return Ok(in_args);
    }
    let chars = chars_of(line.as_str());
    let indented = chars[0] == ' ' || chars[0] == '\t';
    if in_args {
        if indented && begins(item_chars.as_slice(), 0, "- ") {
            let rest = text_of(item_chars.as_slice(), 2, item_chars.len());
            let ghost before = m.args@;
            proof {
                assert(rest@ =~= item@.skip(2));
            }
            m.args.push(trimmed(rest.as_str()));
            proof {
                assert(texts(m.args@) =~= texts(before).push(trim(item@.skip(2))));
            }
            return Ok(true);
        }
        if text_eq(item.as_str(), "-") {
            return Err(line_error(n, "empty list item under 'args:'"));
        }
    }
    if indented {
        return Err(line_error(n, "unexpected indentation"));
    }
    let colon = find_char(chars.as_slice(), 0, ':');
    if colon >= chars.len() {
        return Err(line_error(n, "expected 'key: value' or 'key:'"));
    }
    let key = text_of(chars.as_slice(), 0, colon);
    let value = text_of(chars.as_slice(), colon + 1, chars.len());
    proof {
        assert(key@ =~= line@.take(colon as int));
        assert(value@ =~= line@.skip(colon + 1));
    }
    let key = trimmed(key.as_str());
    let value = trimmed(value.as_str());
    read_entry(m, key.as_str(), value, n)
}

/// Reads a frontmatter: `name: x`, `description: x`, and `args:` with `- x` lines under it.
/// Such a line has at least one blank before the `-`. Blank lines and `#` comments are
/// ignored; anything else is an error.
pub fn parse_frontmatter(src: &str) -> (res: Result<Frontmatter, TmplError>)
    ensures
        match res {
            Ok(m) => meta(src@, 0, 1, no_meta(), false) == Ok::<_, Trouble>(m@),
            Err(e) => meta(src@, 0, 1, no_meta(), false) == Err::<Meta, _>(e@),
        },
{
    let chars = chars_of(src);
    let s = chars.as_slice();
    let ghost goal = meta(src@, 0, 1, no_meta(), false);
    let mut m = Frontmatter { name: None, description: None, args: Vec::new() };
    let mut in_args = false;
    let mut i: usize = 0;
    let mut n: usize = 0;
    proof {
        assert(m@.args =~= no_meta().args);
    }
    while i < s.len()
        invariant
            n <= i <= s@.len(),
            s@ == src@,
            goal == meta(src@, 0, 1, no_meta(), false),
            goal == meta(s@, i as int, n + 1, m@, in_args),
        decreases s.len() - i,
    {
        let stop = find_char(s, i, '\n');
        let line = text_of(s, i, stop);
        match read_line(&mut m, line.as_str(), n + 1, in_args) {
            Ok(more) => {
                in_args = more;
            },
            Err(e) => {
                return Err(e);
            },
        }
        i = end_of_line(s, i);
        n += 1;
    }
    Ok(m)
}

// ---------------------------------------------------------------------------------
// Skills and roles
// ---------------------------------------------------------------------------------
/// A skill: a body with placeholders, and what the frontmatter says of it.
#[derive(Debug, PartialEq, Eq)]
pub struct Skill {
    pub name: String,
    pub body: String,
    pub description: Option<String>,
    pub args: Vec<String>,
}

/// A role: a name and a system prompt.
#[derive(Debug, PartialEq, Eq)]
pub struct Role {
    pub name: String,
    pub system_prompt: String,
}

impl Skill {
    /// Replaces the placeholders of the body.
    pub fn render(&self, args: &Table<String>) -> (res: Result<String, TmplError>)
        ensures
            match res {
                Ok(out) => substitution(self.body@, args@) matches Ok((text, _)) && out@ == text,
                Err(e) => substitution(self.body@, args@) == Err::<
                    (Seq<char>, Seq<Seq<char>>),
                    _,
                >(e@),
            },
    {
        substitute(self.body.as_str(), args)
    }
}

/// The body of a file and what its frontmatter says; nothing where it has none.
pub open spec fn file_parts(raw: Seq<char>) -> Result<(Meta, Seq<char>), Trouble> {
    match split(raw) {
        Ok((fm, body)) => match fm {
            Some(f) => match meta(f, 0, 1, no_meta(), false) {
                Ok(m) => Ok((m, body)),
                Err(e) => Err(e),
            },
            None => Ok((no_meta(), body)),
        },
        Err(e) => Err(e),
    }
}

/// The name in the frontmatter, or else that of the file.
pub open spec fn named(m: Meta, file: Seq<char>) -> Seq<char> {
    match m.name {
        Some(n) => n,
        None => file,
    }
}

/// Where a skill is kept.
pub fn skill_path(root: &str, name: &str) -> (res: String)
    ensures
        res@ == path_in(path_in(path_in(root@, ".agents"@), "skills"@), name@ + ".md"@),
{
    let mut file = name.to_owned();
    file.push_str(".md");
    let dir = path_for(path_for(root, ".agents").as_str(), "skills");
    path_for(dir.as_str(), file.as_str())
}

/// Where a role is kept.
pub fn role_path(root: &str, name: &str) -> (res: String)
    ensures
        res@ == path_in(path_in(path_in(root@, ".agents"@), "roles"@), name@ + ".md"@),
{
    let mut file = name.to_owned();
    file.push_str(".md");
    let dir = path_for(path_for(root, ".agents").as_str(), "roles");
    path_for(dir.as_str(), file.as_str())
}

fn read_file(raw: &str) -> (res: Result<(Frontmatter, String), TmplError>)
    ensures
        match res {
            Ok((m, body)) => file_parts(raw@) == Ok::<_, Trouble>((m@, body@)),
            Err(e) => file_parts(raw@) == Err::<(Meta, Seq<char>), _>(e@),
        },
{
    let (fm, body) = match split_frontmatter(raw) {
        Ok(r) => r,
        Err(e) => {
            return Err(e);
        },
    };
    match fm {
        Some(f) => match parse_frontmatter(f.as_str()) {
            Ok(m) => Ok((m, body)),
            Err(e) => Err(e),
        },
        None => {
            let m = Frontmatter { name: None, description: None, args: Vec::new() };
            proof {
                assert(m@.args =~= no_meta().args);
            }
            Ok((m, body))
        },
    }
}

/// Makes a skill of what reading its file gave: its text, or the text of an error.
pub fn load_skill(name: &str, read: Result<String, String>) -> (res: Result<Skill, TmplError>)
    ensures
        match read {
            Ok(raw) => match res {
                Ok(s) => file_parts(raw@) matches Ok((m, body)) && s.name@ == named(m, name@)
                    && s.body@ == body && maybe(s.description) == m.description && texts(s.args@)
                    == m.args,
                Err(e) => file_parts(raw@) == Err::<(Meta, Seq<char>), _>(e@),
            },
            Err(msg) => res matches Err(e) && e@ == Trouble::Io(msg@),
        },
{
    let raw = match read {
        Ok(r) => r,
        Err(msg) => {
            return Err(TmplError::Io(msg));
        },
    };
    match read_file(raw.as_str()) {
        Ok((m, body)) => {
            let Frontmatter { name: given, description, args } = m;
            let name = match given {
                Some(n) => n,
                None => name.to_owned(),
            };
            Ok(Skill { name, body, description, args })
        },
        Err(e) => Err(e),
    }
}

/// Makes a role of what reading its file gave: its text, or the text of an error.
/// Description and arguments are of no use to a role.
pub fn load_role(name: &str, read: Result<String, String>) -> (res: Result<Role, TmplError>)
    ensures
        match read {
            Ok(raw) => match res {
                Ok(r) => file_parts(raw@) matches Ok((m, body)) && r.name@ == named(m, name@)
                    && r.system_prompt@ == body,
                Err(e) => file_parts(raw@) == Err::<(Meta, Seq<char>), _>(e@),
            },
            Err(msg) => res matches Err(e) && e@ == Trouble::Io(msg@),
        },
{
    let raw = match read {
        Ok(r) => r,
        Err(msg) => {
            return Err(TmplError::Io(msg));
        },
    };
    match read_file(raw.as_str()) {
        Ok((m, body)) => {
            let name = match m.name {
                Some(n) => n,
                None => name.to_owned(),
            };
            Ok(Role { name, system_prompt: body })
        },
        Err(e) => Err(e),
    }
}

// ---------------------------------------------------------------------------------
// Laws
// ---------------------------------------------------------------------------------
/// A template without `{{` comes out as it went in, whatever the values.
pub proof fn law_no_placeholder(t: Seq<char>, args: Map<Seq<char>, String>)
    requires
        forall|i: int| 0 <= i < t.len() - 1 ==> !(#[trigger] t[i] == '{' && t[i + 1] == '{'),
    ensures
        substitution(t, args) == Ok::<_, Trouble>((t, Seq::<Seq<char>>::empty())),
{
    lemma_never_twice(t, 0);
    assert(Seq::<char>::empty() + t.skip(0) =~= t);
}

proof fn lemma_never_twice(t: Seq<char>, i: int)
    requires
        0 <= i,
        forall|k: int| 0 <= k < t.len() - 1 ==> !(#[trigger] t[k] == '{' && t[k + 1] == '{'),
    ensures
        twice(t, i, '{') >= t.len(),
    decreases t.len() - i,
{
    if i + 1 < t.len() {
        assert(!(t[i] == '{' && t[i + 1] == '{'));
        lemma_never_twice(t, i + 1);
    }
}

/// What a template comes to rests on the values of the keys it uses alone: others may be
/// added or changed.
pub proof fn law_only_used_values_count(
    t: Seq<char>,
    a: Map<Seq<char>, String>,
    b: Map<Seq<char>, String>,
)
    requires
        substitution(t, a) is Ok,
        forall|k: Seq<char>| #[trigger]
            substitution(t, a)->Ok_0.1.contains(k) ==> b.contains_key(k) && b[k]@ == a[k]@,
    ensures
        substitution(t, b) == substitution(t, a),
{
    lemma_only_used(t, 0, a, b, Seq::empty(), Seq::empty());
}

proof fn lemma_used_grows(
    t: Seq<char>,
    i: int,
    a: Map<Seq<char>, String>,
    out: Seq<char>,
    used: Seq<Seq<char>>,
    k: Seq<char>,
)
    requires
        0 <= i <= t.len(),
        used.contains(k),
        filled(t, i, a, out, used) is Ok,
    ensures
        filled(t, i, a, out, used)->Ok_0.1.contains(k),
    decreases t.len() - i,
{
    let open = twice(t, i, '{');
    lemma_twice(t, i, '{');
    if open < t.len() {
        let close = twice(t, open + 2, '}');
        lemma_twice(t, open + 2, '}');
        let key = t.subrange(open + 2, close);
        let next = if used.contains(key) {
            used
        } else {
            used.push(key)
        };
        let j = choose|j: int| 0 <= j < used.len() && used[j] == k;
        assert(next[j] == k);
        lemma_used_grows(t, close + 2, a, out + t.subrange(i, open) + a[key]@, next, k);
    }
}

proof fn lemma_only_used(
    t: Seq<char>,
    i: int,
    a: Map<Seq<char>, String>,
    b: Map<Seq<char>, String>,
    out: Seq<char>,
    used: Seq<Seq<char>>,
)
    requires
        0 <= i <= t.len(),
        filled(t, i, a, out, used) is Ok,
        forall|k: Seq<char>| #[trigger]
            filled(t, i, a, out, used)->Ok_0.1.contains(k) ==> b.contains_key(k) && b[k]@ == a[k]@,
    ensures
        filled(t, i, b, out, used) == filled(t, i, a, out, used),
    decreases t.len() - i,
{
    let open = twice(t, i, '{');
    lemma_twice(t, i, '{');
    if open < t.len() {
        let close = twice(t, open + 2, '}');
        lemma_twice(t, open + 2, '}');
        let key = t.subrange(open + 2, close);
        let next = if used.contains(key) {
            used
        } else {
            used.push(key)
        };
        let text = out + t.subrange(i, open) + a[key]@;
        assert(next.contains(key)) by {
            if !used.contains(key) {
                assert(next[used.len() as int] == key);
            }
        }
        lemma_used_grows(t, close + 2, a, text, next, key);
        lemma_only_used(t, close + 2, a, b, text, next);
    }
}

/// Whether a line begins at offset `i`.
pub open spec fn begins_line(s: Seq<char>, i: int) -> bool {
    0 <= i < s.len() && (i == 0 || s[i - 1] == '\n')
}

/// The line that begins at offset `i`, without the carriage returns and newlines at its end.
pub open spec fn line_at(s: Seq<char>, i: int) -> Seq<char> {
    strip_breaks(s.subrange(i, line_end(s, i)))
}

/// A file that is put together from a frontmatter and a body.
pub open spec fn joined(fm: Seq<char>, body: Seq<char>) -> Seq<char> {
    "---\n"@ + fm + "---\n"@ + body
}

proof fn lemma_closer_found(fm: Seq<char>, body: Seq<char>, i: int)
    requires
        fm.len() == 0 || fm.last() == '\n',
        forall|k: int| #[trigger] begins_line(fm, k) ==> line_at(fm, k) != "---"@,
        i == fm.len() || begins_line(fm, i),
    ensures
        closer(fm + "---\n"@ + body, i) == Some(fm.len() as int),
        line_end(fm + "---\n"@ + body, fm.len() as int) == fm.len() + 4,
    decreases fm.len() - i,
{
    let s = fm + "---\n"@ + body;
    let n = fm.len() as int;
    reveal_strlit("---\n");
    reveal_strlit("---");
    assert("---\n"@.len() == 4 && "---"@.len() == 3);
    assert(s[n] == '-' && s[n + 1] == '-' && s[n + 2] == '-' && s[n + 3] == '\n');
    reveal_with_fuel(seek_char, 5);
    assert(line_end(s, n) == n + 4);
    if i == n {
        let l = s.subrange(n, n + 4);
        assert(l.drop_last() =~= "---"@);
        reveal_with_fuel(strip_breaks, 3);
    } else {
        lemma_seek_char(fm, i, '\n');
        lemma_seek_char(s, i, '\n');
        let z = seek_char(fm, i, '\n');
        let w = seek_char(s, i, '\n');
        assert(fm[n - 1] == '\n' && s[n - 1] == '\n');
        assert(z < n);
        assert(s[z] == fm[z]);
        if w < z {
            assert(s[w] == fm[w]);
        }
        assert(w == z);
        assert(s.subrange(i, z + 1) =~= fm.subrange(i, z + 1));
        assert(line_at(fm, i) != "---"@);
        lemma_closer_found(fm, body, z + 1);
    }
}

proof fn lemma_split_joined(fm: Seq<char>, body: Seq<char>)
    requires
        fm.len() == 0 || fm.last() == '\n',
        forall|k: int| #[trigger] begins_line(fm, k) ==> line_at(fm, k) != "---"@,
    ensures
        split(joined(fm, body)) == Ok::<_, Trouble>((Some(fm), drop_newline(body))),
{
    let raw = joined(fm, body);
    let s = fm + "---\n"@ + body;
    lemma_closer_found(fm, body, 0);
    reveal_strlit("---\n");
    assert("---\n"@.len() == 4);
    assert(raw.take(4) =~= "---\n"@);
    assert(raw.skip(4) =~= s);
    assert(s.take(fm.len() as int) =~= fm);
    assert(s.skip(fm.len() as int + 4) =~= body);
}

/// Frontmatter and body come back from the file that was put together from them, if no line
/// of the frontmatter is `---` and the body does not begin with a newline; one blank line
/// before the body is dropped.
pub proof fn law_parts_come_back(fm: Seq<char>, body: Seq<char>)
    requires
        fm.len() == 0 || fm.last() == '\n',
        forall|k: int| #[trigger] begins_line(fm, k) ==> line_at(fm, k) != "---"@,
        !(body.len() > 0 && body[0] == '\n'),
    ensures
        split(joined(fm, body)) == Ok::<_, Trouble>((Some(fm), body)),
        split(joined(fm, seq!['\n'] + body)) == Ok::<_, Trouble>((Some(fm), body)),
{
    lemma_split_joined(fm, body);
    lemma_split_joined(fm, seq!['\n'] + body);
    assert((seq!['\n'] + body).drop_first() =~= body);
}

/// A file that does not begin with the line `---` is all body.
pub proof fn law_no_frontmatter(raw: Seq<char>)
    requires
        !starts_with(raw, "---\n"@),
        !starts_with(raw, "---\r\n"@),
    ensures
        split(raw) == Ok::<(Option<Seq<char>>, Seq<char>), Trouble>((None, raw)),
{
}

proof fn lemma_twice_shift(s: Seq<char>, n: int, b: Seq<char>, j: int, c: char)
    requires
        0 <= n <= s.len(),
        b == s.skip(n),
        0 <= j <= b.len(),
    ensures
        twice(s, n + j, c) == n + twice(b, j, c),
    decreases b.len() - j,
{
    if j + 1 < b.len() {
        assert(b[j] == s[n + j] && b[j + 1] == s[n + j + 1]);
        lemma_twice_shift(s, n, b, j + 1, c);
    }
}

/// What a template comes to from some place on is what the rest of it comes to alone.
proof fn lemma_filled_rest(
    s: Seq<char>,
    n: int,
    b: Seq<char>,
    j: int,
    args: Map<Seq<char>, String>,
    o1: Seq<char>,
    u1: Seq<Seq<char>>,
    o2: Seq<char>,
    u2: Seq<Seq<char>>,
) -> (x: Seq<char>)
    requires
        0 <= n <= s.len(),
        b == s.skip(n),
        0 <= j <= b.len(),
        filled(b, j, args, o2, u2) is Ok,
    ensures
        filled(b, j, args, o2, u2)->Ok_0.0 == o2 + x,
        filled(s, n + j, args, o1, u1) matches Ok((t, _)) && t == o1 + x,
    decreases b.len() - j,
{
    lemma_twice_shift(s, n, b, j, '{');
    lemma_twice(b, j, '{');
    let open = twice(b, j, '{');
    if open >= b.len() {
        assert(s.skip(n + j) =~= b.skip(j));
        b.skip(j)
    } else {
        lemma_twice_shift(s, n, b, open + 2, '}');
        lemma_twice(b, open + 2, '}');
        let close = twice(b, open + 2, '}');
        let key = b.subrange(open + 2, close);
        assert(s.subrange(n + open + 2, n + close) =~= key);
        assert(s.subrange(n + j, n + open) =~= b.subrange(j, open));
        let head = b.subrange(j, open);
        let v = args[key]@;
        let next1 = if u1.contains(key) {
            u1
        } else {
            u1.push(key)
        };
        let next2 = if u2.contains(key) {
            u2
        } else {
            u2.push(key)
        };
        let x = lemma_filled_rest(
            s,
            n,
            b,
            close + 2,
            args,
            o1 + head + v,
            next1,
            o2 + head + v,
            next2,
        );
        assert(o2 + head + v + x =~= o2 + (head + v + x));
        assert(o1 + head + v + x =~= o1 + (head + v + x));
        head + v + x
    }
}

/// A placeholder is replaced by the value of its key: what stands before it stays, the value is
/// taken as it is, and what follows comes to what it comes to alone. A key without a value is an
/// error that names it.
pub proof fn law_placeholder_is_replaced(
    a: Seq<char>,
    key: Seq<char>,
    b: Seq<char>,
    args: Map<Seq<char>, String>,
)
    requires
        forall|i: int|
            0 <= i < a.len() ==> !(#[trigger] a[i] == '{' && (i + 1 == a.len() || a[i + 1] == '{')),
        key.len() > 0,
        'A' <= key[0] <= 'Z',
        forall|i: int|
            0 <= i < key.len() ==> ('A' <= #[trigger] key[i] <= 'Z') || ('0' <= key[i] <= '9') || key[i]
                == '_',
    ensures
        ({
            let t = a + "{{"@ + key + "}}"@ + b;
            &&& !args.contains_key(key) ==> substitution(t, args) == Err::<
                (Seq<char>, Seq<Seq<char>>),
                Trouble,
            >(Trouble::Missing(key))
            &&& args.contains_key(key) ==> (substitution(b, args) matches Ok((rest, _)) ==> (
            substitution(t, args) matches Ok((text, used)) && text == a + args[key]@ + rest
                && used.contains(key)))
        }),
{
    reveal_strlit("{{");
    reveal_strlit("}}");
    let t = a + "{{"@ + key + "}}"@ + b;
    let open = a.len() as int;
    let close = open + 2 + key.len();
    assert(t[open] == '{' && t[open + 1] == '{');
    assert forall|i: int| 0 <= i < open implies !(#[trigger] t[i] == '{' && t[i + 1] == '{') by {
        assert(t[i] == a[i]);
        if i + 1 < open {
            assert(t[i + 1] == a[i + 1]);
        }
    }
    lemma_twice_at(t, 0, open, '{');
    assert(t[close] == '}' && t[close + 1] == '}');
    assert forall|i: int| open + 2 <= i < close implies !(#[trigger] t[i] == '}' && t[i + 1] == '}') by {
        assert(t[i] == key[i - open - 2]);
        assert(('A' <= key[i - open - 2] <= 'Z') || ('0' <= key[i - open - 2] <= '9') || key[i - open
            - 2] == '_');
    }
    lemma_twice_at(t, open + 2, close, '}');
    assert(t.subrange(open + 2, close) =~= key);
    assert(t.subrange(0, open) =~= a);
    assert(all_key_chars(key));
    if args.contains_key(key) && substitution(b, args) is Ok {
        let out = Seq::<char>::empty() + a + args[key]@;
        assert(out =~= a + args[key]@);
        let none: Seq<Seq<char>> = Seq::empty();
        let used = none.push(key);
        assert(t.skip(close + 2) =~= b);
        let x = lemma_filled_rest(t, close + 2, b, 0, args, out, used, Seq::empty(), none);
        assert(Seq::<char>::empty() + x =~= x);
        assert(used[0] == key);
        lemma_used_grows(t, close + 2, args, out, used, key);
    }
}

proof fn lemma_twice_at(s: Seq<char>, i: int, z: int, c: char)
    requires
        0 <= i <= z,
        z + 1 < s.len(),
        s[z] == c && s[z + 1] == c,
        forall|k: int| i <= k < z ==> !(#[trigger] s[k] == c && s[k + 1] == c),
    ensures
        twice(s, i, c) == z,
    decreases z - i,
{
    if i < z {
        assert(!(s[i] == c && s[i + 1] == c));
        lemma_twice_at(s, i + 1, z, c);
    }
}

/// A `{{` that is not closed is refused.
pub proof fn law_placeholder_has_to_be_closed(
    a: Seq<char>,
    b: Seq<char>,
    args: Map<Seq<char>, String>,
)
    requires
        forall|i: int|
            0 <= i < a.len() ==> !(#[trigger] a[i] == '{' && (i + 1 == a.len() || a[i + 1] == '{')),
        forall|i: int| 0 <= i < b.len() - 1 ==> !(#[trigger] b[i] == '}' && b[i + 1] == '}'),
    ensures
        substitution(a + "{{"@ + b, args) matches Err(Trouble::Bad(_)),
{
    reveal_strlit("{{");
    let t = a + "{{"@ + b;
    let open = a.len() as int;
    assert(t[open] == '{' && t[open + 1] == '{');
    assert forall|i: int| 0 <= i < open implies !(#[trigger] t[i] == '{' && t[i + 1] == '{') by {
        assert(t[i] == a[i]);
        if i + 1 < open {
            assert(t[i + 1] == a[i + 1]);
        }
    }
    lemma_twice_at(t, 0, open, '{');
    assert forall|i: int| open + 2 <= i < t.len() - 1 implies !(#[trigger] t[i] == '}' && t[i + 1]
        == '}') by {
        assert(b[i - open - 2] == t[i] && b[i - open - 1] == t[i + 1]);
    }
    lemma_twice_never(t, open + 2, '}');
}

proof fn lemma_twice_never(s: Seq<char>, i: int, c: char)
    requires
        0 <= i,
        forall|k: int| i <= k < s.len() - 1 ==> !(#[trigger] s[k] == c && s[k + 1] == c),
    ensures
        twice(s, i, c) >= s.len(),
    decreases s.len() - i,
{
    if i + 1 < s.len() {
        assert(!(s[i] == c && s[i + 1] == c));
        lemma_twice_never(s, i + 1, c);
    }
}

/// A key that is empty, begins with anything but a capital letter or holds anything but capital
/// letters, digits and underscores is refused.
pub proof fn law_bad_keys_are_refused(key: Seq<char>, at: nat)
    ensures
        key_fault(key, at) is None <==> key.len() > 0 && ('A' <= key[0] <= 'Z') && forall|i: int|
            0 <= i < key.len() ==> ('A' <= #[trigger] key[i] <= 'Z') || ('0' <= key[i] <= '9')
                || key[i] == '_',
{
}

/// The lines of a frontmatter are read one by one, from the first; a line that is refused refuses
/// it all.
pub proof fn law_frontmatter_line_by_line(
    line: Seq<char>,
    src: Seq<char>,
    i: int,
    n: int,
    m: Meta,
    in_args: bool,
)
    requires
        0 <= i,
        i + line.len() < src.len(),
        src.subrange(i, i + line.len()) == line,
        forall|k: int| 0 <= k < line.len() ==> #[trigger] line[k] != '\n',
        src[i + line.len()] == '\n',
    ensures
        match meta_line(line, n, m, in_args) {
            Ok((m2, in2)) => meta(src, i, n, m, in_args) == meta(
                src,
                i + line.len() + 1,
                n + 1,
                m2,
                in2,
            ),
            Err(e) => meta(src, i, n, m, in_args) == Err::<Meta, Trouble>(e),
        },
        meta(src, src.len() as int, n, m, in_args) == Ok::<Meta, Trouble>(m),
{
    lemma_seek_char(src, i, '\n');
    let z = seek_char(src, i, '\n');
    assert(z == i + line.len()) by {
        if z < i + line.len() {
            assert(line[z - i] == src[z]);
        }
    }
}

proof fn lemma_trim_end_same(s: Seq<char>)
    requires
        s.len() > 0,
        !is_white(s.last()),
    ensures
        trim_end(s) == s,
{
}

/// A line `key: value` is told by its key, and its value is what follows the first colon, without
/// the blanks around it: `name` and `description` take a value, `args` takes none but opens a list,
/// and any other key is refused.
pub proof fn law_frontmatter_entries(
    key: Seq<char>,
    value: Seq<char>,
    n: int,
    m: Meta,
    in_args: bool,
)
    requires
        key.len() > 0,
        !is_white(key[0]) && key[0] != '#' && key[0] != '-',
        forall|k: int| 0 <= k < key.len() ==> #[trigger] key[k] != ':',
        value.len() > 0 ==> !is_white(value.last()),
    ensures
        ({
            let res = meta_line(key.push(':') + value, n, m, in_args);
            let v = trim(value);
            &&& trim(key) == "name"@ && v.len() > 0 ==> res == Ok::<_, Trouble>(
                (Meta { name: Some(v), ..m }, false),
            )
            &&& trim(key) == "description"@ && v.len() > 0 ==> res == Ok::<_, Trouble>(
                (Meta { description: Some(v), ..m }, false),
            )
            &&& trim(key) == "args"@ && v.len() == 0 ==> res == Ok::<_, Trouble>((m, true))
            &&& trim(key) == "name"@ && v.len() == 0 ==> res is Err
            &&& trim(key) == "description"@ && v.len() == 0 ==> res is Err
            &&& trim(key) == "args"@ && v.len() > 0 ==> res is Err
            &&& trim(key) != "name"@ && trim(key) != "description"@ && trim(key) != "args"@ ==> res
                is Err
        }),
{
    let line = key.push(':') + value;
    reveal_strlit("name");
    reveal_strlit("description");
    reveal_strlit("args");
    reveal_strlit("#");
    reveal_strlit("- ");
    reveal_strlit("-");
    assert("name"@.len() == 4 && "description"@.len() == 11 && "args"@.len() == 4);
    assert("name"@[0] == 'n' && "args"@[0] == 'a');
    assert(line.last() == if value.len() > 0 {
        value.last()
    } else {
        ':'
    });
    lemma_trim_end_same(line);
    assert(line[0] == key[0]);
    assert(trim_start(line) == line);
    assert(trim(line) == line);
    assert(!starts_with(line, "#"@)) by {
        if starts_with(line, "#"@) {
            assert(line.take(1)[0] == line[0]);
            assert("#"@[0] == '#');
        }
    }
    assert(!is_white(line[0]));
    assert(line[0] != ' ' && line[0] != '\t');
    assert(line != "-"@) by {
        assert("-"@[0] == '-');
    }
    lemma_seek_char(line, 0, ':');
    assert(line[key.len() as int] == ':');
    let z = seek_char(line, 0, ':');
    assert(z == key.len()) by {
        if z < key.len() {
            assert(line[z] == key[z]);
        }
    }
    assert(line.take(z) =~= key);
    assert(line.skip(z + 1) =~= value);
}

/// An indented line `- item` in a list adds the item to it, behind the ones before; outside of one
/// it is refused. Blank lines and comments change nothing.
pub proof fn law_frontmatter_lists(item: Seq<char>, n: int, m: Meta)
    requires
        item.len() > 0,
        !is_white(item[0]),
        !is_white(item.last()),
    ensures
        meta_line(seq![' ', '-', ' '] + item, n, m, true) == Ok::<_, Trouble>(
            (Meta { args: m.args.push(item), ..m }, true),
        ),
        meta_line(seq![' ', '-', ' '] + item, n, m, false) is Err,
        meta_line(Seq::empty(), n, m, true) == Ok::<_, Trouble>((m, true)),
        meta_line(seq!['#'] + item, n, m, false) == Ok::<_, Trouble>((m, false)),
        meta_line(seq!['#'] + item, n, m, true) == Ok::<_, Trouble>((m, true)),
{
    reveal_strlit("#");
    reveal_strlit("- ");
    reveal_strlit("-");
    let line = seq![' ', '-', ' '] + item;
    assert(line.last() == item.last());
    lemma_trim_end_same(line);
    let rest = seq!['-', ' '] + item;
    assert(line.drop_first() =~= rest);
    assert(trim_start(rest) == rest);
    assert(trim_start(line) == rest);
    assert(rest.last() == item.last());
    lemma_trim_end_same(rest);
    assert(rest.take(2) =~= "- "@);
    assert(!starts_with(rest, "#"@)) by {
        if starts_with(rest, "#"@) {
            assert(rest.take(1)[0] == rest[0]);
            assert("#"@[0] == '#');
        }
    }
    assert(rest.skip(2) =~= item);
    assert(trim_start(item) == item);
    lemma_trim_end_same(item);
    let note = seq!['#'] + item;
    assert(note.last() == item.last());
    lemma_trim_end_same(note);
    assert(!is_white('#'));
    assert(trim_start(note) == note);
    assert(note.take(1) =~= "#"@);
    assert(trim_end(Seq::<char>::empty()) =~= Seq::empty());
    assert(trim(Seq::<char>::empty()) =~= Seq::empty());
}

/// A file with a frontmatter is what its frontmatter says and its body; the name in it counts
/// before that of the file.
pub proof fn law_files_have_their_parts(fm: Seq<char>, body: Seq<char>, file: Seq<char>, m: Meta)
    requires
        fm.len() == 0 || fm.last() == '\n',
        forall|k: int| #[trigger] begins_line(fm, k) ==> line_at(fm, k) != "---"@,
        !(body.len() > 0 && body[0] == '\n'),
        meta(fm, 0, 1, no_meta(), false) == Ok::<_, Trouble>(m),
    ensures
        file_parts("---\n"@ + fm + "---\n"@ + body) == Ok::<_, Trouble>((m, body)),
        m.name matches Some(x) ==> named(m, file) == x,
        m.name is None ==> named(m, file) == file,
        no_meta().name is None && no_meta().description is None && no_meta().args.len() == 0,
{
    law_parts_come_back(fm, body);
}

/// The text of an error tells what it is about.
pub proof fn law_errors_tell_what_is_wrong(k: Seq<char>)
    ensures
        trouble_text(Trouble::Missing(k)) == "missing template arg: {{"@ + k + "}}"@,
        trouble_text(Trouble::Unknown(k)) == "unused template arg: "@ + k,
        trouble_text(Trouble::Io(k)) == "io: "@ + k,
        trouble_text(Trouble::Bad(k)) == "bad template/frontmatter: "@ + k,
{
}

proof fn lemma_used_once(
    t: Seq<char>,
    i: int,
    a: Map<Seq<char>, String>,
    out: Seq<char>,
    used: Seq<Seq<char>>,
)
    requires
        0 <= i <= t.len(),
        used.no_duplicates(),
        forall|k: int| 0 <= k < used.len() ==> a.contains_key(#[trigger] used[k]),
        filled(t, i, a, out, used) is Ok,
    ensures
        filled(t, i, a, out, used)->Ok_0.1.no_duplicates(),
        forall|k: int|
            0 <= k < filled(t, i, a, out, used)->Ok_0.1.len() ==> a.contains_key(
                #[trigger] filled(t, i, a, out, used)->Ok_0.1[k],
            ),
    decreases t.len() - i,
{
    let open = twice(t, i, '{');
    lemma_twice(t, i, '{');
    if open < t.len() {
        let close = twice(t, open + 2, '}');
        lemma_twice(t, open + 2, '}');
        let key = t.subrange(open + 2, close);
        let next = if used.contains(key) {
            used
        } else {
            used.push(key)
        };
        lemma_used_once(t, close + 2, a, out + t.subrange(i, open) + a[key]@, next);
    }
}

/// Each key that a template uses is named once, and has a value.
pub proof fn law_used_keys_are_named_once(t: Seq<char>, a: Map<Seq<char>, String>)
    requires
        substitution(t, a) is Ok,
    ensures
        substitution(t, a)->Ok_0.1.no_duplicates(),
        forall|k: int|
            0 <= k < substitution(t, a)->Ok_0.1.len() ==> a.contains_key(
                #[trigger] substitution(t, a)->Ok_0.1[k],
            ),
{
    lemma_used_once(t, 0, a, Seq::empty(), Seq::empty());
}

} // verus!
