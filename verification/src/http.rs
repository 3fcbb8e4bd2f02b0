//! HTTP requests and replies as plain values. Sending them is the caller's part.

use vstd::prelude::*;

use crate::text::{chars_of, push_signed, signed_dec, text_of, texts};

verus! {

/// A request to send.
#[derive(Debug)]
pub struct HttpCall {
    /// `GET` or `POST`.
    pub post: bool,
    pub url: String,
    /// Whole header lines.
    pub headers: Vec<String>,
    pub body: Option<String>,
}

/// Mathematical form of an `HttpCall`.
pub struct Call {
    pub post: bool,
    pub url: Seq<char>,
    pub headers: Seq<Seq<char>>,
    pub body: Option<Seq<char>>,
}

impl View for HttpCall {
    type V = Call;

    open spec fn view(&self) -> Call {
        Call {
            post: self.post,
            url: self.url@,
            headers: texts(self.headers@),
            body: crate::text::maybe(self.body),
        }
    }
}

/// A reply.
#[derive(Debug)]
pub struct HttpReply {
    pub status: u16,
    pub body: Vec<u8>,
}

/// Whether a text holds a NUL, which no C string can.
pub open spec fn has_nul(s: Seq<char>) -> bool {
    exists|i: int| 0 <= i < s.len() && #[trigger] s[i] == '\u{0}'
}

/// Whether a text holds a NUL.
pub fn holds_nul(s: &str) -> (res: bool)
    ensures
        res == has_nul(s@),
{
    let chars = chars_of(s);
    let mut i: usize = 0;
    while i < chars.len()
        invariant
            i <= chars@.len(),
            chars@ == s@,
            forall|k: int| 0 <= k < i ==> #[trigger] s@[k] != '\u{0}',
        decreases chars.len() - i,
    {
        if chars[i] == '\u{0}' {
            return true;
        }
        i += 1;
    }
    false
}

/// A text without the slashes at its end.
pub open spec fn strip_slashes(s: Seq<char>) -> Seq<char>
    decreases s.len(),
{
    if s.len() > 0 && s.last() == '/' {
        strip_slashes(s.drop_last())
    } else {
        s
    }
}

/// A text without the slashes at its end.
pub fn without_slashes(s: &str) -> (res: String)
    ensures
        res@ == strip_slashes(s@),
{
    let chars = chars_of(s);
    let mut to: usize = chars.len();
    proof {
        assert(chars@.subrange(0, to as int) =~= chars@);
    }
    while to > 0 && chars[to - 1] == '/'
        invariant
            to <= chars@.len(),
            strip_slashes(chars@) == strip_slashes(chars@.subrange(0, to as int)),
        decreases to,
    {
        proof {
            assert(chars@.subrange(0, to as int).drop_last() =~= chars@.subrange(0, to - 1));
        }
        to -= 1;
    }
    text_of(chars.as_slice(), 0, to)
}

/// A path behind a base address, with one slash between them where the path begins with
/// one.
pub fn join_url(base: &str, path: &str) -> (res: String)
    ensures
        res@ == strip_slashes(base@) + path@,
{
    let mut res = without_slashes(base);
    res.push_str(path);
    res
}

/// The text of a transport failure: where it happened, what it was and its code.
pub fn transport_error(place: &str, msg: &str, code: i32) -> (res: String)
    ensures
        res@ == "curl "@ + place@ + ": "@ + msg@ + " (code "@ + signed_dec(code as int) + ")"@,
{
    let mut res = "curl ".to_owned();
    res.push_str(place);
    res.push_str(": ");
    res.push_str(msg);
    res.push_str(" (code ");
    push_signed(&mut res, code as i64);
    res.push_str(")");
    res
}

/// The code of a transfer that went well.
pub const TRANSFER_OK: i32 = 0;

/// The code of a transfer whose reply was no longer wanted.
pub const TRANSFER_ABORTED: i32 = 23;

/// What a finished transfer that streams its reply amounts to: the server's code if that is
/// from 200 to 299, else the text of the failure. That the reply was no longer wanted is no
/// failure.
pub fn stream_end(code: i32, msg: &str, status: i64) -> (res: Result<u16, String>)
    ensures
        if code != TRANSFER_OK && code != TRANSFER_ABORTED {
            res matches Err(m) && m@ == "curl perform: "@ + msg@ + " (code "@ + signed_dec(
                code as int,
            ) + ")"@
        } else if 200 <= status < 300 {
            res matches Ok(n) && n == status
        } else {
            res matches Err(m) && m@ == "HTTP "@ + signed_dec(status as int)
        },
{
    if code != TRANSFER_OK && code != TRANSFER_ABORTED {
        let m = transport_error("perform", msg, code);
        proof {
            reveal_strlit("curl ");
            reveal_strlit("perform");
            reveal_strlit(": ");
            reveal_strlit("curl perform: ");
            assert("curl "@ + "perform"@ + ": "@ =~= "curl perform: "@);
        }
        return Err(m);
    }
    if status >= 200 && status < 300 {
        return Ok(status as u16);
    }
    let mut res = "HTTP ".to_owned();
    push_signed(&mut res, status);
    Err(res)
}

/// What a finished transfer that keeps its reply amounts to: the reply, whatever the server's
/// code, or the text of the failure.
pub fn whole_end(code: i32, msg: &str, status: i64, body: Vec<u8>) -> (res: Result<
    HttpReply,
    String,
>)
    ensures
        if code != TRANSFER_OK {
            res matches Err(m) && m@ == "curl perform: "@ + msg@ + " (code "@ + signed_dec(
                code as int,
            ) + ")"@
        } else {
            res matches Ok(r) && r.body == body && r.status == (if status < 0 {
                0
            } else if status > u16::MAX {
                u16::MAX as int
            } else {
                status as int
            })
        },
{
    if code != TRANSFER_OK {
        let m = transport_error("perform", msg, code);
        proof {
            reveal_strlit("curl ");
            reveal_strlit("perform");
            reveal_strlit(": ");
            reveal_strlit("curl perform: ");
            assert("curl "@ + "perform"@ + ": "@ =~= "curl perform: "@);
        }
        return Err(m);
    }
    let status: u16 = if status < 0 {
        0
    } else if status > 65535 {
        65535
    } else {
        status as u16
    };
    Ok(HttpReply { status, body })
}

} // verus!
