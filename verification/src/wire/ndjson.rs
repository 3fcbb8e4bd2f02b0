//! Splits a stream of bytes into lines.
//!
//! For newline-delimited JSON and any line-oriented protocol. The stream may arrive in
//! chunks of any size.

use vstd::prelude::*;

use super::scan::{lemma_seek, scan_for_byte, seek};
use crate::text::push_bytes;

verus! {

/// Bytes that do not form a complete line yet, and lines that were not taken yet.
#[derive(Debug)]
pub struct NdjsonSplitter {
    buf: Vec<u8>,
}

impl View for NdjsonSplitter {
    type V = Seq<u8>;

    closed spec fn view(&self) -> Seq<u8> {
        self.buf@
    }
}

/// The complete lines of `buf`, each without its newline.
pub open spec fn lines(buf: Seq<u8>) -> Seq<Seq<u8>>
    decreases buf.len(),
{
    let z = seek(buf, 0, 0x0a);
    if z < buf.len() {
        proof {
            lemma_seek(buf, 0, 0x0a);
        }
        seq![buf.take(z)] + lines(buf.skip(z + 1))
    } else {
        Seq::empty()
    }
}

/// What is left of `buf` behind its complete lines.
pub open spec fn partial(buf: Seq<u8>) -> Seq<u8>
    decreases buf.len(),
{
    let z = seek(buf, 0, 0x0a);
    if z < buf.len() {
        proof {
            lemma_seek(buf, 0, 0x0a);
        }
        partial(buf.skip(z + 1))
    } else {
        buf
    }
}

/// The lines, each with its newline.
pub open spec fn joined(l: Seq<Seq<u8>>) -> Seq<u8>
    decreases l.len(),
{
    if l.len() == 0 {
        Seq::empty()
    } else {
        l[0].push(0x0a) + joined(l.drop_first())
    }
}

impl NdjsonSplitter {
    pub fn new() -> (res: Self)
        ensures
            res@ == Seq::<u8>::empty(),
    {
        NdjsonSplitter { buf: Vec::new() }
    }

    /// Takes in the next chunk.
    pub fn push(&mut self, chunk: &[u8])
        ensures
            final(self)@ == old(self)@ + chunk@,
    {
        push_bytes(&mut self.buf, chunk);
    }

    /// Takes the next complete line, without its newline.
    pub fn pop_line(&mut self) -> (res: Option<Vec<u8>>)
        ensures
            match res {
                Some(line) => {
                    let z = seek(old(self)@, 0, 0x0a);
                    &&& z < old(self)@.len()
                    &&& line@ == old(self)@.take(z)
                    &&& final(self)@ == old(self)@.skip(z + 1)
                    &&& lines(old(self)@) == seq![line@] + lines(final(self)@)
                },
                None => lines(old(self)@).len() == 0 && *final(self) == *old(self),
            },
    {
        let z = match scan_for_byte(self.buf.as_slice(), 0x0a) {
            Some(z) => z,
            None => {
                return None;
            },
        };
        let ghost before = self.buf@;
        let mut tail = self.buf.split_off(z + 1);
        let mut line: Vec<u8> = Vec::new();
        core::mem::swap(&mut line, &mut self.buf);
        core::mem::swap(&mut tail, &mut self.buf);
        line.truncate(z);
        proof {
            assert(line@ =~= before.take(z as int));
            assert(self.buf@ =~= before.skip(z + 1));
        }
        Some(line)
    }

    /// Bytes that were not taken yet.
    pub fn remaining(&self) -> (res: &[u8])
        ensures
            res@ == self@,
    {
        self.buf.as_slice()
    }
}

impl Default for NdjsonSplitter {
    fn default() -> (res: Self)
        ensures
            res@ == Seq::<u8>::empty(),
    {
        Self::new()
    }
}

// ---------------------------------------------------------------------------------
// Laws
// ---------------------------------------------------------------------------------
/// Nothing is lost or added: the lines with their newlines and the rest are the stream.
pub proof fn law_nothing_lost(buf: Seq<u8>)
    ensures
        joined(lines(buf)) + partial(buf) == buf,
    decreases buf.len(),
{
    let z = seek(buf, 0, 0x0a);
    lemma_seek(buf, 0, 0x0a);
    if z < buf.len() {
        let rest = buf.skip(z + 1);
        law_nothing_lost(rest);
        assert(lines(buf).drop_first() =~= lines(rest));
        assert(lines(buf)[0] == buf.take(z));
        assert(joined(lines(buf)) + partial(buf) =~= buf.take(z).push(0x0a) + (joined(lines(rest))
            + partial(rest)));
        assert(buf.take(z).push(0x0a) + rest =~= buf);
    } else {
        assert(joined(lines(buf)) + partial(buf) =~= buf);
    }
}

/// A line holds no newline.
pub proof fn law_lines_hold_no_newline(buf: Seq<u8>, i: int, k: int)
    requires
        0 <= i < lines(buf).len(),
        0 <= k < lines(buf)[i].len(),
    ensures
        lines(buf)[i][k] != 0x0a,
    decreases buf.len(),
{
    let z = seek(buf, 0, 0x0a);
    lemma_seek(buf, 0, 0x0a);
    if i > 0 {
        law_lines_hold_no_newline(buf.skip(z + 1), i - 1, k);
    }
}

/// How the stream was cut does not matter: taking the lines of `a`, then of what was left
/// with `b` behind it, gives the lines of `a + b`.
pub proof fn law_cuts_do_not_matter(a: Seq<u8>, b: Seq<u8>)
    ensures
        lines(a + b) == lines(a) + lines(partial(a) + b),
        partial(a + b) == partial(partial(a) + b),
    decreases a.len(),
{
    let z = seek(a, 0, 0x0a);
    lemma_seek(a, 0, 0x0a);
    if z < a.len() {
        lemma_seek_concat(a, b, 0);
        let rest = a.skip(z + 1);
        assert((a + b).take(z) =~= a.take(z));
        assert((a + b).skip(z + 1) =~= rest + b);
        law_cuts_do_not_matter(rest, b);
        assert(lines(a + b) =~= seq![a.take(z)] + (lines(rest) + lines(partial(rest) + b)));
        assert(lines(a + b) =~= lines(a) + lines(partial(a) + b));
    } else {
        assert(lines(a) + lines(partial(a) + b) =~= lines(a + b));
    }
}

proof fn lemma_seek_concat(a: Seq<u8>, b: Seq<u8>, i: int)
    requires
        0 <= i,
        seek(a, i, 0x0a) < a.len(),
    ensures
        seek(a + b, i, 0x0a) == seek(a, i, 0x0a),
    decreases a.len() - i,
{
    if i < a.len() && a[i] != 0x0a {
        lemma_seek_concat(a, b, i + 1);
    }
}

} // verus!
