//! Splits a stream of Server-Sent Events into frames.
//!
//! A frame ends with an empty line. Of the lines of a frame, those that begin with `data:`
//! carry its data.

use vstd::prelude::*;

use super::scan::{find, lemma_find, scan_for_pair, seek, seek_byte, stands_at};
use crate::text::push_bytes;

verus! {

/// Bytes that do not form a complete frame yet, and frames that were not taken yet.
#[derive(Debug)]
pub struct SseFramer {
    buf: Vec<u8>,
}

impl View for SseFramer {
    type V = Seq<u8>;

    closed spec fn view(&self) -> Seq<u8> {
        self.buf@
    }
}

/// What ends a frame.
pub open spec fn gap() -> Seq<u8> {
    seq![0x0au8, 0x0au8]
}

/// The complete frames of `buf`, each without what ends it.
pub open spec fn frames(buf: Seq<u8>) -> Seq<Seq<u8>>
    decreases buf.len(),
{
    match find(buf, 0, gap()) {
        Some(z) => {
            proof {
                lemma_find(buf, 0, gap());
            }
            seq![buf.take(z)] + frames(buf.skip(z + 2))
        },
        None => Seq::empty(),
    }
}

/// What is left of `buf` behind its complete frames.
pub open spec fn partial(buf: Seq<u8>) -> Seq<u8>
    decreases buf.len(),
{
    match find(buf, 0, gap()) {
        Some(z) => {
            proof {
                lemma_find(buf, 0, gap());
            }
            partial(buf.skip(z + 2))
        },
        None => buf,
    }
}

/// The frames, each with what ends it.
pub open spec fn joined(f: Seq<Seq<u8>>) -> Seq<u8>
    decreases f.len(),
{
    if f.len() == 0 {
        Seq::empty()
    } else {
        f[0] + gap() + joined(f.drop_first())
    }
}

impl SseFramer {
    pub fn new() -> (res: Self)
        ensures
            res@ == Seq::<u8>::empty(),
    {
        SseFramer { buf: Vec::new() }
    }

    /// Takes in the next chunk.
    pub fn push(&mut self, chunk: &[u8])
        ensures
            final(self)@ == old(self)@ + chunk@,
    {
        push_bytes(&mut self.buf, chunk);
    }

    /// Takes the next complete frame, without what ends it.
    pub fn pop_frame(&mut self) -> (res: Option<Vec<u8>>)
        ensures
            match res {
                Some(frame) => {
                    &&& find(old(self)@, 0, gap()) matches Some(z) && frame@ == old(self)@.take(z)
                        && final(self)@ == old(self)@.skip(z + 2)
                    &&& frames(old(self)@) == seq![frame@] + frames(final(self)@)
                    &&& final(self)@.len() < old(self)@.len()
                },
                None => frames(old(self)@).len() == 0 && *final(self) == *old(self),
            },
    {
        let z = match scan_for_pair(self.buf.as_slice(), 0x0a, 0x0a) {
            Some(z) => z,
            None => {
                return None;
            },
        };
        let ghost before = self.buf@;
        let mut tail = self.buf.split_off(z + 2);
        let mut frame: Vec<u8> = Vec::new();
        core::mem::swap(&mut frame, &mut self.buf);
        core::mem::swap(&mut tail, &mut self.buf);
        frame.truncate(z);
        proof {
            lemma_find(before, 0, gap());
            assert(frame@ =~= before.take(z as int));
            assert(self.buf@ =~= before.skip(z + 2));
        }
        Some(frame)
    }

    /// Bytes that were not taken yet.
    pub fn remaining(&self) -> (res: &[u8])
        ensures
            res@ == self@,
    {
        self.buf.as_slice()
    }
}

impl Default for SseFramer {
    fn default() -> (res: Self)
        ensures
            res@ == Seq::<u8>::empty(),
    {
        Self::new()
    }
}

// ---------------------------------------------------------------------------------
// Laws
// ---------------------------------------------------------------------------------
/// Nothing is lost or added: the frames with what ends them and the rest are the stream.
pub proof fn law_nothing_lost(buf: Seq<u8>)
    ensures
        joined(frames(buf)) + partial(buf) == buf,
    decreases buf.len(),
{
    lemma_find(buf, 0, gap());
    match find(buf, 0, gap()) {
        Some(z) => {
            let rest = buf.skip(z + 2);
            law_nothing_lost(rest);
            assert(frames(buf).drop_first() =~= frames(rest));
            assert(frames(buf)[0] == buf.take(z));
            assert(joined(frames(buf)) + partial(buf) =~= buf.take(z) + gap() + (joined(
                frames(rest),
            ) + partial(rest)));
            assert(buf.subrange(z, z + 2) == gap());
            assert(buf.take(z) + gap() + rest =~= buf.take(z) + buf.subrange(z, z + 2) + rest);
            assert(buf.take(z) + buf.subrange(z, z + 2) + rest =~= buf);
        },
        None => {
            assert(joined(frames(buf)) + partial(buf) =~= buf);
        },
    }
}

/// How the stream was cut does not matter: taking the frames of `a`, then of what was left
/// with `b` behind it, gives the frames of `a + b`.
pub proof fn law_cuts_do_not_matter(a: Seq<u8>, b: Seq<u8>)
    ensures
        frames(a + b) == frames(a) + frames(partial(a) + b),
        partial(a + b) == partial(partial(a) + b),
    decreases a.len(),
{
    lemma_find(a, 0, gap());
    match find(a, 0, gap()) {
        Some(z) => {
            lemma_find_concat(a, b, 0);
            let rest = a.skip(z + 2);
            assert((a + b).take(z) =~= a.take(z));
            assert((a + b).skip(z + 2) =~= rest + b);
            law_cuts_do_not_matter(rest, b);
            assert(frames(a + b) =~= seq![a.take(z)] + (frames(rest) + frames(partial(rest) + b)));
            assert(frames(a + b) =~= frames(a) + frames(partial(a) + b));
        },
        None => {
            assert(frames(a) + frames(partial(a) + b) =~= frames(a + b));
        },
    }
}

proof fn lemma_find_concat(a: Seq<u8>, b: Seq<u8>, i: int)
    requires
        0 <= i,
        find(a, i, gap()) is Some,
    ensures
        find(a + b, i, gap()) == find(a, i, gap()),
    decreases a.len() - i,
{
    assert((a + b).subrange(i, i + 2) =~= a.subrange(i, i + 2));
    if !stands_at(a, i, gap()) {
        lemma_find_concat(a, b, i + 1);
    }
}

// ---------------------------------------------------------------------------------
// Data
// ---------------------------------------------------------------------------------
/// What begins a line of data.
pub open spec fn data_mark() -> Seq<u8> {
    seq![0x64u8, 0x61u8, 0x74u8, 0x61u8, 0x3au8]
}

/// The data in a line: what stands behind `data:`, without one blank.
pub open spec fn line_data(line: Seq<u8>) -> Option<Seq<u8>> {
    if stands_at(line, 0, data_mark()) {
        Some(
            if line.len() > 5 && line[5] == 0x20 {
                line.skip(6)
            } else {
                line.skip(5)
            },
        )
    } else {
        None
    }
}

/// Data with that of one more line behind it.
pub open spec fn more_data(acc: Option<Seq<u8>>, line: Seq<u8>) -> Option<Seq<u8>> {
    match line_data(line) {
        Some(d) => Some(
            match acc {
                Some(a) => a.push(0x0a) + d,
                None => d,
            },
        ),
        None => acc,
    }
}

/// The data in the lines of a frame from offset `i` on, behind the data so far.
pub open spec fn data_from(frame: Seq<u8>, i: int, acc: Option<Seq<u8>>) -> Option<Seq<u8>>
    decreases frame.len() - i,
{
    let z = seek(frame, i, 0x0a);
    if i < 0 || i > frame.len() || z < i {
        acc
    } else if z < frame.len() {
        data_from(frame, z + 1, more_data(acc, frame.subrange(i, z)))
    } else {
        more_data(acc, frame.skip(i))
    }
}

/// The data of a frame, if it has any: its lines of data, with newlines between them.
pub fn frame_data(frame: &[u8]) -> (res: Option<Vec<u8>>)
    ensures
        match res {
            Some(d) => data_from(frame@, 0, None) == Some(d@),
            None => data_from(frame@, 0, None) is None,
        },
{
    let ghost goal = data_from(frame@, 0, None);
    let mut acc: Option<Vec<u8>> = None;
    let mut from: usize = 0;
    loop
        invariant
            from <= frame.len(),
            goal == data_from(frame@, 0, None),
            goal == data_from(frame@, from as int, maybe_data(acc)),
        decreases frame.len() - from,
    {
        let z = seek_byte(frame, from, 0x0a);
        let line = vstd::slice::slice_subrange(frame, from, z);
        let ghost before = maybe_data(acc);
        let marked = line.len() >= 5 && line[0] == 0x64 && line[1] == 0x61 && line[2] == 0x74
            && line[3] == 0x61 && line[4] == 0x3a;
        proof {
            if line@.len() >= 5 {
                assert(line@.subrange(0, 5)[0] == line@[0]);
                assert(line@.subrange(0, 5)[1] == line@[1]);
                assert(line@.subrange(0, 5)[2] == line@[2]);
                assert(line@.subrange(0, 5)[3] == line@[3]);
                assert(line@.subrange(0, 5)[4] == line@[4]);
                assert(marked == (line@.subrange(0, 5) =~= data_mark()));
            }
        }
        if marked {
            let at: usize = if line.len() > 5 && line[5] == 0x20 {
                6
            } else {
                5
            };
            let mut out: Vec<u8> = match acc {
                Some(a) => {
                    let mut a = a;
                    a.push(0x0a);
                    a
                },
                None => Vec::new(),
            };
            push_bytes(&mut out, vstd::slice::slice_subrange(line, at, line.len()));
            acc = Some(out);
            proof {
                assert(line@.subrange(at as int, line@.len() as int) =~= line@.skip(at as int));
                assert(Seq::<u8>::empty() + line@.skip(at as int) =~= line@.skip(at as int));
                assert(maybe_data(acc) == more_data(before, line@));
            }
        }
        if z >= frame.len() {
            proof {
                assert(frame@.subrange(from as int, z as int) =~= frame@.skip(from as int));
            }
            return acc;
        }
        from = z + 1;
    }
}

spec fn maybe_data(acc: Option<Vec<u8>>) -> Option<Seq<u8>> {
    match acc {
        Some(a) => Some(a@),
        None => None,
    }
}

} // verus!
