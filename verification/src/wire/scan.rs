//! Searching in byte strings.

use vstd::prelude::*;

verus! {

/// Offset of the first byte `c` at or after `i`, or the length where there is none.
pub open spec fn seek(b: Seq<u8>, i: int, c: u8) -> int
    decreases b.len() - i,
{
    if i >= b.len() {
        b.len() as int
    } else if b[i] == c {
        i
    } else {
        seek(b, i + 1, c)
    }
}

pub proof fn lemma_seek(b: Seq<u8>, i: int, c: u8)
    requires
        0 <= i <= b.len(),
    ensures
        i <= seek(b, i, c) <= b.len(),
        seek(b, i, c) < b.len() ==> b[seek(b, i, c)] == c,
        forall|k: int| i <= k < seek(b, i, c) ==> b[k] != c,
    decreases b.len() - i,
{
    if i < b.len() && b[i] != c {
        lemma_seek(b, i + 1, c);
    }
}

/// Whether `needle` stands at offset `i`.
pub open spec fn stands_at(b: Seq<u8>, i: int, needle: Seq<u8>) -> bool {
    0 <= i && i + needle.len() <= b.len() && b.subrange(i, i + needle.len()) == needle
}

/// Offset of the first occurrence of `needle` at or after `i`.
pub open spec fn find(b: Seq<u8>, i: int, needle: Seq<u8>) -> Option<int>
    decreases b.len() + 1 - i,
{
    if i < 0 || i + needle.len() > b.len() {
        None
    } else if stands_at(b, i, needle) {
        Some(i)
    } else {
        find(b, i + 1, needle)
    }
}

/// The first occurrence: the needle stands there, and nowhere before.
pub proof fn lemma_find(b: Seq<u8>, i: int, needle: Seq<u8>)
    requires
        0 <= i,
    ensures
        match find(b, i, needle) {
            Some(z) => i <= z && stands_at(b, z, needle) && forall|k: int|
                i <= k < z ==> !stands_at(b, k, needle),
            None => forall|k: int| i <= k ==> !stands_at(b, k, needle),
        },
    decreases b.len() + 1 - i,
{
    if i + needle.len() <= b.len() && !stands_at(b, i, needle) {
        lemma_find(b, i + 1, needle);
    }
}

/// Offset of the first byte `c` at or after `from`, or the length where there is none.
pub fn seek_byte(bytes: &[u8], from: usize, c: u8) -> (z: usize)
    requires
        from <= bytes@.len(),
    ensures
        z == seek(bytes@, from as int, c),
        from <= z <= bytes@.len(),
        z < bytes@.len() ==> bytes@[z as int] == c,
{
    let mut i: usize = from;
    while i < bytes.len() && bytes[i] != c
        invariant
            from <= i <= bytes@.len(),
            seek(bytes@, from as int, c) == seek(bytes@, i as int, c),
        decreases bytes.len() - i,
    {
        i += 1;
    }
    i
}

/// Offset of the first byte `b`.
pub fn scan_for_byte(haystack: &[u8], b: u8) -> (res: Option<usize>)
    ensures
        match res {
            Some(z) => z < haystack.len() && z == seek(haystack@, 0, b) && haystack@[z as int] == b,
            None => seek(haystack@, 0, b) == haystack@.len(),
        },
{
    let z = seek_byte(haystack, 0, b);
    if z < haystack.len() {
        Some(z)
    } else {
        None
    }
}

/// Offset of the first occurrence of `needle` at or after `from`.
pub fn find_bytes(haystack: &[u8], from: usize, needle: &[u8]) -> (res: Option<usize>)
    ensures
        match res {
            Some(z) => find(haystack@, from as int, needle@) == Some(z as int) && from <= z && z
                + needle@.len() <= haystack.len(),
            None => find(haystack@, from as int, needle@) is None,
        },
{
    let mut i: usize = from;
    while i <= haystack.len() && needle.len() <= haystack.len() - i
        invariant
            from <= i,
            find(haystack@, from as int, needle@) == find(haystack@, i as int, needle@),
        decreases haystack.len() + 1 - i,
    {
        let mut k: usize = 0;
        while k < needle.len() && haystack[i + k] == needle[k]
            invariant
                k <= needle@.len(),
                i + needle.len() <= haystack.len(),
                forall|j: int| 0 <= j < k ==> haystack@[i + j] == needle@[j],
            decreases needle.len() - k,
        {
            k += 1;
        }
        if k == needle.len() {
            proof {
                assert(haystack@.subrange(i as int, i + needle@.len()) =~= needle@);
            }
            return Some(i);
        }
        proof {
            assert(haystack@.subrange(i as int, i + needle@.len())[k as int] != needle@[k as int]);
        }
        if i == haystack.len() {
            return None;
        }
        i += 1;
    }
    None
}

/// Offset of the first place where `a` is followed by `b`.
pub fn scan_for_pair(haystack: &[u8], a: u8, b: u8) -> (res: Option<usize>)
    ensures
        match res {
            Some(z) => find(haystack@, 0, seq![a, b]) == Some(z as int) && z + 2 <= haystack.len(),
            None => find(haystack@, 0, seq![a, b]) is None,
        },
{
    let mut pair: Vec<u8> = Vec::new();
    pair.push(a);
    pair.push(b);
    proof {
        assert(pair@ =~= seq![a, b]);
    }
    find_bytes(haystack, 0, pair.as_slice())
}

} // verus!
