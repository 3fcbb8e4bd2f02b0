//! Finds `<tag>...</tag>` in a byte string.

use vstd::prelude::*;

use super::scan::{find, find_bytes};
use crate::text::{bytes_copy, push_bytes};

verus! {

/// `<tag>`
pub open spec fn open_tag(tag: Seq<u8>) -> Seq<u8> {
    seq![0x3cu8] + tag + seq![0x3eu8]
}

/// `</tag>`
pub open spec fn close_tag(tag: Seq<u8>) -> Seq<u8> {
    seq![0x3cu8, 0x2fu8] + tag + seq![0x3eu8]
}

/// What stands between the first opening tag and the first closing tag behind it.
pub open spec fn tag_body(b: Seq<u8>, tag: Seq<u8>) -> Option<Seq<u8>> {
    match find(b, 0, open_tag(tag)) {
        Some(i) => {
            let start = i + open_tag(tag).len();
            match find(b, start as int, close_tag(tag)) {
                Some(j) => Some(b.subrange(start as int, j)),
                None => None,
            }
        },
        None => None,
    }
}

/// What stands between the first opening tag and the first closing tag behind it.
pub fn find_tag(bytes: &[u8], tag: &[u8]) -> (res: Option<Vec<u8>>)
    ensures
        match res {
            Some(body) => tag_body(bytes@, tag@) == Some(body@),
            None => tag_body(bytes@, tag@) is None,
        },
{
    let mut open: Vec<u8> = Vec::new();
    open.push(0x3c);
    push_bytes(&mut open, tag);
    open.push(0x3e);
    let mut close: Vec<u8> = Vec::new();
    close.push(0x3c);
    close.push(0x2f);
    push_bytes(&mut close, tag);
    close.push(0x3e);
    proof {
        assert(open@ =~= open_tag(tag@));
        assert(close@ =~= close_tag(tag@));
    }
    match find_bytes(bytes, 0, open.as_slice()) {
        Some(i) => {
            let start = i + open.len();
            match find_bytes(bytes, start, close.as_slice()) {
                Some(j) => Some(bytes_copy(vstd::slice::slice_subrange(bytes, start, j))),
                None => None,
            }
        },
        None => None,
    }
}

} // verus!
