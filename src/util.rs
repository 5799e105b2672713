//! Small text helpers for listings.
use vstd::prelude::*;
use vstd::string::StringSliceAdditionalSpecFns;
use vstd::utf8::{decode_utf8, encode_utf8, encode_utf8_decode_utf8, is_char_boundary};

verus! {

/// `msg` cut to its first `len` bytes of UTF-8, marked with `...` when cut.
pub open spec fn shortened(msg: Seq<char>, len: nat) -> Seq<char> {
    let b = encode_utf8(msg);
    if b.len() > len {
        decode_utf8(b.subrange(0, len as int)) + "..."@
    } else {
        msg
    }
}

/// Shortens a message for display: its first `len` bytes, followed by `...`
/// when it was longer. A cut must fall between two characters.
pub fn short_msg(msg: String, len: usize) -> (r: String)
    requires
        encode_utf8(msg@).len() <= usize::MAX,
        encode_utf8(msg@).len() <= len || is_char_boundary(encode_utf8(msg@), len as int),
    ensures
        r@ == shortened(msg@, len as nat),
{
    let s = msg.as_str();
    assert(s.spec_bytes() == encode_utf8(msg@));
    if s.len() > len {
        let (head, _) = s.split_at(len);
        proof {
            encode_utf8_decode_utf8(head@);
            assert(head.spec_bytes() == encode_utf8(head@));
            assert(encode_utf8(head@) == encode_utf8(msg@).subrange(0, len as int));
        }
        let mut pre = String::from_str(head);
        pre.append("...");
        pre
    } else {
        msg
    }
}

} // verus!
