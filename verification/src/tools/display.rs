//! Shortening text for display.
use vstd::prelude::*;
use crate::text::{
    byte_boundary, chars_of, push_str, string_of_range, utf8_chars_in_bytes, utf8_longer_than,
    utf8_prefix_len,
};

verus! {

/// Whether a text of `s` characters may be cut to `max_len` bytes: either it
/// fits, or `max_len - 3` bytes end on a character boundary (room is left
/// for the `...`).
pub open spec fn can_truncate(s: Seq<char>, max_len: nat) -> bool {
    utf8_prefix_len(s, s.len() as int) > max_len ==> max_len >= 3 && byte_boundary(
        s,
        (max_len - 3) as nat,
    )
}

/// `s` when its UTF-8 text has at most `max_len` bytes; otherwise its first
/// `max_len - 3` bytes (`k` characters) followed by `...`.
pub open spec fn spec_truncated(s: Seq<char>, max_len: nat, k: int) -> Seq<char> {
    if utf8_prefix_len(s, s.len() as int) <= max_len {
        s
    } else {
        s.take(k) + "..."@
    }
}

/// Truncates a string to `max_len` bytes, ending it with `...` when cut.
pub fn truncate_text(s: &str, max_len: usize) -> (r: String)
    requires
        can_truncate(s@, max_len as nat),
    ensures
        exists|k: int|
            0 <= k <= s@.len() && (utf8_prefix_len(s@, s@.len() as int) > max_len
                ==> utf8_prefix_len(s@, k) == max_len - 3) && r@ == spec_truncated(
                s@,
                max_len as nat,
                k,
            ),
{
    let v = chars_of(s);
    if !utf8_longer_than(&v, max_len as u64) {
        let r = s.to_owned();
        proof {
            assert(r@ == spec_truncated(s@, max_len as nat, 0));
        }
        return r;
    }
    let k = match utf8_chars_in_bytes(&v, (max_len - 3) as u64) {
        Some(k) => k,
        None => {
            proof {
                assert(false);
            }
            0
        },
    };
    let mut r = string_of_range(&v, 0, k);
    push_str(&mut r, "...");
    proof {
        assert(v@.subrange(0, k as int) =~= s@.take(k as int));
        assert(r@ == spec_truncated(s@, max_len as nat, k as int));
    }
    r
}

} // verus!
