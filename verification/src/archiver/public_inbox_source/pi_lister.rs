//! The public inboxes offered as mailing lists.
use vstd::prelude::*;
use crate::archiver::public_inbox_source::pi_utils::PublicInbox;
use crate::text::{chars_of, has_prefix_at};

verus! {

/// Whether `pat` occurs in `s`.
pub open spec fn contains_text(s: Seq<char>, pat: Seq<char>) -> bool {
    exists|i: int| 0 <= i && i + pat.len() <= s.len() && #[trigger] s.subrange(i, i + pat.len()) == pat
}

/// Whether an inbox was detected as incomplete.
pub open spec fn is_incomplete(version: Seq<char>) -> bool {
    contains_text(version, "incomplete"@)
}

/// Whether the text `pat` occurs in `s`.
pub fn text_contains(s: &str, pat: &str) -> (r: bool)
    ensures
        r == contains_text(s@, pat@),
{
    let v = chars_of(s);
    let p = chars_of(pat);
    if p.len() > v.len() {
        return false;
    }
    let last = v.len() - p.len();
    let mut i: usize = 0;
    loop
        invariant
            v@ == s@,
            p@ == pat@,
            last == v.len() - p.len(),
            i <= last,
            forall|k: int| 0 <= k < i ==> #[trigger] v@.subrange(k, k + p@.len()) != p@,
        decreases last - i,
    {
        if has_prefix_at(&v, i, &p) {
            return true;
        }
        if i == last {
            proof {
                assert forall|k: int|
                    0 <= k && k + pat@.len() <= s@.len() implies #[trigger] s@.subrange(
                    k,
                    k + pat@.len(),
                ) != pat@ by {
                    assert(k <= i);
                }
            }
            return false;
        }
        i = i + 1;
    }
}

/// The names of the inboxes that can be read: those not detected as
/// incomplete, in the order found.
pub open spec fn spec_valid_names(inboxes: Seq<PublicInbox>) -> Seq<Seq<char>>
    decreases inboxes.len(),
{
    if inboxes.len() == 0 {
        Seq::empty()
    } else if is_incomplete(inboxes.last().version@) {
        spec_valid_names(inboxes.drop_last())
    } else {
        spec_valid_names(inboxes.drop_last()).push(inboxes.last().name@)
    }
}

/// The names of the inboxes that are not incomplete.
pub fn valid_inbox_names(inboxes: &Vec<PublicInbox>) -> (r: Vec<String>)
    ensures
        r@.map_values(|s: String| s@) == spec_valid_names(inboxes@),
{
    let mut r: Vec<String> = Vec::new();
    let mut i: usize = 0;
    while i < inboxes.len()
        invariant
            i <= inboxes.len(),
            r@.map_values(|s: String| s@) == spec_valid_names(inboxes@.take(i as int)),
        decreases inboxes.len() - i,
    {
        proof {
            assert(inboxes@.take(i + 1).drop_last() =~= inboxes@.take(i as int));
        }
        if !text_contains(inboxes[i].version.as_str(), "incomplete") {
            let ghost prev = r@;
            r.push(inboxes[i].name.clone());
            proof {
                assert(r@.map_values(|s: String| s@) =~= prev.map_values(|s: String| s@).push(
                    inboxes@[i as int].name@,
                ));
            }
        }
        i = i + 1;
    }
    proof {
        assert(inboxes@.take(i as int) =~= inboxes@);
    }
    r
}

} // verus!
