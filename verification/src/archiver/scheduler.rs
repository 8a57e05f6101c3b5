//! What the scheduler hands its workers: list names, or, in range mode, a
//! list name and an e-mail index packed into one task text.
use vstd::prelude::*;
use crate::text::{
    chars_of, decimal, decimal_string, find_chars, find_text, lemma_decimal, no_char, parse_uint,
    parse_uint_range, push_str, string_of_range,
};

verus! {

/// How many tasks wait in a channel at most.
pub const CHANNEL_CAPACITY: usize = 10;

/// Seconds between two passes over the lists when looping (one hour).
pub const INTERVAL_BETWEEN_RESCANS: u64 = 3600;

/// What separates the list name from the index in a range-mode task.
pub const TASK_SEPARATOR: &'static str = "_##";

/// The task reading e-mail `index` of a list: `{list}_##{index}`.
pub open spec fn spec_index_task(list: Seq<char>, index: nat) -> Seq<char> {
    list + TASK_SEPARATOR@ + decimal(index)
}

/// The task reading e-mail `index` of a list.
pub fn index_task(list: &str, index: usize) -> (r: String)
    ensures
        r@ == spec_index_task(list@, index as nat),
{
    let mut r = list.to_owned();
    push_str(&mut r, TASK_SEPARATOR);
    let digits = decimal_string(index as u64);
    push_str(&mut r, digits.as_str());
    r
}

/// Meaning of a range-mode task: the text before the first `_##` and the
/// number after it.
pub open spec fn spec_parse_index_task(task: Seq<char>) -> Option<(Seq<char>, nat)> {
    let k = find_text(task, TASK_SEPARATOR@);
    if k < 0 {
        None
    } else {
        match parse_uint(task.skip(k + 3), usize::MAX as nat) {
            Some(n) => Some((task.take(k), n)),
            None => None,
        }
    }
}

/// Splits a range-mode task into its list name and index (see
/// [`spec_parse_index_task`]); `None` for a text that is no such task.
pub fn parse_index_task(task: &str) -> (r: Option<(String, usize)>)
    ensures
        match spec_parse_index_task(task@) {
            Some((list, n)) => r matches Some(p) && p.0@ == list && p.1 as nat == n,
            None => r is None,
        },
{
    let v = chars_of(task);
    let sep = chars_of(TASK_SEPARATOR);
    proof {
        reveal_strlit("_##");
    }
    match find_chars(&v, &sep) {
        Some(k) => {
            proof {
                assert(v@.subrange(k + 3, v@.len() as int) =~= v@.skip(k + 3));
                assert(v@.subrange(0, k as int) =~= v@.take(k as int));
            }
            match parse_uint_range(&v, k + 3, v.len(), usize::MAX as u64) {
                Some(n) => Some((string_of_range(&v, 0, k), n as usize)),
                None => None,
            }
        },
        None => None,
    }
}

/// With no `#` in `list`, the first `_##` of the task is right after it.
proof fn lemma_task_separator_at(list: Seq<char>, index: nat, i: int)
    requires
        no_char(list, '#'),
        0 <= i <= list.len(),
    ensures
        crate::text::find_text_from(spec_index_task(list, index), TASK_SEPARATOR@, i) == list.len(),
    decreases list.len() - i,
{
    reveal_strlit("_##");
    let t = spec_index_task(list, index);
    let sep = TASK_SEPARATOR@;
    lemma_decimal(index);
    if i == list.len() {
        assert(t.subrange(i, i + 3) =~= sep);
    } else {
        if i + 1 < list.len() {
            assert(t.subrange(i, i + 3)[1] == list[i + 1]);
        } else {
            assert(t.subrange(i, i + 3)[2] == '#');
            assert(t.subrange(i, i + 3)[1] == '_');
        }
        assert(!crate::text::occurs_at(t, sep, i));
        lemma_task_separator_at(list, index, i + 1);
    }
}

/// Law: a range-mode task gives back the list name and index it was made
/// from, when the list name holds no `#`.
pub proof fn law_index_task_round_trip(list: Seq<char>, index: nat)
    requires
        no_char(list, '#'),
        index <= usize::MAX,
    ensures
        spec_parse_index_task(spec_index_task(list, index)) == Some((list, index)),
{
    reveal_strlit("_##");
    lemma_task_separator_at(list, index, 0);
    lemma_decimal(index);
    let t = spec_index_task(list, index);
    assert(t.skip(list.len() + 3int) =~= decimal(index));
    assert(t.take(list.len() as int) =~= list);
    assert(!crate::text::is_digit('+'));
    assert(decimal(index)[0] != '+');
}

/// Whether range mode was asked for several lists at once, which is
/// likely a mistake.
pub fn several_lists_in_range_mode(tasks: &Vec<String>) -> (r: bool)
    ensures
        r == (tasks.len() > 1),
{
    tasks.len() > 1
}

} // verus!
