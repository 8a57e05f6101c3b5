//! `check_git`: browsing public inboxes page by page, and the configuration
//! it writes.
use vstd::prelude::*;
use crate::text::{
    chars_of, decimal, decimal_string, join, lines, parse_uint, parse_uint_chars, push_char,
    push_str, split_lines, str_eq, string_of, strs_view, trim, trim_text,
};
use crate::tools::display::{can_truncate, spec_truncated};

verus! {

/// Commits shown on one page.
pub const PAGE_SIZE: usize = 20;

/// Most bytes of a subject shown in the commit list.
pub const SUBJECT_WIDTH: usize = 50;

/// Shortens a commit subject for the commit list.
pub fn truncate_subject(subject: &str, max_len: usize) -> (r: String)
    requires
        can_truncate(subject@, max_len as nat),
    ensures
        exists|k: int|
            0 <= k <= subject@.len() && (crate::text::utf8_prefix_len(
                subject@,
                subject@.len() as int,
            ) > max_len ==> crate::text::utf8_prefix_len(subject@, k) == max_len - 3) && r@
                == spec_truncated(subject@, max_len as nat, k),
{
    crate::tools::display::truncate_text(subject, max_len)
}

/// Number of pages for `total` commits.
pub fn total_pages(total: usize, page_size: usize) -> (r: usize)
    requires
        page_size > 0,
    ensures
        r == (total + page_size - 1) / page_size as int,
{
    let q = total / page_size;
    if total % page_size != 0 {
        proof {
            let t = total as int;
            let p = page_size as int;
            assert(p >= 2);
            assert(q as int <= t / 2) by (nonlinear_arith)
                requires
                    p >= 2,
                    q as int == t / p,
                    t >= 0,
            ;
        }
    }
    let r = if total % page_size == 0 {
        q
    } else {
        q + 1
    };
    proof {
        let t = total as int;
        let p = page_size as int;
        let qq = q as int;
        let rr = r as int;
        assert(t == qq * p + t % p) by (nonlinear_arith)
            requires
                p > 0,
                qq == t / p,
        ;
        assert(rr == (t + p - 1) / p) by (nonlinear_arith)
            requires
                p > 0,
                t == qq * p + t % p,
                0 <= t % p < p,
                rr == (if t % p == 0 { qq } else { qq + 1 }),
        ;
    }
    r
}

/// The commits `start..end` shown on page `page` (counted from 0).
pub fn page_bounds(page: usize, page_size: usize, total: usize) -> (r: (usize, usize))
    requires
        page_size > 0,
        page * page_size < total,
    ensures
        r.0 == page * page_size,
        r.1 == if r.0 + page_size <= total { r.0 + page_size } else { total as int },
        r.0 < r.1 <= total,
{
    let start = page * page_size;
    let end = if page_size <= total - start {
        start + page_size
    } else {
        total
    };
    (start, end)
}

/// What can be done on a page of commits.
#[derive(Debug, Clone, Copy, PartialEq, Eq, Structural)]
pub enum BrowseAction {
    /// Pick commits of the page to view.
    SelectOnPage,
    /// View one commit by its number.
    ViewByNumber,
    /// Go to the previous page.
    PreviousPage,
    /// Go to the next page.
    NextPage,
    /// Go back to the inbox selection.
    Back,
}

/// The actions offered on page `page` of `pages`: picking and viewing,
/// then the previous page where there is one, the next page where there is
/// one, and going back.
pub open spec fn spec_page_actions(page: nat, pages: nat) -> Seq<BrowseAction> {
    seq![BrowseAction::SelectOnPage, BrowseAction::ViewByNumber] + (if page > 0 {
        seq![BrowseAction::PreviousPage]
    } else {
        Seq::empty()
    }) + (if page + 1 < pages {
        seq![BrowseAction::NextPage]
    } else {
        Seq::empty()
    }) + seq![BrowseAction::Back]
}

/// The actions offered on a page (see [`spec_page_actions`]).
pub fn page_actions(page: usize, pages: usize) -> (r: Vec<BrowseAction>)
    requires
        page < pages,
    ensures
        r@ == spec_page_actions(page as nat, pages as nat),
{
    let mut r: Vec<BrowseAction> = Vec::new();
    r.push(BrowseAction::SelectOnPage);
    r.push(BrowseAction::ViewByNumber);
    if page > 0 {
        r.push(BrowseAction::PreviousPage);
    }
    if page + 1 < pages {
        r.push(BrowseAction::NextPage);
    }
    r.push(BrowseAction::Back);
    proof {
        assert(r@ =~= spec_page_actions(page as nat, pages as nat));
    }
    r
}

/// The page shown after an action: one back, one on, or the same.
pub fn next_page(page: usize, pages: usize, action: BrowseAction) -> (r: usize)
    requires
        page < pages,
        spec_page_actions(page as nat, pages as nat).contains(action),
    ensures
        r == match action {
            BrowseAction::PreviousPage => page - 1,
            BrowseAction::NextPage => page + 1,
            _ => page as int,
        },
        r < pages,
{
    match action {
        BrowseAction::PreviousPage => {
            proof {
                let acts = spec_page_actions(page as nat, pages as nat);
                let k = choose|k: int| 0 <= k < acts.len() && acts[k] == action;
                if page == 0 {
                    assert(acts =~= seq![BrowseAction::SelectOnPage, BrowseAction::ViewByNumber] + (
                    if page + 1 < pages {
                        seq![BrowseAction::NextPage]
                    } else {
                        Seq::empty()
                    }) + seq![BrowseAction::Back]);
                    assert(acts[k] != BrowseAction::PreviousPage);
                }
            }
            page - 1
        },
        BrowseAction::NextPage => {
            proof {
                let acts = spec_page_actions(page as nat, pages as nat);
                let k = choose|k: int| 0 <= k < acts.len() && acts[k] == action;
                if page + 1 >= pages {
                    assert(acts =~= seq![BrowseAction::SelectOnPage, BrowseAction::ViewByNumber] + (
                    if page > 0 {
                        seq![BrowseAction::PreviousPage]
                    } else {
                        Seq::empty()
                    }) + seq![BrowseAction::Back]);
                    assert(acts[k] != BrowseAction::NextPage);
                }
            }
            page + 1
        },
        _ => page,
    }
}

/// What a typed commit number selects.
#[derive(Debug, Clone, Copy, PartialEq, Eq, Structural)]
pub enum CommitChoice {
    /// The commit at this index (counted from 0).
    Index(usize),
    /// A number outside `1..=total`.
    OutOfRange,
    /// Not a number.
    NotANumber,
}

/// Meaning of a typed commit number for `total` commits.
pub open spec fn spec_commit_choice(input: Seq<char>, total: nat) -> CommitChoice {
    match parse_uint(input, usize::MAX as nat) {
        None => CommitChoice::NotANumber,
        Some(n) => if 1 <= n <= total {
            CommitChoice::Index((n - 1) as usize)
        } else {
            CommitChoice::OutOfRange
        },
    }
}

/// Reads a typed commit number (see [`spec_commit_choice`]).
pub fn commit_choice(input: &str, total: usize) -> (r: CommitChoice)
    ensures
        r == spec_commit_choice(input@, total as nat),
{
    let v = chars_of(input);
    match parse_uint_chars(&v, usize::MAX as u64) {
        None => CommitChoice::NotANumber,
        Some(n) => {
            if 1 <= n && n <= total as u64 {
                CommitChoice::Index((n - 1) as usize)
            } else {
                CommitChoice::OutOfRange
            }
        },
    }
}

/// The article position typed for a test fetch: the number, or 1 where
/// the text is not one.
pub fn article_position(input: &str) -> (r: usize)
    ensures
        r as nat == match parse_uint(input@, usize::MAX as nat) {
            Some(n) => n,
            None => 1,
        },
{
    let v = chars_of(input);
    match parse_uint_chars(&v, usize::MAX as u64) {
        Some(n) => n as usize,
        None => 1,
    }
}

/// The index of the commit at `position` (counted from 1 from the newest)
/// among `total`; `None` out of range.
pub fn single_commit_index(position: usize, total: usize) -> (r: Option<usize>)
    ensures
        match r {
            Some(i) => 1 <= position <= total && i == position - 1,
            None => position == 0 || position > total,
        },
{
    if position == 0 || position > total {
        None
    } else {
        Some(position - 1)
    }
}

/// The inbox to test: the first named `wanted`, or the first of all when no
/// name is given; `None` when there is no such inbox.
pub fn select_test_inbox(names: &Vec<String>, wanted: Option<&str>) -> (r: Option<usize>)
    ensures
        match wanted {
            Some(w) => match r {
                Some(i) => i < names.len() && names@[i as int]@ == w@ && forall|j: int|
                    0 <= j < i ==> names@[j]@ != w@,
                None => forall|j: int| 0 <= j < names.len() ==> names@[j]@ != w@,
            },
            None => r == (if names.len() > 0 {
                Some(0usize)
            } else {
                None::<usize>
            }),
        },
{
    if wanted.is_some() {
        let w = wanted.unwrap();
        let mut i: usize = 0;
        while i < names.len()
            invariant
                i <= names.len(),
                wanted == Some(w),
                forall|j: int| 0 <= j < i ==> names@[j]@ != w@,
            decreases names.len() - i,
        {
            if str_eq(names[i].as_str(), w) {
                return Some(i);
            }
            i = i + 1;
        }
        None
    } else if names.len() > 0 {
        Some(0)
    } else {
        None
    }
}

/// The first line of a text, or the empty text.
pub open spec fn spec_first_line(text: Seq<char>) -> Seq<char> {
    if lines(text).len() > 0 {
        lines(text)[0]
    } else {
        Seq::empty()
    }
}

/// The first line of a commit message.
pub fn first_line(text: &str) -> (r: String)
    ensures
        r@ == spec_first_line(text@),
{
    let v = chars_of(text);
    let ls = split_lines(&v);
    if ls.len() > 0 {
        proof {
            assert(crate::text::views(ls@)[0] == ls@[0]@);
        }
        string_of(&ls[0])
    } else {
        String::new()
    }
}

/// A number right-aligned in four columns.
pub open spec fn padded4(n: nat) -> Seq<char> {
    let d = decimal(n);
    if d.len() < 4 {
        Seq::new((4 - d.len()) as nat, |i: int| ' ') + d
    } else {
        d
    }
}

/// One line of the commit list: `{position:4} | {date} | {author} |
/// {subject}`, the subject shortened as by [`truncate_subject`].
pub fn commit_line(position: usize, date: &str, author: &str, subject: &str) -> (r: String)
    requires
        can_truncate(subject@, SUBJECT_WIDTH as nat),
    ensures
        exists|k: int|
            0 <= k <= subject@.len() && r@ == padded4(position as nat) + " | "@ + date@ + " | "@
                + author@ + " | "@ + spec_truncated(subject@, SUBJECT_WIDTH as nat, k),
{
    let digits = decimal_string(position as u64);
    let mut r = String::new();
    let n = chars_of(digits.as_str()).len();
    let mut i: usize = n;
    while i < 4
        invariant
            n <= i <= 4 || (n > 4 && i == n),
            n == digits@.len(),
            r@ == Seq::new((i - n) as nat, |j: int| ' '),
        decreases 4 - i,
    {
        push_char(&mut r, ' ');
        proof {
            assert(r@ =~= Seq::new((i + 1 - n) as nat, |j: int| ' '));
        }
        i = i + 1;
    }
    push_str(&mut r, digits.as_str());
    proof {
        if n < 4 {
            assert(r@ =~= padded4(position as nat));
        } else {
            assert(r@ =~= padded4(position as nat));
        }
    }
    push_str(&mut r, " | ");
    push_str(&mut r, date);
    push_str(&mut r, " | ");
    push_str(&mut r, author);
    push_str(&mut r, " | ");
    let s = truncate_subject(subject, SUBJECT_WIDTH);
    push_str(&mut r, s.as_str());
    r
}

/// The configuration file written for the chosen inboxes.
pub open spec fn spec_public_inbox_config(
    inbox_dir: Seq<char>,
    origin: Seq<char>,
    names: Seq<Seq<char>>,
    article_range: Seq<char>,
) -> Seq<char> {
    "# MLH Archiver Configuration - Public Inbox\n# Generated by check_git\n\nnthreads: 2\noutput_dir: \"./output\"\nloop_groups: false\n\npublic_inbox:\n"@
        + "  inport_directory: \""@ + inbox_dir + "\"\n"@ + "  origin: \""@ + origin + "\"\n"@
        + "  group_lists:\n"@ + join(
        names.map_values(|n: Seq<char>| "    - \""@ + n + "\"\n"@),
        Seq::empty(),
    ) + (if trim(article_range).len() > 0 {
        "  article_range: \""@ + trim(article_range) + "\"\n"@
    } else {
        Seq::empty()
    })
}

/// Writes the configuration file for the chosen inboxes (see
/// [`spec_public_inbox_config`]); a blank article range is left out.
pub fn public_inbox_config_yaml(inbox_dir: &str, origin: &str, names: &Vec<String>, article_range: &str) -> (r: String)
    ensures
        r@ == spec_public_inbox_config(inbox_dir@, origin@, strs_view(names@), article_range@),
{
    let mut yaml = String::from_str(
        "# MLH Archiver Configuration - Public Inbox\n# Generated by check_git\n\nnthreads: 2\noutput_dir: \"./output\"\nloop_groups: false\n\npublic_inbox:\n",
    );
    push_str(&mut yaml, "  inport_directory: \"");
    push_str(&mut yaml, inbox_dir);
    push_str(&mut yaml, "\"\n");
    push_str(&mut yaml, "  origin: \"");
    push_str(&mut yaml, origin);
    push_str(&mut yaml, "\"\n");
    push_str(&mut yaml, "  group_lists:\n");
    let ghost items = strs_view(names@).map_values(|n: Seq<char>| "    - \""@ + n + "\"\n"@);
    let ghost start = yaml@;
    let mut i: usize = 0;
    while i < names.len()
        invariant
            i <= names.len(),
            items == strs_view(names@).map_values(|n: Seq<char>| "    - \""@ + n + "\"\n"@),
            yaml@ == start + join(items.take(i as int), Seq::empty()),
        decreases names.len() - i,
    {
        proof {
            assert(items.take(i + 1).drop_last() =~= items.take(i as int));
            assert(items.take(i + 1).last() == "    - \""@ + names@[i as int]@ + "\"\n"@);
        }
        push_str(&mut yaml, "    - \"");
        push_str(&mut yaml, names[i].as_str());
        push_str(&mut yaml, "\"\n");
        proof {
            if i == 0 {
                assert(join(items.take(1), Seq::empty()) == items.take(1)[0]);
            }
            assert(yaml@ =~= start + join(items.take(i + 1), Seq::empty()));
        }
        i = i + 1;
    }
    proof {
        assert(items.take(i as int) =~= items);
    }
    let range = trim_text(article_range);
    if !range.as_str().is_empty() {
        push_str(&mut yaml, "  article_range: \"");
        push_str(&mut yaml, range.as_str());
        push_str(&mut yaml, "\"\n");
    }
    proof {
        assert(yaml@ =~= spec_public_inbox_config(
            inbox_dir@,
            origin@,
            strs_view(names@),
            article_range@,
        ));
    }
    yaml
}

} // verus!
