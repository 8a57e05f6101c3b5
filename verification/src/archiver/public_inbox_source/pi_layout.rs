//! How public inboxes lie on disk: the order of the epochs of a V2 inbox,
//! the layout an inbox is detected as, and the git files read to tell.
use vstd::prelude::*;
use vstd::multiset::Multiset;
use crate::archiver::public_inbox_source::pi_utils::{EpochRepo, PublicInbox};
use crate::archiver::public_inbox_source::pi_worker::epoch_number;
use crate::text::{
    chars_of, has_prefix_at, join_path, lines, parse_uint_chars, path_join, split_lines, str_eq,
    string_of, string_of_range, strs_view, trim, trim_chars,
};

verus! {

/// Whether `a` comes before `b` when compared character by character by
/// code point, a proper prefix first (the order of `str`).
pub open spec fn text_less(a: Seq<char>, b: Seq<char>) -> bool
    decreases a.len(),
{
    if b.len() == 0 {
        false
    } else if a.len() == 0 {
        true
    } else if a[0] != b[0] {
        (a[0] as u32) < (b[0] as u32)
    } else {
        text_less(a.drop_first(), b.drop_first())
    }
}

/// No text comes both before and after another.
pub proof fn lemma_text_less_asymmetric(a: Seq<char>, b: Seq<char>)
    ensures
        text_less(a, b) ==> !text_less(b, a),
    decreases a.len(),
{
    if a.len() > 0 && b.len() > 0 && a[0] == b[0] {
        lemma_text_less_asymmetric(a.drop_first(), b.drop_first());
    }
}

/// Executable [`text_less`].
pub fn chars_less(a: &Vec<char>, b: &Vec<char>) -> (r: bool)
    ensures
        r == text_less(a@, b@),
{
    let mut i: usize = 0;
    proof {
        assert(a@.skip(0) =~= a@);
        assert(b@.skip(0) =~= b@);
    }
    loop
        invariant
            i <= a.len(),
            i <= b.len(),
            text_less(a@, b@) == text_less(a@.skip(i as int), b@.skip(i as int)),
        decreases a.len() - i,
    {
        if i == b.len() {
            return false;
        }
        if i == a.len() {
            return true;
        }
        proof {
            assert(a@.skip(i as int)[0] == a@[i as int]);
            assert(b@.skip(i as int)[0] == b@[i as int]);
            assert(a@.skip(i as int).drop_first() =~= a@.skip(i + 1));
            assert(b@.skip(i as int).drop_first() =~= b@.skip(i + 1));
        }
        if a[i] != b[i] {
            return (a[i] as u32) < (b[i] as u32);
        }
        i = i + 1;
    }
}

/// Whether epoch `a` is ordered after epoch `b`: `all` after every other
/// epoch, two numbered epochs by number, any other pair by name.
pub open spec fn epoch_after(a: Seq<char>, b: Seq<char>) -> bool {
    if a == "all"@ && b != "all"@ {
        true
    } else if a != "all"@ && b == "all"@ {
        false
    } else {
        match (epoch_number(a), epoch_number(b)) {
            (Some(x), Some(y)) => x > y,
            _ => text_less(b, a),
        }
    }
}

/// No epoch is ordered both before and after another.
pub proof fn lemma_epoch_after_asymmetric(a: Seq<char>, b: Seq<char>)
    ensures
        epoch_after(a, b) ==> !epoch_after(b, a),
{
    lemma_text_less_asymmetric(a, b);
    lemma_text_less_asymmetric(b, a);
}

/// Executable [`epoch_after`].
pub fn epoch_is_after(a: &str, b: &str) -> (r: bool)
    ensures
        r == epoch_after(a@, b@),
{
    let a_all = str_eq(a, "all");
    let b_all = str_eq(b, "all");
    if a_all && !b_all {
        return true;
    }
    if !a_all && b_all {
        return false;
    }
    let va = chars_of(a);
    let vb = chars_of(b);
    match (parse_uint_chars(&va, usize::MAX as u64), parse_uint_chars(&vb, usize::MAX as u64)) {
        (Some(x), Some(y)) => x > y,
        _ => chars_less(&vb, &va),
    }
}

/// The epoch at `i` is not ordered after the one that follows it.
pub open spec fn in_order_at(s: Seq<EpochRepo>, i: int) -> bool {
    !epoch_after(s[i].epoch_name@, s[i + 1].epoch_name@)
}

/// No epoch is ordered after the one that follows it.
pub open spec fn epochs_in_order(s: Seq<EpochRepo>) -> bool {
    forall|i: int| 0 <= i < s.len() - 1 ==> #[trigger] in_order_at(s, i)
}

/// The epochs of an inbox in reading order (see [`epoch_after`]): the same
/// epochs, none ordered after the one that follows it. Epochs that are not
/// ordered either way keep the order in which they came.
pub fn sort_epochs(epochs: Vec<EpochRepo>) -> (r: Vec<EpochRepo>)
    ensures
        r@.to_multiset() == epochs@.to_multiset(),
        epochs_in_order(r@),
{
    broadcast use vstd::multiset::group_multiset_axioms;

    let mut rest = epochs;
    let mut r: Vec<EpochRepo> = Vec::new();
    proof {
        lemma_empty_to_multiset(r@);
    }
    while rest.len() > 0
        invariant
            r@.to_multiset().add(rest@.to_multiset()) == epochs@.to_multiset(),
            epochs_in_order(r@),
        decreases rest.len(),
    {
        let ghost before_rest = rest@;
        let x = rest.remove(0);
        proof {
            vstd::seq_lib::to_multiset_remove(before_rest, 0);
            assert(before_rest[0] == x);
            assert(before_rest.contains(x));
            vstd::seq_lib::to_multiset_contains(before_rest, x);
        }
        let mut p: usize = r.len();
        while p > 0 && epoch_is_after(r[p - 1].epoch_name.as_str(), x.epoch_name.as_str())
            invariant
                p <= r.len(),
                forall|q: int| p <= q < r.len() ==> epoch_after(#[trigger] r@[q].epoch_name@, x.epoch_name@),
            decreases p,
        {
            p = p - 1;
        }
        let ghost old_r = r@;
        r.insert(p, x);
        proof {
            assert forall|i: int| 0 <= i < r@.len() - 1 implies #[trigger] in_order_at(r@, i) by {
                if i < p as int - 1 {
                    assert(r@[i] == old_r[i] && r@[i + 1] == old_r[i + 1]);
                    assert(in_order_at(old_r, i));
                } else if i == p as int - 1 {
                    assert(r@[i] == old_r[i] && r@[i + 1] == x);
                } else if i == p as int {
                    assert(r@[i] == x && r@[i + 1] == old_r[i]);
                    lemma_epoch_after_asymmetric(old_r[i].epoch_name@, x.epoch_name@);
                } else {
                    assert(r@[i] == old_r[i - 1] && r@[i + 1] == old_r[i]);
                    assert(in_order_at(old_r, i - 1));
                }
            }
            vstd::seq_lib::to_multiset_insert(old_r, p as int, x);
            assert(r@.to_multiset().add(rest@.to_multiset()) =~= epochs@.to_multiset());
        }
    }
    proof {
        lemma_empty_to_multiset(rest@);
        assert(r@.to_multiset().add(rest@.to_multiset()) =~= r@.to_multiset());
    }
    r
}

/// Whether `s` ends with `suffix`.
pub open spec fn ends_with(s: Seq<char>, suffix: Seq<char>) -> bool {
    s.len() >= suffix.len() && s.skip(s.len() - suffix.len()) == suffix
}

/// Executable [`ends_with`].
pub fn chars_end_with(v: &Vec<char>, suffix: &Vec<char>) -> (r: bool)
    ensures
        r == ends_with(v@, suffix@),
{
    if v.len() < suffix.len() {
        return false;
    }
    let at = v.len() - suffix.len();
    proof {
        assert(v@.subrange(at as int, at + suffix.len()) =~= v@.skip(at as int));
    }
    has_prefix_at(v, at, suffix)
}

/// The epoch a directory of `git/` holds: its name without `.git`, when it
/// ends so.
pub open spec fn spec_epoch_dir_name(file_name: Seq<char>) -> Option<Seq<char>> {
    if ends_with(file_name, ".git"@) {
        Some(file_name.take(file_name.len() - 4))
    } else {
        None
    }
}

/// The epoch name of a directory of `git/` (see [`spec_epoch_dir_name`]).
pub fn epoch_dir_name(file_name: &str) -> (r: Option<String>)
    ensures
        match spec_epoch_dir_name(file_name@) {
            Some(n) => r matches Some(s) && s@ == n,
            None => r is None,
        },
{
    let v = chars_of(file_name);
    let suffix = chars_of(".git");
    proof {
        reveal_strlit(".git");
    }
    if !chars_end_with(&v, &suffix) {
        return None;
    }
    let name = string_of_range(&v, 0, v.len() - 4);
    proof {
        assert(v@.subrange(0, v@.len() - 4) =~= v@.take(v@.len() - 4));
    }
    Some(name)
}

/// The lines of a text, each trimmed.
pub open spec fn trimmed_lines(s: Seq<char>) -> Seq<Seq<char>> {
    lines(s).map_values(|l: Seq<char>| trim(l))
}

/// The lines of a text, each trimmed.
fn trim_lines(content: &str) -> (r: Vec<Vec<char>>)
    ensures
        r@.map_values(|v: Vec<char>| v@) == trimmed_lines(content@),
{
    let v = chars_of(content);
    let ls = split_lines(&v);
    let mut r: Vec<Vec<char>> = Vec::new();
    let mut i: usize = 0;
    while i < ls.len()
        invariant
            i <= ls.len(),
            ls@.map_values(|p: Vec<char>| p@) == lines(content@),
            r.len() == i,
            r@.map_values(|v: Vec<char>| v@) == trimmed_lines(content@).take(i as int),
        decreases ls.len() - i,
    {
        let t = trim_chars(&ls[i]);
        let ghost tv = t@;
        r.push(t);
        proof {
            assert(r@[i as int]@ == tv);
            assert(ls@.map_values(|p: Vec<char>| p@)[i as int] == ls@[i as int]@);
            assert(lines(content@).len() == ls@.len());
            assert(lines(content@)[i as int] == ls@[i as int]@);
            assert(trimmed_lines(content@).len() == ls@.len());
            assert(trimmed_lines(content@)[i as int] == trim(lines(content@)[i as int]));
            assert(r@.map_values(|v: Vec<char>| v@)[i as int] == trimmed_lines(content@)[i as int]);
            assert(r@.map_values(|v: Vec<char>| v@) =~= trimmed_lines(content@).take(i + 1));
        }
        i = i + 1;
    }
    proof {
        assert(trimmed_lines(content@).take(i as int) =~= trimmed_lines(content@));
    }
    r
}

/// Whether a line of `packed-refs` names the master branch: not a comment,
/// and ending with ` refs/heads/master`.
pub open spec fn names_master(line: Seq<char>) -> bool {
    !(line.len() > 0 && line[0] == '#') && ends_with(line, " refs/heads/master"@)
}

/// Whether a `packed-refs` file names the master branch on one of its
/// lines (each read trimmed).
pub fn packed_refs_have_master(content: &str) -> (r: bool)
    ensures
        r == exists|i: int| 0 <= i < trimmed_lines(content@).len() && #[trigger] names_master(
            trimmed_lines(content@)[i],
        ),
{
    let ls = trim_lines(content);
    let suffix = chars_of(" refs/heads/master");
    let ghost tl = trimmed_lines(content@);
    let mut i: usize = 0;
    while i < ls.len()
        invariant
            i <= ls.len(),
            ls@.map_values(|v: Vec<char>| v@) == tl,
            tl == trimmed_lines(content@),
            suffix@ == " refs/heads/master"@,
            forall|j: int| 0 <= j < i ==> !#[trigger] names_master(tl[j]),
        decreases ls.len() - i,
    {
        let line = &ls[i];
        proof {
            assert(tl[i as int] == line@);
        }
        let comment = line.len() > 0 && line[0] == '#';
        if !comment && chars_end_with(line, &suffix) {
            proof {
                assert(names_master(tl[i as int]));
            }
            return true;
        }
        i = i + 1;
    }
    false
}

/// The paths named by an `alternates` file: its trimmed lines that are not
/// empty.
pub fn alternate_paths(content: &str) -> (r: Vec<String>)
    ensures
        strs_view(r@) == trimmed_lines(content@).filter(|l: Seq<char>| l.len() > 0),
{
    let ls = trim_lines(content);
    let ghost tl = trimmed_lines(content@);
    let mut r: Vec<String> = Vec::new();
    let mut i: usize = 0;
    while i < ls.len()
        invariant
            i <= ls.len(),
            ls@.map_values(|v: Vec<char>| v@) == tl,
            tl == trimmed_lines(content@),
            strs_view(r@) == tl.take(i as int).filter(|l: Seq<char>| l.len() > 0),
        decreases ls.len() - i,
    {
        proof {
            assert(tl.take(i + 1).drop_last() =~= tl.take(i as int));
            assert(tl[i as int] == ls@[i as int]@);
            reveal(Seq::filter);
        }
        if ls[i].len() > 0 {
            r.push(string_of(&ls[i]));
        }
        proof {
            assert(strs_view(r@) =~= tl.take(i + 1).filter(|l: Seq<char>| l.len() > 0));
        }
        i = i + 1;
    }
    proof {
        assert(tl.take(i as int) =~= tl);
    }
    r
}

/// The object directories named by an `alternates` file: its trimmed lines
/// that end with `/objects`.
pub fn alternate_object_dirs(content: &str) -> (r: Vec<String>)
    ensures
        strs_view(r@) == trimmed_lines(content@).filter(|l: Seq<char>| ends_with(l, "/objects"@)),
{
    let ls = trim_lines(content);
    let suffix = chars_of("/objects");
    let ghost tl = trimmed_lines(content@);
    let mut r: Vec<String> = Vec::new();
    let mut i: usize = 0;
    while i < ls.len()
        invariant
            i <= ls.len(),
            ls@.map_values(|v: Vec<char>| v@) == tl,
            tl == trimmed_lines(content@),
            suffix@ == "/objects"@,
            strs_view(r@) == tl.take(i as int).filter(|l: Seq<char>| ends_with(l, "/objects"@)),
        decreases ls.len() - i,
    {
        proof {
            assert(tl.take(i + 1).drop_last() =~= tl.take(i as int));
            assert(tl[i as int] == ls@[i as int]@);
            reveal(Seq::filter);
        }
        if chars_end_with(&ls[i], &suffix) {
            r.push(string_of(&ls[i]));
        }
        proof {
            assert(strs_view(r@) =~= tl.take(i + 1).filter(|l: Seq<char>| ends_with(l, "/objects"@)));
        }
        i = i + 1;
    }
    proof {
        assert(tl.take(i as int) =~= tl);
    }
    r
}

/// Where the e-mails of a detected inbox are kept.
#[derive(Debug, Clone, Copy, PartialEq, Eq, Structural)]
pub enum InboxRepo {
    /// The `git/` directory of epochs.
    GitDir,
    /// The `all.git` repository.
    AllGit,
    /// The repository named by the alternates of `all.git`.
    Alternate,
    /// The directory itself, a bare repository.
    Dir,
}

/// What the file system shows of a directory that may be a public inbox.
#[derive(Debug, Clone)]
pub struct InboxProbe {
    /// `git/` is a directory.
    pub has_git_dir: bool,
    /// A usable epoch of `git/` has a master branch and objects.
    pub has_valid_epoch: bool,
    /// `all.git` is a directory and a git repository.
    pub all_git_is_repo: bool,
    /// `all.git` has an alternates file.
    pub all_git_has_alternates: bool,
    /// The first repository named by those alternates that has a master
    /// branch and objects.
    pub alternate_repo: Option<String>,
    /// `all.git` holds objects.
    pub all_git_has_objects: bool,
    /// `all.git` has a master branch.
    pub all_git_has_master: bool,
    /// The directory itself is a git repository with a master branch.
    pub dir_is_repo_with_master: bool,
}

/// The layout an inbox is detected as, and where its e-mails are; `None`
/// where the directory is no inbox.
pub open spec fn spec_inbox_layout(p: InboxProbe) -> Option<(Seq<char>, InboxRepo)> {
    if p.has_git_dir {
        if p.has_valid_epoch {
            Some(("V2"@, InboxRepo::GitDir))
        } else if p.all_git_is_repo {
            if p.all_git_has_alternates {
                if p.alternate_repo is Some {
                    Some(("V2 (alternates)"@, InboxRepo::Alternate))
                } else if p.all_git_has_objects && p.all_git_has_master {
                    Some(("V2 (combined)"@, InboxRepo::AllGit))
                } else {
                    Some(("V2 (incomplete)"@, InboxRepo::AllGit))
                }
            } else if p.all_git_has_objects && p.all_git_has_master {
                Some(("V1"@, InboxRepo::AllGit))
            } else if p.all_git_has_objects {
                Some(("V1 (empty)"@, InboxRepo::AllGit))
            } else {
                None
            }
        } else {
            None
        }
    } else if p.all_git_is_repo && p.all_git_has_master {
        Some(("V1"@, InboxRepo::AllGit))
    } else if p.dir_is_repo_with_master {
        Some(("V1 (bare)"@, InboxRepo::Dir))
    } else if p.all_git_is_repo {
        Some(("V1 (empty)"@, InboxRepo::AllGit))
    } else {
        None
    }
}

/// The repository path of an inbox in `dir`.
pub open spec fn repo_path(dir: Seq<char>, p: InboxProbe, which: InboxRepo) -> Seq<char> {
    match which {
        InboxRepo::GitDir => path_join(dir, "git"@),
        InboxRepo::AllGit => path_join(dir, "all.git"@),
        InboxRepo::Alternate => p.alternate_repo.unwrap()@,
        InboxRepo::Dir => dir,
    }
}

/// The inbox a directory named `name` at `dir` is detected as, from what
/// the file system shows of it (see [`spec_inbox_layout`]).
pub fn classify_inbox(name: &str, dir: &str, probe: &InboxProbe) -> (r: Option<PublicInbox>)
    ensures
        match spec_inbox_layout(*probe) {
            None => r is None,
            Some((version, which)) => r matches Some(i) && i.name@ == name@ && i.version@ == version
                && i.git_dir@ == repo_path(dir@, *probe, which),
        },
{
    let p = probe;
    let layout: Option<(&str, InboxRepo)> = if p.has_git_dir {
        if p.has_valid_epoch {
            Some(("V2", InboxRepo::GitDir))
        } else if p.all_git_is_repo {
            if p.all_git_has_alternates {
                if p.alternate_repo.is_some() {
                    Some(("V2 (alternates)", InboxRepo::Alternate))
                } else if p.all_git_has_objects && p.all_git_has_master {
                    Some(("V2 (combined)", InboxRepo::AllGit))
                } else {
                    Some(("V2 (incomplete)", InboxRepo::AllGit))
                }
            } else if p.all_git_has_objects && p.all_git_has_master {
                Some(("V1", InboxRepo::AllGit))
            } else if p.all_git_has_objects {
                Some(("V1 (empty)", InboxRepo::AllGit))
            } else {
                None
            }
        } else {
            None
        }
    } else if p.all_git_is_repo && p.all_git_has_master {
        Some(("V1", InboxRepo::AllGit))
    } else if p.dir_is_repo_with_master {
        Some(("V1 (bare)", InboxRepo::Dir))
    } else if p.all_git_is_repo {
        Some(("V1 (empty)", InboxRepo::AllGit))
    } else {
        None
    };
    match layout {
        None => None,
        Some((version, which)) => {
            let git_dir = match which {
                InboxRepo::GitDir => join_path(dir, "git"),
                InboxRepo::AllGit => join_path(dir, "all.git"),
                InboxRepo::Alternate => match &p.alternate_repo {
                    Some(a) => a.clone(),
                    None => String::new(),
                },
                InboxRepo::Dir => dir.to_owned(),
            };
            Some(PublicInbox { name: name.to_owned(), version: version.to_owned(), git_dir })
        },
    }
}

/// The inbox at `i` does not come after the one that follows it by name.
pub open spec fn name_in_order_at(s: Seq<PublicInbox>, i: int) -> bool {
    !text_less(s[i + 1].name@, s[i].name@)
}

/// The inboxes, each by name not after the one that follows it.
pub open spec fn inboxes_in_order(s: Seq<PublicInbox>) -> bool {
    forall|i: int| 0 <= i < s.len() - 1 ==> #[trigger] name_in_order_at(s, i)
}

/// The inboxes sorted by name: the same inboxes, each name not after the
/// next one; inboxes of the same name keep the order in which they came.
pub fn sort_inboxes(inboxes: Vec<PublicInbox>) -> (r: Vec<PublicInbox>)
    ensures
        r@.to_multiset() == inboxes@.to_multiset(),
        inboxes_in_order(r@),
{
    broadcast use vstd::multiset::group_multiset_axioms;

    let mut rest = inboxes;
    let mut r: Vec<PublicInbox> = Vec::new();
    proof {
        lemma_empty_inboxes_to_multiset(r@);
    }
    while rest.len() > 0
        invariant
            r@.to_multiset().add(rest@.to_multiset()) == inboxes@.to_multiset(),
            inboxes_in_order(r@),
        decreases rest.len(),
    {
        let ghost before_rest = rest@;
        let x = rest.remove(0);
        proof {
            vstd::seq_lib::to_multiset_remove(before_rest, 0);
            assert(before_rest[0] == x);
            assert(before_rest.contains(x));
            vstd::seq_lib::to_multiset_contains(before_rest, x);
        }
        let xv = chars_of(x.name.as_str());
        let mut p: usize = r.len();
        while p > 0 && chars_less(&xv, &chars_of(r[p - 1].name.as_str()))
            invariant
                p <= r.len(),
                xv@ == x.name@,
                forall|q: int| p <= q < r.len() ==> text_less(x.name@, #[trigger] r@[q].name@),
            decreases p,
        {
            p = p - 1;
        }
        let ghost old_r = r@;
        r.insert(p, x);
        proof {
            assert forall|i: int| 0 <= i < r@.len() - 1 implies #[trigger] name_in_order_at(r@, i) by {
                if i < p as int - 1 {
                    assert(r@[i] == old_r[i] && r@[i + 1] == old_r[i + 1]);
                    assert(name_in_order_at(old_r, i));
                } else if i == p as int - 1 {
                    assert(r@[i] == old_r[i] && r@[i + 1] == x);
                } else if i == p as int {
                    assert(r@[i] == x && r@[i + 1] == old_r[i]);
                    lemma_text_less_asymmetric(x.name@, old_r[i].name@);
                } else {
                    assert(r@[i] == old_r[i - 1] && r@[i + 1] == old_r[i]);
                    assert(name_in_order_at(old_r, i - 1));
                }
            }
            vstd::seq_lib::to_multiset_insert(old_r, p as int, x);
            assert(r@.to_multiset().add(rest@.to_multiset()) =~= inboxes@.to_multiset());
        }
    }
    proof {
        lemma_empty_inboxes_to_multiset(rest@);
        assert(r@.to_multiset().add(rest@.to_multiset()) =~= r@.to_multiset());
    }
    r
}

/// An empty sequence of inboxes holds nothing.
proof fn lemma_empty_inboxes_to_multiset(s: Seq<PublicInbox>)
    requires
        s.len() == 0,
    ensures
        s.to_multiset() =~= Multiset::empty(),
{
    broadcast use vstd::multiset::group_multiset_axioms;

    assert forall|a: PublicInbox| s.to_multiset().count(a) == 0 by {
        vstd::seq_lib::to_multiset_contains(s, a);
    }
}

/// An empty sequence holds nothing.
proof fn lemma_empty_to_multiset(s: Seq<EpochRepo>)
    requires
        s.len() == 0,
    ensures
        s.to_multiset() =~= Multiset::empty(),
{
    broadcast use vstd::multiset::group_multiset_axioms;

    assert forall|a: EpochRepo| s.to_multiset().count(a) == 0 by {
        vstd::seq_lib::to_multiset_contains(s, a);
    }
}

} // verus!
