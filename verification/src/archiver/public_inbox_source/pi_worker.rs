//! The worker reading public inboxes, and how an e-mail number is found
//! among the epochs.
use vstd::prelude::*;
use std::sync::Arc;
use std::sync::atomic::AtomicBool;
use crate::archiver::public_inbox_source::pi_config::PIConfig;
use crate::archiver::public_inbox_source::pi_utils::EpochRepo;
use crate::archiver::range_inputs::{indices, IndexSequence};
use crate::text::{parse_uint, str_eq};

verus! {

/// A worker that archives the e-mails of public inboxes.
pub struct PIWorker {
    id: u8,
    pi_config: PIConfig,
    base_output_path: String,
    shutdown_flag: Arc<AtomicBool>,
}

impl PIWorker {
    pub closed spec fn spec_id(&self) -> u8 {
        self.id
    }

    pub closed spec fn spec_base_output_path(&self) -> Seq<char> {
        self.base_output_path@
    }

    pub closed spec fn spec_import_directory(&self) -> Seq<char> {
        self.pi_config.import_directory@
    }

    /// The configuration the worker was made with.
    pub closed spec fn spec_pi_config(&self) -> PIConfig {
        self.pi_config
    }

    /// The shutdown flag the worker was made with.
    pub closed spec fn spec_shutdown_flag(&self) -> Arc<AtomicBool> {
        self.shutdown_flag
    }

    /// Creates a worker.
    pub fn new(
        id: u8,
        pi_config: PIConfig,
        base_output_path: String,
        shutdown_flag: Arc<AtomicBool>,
    ) -> (r: PIWorker)
        ensures
            r.spec_id() == id,
            r.spec_base_output_path() == base_output_path@,
            r.spec_import_directory() == pi_config.import_directory@,
            r.spec_pi_config() == pi_config,
            r.spec_shutdown_flag() == shutdown_flag,
    {
        PIWorker { id, pi_config, base_output_path, shutdown_flag }
    }

    /// The worker's id.
    pub fn id(&self) -> (r: u8)
        ensures
            r == self.spec_id(),
    {
        self.id
    }

    /// The root directory the worker writes to.
    pub fn base_output_path(&self) -> (r: String)
        ensures
            r@ == self.spec_base_output_path(),
    {
        self.base_output_path.clone()
    }

    /// The configuration the worker reads with.
    pub fn pi_config(&self) -> (r: &PIConfig)
        ensures
            *r == self.spec_pi_config(),
    {
        &self.pi_config
    }

    /// The shared shutdown flag.
    pub fn shutdown_flag(&self) -> (r: &Arc<AtomicBool>)
        ensures
            *r == self.spec_shutdown_flag(),
    {
        &self.shutdown_flag
    }
}

/// Number of commits in the first `k` epochs.
pub open spec fn commits_before(counts: Seq<usize>, k: int) -> nat
    decreases k,
{
    if k <= 0 || counts.len() == 0 {
        0
    } else if k > counts.len() {
        commits_before(counts, counts.len() as int)
    } else {
        commits_before(counts, k - 1) + counts[k - 1] as nat
    }
}

/// Finds where the e-mail numbered `email_index` (counted from 1 across the
/// epochs, in order) lies: the epoch and the position (counted from 0)
/// within it. `None` when the number is 0 or beyond the last epoch.
pub fn locate_email(email_index: usize, commit_counts: &Vec<usize>) -> (r: Option<(usize, usize)>)
    ensures
        match r {
            Some((epoch, pos)) => {
                &&& email_index >= 1
                &&& epoch < commit_counts.len()
                &&& commits_before(commit_counts@, epoch as int) < email_index
                &&& email_index <= commits_before(commit_counts@, epoch + 1)
                &&& pos == email_index - 1 - commits_before(commit_counts@, epoch as int)
            },
            None => email_index == 0 || commits_before(
                commit_counts@,
                commit_counts.len() as int,
            ) < email_index,
        },
{
    if email_index == 0 {
        return None;
    }
    let mut remaining = email_index;
    let mut k: usize = 0;
    while k < commit_counts.len()
        invariant
            k <= commit_counts.len(),
            1 <= remaining,
            remaining + commits_before(commit_counts@, k as int) == email_index,
        decreases commit_counts.len() - k,
    {
        let count = commit_counts[k];
        if remaining <= count {
            return Some((k, remaining - 1));
        }
        remaining = remaining - count;
        k = k + 1;
    }
    None
}

/// The epochs of an inbox, or the whole repository as one epoch named
/// `name` where the inbox has none (a V1 inbox).
pub fn epochs_or_whole(epochs: Vec<EpochRepo>, git_dir: &str, name: &str) -> (r: Vec<EpochRepo>)
    ensures
        epochs.len() > 0 ==> r@ == epochs@,
        epochs.len() == 0 ==> r.len() == 1 && r@[0].epoch_name@ == name@ && r@[0].git_dir@
            == git_dir@,
{
    if epochs.len() > 0 {
        epochs
    } else {
        let mut r: Vec<EpochRepo> = Vec::new();
        r.push(EpochRepo { epoch_name: name.to_owned(), git_dir: git_dir.to_owned() });
        r
    }
}

/// The number an epoch name stands for.
pub open spec fn epoch_number(name: Seq<char>) -> Option<nat> {
    parse_uint(name, usize::MAX as nat)
}

/// Whether an epoch is still to be read when resuming in `resume_epoch`:
/// the `all` epoch when resuming in `all`, else the epochs numbered from
/// the resume epoch on.
pub open spec fn epoch_kept(name: Seq<char>, resume_epoch: Seq<char>) -> bool {
    if resume_epoch == "all"@ {
        name == "all"@
    } else {
        epoch_number(name).unwrap() >= epoch_number(resume_epoch).unwrap()
    }
}

/// The epochs still to be read when resuming in `resume_epoch`, in order
/// (see [`epoch_kept`]). Epoch names are numbers unless the epoch is
/// `all`.
pub fn filter_epochs(epochs: Vec<EpochRepo>, resume_epoch: &str) -> (r: Vec<EpochRepo>)
    requires
        resume_epoch@ != "all"@ ==> epoch_number(resume_epoch@) is Some && forall|i: int|
            0 <= i < epochs.len() ==> epoch_number(#[trigger] epochs@[i].epoch_name@) is Some,
    ensures
        r@ == epochs@.filter(|e: EpochRepo| epoch_kept(e.epoch_name@, resume_epoch@)),
{
    let all = str_eq(resume_epoch, "all");
    let resume_number: usize = if all {
        0
    } else {
        let v = crate::text::chars_of(resume_epoch);
        match crate::text::parse_uint_chars(&v, usize::MAX as u64) {
            Some(n) => n as usize,
            None => 0,
        }
    };
    let mut r: Vec<EpochRepo> = Vec::new();
    let mut i: usize = 0;
    while i < epochs.len()
        invariant
            i <= epochs.len(),
            all == (resume_epoch@ == "all"@),
            !all ==> epoch_number(resume_epoch@) == Some(resume_number as nat),
            resume_epoch@ != "all"@ ==> forall|j: int|
                0 <= j < epochs.len() ==> epoch_number(#[trigger] epochs@[j].epoch_name@) is Some,
            r@ == epochs@.take(i as int).filter(|e: EpochRepo| epoch_kept(e.epoch_name@, resume_epoch@)),
        decreases epochs.len() - i,
    {
        proof {
            assert(epochs@.take(i + 1).drop_last() =~= epochs@.take(i as int));
            reveal(Seq::filter);
        }
        let e = &epochs[i];
        let kept = if all {
            str_eq(e.epoch_name.as_str(), "all")
        } else {
            let v = crate::text::chars_of(e.epoch_name.as_str());
            match crate::text::parse_uint_chars(&v, usize::MAX as u64) {
                Some(n) => n as usize >= resume_number,
                None => false,
            }
        };
        proof {
            assert(epochs@.take(i + 1).last() == epochs@[i as int]);
            assert(kept == epoch_kept(epochs@[i as int].epoch_name@, resume_epoch@));
        }
        if kept {
            r.push(EpochRepo { epoch_name: e.epoch_name.clone(), git_dir: e.git_dir.clone() });
        }
        proof {
            assert(r@ =~= epochs@.take(i + 1).filter(|e: EpochRepo| epoch_kept(e.epoch_name@, resume_epoch@))) by {
                reveal(Seq::filter);
            }
        }
        i = i + 1;
    }
    proof {
        assert(epochs@.take(i as int) =~= epochs@);
    }
    r
}

/// Whether the e-mail at `position` (counted from 0 across epochs) is
/// selected: its number (counted from 1) is selected, or it is the first
/// and 0 is selected.
pub open spec fn position_selected(selection: Seq<(nat, nat)>, position: nat) -> bool {
    indices(selection).contains(position + 1) || (position == 0 && indices(selection).contains(0nat))
}

/// Whether the e-mail at `position` is selected (see
/// [`position_selected`]).
pub fn is_position_selected(selection: &IndexSequence, position: usize) -> (r: bool)
    ensures
        r == position_selected(selection@, position as nat),
{
    let segs = selection.segments();
    let ghost sv = selection@;
    let mut i: usize = 0;
    let mut found = false;
    while i < segs.len()
        invariant
            i <= segs.len(),
            segs@.map_values(|p: (usize, usize)| (p.0 as nat, p.1 as nat)) == sv,
            found == (indices(sv.take(i as int)).contains((position + 1) as nat) || (position == 0
                && indices(sv.take(i as int)).contains(0))),
        decreases segs.len() - i,
    {
        let (a, b) = segs[i];
        proof {
            assert(sv[i as int] == (a as nat, b as nat));
            lemma_indices_split(sv.take(i + 1), i as int);
            assert(sv.take(i + 1).take(i as int) =~= sv.take(i as int));
        }
        let hit = (a as u128 <= position as u128 + 1 && position as u128 + 1 <= b as u128) || (
        position == 0 && a == 0);
        proof {
            let sp = crate::archiver::range_inputs::span(a as nat, b as nat);
            lemma_span_contains(a as nat, b as nat, (position + 1) as nat);
            lemma_span_contains(a as nat, b as nat, 0);
            lemma_contains_concat(indices(sv.take(i as int)), sp, (position + 1) as nat);
            lemma_contains_concat(indices(sv.take(i as int)), sp, 0);
        }
        found = found || hit;
        i = i + 1;
    }
    proof {
        assert(sv.take(i as int) =~= sv);
    }
    found
}

/// A number is in `span(a, b)` exactly when it lies between `a` and `b`.
proof fn lemma_span_contains(a: nat, b: nat, x: nat)
    ensures
        crate::archiver::range_inputs::span(a, b).contains(x) <==> a <= x <= b,
{
    let sp = crate::archiver::range_inputs::span(a, b);
    if a <= x <= b {
        assert(sp[x - a] == x);
    }
    if sp.contains(x) {
        let k = choose|k: int| 0 <= k < sp.len() && sp[k] == x;
        assert(sp[k] == a + k);
    }
}

/// A value is in a concatenation exactly when it is in one of the parts.
proof fn lemma_contains_concat(p: Seq<nat>, q: Seq<nat>, x: nat)
    ensures
        (p + q).contains(x) <==> p.contains(x) || q.contains(x),
{
    if p.contains(x) {
        let k = choose|k: int| 0 <= k < p.len() && p[k] == x;
        assert((p + q)[k] == x);
    }
    if q.contains(x) {
        let k = choose|k: int| 0 <= k < q.len() && q[k] == x;
        assert((p + q)[p.len() + k] == x);
    }
    if (p + q).contains(x) {
        let k = choose|k: int| 0 <= k < (p + q).len() && (p + q)[k] == x;
        if k < p.len() {
            assert(p[k] == x);
        } else {
            assert(q[k - p.len()] == x);
        }
    }
}

/// The numbers of `segs` are those of its first `k` ranges followed by
/// those of the one at `k`, when that is the last.
proof fn lemma_indices_split(segs: Seq<(nat, nat)>, k: int)
    requires
        0 <= k,
        segs.len() == k + 1,
    ensures
        indices(segs) == indices(segs.take(k)) + crate::archiver::range_inputs::span(
            segs[k].0,
            segs[k].1,
        ),
    decreases k,
{
    if k == 0 {
        assert(segs.drop_first() =~= Seq::<(nat, nat)>::empty());
        assert(segs.take(0) =~= Seq::<(nat, nat)>::empty());
    } else {
        lemma_indices_split(segs.drop_first(), k - 1);
        assert(segs.drop_first().take(k - 1) =~= segs.take(k).drop_first());
        assert(segs.take(k)[0] == segs[0]);
        assert(segs.drop_first()[k - 1] == segs[k]);
    }
}

/// Counters of the scan of one epoch.
pub struct EpochScan {
    /// E-mails archived so far.
    pub emails_processed: usize,
    /// The number the next e-mail gets.
    pub next_email_num: usize,
    /// Commits read so far.
    pub commit_count: usize,
}

impl EpochScan {
    /// The counters at the start of an epoch whose first commit comes after
    /// `global_position` others.
    pub fn new(global_position: usize) -> (r: EpochScan)
        requires
            global_position < usize::MAX,
        ensures
            r.emails_processed == 0,
            r.next_email_num == global_position + 1,
            r.commit_count == 0,
    {
        EpochScan { emails_processed: 0, next_email_num: global_position + 1, commit_count: 0 }
    }

    /// The position, across epochs, checked against the selection for the
    /// next commit.
    pub fn position(&self, global_position: usize) -> (r: usize)
        requires
            global_position + self.commit_count <= usize::MAX,
        ensures
            r == global_position + self.commit_count,
    {
        global_position + self.commit_count
    }

    /// Counts a commit that was read: one more commit, one more e-mail
    /// when it was archived, and the next number in any case.
    pub fn record(&mut self, archived: bool)
        requires
            old(self).commit_count < usize::MAX,
            old(self).next_email_num < usize::MAX,
            old(self).emails_processed < usize::MAX,
        ensures
            final(self).commit_count == old(self).commit_count + 1,
            final(self).next_email_num == old(self).next_email_num + 1,
            final(self).emails_processed == old(self).emails_processed + (if archived {
                1int
            } else {
                0int
            }),
    {
        self.commit_count = self.commit_count + 1;
        if archived {
            self.emails_processed = self.emails_processed + 1;
        }
        self.next_email_num = self.next_email_num + 1;
    }
}

} // verus!
