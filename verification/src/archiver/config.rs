//! Application configuration of the archiver and the run modes it selects.
//!
//! Global settings (`nthreads`, `output_dir`, `loop_groups`) are at the top
//! level; source-specific settings are nested (`nntp`). Their values are
//! reached through the [`RunMode`] of the source.
use vstd::prelude::*;
use crate::archiver::errors::ConfigError;
use crate::archiver::nntp_source::nntp_config::NntpConfig;
use crate::text::{clone_strings, opt_strs_view, opt_view, str_eq, strs_view};

verus! {

/// Main application configuration.
#[derive(Debug, Clone)]
pub struct AppConfig {
    /// Number of worker threads connecting to different lists.
    pub nthreads: u8,
    /// Output directory where results are stored.
    pub output_dir: String,
    /// If true, keep running forever; otherwise stop after reading all groups.
    pub loop_groups: bool,
    /// NNTP-specific configuration.
    pub nntp: Option<NntpConfig>,
}

/// The sources the archiver can read from.
#[derive(Debug, Clone, Copy, PartialEq, Eq, Structural)]
pub enum RunMode {
    NNTP,
    LocalMbox,
}

/// The configuration of one source.
#[derive(Debug, Clone)]
pub enum RunModeConfig {
    NNTP(NntpConfig),
    LocalMbox,
}

/// Command line options of the archiver.
#[derive(Debug, Clone)]
pub struct Opts {
    /// Config file location (a glob pattern).
    pub config_file: String,
}

/// Default number of worker threads.
pub fn default_nthreads() -> (r: u8)
    ensures
        r == 1,
{
    1
}

/// Default output directory.
pub fn default_output_dir() -> (r: String)
    ensures
        r@ == "./output"@,
{
    let r = String::from_str("./output");
    proof {
        reveal_strlit("./output");
    }
    r
}

/// By default the groups are read again and again.
pub fn default_loop_groups() -> (r: bool)
    ensures
        r,
{
    true
}

impl Default for AppConfig {
    fn default() -> (r: Self)
        ensures
            r.nthreads == 1,
            r.output_dir@ == "./output"@,
            r.loop_groups,
            r.nntp is None,
    {
        Self {
            nthreads: default_nthreads(),
            output_dir: default_output_dir(),
            loop_groups: default_loop_groups(),
            nntp: None,
        }
    }
}

/// Consecutive repeats removed (`Vec::dedup`).
pub open spec fn dedup(s: Seq<Seq<char>>) -> Seq<Seq<char>>
    decreases s.len(),
{
    if s.len() <= 1 {
        s
    } else if s.last() == s[s.len() - 2] {
        dedup(s.drop_last())
    } else {
        dedup(s.drop_last()).push(s.last())
    }
}

/// The entries of `s` that occur in `available`, in order.
pub open spec fn keep_available(s: Seq<Seq<char>>, available: Seq<Seq<char>>) -> Seq<Seq<char>>
    decreases s.len(),
{
    if s.len() == 0 {
        s
    } else if available.contains(s.last()) {
        keep_available(s.drop_last(), available).push(s.last())
    } else {
        keep_available(s.drop_last(), available)
    }
}

/// The keyword that selects every available list.
pub open spec fn all_keyword() -> Seq<char> {
    "ALL"@
}

/// The lists to read, given the configured selection (if any), the lists
/// the server offers, and the answer of the interactive selection (used
/// only when nothing is configured).
pub open spec fn spec_group_lists(
    configured: Option<Seq<Seq<char>>>,
    available: Seq<Seq<char>>,
    answer: Seq<Seq<char>>,
) -> Result<Seq<Seq<char>>, ()> {
    match configured {
        Some(sel) => if sel[0] == all_keyword() {
            Ok(available)
        } else {
            let valid = keep_available(dedup(sel), available);
            if valid.len() == 0 {
                Err(())
            } else {
                Ok(valid)
            }
        },
        None => {
            let chosen = if answer[0] == all_keyword() {
                available
            } else {
                answer
            };
            if chosen.len() == 0 {
                Err(())
            } else {
                Ok(chosen)
            }
        },
    }
}

impl RunModeConfig {
    /// A description of the source, as recorded in the data lineage:
    /// `NNTP h=<hostname>` or `LocalMbox`.
    pub open spec fn spec_describe(&self) -> Seq<char> {
        match self {
            RunModeConfig::NNTP(c) => "NNTP h="@ + c.hostname@,
            RunModeConfig::LocalMbox => "LocalMbox"@,
        }
    }

    pub fn describe(&self) -> (r: String)
        ensures
            r@ == self.spec_describe(),
    {
        match self {
            RunModeConfig::NNTP(c) => {
                let mut r = String::from_str("NNTP h=");
                crate::text::push_str(&mut r, c.hostname.as_str());
                r
            },
            RunModeConfig::LocalMbox => String::from_str("LocalMbox"),
        }
    }
}

impl AppConfig {
    /// The configuration of a run mode, if that source is configured.
    pub fn get_run_mode_config(&self, run_mode: RunMode) -> (r: Option<RunModeConfig>)
        ensures
            run_mode == RunMode::NNTP ==> match self.nntp {
                Some(c) => r matches Some(RunModeConfig::NNTP(rc)) && rc@ == c@,
                None => r is None,
            },
            run_mode == RunMode::LocalMbox ==> r matches Some(RunModeConfig::LocalMbox),
    {
        match run_mode {
            RunMode::NNTP => match &self.nntp {
                Some(c) => Some(RunModeConfig::NNTP(c.duplicate())),
                None => None,
            },
            RunMode::LocalMbox => Some(RunModeConfig::LocalMbox),
        }
    }

    /// The article range text configured for a run mode. Only NNTP has one.
    pub fn get_range_selection_text(&self, run_mode: RunMode) -> (r: Option<String>)
        requires
            run_mode == RunMode::NNTP,
        ensures
            opt_view(r) == match self.nntp {
                Some(c) => c@.article_range,
                None => None,
            },
    {
        match self.get_run_mode_config(run_mode) {
            Some(RunModeConfig::NNTP(c)) => c.article_range,
            _ => None,
        }
    }

    /// The run modes that are configured.
    pub fn get_run_modes(&self) -> (r: Vec<RunMode>)
        ensures
            r@ == if self.nntp is Some {
                seq![RunMode::NNTP]
            } else {
                Seq::<RunMode>::empty()
            },
    {
        let mut run_modes: Vec<RunMode> = Vec::new();
        if self.nntp.is_some() {
            run_modes.push(RunMode::NNTP);
        }
        proof {
            if self.nntp is Some {
                assert(run_modes@ =~= seq![RunMode::NNTP]);
            } else {
                assert(run_modes@ =~= Seq::<RunMode>::empty());
            }
        }
        run_modes
    }

    /// The configured list selection of a run mode.
    pub fn get_list_selection(&self, run_mode: RunMode) -> (r: Option<Vec<String>>)
        requires
            run_mode == RunMode::NNTP,
        ensures
            opt_strs_view(r) == match self.nntp {
                Some(c) => c@.group_lists,
                None => None,
            },
    {
        match &self.nntp {
            Some(c) => match &c.group_lists {
                Some(lists) => Some(clone_strings(lists)),
                None => None,
            },
            None => None,
        }
    }

    /// Chooses the lists to read among those the server offers.
    ///
    /// With a configured selection: `"ALL"` first means every available
    /// list; otherwise repeated neighbours are dropped and only available
    /// lists kept (refused with `AllListsUnavailable` when none is left).
    /// Without one, `answer` is the interactive selection: `"ALL"` first
    /// means every available list, and an empty result is refused with
    /// `ListSelectionEmpty`.
    pub fn get_group_lists(
        &self,
        list_options: Vec<String>,
        run_mode: RunMode,
        answer: Vec<String>,
    ) -> (r: Result<Vec<String>, ConfigError>)
        requires
            run_mode == RunMode::NNTP,
            match self.nntp {
                Some(c) => match c@.group_lists {
                    Some(sel) => sel.len() > 0,
                    None => answer@.len() > 0,
                },
                None => answer@.len() > 0,
            },
        ensures
            ({
                let configured = match self.nntp {
                    Some(c) => c@.group_lists,
                    None => None,
                };
                match spec_group_lists(configured, strs_view(list_options@), strs_view(answer@)) {
                    Ok(lists) => r is Ok && strs_view(r->Ok_0@) == lists,
                    Err(_) => r is Err && (if configured is Some {
                        r->Err_0 is AllListsUnavailable
                    } else {
                        r->Err_0 is ListSelectionEmpty
                    }),
                }
            }),
    {
        let ghost available = strs_view(list_options@);
        match self.get_list_selection(run_mode) {
            None => {
                let chosen = if str_eq(answer[0].as_str(), "ALL") {
                    list_options
                } else {
                    answer
                };
                proof {
                    reveal_strlit("ALL");
                }
                if chosen.len() == 0 {
                    Err(ConfigError::ListSelectionEmpty)
                } else {
                    Ok(chosen)
                }
            },
            Some(selection) => {
                proof {
                    reveal_strlit("ALL");
                }
                if str_eq(selection[0].as_str(), "ALL") {
                    return Ok(list_options);
                }
                let deduped = dedup_strings(&selection);
                let valid = keep_listed(&deduped, &list_options);
                if valid.len() == 0 {
                    Err(ConfigError::AllListsUnavailable)
                } else {
                    Ok(valid)
                }
            },
        }
    }
}

/// `Vec::dedup` on a list of strings.
pub fn dedup_strings(v: &Vec<String>) -> (r: Vec<String>)
    ensures
        strs_view(r@) == dedup(strs_view(v@)),
{
    let mut r: Vec<String> = Vec::new();
    let mut i: usize = 0;
    while i < v.len()
        invariant
            i <= v.len(),
            strs_view(r@) == dedup(strs_view(v@).take(i as int)),
            i > 0 ==> r@.len() > 0 && r@.last()@ == v@[i - 1]@,
        decreases v.len() - i,
    {
        let ghost sv = strs_view(v@);
        proof {
            assert(sv.take(i + 1).drop_last() =~= sv.take(i as int));
            assert(sv.take(i + 1).last() == v@[i as int]@);
            if i > 0 {
                assert(sv.take(i + 1)[i - 1] == v@[i - 1]@);
                lemma_dedup_last(sv.take(i as int));
            }
        }
        if i > 0 && str_eq(v[i].as_str(), v[i - 1].as_str()) {
        } else {
            let ghost prev = r@;
            r.push(v[i].clone());
            proof {
                assert(strs_view(r@) =~= strs_view(prev).push(v@[i as int]@));
                if i == 0 {
                    assert(sv.take(1) =~= seq![v@[0]@]);
                }
            }
        }
        i = i + 1;
    }
    proof {
        assert(strs_view(v@).take(i as int) =~= strs_view(v@));
    }
    r
}

/// The last kept element of `dedup(s)` is the last element of `s`.
pub proof fn lemma_dedup_last(s: Seq<Seq<char>>)
    requires
        s.len() > 0,
    ensures
        dedup(s).len() > 0,
        dedup(s).last() == s.last(),
    decreases s.len(),
{
    if s.len() > 1 {
        lemma_dedup_last(s.drop_last());
    }
}

/// The strings of `v` that also occur in `available`, in order.
pub fn keep_listed(v: &Vec<String>, available: &Vec<String>) -> (r: Vec<String>)
    ensures
        strs_view(r@) == keep_available(strs_view(v@), strs_view(available@)),
{
    let mut r: Vec<String> = Vec::new();
    let mut i: usize = 0;
    while i < v.len()
        invariant
            i <= v.len(),
            strs_view(r@) == keep_available(strs_view(v@).take(i as int), strs_view(available@)),
        decreases v.len() - i,
    {
        let ghost sv = strs_view(v@);
        proof {
            assert(sv.take(i + 1).drop_last() =~= sv.take(i as int));
            assert(sv.take(i + 1).last() == v@[i as int]@);
        }
        if contains_string(available, v[i].as_str()) {
            let ghost prev = r@;
            r.push(v[i].clone());
            proof {
                assert(strs_view(r@) =~= strs_view(prev).push(v@[i as int]@));
            }
        }
        i = i + 1;
    }
    proof {
        assert(strs_view(v@).take(i as int) =~= strs_view(v@));
    }
    r
}

/// Whether `s` is one of the strings of `v`.
pub fn contains_string(v: &Vec<String>, s: &str) -> (r: bool)
    ensures
        r == strs_view(v@).contains(s@),
{
    let mut i: usize = 0;
    while i < v.len()
        invariant
            i <= v.len(),
            forall|j: int| 0 <= j < i ==> v@[j]@ != s@,
        decreases v.len() - i,
    {
        if str_eq(v[i].as_str(), s) {
            proof {
                assert(strs_view(v@)[i as int] == s@);
            }
            return true;
        }
        i = i + 1;
    }
    proof {
        if strs_view(v@).contains(s@) {
            let j = choose|j: int| 0 <= j < strs_view(v@).len() && strs_view(v@)[j] == s@;
            assert(v@[j]@ == s@);
        }
    }
    false
}

} // verus!
