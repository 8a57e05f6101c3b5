//! NNTP-specific configuration.
use vstd::prelude::*;
use crate::archiver::errors::ConfigError;
use crate::archiver::nntp_source::nntp_utils::{server_address, spec_server_address};
use crate::text::{clone_opt_string, clone_opt_strings, opt_strs_view, opt_view};

verus! {

/// NNTP-specific configuration (the `nntp:` block of the configuration).
#[derive(Debug, Clone)]
pub struct NntpConfig {
    /// NNTP server domain or IP, optionally prefixed by `nntp://` or
    /// `nntps://` to ask for plain text or TLS.
    pub hostname: String,
    /// NNTP server port.
    pub port: Option<u16>,
    /// Groups to read. `"*"`/`"ALL"` selects every list; no value prompts for
    /// a selection.
    pub group_lists: Option<Vec<String>>,
    /// Optional selection of articles: comma separated numbers or
    /// `low-high` ranges.
    pub article_range: Option<String>,
    /// Optional user name for authentication.
    pub username: Option<String>,
    /// Optional password for authentication.
    pub password: Option<String>,
}

/// The contents of an [`NntpConfig`].
pub struct NntpConfigView {
    pub hostname: Seq<char>,
    pub port: Option<u16>,
    pub group_lists: Option<Seq<Seq<char>>>,
    pub article_range: Option<Seq<char>>,
    pub username: Option<Seq<char>>,
    pub password: Option<Seq<char>>,
}

impl View for NntpConfig {
    type V = NntpConfigView;

    open spec fn view(&self) -> NntpConfigView {
        NntpConfigView {
            hostname: self.hostname@,
            port: self.port,
            group_lists: opt_strs_view(self.group_lists),
            article_range: opt_view(self.article_range),
            username: opt_view(self.username),
            password: opt_view(self.password),
        }
    }
}

impl Default for NntpConfig {
    fn default() -> (r: Self)
        ensures
            r@.hostname == Seq::<char>::empty(),
            r.port is None,
            r.group_lists is None,
            r.article_range is None,
            r.username is None,
            r.password is None,
    {
        Self {
            hostname: String::new(),
            port: None,
            group_lists: None,
            article_range: None,
            username: None,
            password: None,
        }
    }
}

impl NntpConfig {
    /// Checks that a hostname is provided.
    pub fn validate(&self) -> (r: Result<(), ConfigError>)
        ensures
            r is Ok <==> self.hostname@.len() > 0,
            r is Err ==> r->Err_0 is MissingHostname,
    {
        if self.hostname.as_str().is_empty() {
            return Err(ConfigError::MissingHostname);
        }
        Ok(())
    }

    /// The server address, `hostname:port` or the bare hostname.
    pub fn server_address(&self) -> (r: String)
        ensures
            r@ == spec_server_address(self.hostname@, self.port),
    {
        server_address(self.hostname.as_str(), self.port)
    }

    /// A copy of the configuration.
    pub fn duplicate(&self) -> (r: NntpConfig)
        ensures
            r@ == self@,
    {
        NntpConfig {
            hostname: self.hostname.clone(),
            port: self.port,
            group_lists: clone_opt_strings(&self.group_lists),
            article_range: clone_opt_string(&self.article_range),
            username: clone_opt_string(&self.username),
            password: clone_opt_string(&self.password),
        }
    }
}

} // verus!
