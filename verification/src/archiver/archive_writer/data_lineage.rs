//! Data lineage: for every stored e-mail, a record of what was fetched,
//! from where, when and by which build, appended to
//! `{base_output_path}/{list_name}/__lineage.yaml`.
use vstd::prelude::*;
use crate::archiver::config::RunModeConfig;
use crate::text::{join_path, path_join};

verus! {

/// Build information recorded with every lineage entry.
pub open spec fn spec_build_info() -> Seq<char> {
    "Archiver v='0.1.0'"@
}

/// Writes lineage records of one list.
pub struct DataLineageWriter {
    output_path: String,
    list_name: String,
    build_info: String,
    run_mode: String,
}

impl DataLineageWriter {
    pub closed spec fn spec_output_path(&self) -> Seq<char> {
        self.output_path@
    }

    pub closed spec fn spec_list_name(&self) -> Seq<char> {
        self.list_name@
    }

    pub closed spec fn spec_build_info(&self) -> Seq<char> {
        self.build_info@
    }

    pub closed spec fn spec_source(&self) -> Seq<char> {
        self.run_mode@
    }

    /// Creates the lineage writer of a list: records go to
    /// `base_path/list_name/__lineage.yaml` and name the source.
    pub fn new(base_path: &str, list_name: &str, run_mode: RunModeConfig) -> (r: Self)
        ensures
            r.spec_output_path() == path_join(path_join(base_path@, list_name@), "__lineage.yaml"@),
            r.spec_list_name() == list_name@,
            r.spec_build_info() == spec_build_info(),
            r.spec_source() == run_mode.spec_describe(),
    {
        let dir = join_path(base_path, list_name);
        Self {
            output_path: join_path(dir.as_str(), "__lineage.yaml"),
            list_name: list_name.to_owned(),
            build_info: String::from_str("Archiver v='0.1.0'"),
            run_mode: run_mode.describe(),
        }
    }

    /// The path of the lineage file.
    pub fn output_path(&self) -> (r: String)
        ensures
            r@ == self.spec_output_path(),
    {
        self.output_path.clone()
    }

    /// The list name recorded in each entry.
    pub fn list_name(&self) -> (r: String)
        ensures
            r@ == self.spec_list_name(),
    {
        self.list_name.clone()
    }

    /// The build information recorded in each entry.
    pub fn build_info(&self) -> (r: String)
        ensures
            r@ == self.spec_build_info(),
    {
        self.build_info.clone()
    }

    /// The source recorded in each entry.
    pub fn source_type(&self) -> (r: String)
        ensures
            r@ == self.spec_source(),
    {
        self.run_mode.clone()
    }
}

} // verus!
