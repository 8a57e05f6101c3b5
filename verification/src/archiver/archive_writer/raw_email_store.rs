//! Raw storage of e-mails: `{output_path}/{email_id}.eml`.
use vstd::prelude::*;
use crate::text::{join_path, path_join, push_str};

verus! {

/// Writes fetched e-mails of a list as `.eml` files.
#[derive(Debug)]
pub struct RawEmailStore {
    output_path: String,
}

/// The file of an e-mail.
pub open spec fn spec_eml_path(dir: Seq<char>, email_id: Seq<char>) -> Seq<char> {
    path_join(dir, email_id + ".eml"@)
}

/// Raw lines written one after the other, without added newlines.
pub open spec fn concat_lines(lines: Seq<Seq<char>>) -> Seq<char>
    decreases lines.len(),
{
    if lines.len() == 0 {
        Seq::empty()
    } else {
        concat_lines(lines.drop_last()) + lines.last()
    }
}

/// The content of a list of lines written one after the other.
pub fn concat_strings(lines: &[String]) -> (r: String)
    ensures
        r@ == concat_lines(lines@.map_values(|s: String| s@)),
{
    let mut r = String::new();
    let mut i: usize = 0;
    while i < lines.len()
        invariant
            i <= lines.len(),
            r@ == concat_lines(lines@.map_values(|s: String| s@).take(i as int)),
        decreases lines.len() - i,
    {
        proof {
            let m = lines@.map_values(|s: String| s@);
            assert(m.take(i + 1).drop_last() =~= m.take(i as int));
        }
        push_str(&mut r, lines[i].as_str());
        i = i + 1;
    }
    proof {
        let m = lines@.map_values(|s: String| s@);
        assert(m.take(i as int) =~= m);
    }
    r
}

impl RawEmailStore {
    /// The directory the e-mails are written to.
    pub closed spec fn spec_output_path(&self) -> Seq<char> {
        self.output_path@
    }

    /// Creates a store writing into `output_path` (e.g. `./output/list_name`).
    pub fn new(output_path: String) -> (r: Self)
        ensures
            r.spec_output_path() == output_path@,
    {
        Self { output_path }
    }

    /// The file an e-mail is written to: `{output_path}/{email_id}.eml`.
    pub fn file_path(&self, email_id: &str) -> (r: String)
        ensures
            r@ == spec_eml_path(self.spec_output_path(), email_id@),
    {
        let mut name = email_id.to_owned();
        push_str(&mut name, ".eml");
        join_path(self.output_path.as_str(), name.as_str())
    }
}

} // verus!
