//! Progress of a list: the last processed e-mail id, kept in
//! `{base_output_path}/{list_name}/__progress.yaml`.
use vstd::prelude::*;
use crate::text::{
    chars_of, decimal, decimal_string, is_digit, join_path, lemma_decimal, lemma_decimal_plain,
    lemma_split_concat, lemma_split_none, lemma_trim_fixed, no_char, parse_uint,
    parse_uint_range, path_join, push_str, split_chars, split_on, trim, trim_bounds, trim_end,
    trim_start, views,
};

verus! {

/// Tracks the last processed e-mail id of a list.
pub struct ProgressTracker {
    output_path: String,
}

/// The YAML document recording the last processed id.
pub open spec fn spec_progress_document(id: nat) -> Seq<char> {
    "last_email: "@ + decimal(id) + "\n"@
}

/// The first space separated part of the text that is a number.
pub open spec fn first_number(parts: Seq<Seq<char>>) -> Option<nat>
    decreases parts.len(),
{
    if parts.len() == 0 {
        None
    } else {
        match parse_uint(trim(parts[0]), usize::MAX as nat) {
            Some(n) => Some(n),
            None => first_number(parts.drop_first()),
        }
    }
}

/// The number read back from a progress file that is not valid YAML: the
/// first space separated part of the trimmed text that parses as a number.
pub open spec fn spec_read_number(content: Seq<char>) -> Option<nat> {
    first_number(split_on(trim(content), ' '))
}

/// Reads the first number in a progress file's text (see [`spec_read_number`]).
pub fn try_read_number(content: &str) -> (r: Option<usize>)
    ensures
        opt_nat(r) == spec_read_number(content@),
{
    let v = chars_of(content);
    let (a, b) = trim_bounds(&v, 0, v.len());
    proof {
        assert(v@.subrange(0, v@.len() as int) =~= v@);
    }
    let t = crate::text::slice_chars(&v, a, b);
    let parts = split_chars(&t, ' ');
    let ghost all = views(parts@);
    let mut i: usize = 0;
    proof {
        assert(all.skip(0) =~= all);
    }
    while i < parts.len()
        invariant
            i <= parts.len(),
            all == views(parts@),
            all == split_on(trim(content@), ' '),
            first_number(all) == first_number(all.skip(i as int)),
        decreases parts.len() - i,
    {
        proof {
            assert(all.skip(i as int)[0] == parts@[i as int]@);
            assert(all.skip(i as int).drop_first() =~= all.skip(i + 1));
            assert(parts@[i as int]@.subrange(0, parts@[i as int]@.len() as int)
                =~= parts@[i as int]@);
        }
        let (x, y) = trim_bounds(&parts[i], 0, parts[i].len());
        match parse_uint_range(&parts[i], x, y, usize::MAX as u64) {
            Some(n) => {
                return Some(n as usize);
            },
            None => {},
        }
        i = i + 1;
    }
    proof {
        assert(all.skip(i as int) =~= Seq::<Seq<char>>::empty());
    }
    None
}

/// An optional number as a natural number.
pub open spec fn opt_nat(o: Option<usize>) -> Option<nat> {
    match o {
        Some(n) => Some(n as nat),
        None => None,
    }
}

/// The characters of an optional text.
pub open spec fn opt_text(o: Option<&str>) -> Option<Seq<char>> {
    match o {
        Some(t) => Some(t@),
        None => None,
    }
}

/// Where to resume a list, from what its progress file held.
pub open spec fn spec_resume(yaml_value: Option<nat>, content: Option<Seq<char>>) -> (nat, bool) {
    match yaml_value {
        Some(n) => (n, false),
        None => {
            let n = match content {
                Some(t) => match spec_read_number(t) {
                    Some(n) => n,
                    None => 0,
                },
                None => 0,
            };
            (n, n == 0)
        },
    }
}

impl ProgressTracker {
    /// The path of the progress file.
    pub closed spec fn spec_output_path(&self) -> Seq<char> {
        self.output_path@
    }

    /// Creates the tracker of a list: `base_path/list_name/__progress.yaml`.
    pub fn new(base_path: &str, list_name: &str) -> (r: Self)
        ensures
            r.spec_output_path() == path_join(
                path_join(base_path@, list_name@),
                "__progress.yaml"@,
            ),
    {
        let dir = join_path(base_path, list_name);
        Self { output_path: join_path(dir.as_str(), "__progress.yaml") }
    }

    /// The path of the progress file.
    pub fn output_path(&self) -> (r: String)
        ensures
            r@ == self.spec_output_path(),
    {
        self.output_path.clone()
    }

    /// The last processed id, given what the progress file held: the
    /// `last_email` value when the file is valid YAML (`yaml_value`), else
    /// the first number of its text (`content`, when the file could be
    /// read), else `0`. The flag tells whether the file must be initialized
    /// with `0`, which happens when the result is `0` and did not come from
    /// the YAML value; this marks the list as discovered.
    pub fn last_processed_id(&self, yaml_value: Option<usize>, content: Option<&str>) -> (r: (
        usize,
        bool,
    ))
        ensures
            r.0 as nat == spec_resume(opt_nat(yaml_value), opt_text(content)).0,
            r.1 == spec_resume(opt_nat(yaml_value), opt_text(content)).1,
    {
        if let Some(n) = yaml_value {
            return (n, false);
        }
        let n = match content {
            Some(t) => match try_read_number(t) {
                Some(n) => n,
                None => 0,
            },
            None => 0,
        };
        (n, n == 0)
    }

    /// The document to write to the progress file after `id` was processed.
    pub fn update(&self, id: usize) -> (doc: String)
        ensures
            doc@ == spec_progress_document(id as nat),
    {
        let mut doc = String::from_str("last_email: ");
        let digits = decimal_string(id as u64);
        push_str(&mut doc, digits.as_str());
        push_str(&mut doc, "\n");
        doc
    }
}

/// Law: the number read back from the progress document written for an
/// id is that id, so a list resumes after the last e-mail recorded (and
/// is read as never processed when that id is 0).
pub proof fn law_progress_round_trip(id: nat)
    requires
        id <= usize::MAX,
    ensures
        spec_read_number(spec_progress_document(id)) == Some(id),
        spec_resume(None, Some(spec_progress_document(id))) == (id, id == 0),
{
    reveal_strlit("last_email: ");
    reveal_strlit("\n");
    let label = "last_email: "@;
    let d = decimal(id);
    lemma_decimal(id);
    lemma_decimal_plain(id);
    let doc = spec_progress_document(id);
    let body = label + d;
    assert(doc =~= body.push('\n'));
    assert(doc[0] == 'l');
    assert(trim_start(doc) == doc);
    assert(doc.drop_last() =~= body);
    assert(body.last() == d.last());
    assert(is_digit(d.last()));
    assert(trim_end(doc) == trim_end(body));
    assert(trim_end(body) == body);
    assert(trim(doc) == body);
    let word = label.take(11);
    assert(label =~= word + seq![' ']);
    assert(body =~= word + seq![' '] + d);
    assert(no_char(word, ' '));
    assert(!is_digit(' '));
    assert(no_char(d, ' '));
    lemma_split_concat(word, d, ' ', Seq::empty());
    lemma_split_none(word, ' ', Seq::empty());
    lemma_split_none(d, ' ', Seq::empty());
    assert(Seq::<char>::empty() + word =~= word);
    assert(Seq::<char>::empty() + d =~= d);
    let parts = split_on(body, ' ');
    assert(parts =~= seq![word, d]);
    assert(word[0] == 'l' && word.last() == ':');
    lemma_trim_fixed(word);
    assert(!is_digit(word[0]));
    assert(parse_uint(trim(word), usize::MAX as nat) is None);
    assert(d[0] != '+');
    assert(parse_uint(trim(d), usize::MAX as nat) == Some(id));
    assert(parts.drop_first() =~= seq![d]);
    assert(first_number(seq![d]) == Some(id));
    assert(parts[0] == word);
    assert(first_number(parts) == Some(id));
    assert(split_on(trim(doc), ' ') == parts);
}

} // verus!
