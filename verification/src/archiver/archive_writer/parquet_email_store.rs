//! Batches of e-mails written as numbered Parquet files: which e-mails go
//! into the next file, and what that file is called.
//!
//! A list's e-mails are gathered until a batch is full; each batch is
//! written to a new file `{stem}_{index:03}.parquet`, the index one past
//! the largest already in the directory.
use vstd::prelude::*;
use crate::archiver::archive_writer::email_store::EmailData;
use crate::text::{
    all_digits, chars_of, decimal, decimal_string, has_prefix_at, is_digit, lemma_decimal,
    lemma_digits_value_zeros, parse_uint, parse_uint_range, push_str, strs_view,
};

verus! {

/// The extension of the files written.
pub const PARQUET_EXTENSION: &'static str = ".parquet";

/// The stem used when the output path names no Parquet file.
pub const DEFAULT_STEM: &'static str = "data";

/// The index written with at least three digits, zero-padded.
pub open spec fn padded3(n: nat) -> Seq<char> {
    let d = decimal(n);
    if d.len() < 3 {
        Seq::new((3 - d.len()) as nat, |i: int| '0') + d
    } else {
        d
    }
}

/// The name of the file with index `index`: `{stem}_{index:03}.parquet`.
pub open spec fn spec_part_name(stem: Seq<char>, index: nat) -> Seq<char> {
    stem + seq!['_'] + padded3(index) + PARQUET_EXTENSION@
}

/// The name of the file with index `index`.
pub fn part_name(stem: &str, index: usize) -> (r: String)
    ensures
        r@ == spec_part_name(stem@, index as nat),
{
    let digits = decimal_string(index as u64);
    let n = chars_of(digits.as_str()).len();
    let mut r = stem.to_owned();
    push_str(&mut r, "_");
    let ghost before = r@;
    let mut i = n;
    while i < 3
        invariant
            n == digits@.len(),
            (n <= i <= 3) || (n > 3 && i == n),
            r@ == before + Seq::new((i - n) as nat, |j: int| '0'),
        decreases 3 - i,
    {
        push_str(&mut r, "0");
        proof {
            reveal_strlit("0");
            assert(r@ =~= before + Seq::new((i + 1 - n) as nat, |j: int| '0'));
        }
        i = i + 1;
    }
    push_str(&mut r, digits.as_str());
    push_str(&mut r, PARQUET_EXTENSION);
    proof {
        reveal_strlit("_");
        if n < 3 {
            assert(r@ =~= spec_part_name(stem@, index as nat));
        } else {
            assert(Seq::new((i - n) as nat, |j: int| '0') =~= Seq::<char>::empty());
            assert(r@ =~= spec_part_name(stem@, index as nat));
        }
    }
    r
}

/// The index of a file named `{stem}_{index}.parquet`, or `None` for any
/// other name.
pub open spec fn spec_part_index(name: Seq<char>, stem: Seq<char>) -> Option<nat> {
    let prefix = stem + seq!['_'];
    let ext = PARQUET_EXTENSION@;
    if name.len() >= prefix.len() && name.take(prefix.len() as int) == prefix && name.len()
        >= ext.len() && name.skip(name.len() - ext.len()) == ext && prefix.len() + ext.len()
        <= name.len() {
        parse_uint(name.subrange(prefix.len() as int, name.len() - ext.len()), usize::MAX as nat)
    } else {
        None
    }
}

/// The index of a file of the store, if the name is one of its files.
pub fn part_index(name: &str, stem: &str) -> (r: Option<usize>)
    ensures
        match spec_part_index(name@, stem@) {
            Some(n) => r == Some(n as usize),
            None => r is None,
        },
{
    let v = chars_of(name);
    let mut prefix = chars_of(stem);
    prefix.push('_');
    let ext = chars_of(PARQUET_EXTENSION);
    proof {
        reveal_strlit(".parquet");
        assert(prefix@ =~= stem@ + seq!['_']);
        assert(ext@ == PARQUET_EXTENSION@);
        assert(v@ == name@);
    }
    if v.len() < prefix.len() || !has_prefix_at(&v, 0, &prefix) {
        proof {
            if v.len() >= prefix.len() {
                assert(v@.subrange(0, prefix.len() as int) =~= v@.take(prefix.len() as int));
            }
        }
        return None;
    }
    if v.len() < ext.len() || !has_prefix_at(&v, v.len() - ext.len(), &ext) {
        proof {
            assert(v@.subrange(0, prefix.len() as int) =~= v@.take(prefix.len() as int));
            if v.len() >= ext.len() {
                assert(v@.subrange(v.len() - ext.len(), v.len() as int) =~= v@.skip(
                    v.len() - ext.len(),
                ));
            }
        }
        return None;
    }
    proof {
        assert(v@.subrange(0, prefix.len() as int) =~= v@.take(prefix.len() as int));
        assert(v@.subrange(v.len() - ext.len(), v.len() as int) =~= v@.skip(v.len() - ext.len()));
    }
    if prefix.len() > v.len() - ext.len() {
        return None;
    }
    match parse_uint_range(&v, prefix.len(), v.len() - ext.len(), usize::MAX as u64) {
        Some(n) => Some(n as usize),
        None => None,
    }
}

/// The largest index among files of the store, if there is one.
pub open spec fn max_part_index(names: Seq<Seq<char>>, stem: Seq<char>) -> Option<nat>
    decreases names.len(),
{
    if names.len() == 0 {
        None
    } else {
        let rest = max_part_index(names.drop_last(), stem);
        match spec_part_index(names.last(), stem) {
            None => rest,
            Some(i) => match rest {
                None => Some(i),
                Some(m) => Some(if i > m { i } else { m }),
            },
        }
    }
}

/// The index of the next file: one past the largest present, or 0.
pub open spec fn spec_next_index(names: Seq<Seq<char>>, stem: Seq<char>) -> nat {
    match max_part_index(names, stem) {
        Some(m) => m + 1,
        None => 0,
    }
}

/// The index of the next file given the names in the directory (see
/// [`spec_next_index`]). Where the largest index is `usize::MAX` the
/// numbering cannot go on and `None` is returned.
pub fn next_part_index(names: &Vec<String>, stem: &str) -> (r: Option<usize>)
    ensures
        match r {
            Some(i) => i as nat == spec_next_index(strs_view(names@), stem@),
            None => max_part_index(strs_view(names@), stem@) == Some(usize::MAX as nat),
        },
{
    let ghost nv = strs_view(names@);
    let mut max: Option<usize> = None;
    let mut i: usize = 0;
    while i < names.len()
        invariant
            i <= names.len(),
            nv == strs_view(names@),
            match max {
                Some(m) => max_part_index(nv.take(i as int), stem@) == Some(m as nat),
                None => max_part_index(nv.take(i as int), stem@) == None::<nat>,
            },
        decreases names.len() - i,
    {
        proof {
            assert(nv.take(i + 1).drop_last() =~= nv.take(i as int));
            assert(nv.take(i + 1).last() == names@[i as int]@);
        }
        match part_index(names[i].as_str(), stem) {
            Some(k) => {
                max = match max {
                    None => Some(k),
                    Some(m) => Some(if k > m { k } else { m }),
                };
            },
            None => {},
        }
        i = i + 1;
    }
    proof {
        assert(nv.take(i as int) =~= nv);
    }
    match max {
        None => Some(0),
        Some(m) => if m < usize::MAX {
            Some(m + 1)
        } else {
            None
        },
    }
}

/// Every index present is below the next one.
proof fn lemma_max_part_index(names: Seq<Seq<char>>, stem: Seq<char>, k: int)
    requires
        0 <= k < names.len(),
        spec_part_index(names[k], stem) is Some,
    ensures
        max_part_index(names, stem) is Some,
        spec_part_index(names[k], stem)->0 <= max_part_index(names, stem)->0,
    decreases names.len(),
{
    if k < names.len() - 1 {
        assert(names.drop_last()[k] == names[k]);
        lemma_max_part_index(names.drop_last(), stem, k);
    }
}

/// Law: the next file gets an index past that of every file of the store
/// already in the directory, so no file is written over.
pub proof fn law_next_index_is_new(names: Seq<Seq<char>>, stem: Seq<char>, k: int)
    requires
        0 <= k < names.len(),
        spec_part_index(names[k], stem) is Some,
    ensures
        spec_part_index(names[k], stem)->0 < spec_next_index(names, stem),
{
    lemma_max_part_index(names, stem, k);
}

/// Law: the index read from the name of a file written with index `i` is
/// `i`.
pub proof fn law_part_name_round_trip(stem: Seq<char>, index: nat)
    requires
        index <= usize::MAX,
    ensures
        spec_part_index(spec_part_name(stem, index), stem) == Some(index),
{
    reveal_strlit(".parquet");
    let name = spec_part_name(stem, index);
    let prefix = stem + seq!['_'];
    let ext = PARQUET_EXTENSION@;
    let p = padded3(index);
    let d = decimal(index);
    lemma_decimal(index);
    assert(name =~= prefix + p + ext);
    assert(name.take(prefix.len() as int) =~= prefix);
    assert(name.skip(name.len() - ext.len()) =~= ext);
    assert(name.subrange(prefix.len() as int, name.len() - ext.len()) =~= p);
    if d.len() < 3 {
        let z = Seq::new((3 - d.len()) as nat, |i: int| '0');
        lemma_digits_value_zeros(z, d);
        assert(p == z + d);
        assert forall|i: int| 0 <= i < p.len() implies is_digit(#[trigger] p[i]) by {
            if i >= z.len() {
                assert(p[i] == d[i - z.len()]);
            }
        }
    }
    assert(all_digits(p));
    assert(!is_digit('+'));
    assert(p[0] != '+');
}

/// The e-mails gathered for the next file of a list.
pub struct ParquetEmailStore {
    output_path: String,
    buffer: Vec<EmailData>,
    batch_size: usize,
    commited_files: Vec<String>,
}

/// A list of e-mails as their ids and contents.
pub open spec fn emails_view(v: Seq<EmailData>) -> Seq<(Seq<char>, Seq<char>)> {
    v.map_values(|e: EmailData| (e.email_id@, e.content@))
}

impl ParquetEmailStore {
    /// The e-mails waiting to be written, as ids and contents.
    pub closed spec fn pending(&self) -> Seq<(Seq<char>, Seq<char>)> {
        emails_view(self.buffer@)
    }

    /// Where the store writes.
    pub closed spec fn spec_output_path(&self) -> Seq<char> {
        self.output_path@
    }

    /// How many e-mails make a file.
    pub closed spec fn spec_batch_size(&self) -> nat {
        self.batch_size as nat
    }

    /// The names of the files written so far.
    pub closed spec fn spec_commited(&self) -> Seq<Seq<char>> {
        strs_view(self.commited_files@)
    }

    /// An empty store writing files of `batch_size` e-mails under
    /// `output_path`.
    pub fn new(output_path: String, batch_size: usize) -> (r: Self)
        ensures
            r.pending() == Seq::<(Seq<char>, Seq<char>)>::empty(),
            r.spec_batch_size() == batch_size,
            r.spec_commited() == Seq::<Seq<char>>::empty(),
            r.spec_output_path() == output_path@,
    {
        let r = Self { output_path, buffer: Vec::new(), batch_size, commited_files: Vec::new() };
        proof {
            assert(emails_view(r.buffer@) =~= Seq::<(Seq<char>, Seq<char>)>::empty());
            assert(strs_view(r.commited_files@) =~= Seq::<Seq<char>>::empty());
        }
        r
    }

    /// Where the store writes.
    pub fn output_path(&self) -> (r: &String)
        ensures
            r@ == self.spec_output_path(),
    {
        &self.output_path
    }

    /// Adds an e-mail. When the batch is then full, its e-mails are handed
    /// back, in the order added, to be written to the next file, and the
    /// store starts a new batch.
    pub fn add_email(&mut self, email: EmailData) -> (r: Option<Vec<EmailData>>)
        ensures
            final(self).spec_batch_size() == old(self).spec_batch_size(),
            final(self).spec_commited() == old(self).spec_commited(),
            final(self).spec_output_path() == old(self).spec_output_path(),
            old(self).pending().len() + 1 >= old(self).spec_batch_size() ==> r is Some && emails_view(
                r->0@,
            ) == old(self).pending().push((email.email_id@, email.content@)) && final(self).pending()
                == Seq::<(Seq<char>, Seq<char>)>::empty(),
            old(self).pending().len() + 1 < old(self).spec_batch_size() ==> r is None
                && final(self).pending() == old(self).pending().push((email.email_id@, email.content@)),
    {
        let ghost id = (email.email_id@, email.content@);
        let ghost before = emails_view(self.buffer@);
        self.buffer.push(email);
        proof {
            assert(emails_view(self.buffer@) =~= before.push(id));
        }
        if self.buffer.len() >= self.batch_size {
            let mut batch: Vec<EmailData> = Vec::new();
            std::mem::swap(&mut batch, &mut self.buffer);
            proof {
                assert(emails_view(self.buffer@) =~= Seq::<(Seq<char>, Seq<char>)>::empty());
            }
            Some(batch)
        } else {
            None
        }
    }

    /// Hands back the e-mails still waiting, if any, to be written to a
    /// last file.
    pub fn close(&mut self) -> (r: Option<Vec<EmailData>>)
        ensures
            final(self).pending() == Seq::<(Seq<char>, Seq<char>)>::empty(),
            final(self).spec_batch_size() == old(self).spec_batch_size(),
            final(self).spec_commited() == old(self).spec_commited(),
            final(self).spec_output_path() == old(self).spec_output_path(),
            old(self).pending().len() > 0 ==> r is Some && emails_view(r->0@) == old(self).pending(),
            old(self).pending().len() == 0 ==> r is None,
    {
        if self.buffer.len() == 0 {
            proof {
                assert(emails_view(self.buffer@) =~= Seq::<(Seq<char>, Seq<char>)>::empty());
            }
            return None;
        }
        let mut batch: Vec<EmailData> = Vec::new();
        std::mem::swap(&mut batch, &mut self.buffer);
        proof {
            assert(emails_view(self.buffer@) =~= Seq::<(Seq<char>, Seq<char>)>::empty());
        }
        Some(batch)
    }

    /// Records that a file was written.
    pub fn commit_file(&mut self, file_name: String)
        ensures
            final(self).spec_commited() == old(self).spec_commited().push(file_name@),
            final(self).pending() == old(self).pending(),
            final(self).spec_batch_size() == old(self).spec_batch_size(),
            final(self).spec_output_path() == old(self).spec_output_path(),
    {
        let ghost before = strs_view(self.commited_files@);
        self.commited_files.push(file_name);
        proof {
            assert(strs_view(self.commited_files@) =~= before.push(file_name@));
        }
    }
}

} // verus!
