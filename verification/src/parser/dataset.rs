//! Where parsed e-mails of a list are written, when a batch of them is
//! written, and how list fields become list columns.
use vstd::prelude::*;
use crate::parser::date_parser::{rfc3339_micros, spec_rfc3339_micros};
use crate::parser::email_reader::nonempty_texts;
use crate::parser::entities::{Attribution, ParsedEmail};
use crate::parser::extractors::attributions_view;
use crate::text::{
    chars_of, find_chars, find_text, find_text_from, join, join_path, no_char, occurs_at,
    path_join, spec_to_lowercase, str_eq, string_of_range, strs_view, to_lowercase,
};

verus! {

/// Most e-mails gathered before a batch is written.
pub const BATCH_MAX_RECORDS: usize = 50000;

/// Most body bytes gathered before a batch is written (400 MiB).
pub const BATCH_MAX_RAW_BYTES: usize = 419430400;

/// The name of the records file in each list's directory.
pub const PARQUET_FILE_NAME: &'static str = "list_data.parquet";

/// The separator of the items of a list field.
pub const LIST_SEPARATOR: &'static str = "||";

/// Whether a batch is full: it holds `max_records` e-mails, or bodies of
/// `max_raw_bytes` bytes.
pub fn should_flush(batch_len: usize, batch_raw_bytes: usize, max_records: usize, max_raw_bytes: usize) -> (r: bool)
    ensures
        r == (batch_len >= max_records || batch_raw_bytes >= max_raw_bytes),
{
    batch_len >= max_records || batch_raw_bytes >= max_raw_bytes
}

/// Whether a file extension, in any case, is that of an archived e-mail
/// file (`eml`) or of a file of archived e-mails (`parquet`).
pub open spec fn is_email_extension(ext: Seq<char>) -> bool {
    spec_to_lowercase(ext) == "eml"@ || spec_to_lowercase(ext) == "parquet"@
}

/// Whether a file with this extension holds archived e-mails.
pub fn is_email_file_extension(ext: &str) -> (r: bool)
    ensures
        r == is_email_extension(ext@),
{
    let lower = to_lowercase(ext);
    str_eq(lower.as_str(), "eml") || str_eq(lower.as_str(), "parquet")
}

/// `s.split(sep)` for a non-empty separator.
pub open spec fn split_text(s: Seq<char>, sep: Seq<char>) -> Seq<Seq<char>>
    decreases s.len(),
{
    if sep.len() > 0 && find_text(s, sep) >= 0 && find_text(s, sep) + sep.len() <= s.len() {
        seq![s.take(find_text(s, sep))] + split_text(s.skip(find_text(s, sep) + sep.len()), sep)
    } else {
        seq![s]
    }
}

/// The items of a `||` separated list field, empty ones left out.
pub open spec fn spec_list_items(s: Seq<char>) -> Seq<Seq<char>> {
    nonempty_texts(split_text(s, LIST_SEPARATOR@))
}

/// The items of a `||` separated list field, empty ones left out.
pub fn list_items(field: &str) -> (r: Vec<String>)
    ensures
        strs_view(r@) == spec_list_items(field@),
{
    let sep = chars_of(LIST_SEPARATOR);
    proof {
        reveal_strlit("||");
    }
    let mut rest = chars_of(field);
    let mut pieces: Vec<String> = Vec::new();
    let ghost sepv = LIST_SEPARATOR@;
    proof {
        assert(strs_view(pieces@) + split_text(rest@, sepv) =~= split_text(field@, sepv));
    }
    loop
        invariant_except_break
            strs_view(pieces@) + split_text(rest@, sepv) == split_text(field@, sepv),
        invariant
            sep@ == sepv,
            sepv.len() == 2,
        ensures
            strs_view(pieces@) == split_text(field@, sepv),
        decreases rest.len(),
    {
        match find_chars(&rest, &sep) {
            Some(k) => {
                let piece = string_of_range(&rest, 0, k);
                let next = crate::text::slice_chars(&rest, k + 2, rest.len());
                proof {
                    assert(piece@ =~= rest@.take(k as int));
                    assert(next@ =~= rest@.skip(k + 2));
                    let ghost prev = strs_view(pieces@);
                    assert(split_text(rest@, sepv) =~= seq![piece@] + split_text(next@, sepv));
                }
                let ghost prev = strs_view(pieces@);
                pieces.push(piece);
                proof {
                    assert(strs_view(pieces@) =~= prev + seq![piece@]);
                    assert(strs_view(pieces@) + split_text(next@, sepv) =~= prev + (seq![piece@]
                        + split_text(next@, sepv)));
                }
                rest = next;
            },
            None => {
                let last = crate::text::string_of(&rest);
                let ghost prev = strs_view(pieces@);
                pieces.push(last);
                proof {
                    assert(split_text(rest@, sepv) =~= seq![rest@]);
                    assert(strs_view(pieces@) =~= prev + seq![last@]);
                    assert(strs_view(pieces@) =~= split_text(field@, sepv));
                }
                break;
            },
        }
    }
    keep_items(&pieces)
}

/// The non-empty pieces.
fn keep_items(parts: &Vec<String>) -> (r: Vec<String>)
    ensures
        strs_view(r@) == nonempty_texts(strs_view(parts@)),
{
    let mut r: Vec<String> = Vec::new();
    let mut i: usize = 0;
    while i < parts.len()
        invariant
            i <= parts.len(),
            strs_view(r@) == nonempty_texts(strs_view(parts@).take(i as int)),
        decreases parts.len() - i,
    {
        let ghost pv = strs_view(parts@);
        proof {
            assert(pv.take(i + 1).drop_last() =~= pv.take(i as int));
        }
        if !parts[i].as_str().is_empty() {
            let ghost prev = strs_view(r@);
            r.push(parts[i].clone());
            proof {
                assert(strs_view(r@) =~= prev.push(parts@[i as int]@));
            }
        }
        i = i + 1;
    }
    proof {
        assert(strs_view(parts@).take(i as int) =~= strs_view(parts@));
    }
    r
}

/// One row of the records file.
#[derive(Debug, Clone)]
pub struct EmailRecord {
    /// The sender.
    pub from: String,
    /// The recipients; the column is null where there is none.
    pub to: Vec<String>,
    /// The copied recipients; null where there is none.
    pub cc: Vec<String>,
    /// The subject.
    pub subject: String,
    /// The date in microseconds since 1970; null where it is no RFC 3339
    /// text.
    pub date_micros: Option<i64>,
    /// The `Date` header as written; null where it is empty.
    pub client_date: Vec<String>,
    /// The `Message-ID`.
    pub message_id: String,
    /// The `In-Reply-To` field.
    pub in_reply_to: String,
    /// The references; null where there is none.
    pub references: Vec<String>,
    /// The `X-Mailing-List` field.
    pub x_mailing_list: String,
    /// The trailers; null where there is none.
    pub trailers: Vec<Attribution>,
    /// The patches; null where there is none.
    pub code: Vec<String>,
    /// The body.
    pub raw_body: String,
    /// Where the e-mail was read from.
    pub file_name: String,
}

/// The value of a field, or the empty text where it is missing.
pub open spec fn field_text(h: Map<Seq<char>, Seq<char>>, key: Seq<char>) -> Seq<char> {
    if h.dom().contains(key) {
        h[key]
    } else {
        Seq::empty()
    }
}

/// Copies a list of trailers.
fn copy_trailers(v: &Vec<Attribution>) -> (r: Vec<Attribution>)
    ensures
        attributions_view(r@) == attributions_view(v@),
{
    let mut r: Vec<Attribution> = Vec::new();
    let mut i: usize = 0;
    while i < v.len()
        invariant
            i <= v.len(),
            attributions_view(r@) == attributions_view(v@).take(i as int),
        decreases v.len() - i,
    {
        let a = Attribution {
            attribution: v[i].attribution.clone(),
            identification: v[i].identification.clone(),
        };
        let ghost prev = attributions_view(r@);
        r.push(a);
        proof {
            assert(attributions_view(r@) =~= prev.push((a.attribution@, a.identification@)));
            assert(attributions_view(v@).take(i + 1) =~= attributions_view(v@).take(i as int).push(
                attributions_view(v@)[i as int],
            ));
        }
        i = i + 1;
    }
    proof {
        assert(attributions_view(v@).take(i as int) =~= attributions_view(v@));
    }
    r
}

/// The row of a parsed e-mail read from `file_name`: its single valued
/// fields as they are (empty where missing), its list fields split into
/// their items, and its date as an instant.
pub fn email_record(email: &ParsedEmail, file_name: &str) -> (r: EmailRecord)
    ensures
        r.from@ == field_text(email.headers@, "from"@),
        strs_view(r.to@) == spec_list_items(field_text(email.headers@, "to"@)),
        strs_view(r.cc@) == spec_list_items(field_text(email.headers@, "cc"@)),
        r.subject@ == field_text(email.headers@, "subject"@),
        match r.date_micros {
            Some(m) => spec_rfc3339_micros(field_text(email.headers@, "date"@)) == Some(m as int),
            None => spec_rfc3339_micros(field_text(email.headers@, "date"@)) == None::<int>,
        },
        strs_view(r.client_date@) == spec_list_items(field_text(email.headers@, "client-date"@)),
        r.message_id@ == field_text(email.headers@, "message-id"@),
        r.in_reply_to@ == field_text(email.headers@, "in-reply-to"@),
        strs_view(r.references@) == spec_list_items(field_text(email.headers@, "references"@)),
        r.x_mailing_list@ == field_text(email.headers@, "x-mailing-list"@),
        attributions_view(r.trailers@) == attributions_view(email.trailers@),
        strs_view(r.code@) == strs_view(email.code@),
        r.raw_body@ == email.raw_body@,
        r.file_name@ == file_name@,
{
    let h = &email.headers;
    let date = h.get_or_empty("date");
    EmailRecord {
        from: h.get_or_empty("from"),
        to: list_items(h.get_or_empty("to").as_str()),
        cc: list_items(h.get_or_empty("cc").as_str()),
        subject: h.get_or_empty("subject"),
        date_micros: rfc3339_micros(date.as_str()),
        client_date: list_items(h.get_or_empty("client-date").as_str()),
        message_id: h.get_or_empty("message-id"),
        in_reply_to: h.get_or_empty("in-reply-to"),
        references: list_items(h.get_or_empty("references").as_str()),
        x_mailing_list: h.get_or_empty("x-mailing-list"),
        trailers: copy_trailers(&email.trailers),
        code: crate::text::clone_strings(&email.code),
        raw_body: email.raw_body.clone(),
        file_name: file_name.to_owned(),
    }
}

/// The directories and file used for one list.
#[derive(Debug, Clone)]
pub struct ListPaths {
    /// Where the list's archived e-mails are read: `input/list`.
    pub list_input: String,
    /// The list's own output directory: `output/list`.
    pub list_output: String,
    /// The directory of all parsed lists: `output/parsed`.
    pub parquet_dir: String,
    /// The list's partition: `output/parsed/list=list`.
    pub success_output: String,
    /// The records file: `output/parsed/list=list/list_data.parquet`.
    pub parquet_path: String,
    /// Where e-mails that failed are recorded: `output/list/errors`.
    pub error_output: String,
}

/// The paths used for a list (see [`ListPaths`]).
pub fn list_paths(input_dir: &str, output_dir: &str, mailing_list: &str) -> (r: ListPaths)
    ensures
        r.list_input@ == path_join(input_dir@, mailing_list@),
        r.list_output@ == path_join(output_dir@, mailing_list@),
        r.parquet_dir@ == path_join(output_dir@, "parsed"@),
        r.success_output@ == path_join(path_join(output_dir@, "parsed"@), "list="@ + mailing_list@),
        r.parquet_path@ == path_join(
            path_join(path_join(output_dir@, "parsed"@), "list="@ + mailing_list@),
            PARQUET_FILE_NAME@,
        ),
        r.error_output@ == path_join(path_join(output_dir@, mailing_list@), "errors"@),
{
    let list_input = join_path(input_dir, mailing_list);
    let list_output = join_path(output_dir, mailing_list);
    let parquet_dir = join_path(output_dir, "parsed");
    let mut partition = String::from_str("list=");
    crate::text::push_str(&mut partition, mailing_list);
    let success_output = join_path(parquet_dir.as_str(), partition.as_str());
    let parquet_path = join_path(success_output.as_str(), PARQUET_FILE_NAME);
    let error_output = join_path(list_output.as_str(), "errors");
    ListPaths { list_input, list_output, parquet_dir, success_output, parquet_path, error_output }
}

// ---------------------------------------------------------------------------
// Law of list fields
// ---------------------------------------------------------------------------
/// A join of two or more pieces is the first piece, the separator, and the
/// join of the rest.
proof fn lemma_join_front(items: Seq<Seq<char>>, sep: Seq<char>)
    requires
        items.len() >= 2,
    ensures
        join(items, sep) == items[0] + sep + join(items.drop_first(), sep),
    decreases items.len(),
{
    let rest = items.drop_first();
    let init = items.drop_last();
    assert(join(items, sep) == join(init, sep) + sep + items.last());
    assert(init[0] == items[0]);
    assert(rest.last() == items.last());
    if items.len() == 2 {
        assert(join(init, sep) == items[0]);
        assert(rest.len() == 1);
        assert(join(rest, sep) == items.last());
    } else {
        lemma_join_front(init, sep);
        assert(init.drop_first() =~= rest.drop_last());
        assert(join(init, sep) == items[0] + sep + join(rest.drop_last(), sep));
        assert(join(rest, sep) == join(rest.drop_last(), sep) + sep + rest.last());
        assert((items[0] + sep + join(rest.drop_last(), sep)) + sep + items.last() =~= items[0] + sep
            + (join(rest.drop_last(), sep) + sep + items.last()));
    }
}

/// With no `|` before position `k`, the first `||` at or after `i` is at
/// `k` when one starts there.
proof fn lemma_find_after_plain(s: Seq<char>, k: int, i: int)
    requires
        0 <= i <= k,
        k + 2 <= s.len(),
        s[k] == '|' && s[k + 1] == '|',
        forall|j: int| 0 <= j < k ==> #[trigger] s[j] != '|',
    ensures
        find_text_from(s, LIST_SEPARATOR@, i) == k,
    decreases k - i,
{
    reveal_strlit("||");
    let sep = LIST_SEPARATOR@;
    if i == k {
        assert(s.subrange(k, k + 2) =~= sep);
    } else {
        assert(s.subrange(i, i + 2)[0] == s[i]);
        assert(!occurs_at(s, sep, i));
        lemma_find_after_plain(s, k, i + 1);
    }
}

/// A text without `|` holds no `||` at or after `i`.
proof fn lemma_find_in_plain(s: Seq<char>, i: int)
    requires
        0 <= i,
        no_char(s, '|'),
    ensures
        find_text_from(s, LIST_SEPARATOR@, i) == -1,
    decreases s.len() + 1 - i,
{
    reveal_strlit("||");
    let sep = LIST_SEPARATOR@;
    if i + 2 <= s.len() {
        assert(s.subrange(i, i + 2)[0] == s[i]);
        assert(!occurs_at(s, sep, i));
        lemma_find_in_plain(s, i + 1);
    }
}

/// Splitting the `||` join of pieces without `|` gives the pieces back.
proof fn lemma_split_join(items: Seq<Seq<char>>)
    requires
        items.len() > 0,
        forall|i: int| 0 <= i < items.len() ==> no_char(#[trigger] items[i], '|'),
    ensures
        split_text(join(items, LIST_SEPARATOR@), LIST_SEPARATOR@) == items,
    decreases items.len(),
{
    reveal_strlit("||");
    let sep = LIST_SEPARATOR@;
    if items.len() == 1 {
        lemma_find_in_plain(items[0], 0);
        assert(seq![items[0]] =~= items);
    } else {
        lemma_join_front(items, sep);
        let x = items[0];
        let rest = join(items.drop_first(), sep);
        let s = x + sep + rest;
        assert(s[x.len() as int] == '|' && s[x.len() + 1int] == '|');
        assert forall|j: int| 0 <= j < x.len() implies #[trigger] s[j] != '|' by {
            assert(s[j] == x[j]);
        }
        lemma_find_after_plain(s, x.len() as int, 0);
        assert(s.take(x.len() as int) =~= x);
        assert(s.skip(x.len() + 2int) =~= rest);
        assert forall|i: int| 0 <= i < items.drop_first().len() implies no_char(
            #[trigger] items.drop_first()[i],
            '|',
        ) by {
            assert(items.drop_first()[i] == items[i + 1]);
        }
        lemma_split_join(items.drop_first());
        assert(seq![x] + items.drop_first() =~= items);
    }
}

/// Pieces that are all non-empty are all kept.
proof fn lemma_nonempty_all(items: Seq<Seq<char>>)
    requires
        forall|i: int| 0 <= i < items.len() ==> (#[trigger] items[i]).len() > 0,
    ensures
        nonempty_texts(items) == items,
    decreases items.len(),
{
    if items.len() > 0 {
        assert forall|i: int| 0 <= i < items.drop_last().len() implies (
        #[trigger] items.drop_last()[i]).len() > 0 by {
            assert(items.drop_last()[i] == items[i]);
        }
        lemma_nonempty_all(items.drop_last());
        assert(items.drop_last().push(items.last()) =~= items);
    }
}

/// Law: the items of a list field written by joining non-empty items that
/// hold no `|` with `||` are those items, in order: a list column reads
/// back what the post-processing wrote.
pub proof fn law_list_items_round_trip(items: Seq<Seq<char>>)
    requires
        forall|i: int| 0 <= i < items.len() ==> (#[trigger] items[i]).len() > 0 && no_char(
            items[i],
            '|',
        ),
    ensures
        spec_list_items(join(items, LIST_SEPARATOR@)) == items,
{
    reveal_strlit("||");
    if items.len() == 0 {
        lemma_find_in_plain(Seq::<char>::empty(), 0);
        assert(split_text(Seq::<char>::empty(), LIST_SEPARATOR@) == seq![Seq::<char>::empty()]);
        assert(seq![Seq::<char>::empty()].drop_last() =~= Seq::<Seq<char>>::empty());
        assert(items =~= Seq::<Seq<char>>::empty());
        assert(join(items, LIST_SEPARATOR@) == Seq::<char>::empty());
        let one = seq![Seq::<char>::empty()];
        assert(one.len() == 1 && one.last().len() == 0);
        assert(one.drop_last() =~= Seq::<Seq<char>>::empty());
        assert(nonempty_texts(one.drop_last()) == Seq::<Seq<char>>::empty());
        assert(nonempty_texts(one) == Seq::<Seq<char>>::empty());
    } else {
        lemma_split_join(items);
        lemma_nonempty_all(items);
        assert(split_text(join(items, LIST_SEPARATOR@), LIST_SEPARATOR@) == items);
    }
}

} // verus!
