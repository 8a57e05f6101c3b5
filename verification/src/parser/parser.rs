//! From raw e-mail bytes to a parsed e-mail with normalized fields.
use vstd::prelude::*;
use crate::parser::date_parser::{
    process_date, spec_chosen_date, spec_processed_dates, spec_rfc3339, Timestamp,
    FUTURE_TOLERANCE_SECONDS, MAX_UTC_SECONDS,
};
use crate::parser::email_reader::{
    decode_mail, get_body, get_headers, spec_decode_mail, spec_get_body, spec_get_headers,
};
use crate::parser::entities::{sanitize_text, Attribution, Headers, ParsedEmail};
use crate::parser::errors::ParseError;
use crate::parser::extractors::{
    attributions_view, extract_attributions, extract_patches, spec_attributions, spec_patches,
};
use crate::text::{
    chars_of, join, join_chars, lemma_join_no_char, lemma_split_no_sep,
    lemma_trimmed_nonempty_no_char, lines, no_char, split_acc, split_chars, split_lines, split_on,
    split_words, string_of, strs_view, trim, trim_chars, trim_pieces, trimmed_nonempty, words,
};

verus! {

/// The field name that starts a `Message-ID` line, in lower case.
pub const MESSAGE_ID_PREFIX: &'static str = "message-id:";

/// Whether `c` is the ASCII character `t`, ignoring the case of ASCII
/// letters.
pub open spec fn same_ascii_letter(c: char, t: char) -> bool {
    c == t || ('A' <= c <= 'Z' && (c as u32) + 32 == t as u32)
}

/// Whether a line starts with `message-id:` in any case. (For this prefix
/// this is the same as its lower-case form starting with it: no other
/// character has a lower case among these letters, `-` or `:`.)
pub open spec fn is_message_id_line(line: Seq<char>) -> bool {
    &&& line.len() >= 11
    &&& forall|i: int| 0 <= i < 11 ==> #[trigger] same_ascii_letter(line[i], MESSAGE_ID_PREFIX@[i])
}

/// The trimmed rest of the first `Message-ID` line.
pub open spec fn first_message_id(ls: Seq<Seq<char>>) -> Option<Seq<char>>
    decreases ls.len(),
{
    if ls.len() == 0 {
        None
    } else if is_message_id_line(ls[0]) {
        Some(trim(ls[0].skip(11)))
    } else {
        first_message_id(ls.drop_first())
    }
}

/// Whether a line starts with `message-id:` in any case.
fn message_id_line(line: &Vec<char>) -> (r: bool)
    ensures
        r == is_message_id_line(line@),
{
    let prefix = chars_of(MESSAGE_ID_PREFIX);
    proof {
        reveal_strlit("message-id:");
    }
    if line.len() < 11 {
        return false;
    }
    let mut i: usize = 0;
    while i < 11
        invariant
            i <= 11,
            line.len() >= 11,
            prefix@ == MESSAGE_ID_PREFIX@,
            prefix@.len() == 11,
            forall|j: int| 0 <= j < i ==> #[trigger] same_ascii_letter(line@[j], MESSAGE_ID_PREFIX@[j]),
        decreases 11 - i,
    {
        let c = line[i];
        let t = prefix[i];
        let same = c == t || ('A' <= c && c <= 'Z' && (c as u32) + 32 == (t as u32));
        if !same {
            proof {
                assert(!same_ascii_letter(line@[i as int], MESSAGE_ID_PREFIX@[i as int]));
            }
            return false;
        }
        i = i + 1;
    }
    true
}

/// The `Message-ID` of an e-mail: the trimmed rest of its first line
/// that starts with `message-id:` in any case.
pub fn get_email_id(email_content: &str) -> (r: Result<String, ParseError>)
    ensures
        match first_message_id(lines(email_content@)) {
            Some(id) => r matches Ok(s) && s@ == id,
            None => r matches Err(ParseError::NoMessageId),
        },
{
    let v = chars_of(email_content);
    let ls = split_lines(&v);
    let ghost lsv = crate::text::views(ls@);
    let mut i: usize = 0;
    proof {
        assert(lsv.skip(0) =~= lsv);
    }
    while i < ls.len()
        invariant
            i <= ls.len(),
            lsv == crate::text::views(ls@),
            lsv == lines(email_content@),
            first_message_id(lsv) == first_message_id(lsv.skip(i as int)),
        decreases ls.len() - i,
    {
        proof {
            assert(lsv.skip(i as int)[0] == ls@[i as int]@);
            assert(lsv.skip(i as int).drop_first() =~= lsv.skip(i + 1));
        }
        if message_id_line(&ls[i]) {
            let rest = crate::text::slice_chars(&ls[i], 11, ls[i].len());
            let id = trim_chars(&rest);
            proof {
                assert(rest@ =~= ls@[i as int]@.skip(11));
            }
            return Ok(string_of(&id));
        }
        i = i + 1;
    }
    Err(ParseError::NoMessageId)
}

/// The character sequences of a list of patches.
pub open spec fn code_view(v: Seq<String>) -> Seq<Seq<char>> {
    strs_view(v)
}

/// Replaces UTF-16 surrogate code points in every text of an e-mail by
/// U+FFFD. A `char` is never a surrogate, so the e-mail is left unchanged.
pub fn sanitize_surrogate_characters(email_dict: &mut ParsedEmail)
    ensures
        final(email_dict).headers@ == old(email_dict).headers@,
        final(email_dict).raw_body@ == old(email_dict).raw_body@,
        attributions_view(final(email_dict).trailers@) == attributions_view(old(email_dict).trailers@),
        strs_view(final(email_dict).code@) == strs_view(old(email_dict).code@),
{
    email_dict.headers.sanitize_values();
    email_dict.raw_body = sanitize_text(email_dict.raw_body.as_str());
    let mut trailers: Vec<Attribution> = Vec::new();
    let mut i: usize = 0;
    while i < email_dict.trailers.len()
        invariant
            i <= email_dict.trailers.len(),
            email_dict.trailers@ == old(email_dict).trailers@,
            attributions_view(trailers@) == attributions_view(email_dict.trailers@).take(i as int),
        decreases email_dict.trailers.len() - i,
    {
        let a = Attribution {
            attribution: sanitize_text(email_dict.trailers[i].attribution.as_str()),
            identification: sanitize_text(email_dict.trailers[i].identification.as_str()),
        };
        let ghost prev = attributions_view(trailers@);
        trailers.push(a);
        proof {
            assert(attributions_view(trailers@) =~= prev.push((a.attribution@, a.identification@)));
            assert(attributions_view(email_dict.trailers@).take(i + 1) =~= attributions_view(
                email_dict.trailers@,
            ).take(i as int).push(attributions_view(email_dict.trailers@)[i as int]));
        }
        i = i + 1;
    }
    proof {
        assert(attributions_view(email_dict.trailers@).take(i as int) =~= attributions_view(
            email_dict.trailers@,
        ));
    }
    let mut code: Vec<String> = Vec::new();
    let mut k: usize = 0;
    while k < email_dict.code.len()
        invariant
            k <= email_dict.code.len(),
            email_dict.code@ == old(email_dict).code@,
            strs_view(code@) == strs_view(email_dict.code@).take(k as int),
        decreases email_dict.code.len() - k,
    {
        let c = sanitize_text(email_dict.code[k].as_str());
        let ghost prev = strs_view(code@);
        code.push(c);
        proof {
            assert(strs_view(code@) =~= prev.push(c@));
            assert(strs_view(email_dict.code@).take(k + 1) =~= strs_view(email_dict.code@).take(
                k as int,
            ).push(email_dict.code@[k as int]@));
        }
        k = k + 1;
    }
    proof {
        assert(strs_view(email_dict.code@).take(k as int) =~= strs_view(email_dict.code@));
    }
    email_dict.trailers = trailers;
    email_dict.code = code;
}

/// The value of a field, or the empty text where it is missing.
pub open spec fn field_or_empty(h: Map<Seq<char>, Seq<char>>, key: Seq<char>) -> Seq<char> {
    if h.dom().contains(key) {
        h[key]
    } else {
        Seq::empty()
    }
}

/// A comma separated list of addresses as `||` separated items: each item
/// trimmed, the empty ones left out.
pub open spec fn address_list(s: Seq<char>) -> Seq<char> {
    join(trimmed_nonempty(split_on(s, ',')), "||"@)
}

/// A white-space separated list of references as `||` separated items.
pub open spec fn reference_list(s: Seq<char>) -> Seq<char> {
    join(words(s), "||"@)
}

/// The map with `key` set to the empty text where it is missing.
pub open spec fn with_default(h: Map<Seq<char>, Seq<char>>, key: Seq<char>) -> Map<Seq<char>, Seq<char>> {
    if h.dom().contains(key) {
        h
    } else {
        h.insert(key, Seq::empty())
    }
}

/// The fields that hold a single text, present in every parsed e-mail.
pub open spec fn single_valued_cols() -> Seq<Seq<char>> {
    seq![
        "from"@,
        "subject"@,
        "date"@,
        "message-id"@,
        "in-reply-to"@,
        "x-mailing-list"@,
        "raw_body"@,
    ]
}

/// `with_default` for each of `keys` in turn.
pub open spec fn with_defaults(h: Map<Seq<char>, Seq<char>>, keys: Seq<Seq<char>>) -> Map<Seq<char>, Seq<char>>
    decreases keys.len(),
{
    if keys.len() == 0 {
        h
    } else {
        with_defaults(with_default(h, keys[0]), keys.drop_first())
    }
}

/// The fields with `to`, `cc` and `references` as `||` separated lists and
/// the single valued fields present.
pub open spec fn spec_normalized_fields(h: Map<Seq<char>, Seq<char>>) -> Map<Seq<char>, Seq<char>> {
    let h1 = h.insert("to"@, address_list(field_or_empty(h, "to"@))).insert(
        "cc"@,
        address_list(field_or_empty(h, "cc"@)),
    ).insert("references"@, reference_list(field_or_empty(h, "references"@)));
    with_defaults(h1, single_valued_cols())
}

/// The fields of an e-mail after post-processing: normalized, then with
/// its dates set (see [`spec_processed_dates`]).
pub open spec fn spec_post_processed(h: Map<Seq<char>, Seq<char>>, now: crate::parser::date_parser::DateView) -> Map<Seq<char>, Seq<char>> {
    spec_processed_dates(spec_normalized_fields(h), now)
}

/// Rewrites an address field as a `||` separated list.
fn normalize_address_field(headers: &mut Headers, key: &str)
    ensures
        final(headers)@ == old(headers)@.insert(key@, address_list(field_or_empty(old(headers)@, key@))),
{
    let value = headers.get_or_empty(key);
    let v = chars_of(value.as_str());
    let parts = split_chars(&v, ',');
    let kept = trim_pieces(&parts);
    let sep = chars_of("||");
    let joined = join_chars(&kept, &sep);
    headers.insert(key.to_owned(), string_of(&joined));
}

/// Sets a field to the empty text where it is missing.
fn default_field(headers: &mut Headers, key: &str)
    ensures
        final(headers)@ == with_default(old(headers)@, key@),
{
    if !headers.contains_key(key) {
        headers.insert(key.to_owned(), String::new());
    }
}

/// Normalizes the fields of an e-mail and sets its dates (see
/// [`spec_post_processed`]).
pub fn post_process_parsed_mail(email_dict: &mut ParsedEmail, now: &Timestamp)
    requires
        now.seconds + FUTURE_TOLERANCE_SECONDS <= MAX_UTC_SECONDS,
    ensures
        final(email_dict).headers@ == spec_post_processed(old(email_dict).headers@, now@),
        final(email_dict).raw_body == old(email_dict).raw_body,
        final(email_dict).trailers == old(email_dict).trailers,
        final(email_dict).code == old(email_dict).code,
        spec_chosen_date(spec_normalized_fields(old(email_dict).headers@), now@) matches Some(d) && 0
            <= d.year <= 9999 ==> spec_rfc3339(final(email_dict).headers@["date"@]) is Some,
        final(email_dict).headers@["date"@].len() == 0 || (spec_chosen_date(
            spec_normalized_fields(old(email_dict).headers@),
            now@,
        ) matches Some(d) && (0 <= d.year <= 9999 ==> spec_rfc3339(
            final(email_dict).headers@["date"@],
        ) is Some)),
{
    let ghost h0 = email_dict.headers@;
    normalize_address_field(&mut email_dict.headers, "to");
    normalize_address_field(&mut email_dict.headers, "cc");
    let refs = email_dict.headers.get_or_empty("references");
    let v = chars_of(refs.as_str());
    let ws = split_words(&v);
    let sep = chars_of("||");
    let joined = join_chars(&ws, &sep);
    email_dict.headers.insert(String::from_str("references"), string_of(&joined));
    proof {
        reveal_strlit("to");
        reveal_strlit("cc");
        reveal_strlit("references");
        assert("to"@.len() == 2 && "cc"@.len() == 2 && "references"@.len() == 10);
        assert("to"@[0] != "cc"@[0]);
        assert(field_or_empty(h0.insert("to"@, address_list(field_or_empty(h0, "to"@))), "cc"@)
            == field_or_empty(h0, "cc"@));
        assert(field_or_empty(
            h0.insert("to"@, address_list(field_or_empty(h0, "to"@))).insert(
                "cc"@,
                address_list(field_or_empty(h0, "cc"@)),
            ),
            "references"@,
        ) == field_or_empty(h0, "references"@));
    }
    let ghost h1 = email_dict.headers@;
    default_field(&mut email_dict.headers, "from");
    default_field(&mut email_dict.headers, "subject");
    default_field(&mut email_dict.headers, "date");
    default_field(&mut email_dict.headers, "message-id");
    default_field(&mut email_dict.headers, "in-reply-to");
    default_field(&mut email_dict.headers, "x-mailing-list");
    default_field(&mut email_dict.headers, "raw_body");
    proof {
        let ks = single_valued_cols();
        reveal_with_fuel(with_defaults, 8);
        assert(ks.drop_first() =~= seq!["subject"@, "date"@, "message-id"@, "in-reply-to"@, "x-mailing-list"@, "raw_body"@]);
        assert(ks.drop_first().drop_first() =~= seq!["date"@, "message-id"@, "in-reply-to"@, "x-mailing-list"@, "raw_body"@]);
        assert(ks.drop_first().drop_first().drop_first() =~= seq!["message-id"@, "in-reply-to"@, "x-mailing-list"@, "raw_body"@]);
        assert(ks.drop_first().drop_first().drop_first().drop_first() =~= seq!["in-reply-to"@, "x-mailing-list"@, "raw_body"@]);
        assert(ks.drop_first().drop_first().drop_first().drop_first().drop_first() =~= seq!["x-mailing-list"@, "raw_body"@]);
        assert(ks.drop_first().drop_first().drop_first().drop_first().drop_first().drop_first() =~= seq!["raw_body"@]);
        assert(ks.drop_first().drop_first().drop_first().drop_first().drop_first().drop_first().drop_first() =~= Seq::<Seq<char>>::empty());
    }
    process_date(&mut email_dict.headers, now);
}

/// An e-mail parsed from raw bytes: its header fields (see
/// [`spec_get_headers`]) post-processed, its body (see [`spec_get_body`]),
/// and the trailers and patches of the body; `None` where the bytes hold
/// no message.
pub fn parse_and_process_email(email_data: &[u8], now: &Timestamp) -> (r: Result<ParsedEmail, ParseError>)
    requires
        now.seconds + FUTURE_TOLERANCE_SECONDS <= MAX_UTC_SECONDS,
    ensures
        match spec_decode_mail(email_data@) {
            None => r matches Err(ParseError::DecodeError(m)) && m@ == "Failed to parse email bytes"@,
            Some(msg) => r matches Ok(e) && e.headers@ == spec_post_processed(
                spec_get_headers(msg, email_data@),
                now@,
            ) && e.raw_body@ == spec_get_body(msg) && attributions_view(e.trailers@)
                == spec_attributions(spec_get_body(msg)) && strs_view(e.code@) == spec_patches(
                spec_get_body(msg),
            ),
        },
{
    let msg = match decode_mail(email_data) {
        Some(m) => m,
        None => return Err(ParseError::DecodeError(String::from_str("Failed to parse email bytes"))),
    };
    let raw_body = get_body(&msg);
    let headers = get_headers(&msg, email_data);
    let trailers = extract_attributions(raw_body.as_str());
    let code = extract_patches(raw_body.as_str());
    let mut email = ParsedEmail { headers, raw_body, trailers, code };
    post_process_parsed_mail(&mut email, now);
    Ok(email)
}

/// `with_defaults` adds each key and keeps every field already present.
proof fn lemma_with_defaults(h: Map<Seq<char>, Seq<char>>, keys: Seq<Seq<char>>, k: Seq<char>)
    ensures
        with_defaults(h, keys).dom().contains(k) <==> (h.dom().contains(k) || keys.contains(k)),
        h.dom().contains(k) ==> with_defaults(h, keys)[k] == h[k],
    decreases keys.len(),
{
    if keys.len() > 0 {
        lemma_with_defaults(with_default(h, keys[0]), keys.drop_first(), k);
        if keys.contains(k) && keys[0] != k {
            let i = choose|i: int| 0 <= i < keys.len() && keys[i] == k;
            assert(keys.drop_first()[i - 1] == k);
        }
        if keys.drop_first().contains(k) {
            let i = choose|i: int| 0 <= i < keys.drop_first().len() && keys.drop_first()[i] == k;
            assert(keys[i + 1] == k);
        }
        assert(keys[0] == k ==> keys.contains(k)) by {
            if keys[0] == k {
                assert(keys[0] == k);
            }
        }
    }
}

/// Law: every post-processed e-mail has every record column: `to`, `cc`,
/// `references`, `date`, `client-date` and all single valued fields.
pub proof fn law_post_processed_columns(h: Map<Seq<char>, Seq<char>>, now: crate::parser::date_parser::DateView)
    ensures
        forall|k: Seq<char>|
            single_valued_cols().contains(k) || k == "to"@ || k == "cc"@ || k == "references"@ || k
                == "client-date"@ ==> #[trigger] spec_post_processed(h, now).dom().contains(k),
{
    let h1 = h.insert("to"@, address_list(field_or_empty(h, "to"@))).insert(
        "cc"@,
        address_list(field_or_empty(h, "cc"@)),
    ).insert("references"@, reference_list(field_or_empty(h, "references"@)));
    assert forall|k: Seq<char>|
        single_valued_cols().contains(k) || k == "to"@ || k == "cc"@ || k == "references"@ || k
            == "client-date"@ implies #[trigger] spec_post_processed(h, now).dom().contains(k) by {
        lemma_with_defaults(h1, single_valued_cols(), k);
    }
}

/// An address list holds no comma: its items were split at the commas.
pub proof fn lemma_address_list_no_comma(s: Seq<char>)
    ensures
        no_char(address_list(s), ','),
{
    lemma_split_no_sep(s, ',', Seq::empty());
    lemma_trimmed_nonempty_no_char(split_on(s, ','), ',');
    reveal_strlit("||");
    lemma_join_no_char(trimmed_nonempty(split_on(s, ',')), "||"@, ',');
}

/// Law: after post-processing, the `to` and `cc` fields hold no comma:
/// each is a `||` separated list of the addresses.
pub proof fn law_post_processed_lists_have_no_comma(h: Map<Seq<char>, Seq<char>>, now: crate::parser::date_parser::DateView)
    ensures
        no_char(spec_post_processed(h, now)["to"@], ','),
        no_char(spec_post_processed(h, now)["cc"@], ','),
{
    let h1 = h.insert("to"@, address_list(field_or_empty(h, "to"@))).insert(
        "cc"@,
        address_list(field_or_empty(h, "cc"@)),
    ).insert("references"@, reference_list(field_or_empty(h, "references"@)));
    let n = spec_normalized_fields(h);
    reveal_strlit("to");
    reveal_strlit("cc");
    reveal_strlit("references");
    reveal_strlit("date");
    reveal_strlit("client-date");
    assert("to"@ != "cc"@ && "to"@ != "references"@ && "cc"@ != "references"@) by {
        assert("to"@[0] != "cc"@[0] && "to"@[0] != "references"@[0] && "cc"@[0] != "references"@[0]);
    }
    assert("to"@ != "date"@ && "to"@ != "client-date"@ && "cc"@ != "date"@) by {
        assert("to"@[0] != "date"@[0] && "to"@.len() != "client-date"@.len() && "cc"@[0] != "date"@[0]);
    }
    assert("cc"@ != "client-date"@) by {
        assert("cc"@.len() != "client-date"@.len());
    }
    lemma_with_defaults(h1, single_valued_cols(), "to"@);
    lemma_with_defaults(h1, single_valued_cols(), "cc"@);
    assert(h1["to"@] == address_list(field_or_empty(h, "to"@)));
    assert(h1["cc"@] == address_list(field_or_empty(h, "cc"@)));
    crate::parser::date_parser::law_process_date_keeps_fields(n, now, "to"@);
    crate::parser::date_parser::law_process_date_keeps_fields(n, now, "cc"@);
    lemma_address_list_no_comma(field_or_empty(h, "to"@));
    lemma_address_list_no_comma(field_or_empty(h, "cc"@));
}

/// Law: post-processing gives an e-mail every record column; `to` and `cc`
/// hold no comma; `date` is the RFC 3339 text of the chosen date, or empty
/// where no date was chosen; and every other field keeps its value. (That
/// the `date` text reads back as RFC 3339 for a four-digit year rests on
/// what `chrono` returns, and is stated by `post_process_parsed_mail`.)
pub proof fn law_post_processed_fields(h: Map<Seq<char>, Seq<char>>, now: crate::parser::date_parser::DateView)
    ensures
        forall|k: Seq<char>|
            single_valued_cols().contains(k) || k == "to"@ || k == "cc"@ || k == "references"@ || k
                == "client-date"@ ==> #[trigger] spec_post_processed(h, now).dom().contains(k),
        no_char(spec_post_processed(h, now)["to"@], ','),
        no_char(spec_post_processed(h, now)["cc"@], ','),
        spec_post_processed(h, now)["date"@] == match spec_chosen_date(spec_normalized_fields(h), now) {
            Some(d) => d.text,
            None => Seq::<char>::empty(),
        },
        forall|k: Seq<char>|
            k != "to"@ && k != "cc"@ && k != "references"@ && k != "date"@ && k != "client-date"@
                && #[trigger] h.dom().contains(k) ==> spec_post_processed(h, now).dom().contains(k)
                && spec_post_processed(h, now)[k] == h[k],
{
    law_post_processed_columns(h, now);
    law_post_processed_lists_have_no_comma(h, now);
    let h1 = h.insert("to"@, address_list(field_or_empty(h, "to"@))).insert(
        "cc"@,
        address_list(field_or_empty(h, "cc"@)),
    ).insert("references"@, reference_list(field_or_empty(h, "references"@)));
    assert forall|k: Seq<char>|
        k != "to"@ && k != "cc"@ && k != "references"@ && k != "date"@ && k != "client-date"@
            && #[trigger] h.dom().contains(k) implies spec_post_processed(h, now).dom().contains(k)
            && spec_post_processed(h, now)[k] == h[k] by {
        lemma_with_defaults(h1, single_valued_cols(), k);
        crate::parser::date_parser::law_process_date_keeps_fields(spec_normalized_fields(h), now, k);
    }
}

} // verus!
