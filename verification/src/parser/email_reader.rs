//! Reading a raw e-mail: its header fields, its sender and its body.
//!
//! The `mail_parser` crate decodes the message; [`DecodedMail`] holds, as
//! plain values, what the parser reads of it.
use vstd::prelude::*;
use mail_parser::HeaderValue::{Address, ContentType, DateTime, Text, TextList};
use mail_parser::{Addr, HeaderValue, MessageParser};
use crate::parser::entities::Headers;
use crate::parser::extractors::group_text;
use crate::parser::matching::{
    groups_view, regex_captures, regex_captures_all, regex_is_match, spec_regex_captures,
    spec_regex_captures_all, spec_regex_is_match,
};
use crate::text::{
    chars_of, crlf_text_to_lf, crlf_to_lf, first_index, first_line, join, join_strings,
    lemma_crlf_to_lf_no_cr,
    lemma_first_index, lemma_first_index_concat, lemma_join_contains, lemma_join_first,
    lemma_join_no_char, lemma_lines_first, lines, no_char, push_str, split_lines, spec_to_lowercase,
    str_eq, string_of, strs_view, to_lowercase, trim, trim_text, views,
};

verus! {

/// A header line that a body may start with when a message was forwarded
/// inline.
pub const HEADER_LINE_PATTERN: &'static str = r"^(From|To|Cc|Subject|Date|Message-ID|In-Reply-To|References|User-Agent|X-Mailer):[ \t]*.*$";

/// A plain address, with an optional name before it.
pub const EMAIL_PATTERN: &'static str = r"^[\s]*([^<]*?)?\s*<?([a-zA-Z0-9._%+-]+@[a-zA-Z0-9.-]+\.[a-zA-Z]{2,})>?\s*$";

/// An address written with `(a)` for `@`.
pub const EMAIL_OBFUSCATED_A_PATTERN: &'static str = r"^[\s]*([^<]*?)?\s*<?([a-zA-Z0-9._%+-]+)\s*\(a\)\s*([a-zA-Z0-9.-]+\.[a-zA-Z]{2,})>?\s*$";

/// An address written with ` at ` for `@`.
pub const EMAIL_OBFUSCATED_AT_PATTERN: &'static str = r"(?i)^[\s]*([^<]*?)?\s*<?([a-zA-Z0-9._%+-]+)\s+at\s+([a-zA-Z0-9.-]+\.[a-zA-Z]{2,})>?\s*$";

/// A `From:` line of the raw message with a plain address.
pub const BODY_FROM_PLAIN: &'static str = r"(?im)^From:\s*([^<\n]*?)?\s*<([a-zA-Z0-9._%+-]+)@([a-zA-Z0-9.-]+\.[a-zA-Z]{2,})>";

/// A `From:` line of the raw message with `(a)` for `@`.
pub const BODY_FROM_A: &'static str = r"(?im)^From:\s*([^<\n]*?)?\s*<([a-zA-Z0-9._%+-]+)\s*\(a\)\s*([a-zA-Z0-9.-]+\.[a-zA-Z]{2,})>";

/// A `From:` line of the raw message with ` at ` for `@`.
pub const BODY_FROM_AT: &'static str = r"(?im)^From:\s*([^<\n]*?)?\s*<?([a-zA-Z0-9._%+-]+)\s+at\s+([a-zA-Z0-9.-]+\.[a-zA-Z]{2,})>?";

/// An address of a header field.
#[derive(Debug, Clone)]
pub struct MailAddress {
    /// The name, comments included.
    pub name: Option<String>,
    /// The address itself.
    pub address: Option<String>,
}

/// The value of a header field as the decoder read it.
#[derive(Debug, Clone)]
pub enum HeaderText {
    /// Addresses, those of groups one after the other.
    Address(Vec<MailAddress>),
    /// A text.
    Text(String),
    /// A list of texts.
    TextList(Vec<String>),
    /// A date, in RFC 3339.
    DateTime(String),
    /// A `Content-Type` or `Content-Disposition` value: type, subtype and
    /// attributes.
    ContentType(String, Option<String>, Option<Vec<(String, String)>>),
    /// Any other value, in its debugging form.
    Other(String),
}

/// A decoded message.
#[derive(Debug, Clone)]
pub struct DecodedMail {
    /// The header fields in order, by name as written.
    pub headers: Vec<(String, HeaderText)>,
    /// The addresses of the `From` field.
    pub from: Vec<MailAddress>,
    /// The text parts of the body, in order.
    pub text_bodies: Vec<String>,
    /// The HTML parts of the body, in order.
    pub html_bodies: Vec<String>,
}

/// The values of a [`MailAddress`].
pub ghost struct AddressView {
    pub name: Option<Seq<char>>,
    pub address: Option<Seq<char>>,
}

/// The values of a [`HeaderText`].
pub ghost enum HeaderTextView {
    Address(Seq<AddressView>),
    Text(Seq<char>),
    TextList(Seq<Seq<char>>),
    DateTime(Seq<char>),
    ContentType(Seq<char>, Option<Seq<char>>, Option<Seq<(Seq<char>, Seq<char>)>>),
    Other(Seq<char>),
}

/// The values of a [`DecodedMail`].
pub ghost struct DecodedMailView {
    pub headers: Seq<(Seq<char>, HeaderTextView)>,
    pub from: Seq<AddressView>,
    pub text_bodies: Seq<Seq<char>>,
    pub html_bodies: Seq<Seq<char>>,
}

/// The values of an optional string.
pub open spec fn ov(o: Option<String>) -> Option<Seq<char>> {
    match o {
        Some(s) => Some(s@),
        None => None,
    }
}

impl View for MailAddress {
    type V = AddressView;

    open spec fn view(&self) -> AddressView {
        AddressView { name: ov(self.name), address: ov(self.address) }
    }
}

/// The values of a list of addresses.
pub open spec fn addresses_view(v: Seq<MailAddress>) -> Seq<AddressView> {
    v.map_values(|a: MailAddress| a@)
}

/// The values of a list of name and value pairs.
pub open spec fn string_pairs_view(v: Seq<(String, String)>) -> Seq<(Seq<char>, Seq<char>)> {
    v.map_values(|p: (String, String)| (p.0@, p.1@))
}

impl View for HeaderText {
    type V = HeaderTextView;

    open spec fn view(&self) -> HeaderTextView {
        match self {
            HeaderText::Address(v) => HeaderTextView::Address(addresses_view(v@)),
            HeaderText::Text(s) => HeaderTextView::Text(s@),
            HeaderText::TextList(v) => HeaderTextView::TextList(strs_view(v@)),
            HeaderText::DateTime(s) => HeaderTextView::DateTime(s@),
            HeaderText::ContentType(c_type, c_subtype, attributes) => HeaderTextView::ContentType(
                c_type@,
                ov(*c_subtype),
                match attributes {
                    Some(a) => Some(string_pairs_view(a@)),
                    None => None,
                },
            ),
            HeaderText::Other(s) => HeaderTextView::Other(s@),
        }
    }
}

/// The values of a list of header fields.
pub open spec fn fields_view(v: Seq<(String, HeaderText)>) -> Seq<(Seq<char>, HeaderTextView)> {
    v.map_values(|p: (String, HeaderText)| (p.0@, p.1@))
}

impl View for DecodedMail {
    type V = DecodedMailView;

    open spec fn view(&self) -> DecodedMailView {
        DecodedMailView {
            headers: fields_view(self.headers@),
            from: addresses_view(self.from@),
            text_bodies: strs_view(self.text_bodies@),
            html_bodies: strs_view(self.html_bodies@),
        }
    }
}

#[verifier::external_type_specification]
#[verifier::external_body]
pub struct ExHeaderValue<'x>(HeaderValue<'x>);

#[verifier::external_type_specification]
#[verifier::external_body]
pub struct ExAddr<'x>(Addr<'x>);

/// What [`decode_mail`] returns.
pub uninterp spec fn spec_decode_mail(raw: Seq<u8>) -> Option<DecodedMailView>;

/// What [`utf8_lossy`] returns.
pub uninterp spec fn spec_utf8_lossy(raw: Seq<u8>) -> Seq<char>;

/// An address of `mail_parser`, as plain values.
#[verifier::external_body]
fn mail_address(a: &Addr) -> MailAddress {
    MailAddress { name: a.name.as_ref().map(|s| s.to_string()), address: a.address.as_ref().map(|s| s.to_string()) }
}

/// A header value of `mail_parser`, as plain values (`DateTime::to_rfc3339`
/// for dates).
#[verifier::external_body]
fn header_text(v: &HeaderValue) -> HeaderText {
    match v {
        Address(a) => HeaderText::Address(a.iter().map(mail_address).collect()),
        Text(s) => HeaderText::Text(s.to_string()),
        TextList(l) => HeaderText::TextList(l.iter().map(ToString::to_string).collect()),
        DateTime(d) => HeaderText::DateTime(d.to_rfc3339()),
        ContentType(ct) => HeaderText::ContentType(ct.c_type.to_string(), ct.c_subtype.as_ref().map(ToString::to_string), ct.attributes.as_ref().map(|l| l.iter().map(|a| (a.name.to_string(), a.value.to_string())).collect())),
        other => HeaderText::Other(format!("{other:?}")),
    }
}

/// `MessageParser::parse`: the message decoded from its raw bytes, if they
/// hold one.
#[verifier::external_body]
pub(crate) fn decode_mail(email_raw: &[u8]) -> (r: Option<DecodedMail>)
    ensures
        match r {
            Some(m) => spec_decode_mail(email_raw@) == Some(m@),
            None => spec_decode_mail(email_raw@) == None::<DecodedMailView>,
        },
{
    let msg = MessageParser::default().parse(email_raw)?;
    let headers = msg.headers().iter().map(|h| (h.name().to_string(), header_text(h.value()))).collect();
    let from = msg.from().map(|a| a.iter().map(mail_address).collect()).unwrap_or_default();
    let text_bodies = (0..).map_while(|i| msg.body_text(i)).map(|t| t.into_owned()).collect();
    let html_bodies = (0..).map_while(|i| msg.body_html(i)).map(|t| t.into_owned()).collect();
    Some(DecodedMail { headers, from, text_bodies, html_bodies })
}

/// `String::from_utf8_lossy`: the text of UTF-8 bytes, each invalid
/// sequence replaced by U+FFFD.
#[verifier::external_body]
fn utf8_lossy(raw: &[u8]) -> (r: String)
    ensures
        r@ == spec_utf8_lossy(raw@),
{
    String::from_utf8_lossy(raw).into_owned()
}

// ---------------------------------------------------------------------------
// Header values
// ---------------------------------------------------------------------------
/// The text of an optional string, empty where absent.
pub open spec fn or_empty(o: Option<Seq<char>>) -> Seq<char> {
    match o {
        Some(s) => s,
        None => Seq::empty(),
    }
}

/// An address as text: `name <address>`, or whichever of the two is not
/// empty.
pub open spec fn addr_text(a: AddressView) -> Seq<char> {
    let name = or_empty(a.name);
    let email = or_empty(a.address);
    if name.len() == 0 {
        email
    } else if email.len() == 0 {
        name
    } else {
        name + " <"@ + email + ">"@
    }
}

/// Executable [`addr_text`].
pub fn addr_to_string(addr: &MailAddress) -> (r: String)
    ensures
        r@ == addr_text(addr@),
{
    let name = match &addr.name {
        Some(n) => n.clone(),
        None => String::new(),
    };
    let email = match &addr.address {
        Some(e) => e.clone(),
        None => String::new(),
    };
    if name.as_str().is_empty() {
        email
    } else if email.as_str().is_empty() {
        name
    } else {
        let mut r = name;
        push_str(&mut r, " <");
        push_str(&mut r, email.as_str());
        push_str(&mut r, ">");
        r
    }
}

/// Each attribute as `name=value`.
pub open spec fn attribute_texts(a: Seq<(Seq<char>, Seq<char>)>) -> Seq<Seq<char>> {
    a.map_values(|p: (Seq<char>, Seq<char>)| p.0 + "="@ + p.1)
}

/// A header value as text.
pub open spec fn header_value_text(v: HeaderTextView) -> Seq<char> {
    match v {
        HeaderTextView::Text(s) => s,
        HeaderTextView::TextList(l) => join(l, ", "@),
        HeaderTextView::Address(a) => if a.len() > 0 {
            addr_text(a[0])
        } else {
            Seq::empty()
        },
        HeaderTextView::DateTime(s) => s,
        HeaderTextView::ContentType(t, sub, attrs) => {
            let st = match sub {
                Some(s) => t + "/"@ + s,
                None => t,
            };
            match attrs {
                Some(a) => st + "; "@ + join(attribute_texts(a), "; "@),
                None => st,
            }
        },
        HeaderTextView::Other(s) => s,
    }
}

/// Executable [`header_value_text`].
pub fn hdr_value_to_string(val: &HeaderText) -> (r: String)
    ensures
        r@ == header_value_text(val@),
{
    match val {
        HeaderText::Text(s) => s.clone(),
        HeaderText::TextList(v) => join_strings(v, ", "),
        HeaderText::Address(a) => {
            if a.len() > 0 {
                addr_to_string(&a[0])
            } else {
                String::new()
            }
        },
        HeaderText::DateTime(s) => s.clone(),
        HeaderText::ContentType(c_type, c_subtype, attributes) => {
            let mut st = c_type.clone();
            if let Some(s) = c_subtype {
                push_str(&mut st, "/");
                push_str(&mut st, s.as_str());
            }
            match attributes {
                Some(attrs) => {
                    let mut texts: Vec<String> = Vec::new();
                    let mut i: usize = 0;
                    while i < attrs.len()
                        invariant
                            i <= attrs.len(),
                            strs_view(texts@) == attribute_texts(string_pairs_view(attrs@)).take(
                                i as int,
                            ),
                        decreases attrs.len() - i,
                    {
                        let mut t = attrs[i].0.clone();
                        push_str(&mut t, "=");
                        push_str(&mut t, attrs[i].1.as_str());
                        let ghost prev = strs_view(texts@);
                        texts.push(t);
                        proof {
                            assert(strs_view(texts@) =~= prev.push(t@));
                            assert(attribute_texts(string_pairs_view(attrs@)).take(i + 1)
                                =~= attribute_texts(string_pairs_view(attrs@)).take(i as int).push(
                                t@,
                            ));
                        }
                        i = i + 1;
                    }
                    proof {
                        assert(attribute_texts(string_pairs_view(attrs@)).take(i as int)
                            =~= attribute_texts(string_pairs_view(attrs@)));
                    }
                    push_str(&mut st, "; ");
                    let joined = join_strings(&texts, "; ");
                    push_str(&mut st, joined.as_str());
                    st
                },
                None => st,
            }
        },
        HeaderText::Other(s) => s.clone(),
    }
}

// ---------------------------------------------------------------------------
// Body
// ---------------------------------------------------------------------------
/// The pieces that are not empty.
pub open spec fn nonempty_texts(parts: Seq<Seq<char>>) -> Seq<Seq<char>>
    decreases parts.len(),
{
    if parts.len() == 0 {
        Seq::empty()
    } else if parts.last().len() > 0 {
        nonempty_texts(parts.drop_last()).push(parts.last())
    } else {
        nonempty_texts(parts.drop_last())
    }
}

/// Whether a line, trimmed, is a header line.
pub open spec fn is_header_line(line: Seq<char>) -> bool {
    spec_regex_is_match(HEADER_LINE_PATTERN@, trim(line)) == Some(true)
}

/// Where the lines of leading header fields end: after the first empty
/// line, at the first line that is no header line, or at the end.
pub open spec fn header_block_end(ls: Seq<Seq<char>>, i: int) -> int
    decreases ls.len() - i,
{
    if i < 0 || i >= ls.len() {
        ls.len() as int
    } else if trim(ls[i]).len() == 0 {
        i + 1
    } else if is_header_line(ls[i]) {
        header_block_end(ls, i + 1)
    } else {
        i
    }
}

/// The first line at or after `i` that is not blank.
pub open spec fn skip_blank(ls: Seq<Seq<char>>, i: int) -> int
    decreases ls.len() - i,
{
    if 0 <= i < ls.len() && trim(ls[i]).len() == 0 {
        skip_blank(ls, i + 1)
    } else {
        i
    }
}

/// A body without the header lines it starts with and the blank lines
/// after them.
pub open spec fn spec_clean_body(body: Seq<char>) -> Seq<char> {
    if body.len() == 0 {
        body
    } else {
        let ls = lines(body);
        let start = skip_blank(ls, header_block_end(ls, 0));
        if start == 0 {
            body
        } else {
            join(ls.skip(start), "\n"@)
        }
    }
}

/// Drops the header lines a body starts with (see [`spec_clean_body`]).
pub fn clean_body_leading_headers(body: &str) -> (r: String)
    ensures
        r@ == spec_clean_body(body@),
{
    if body.is_empty() {
        return body.to_owned();
    }
    let v = chars_of(body);
    let ls = split_lines(&v);
    let ghost lsv = views(ls@);
    let mut start: usize = 0;
    let mut i: usize = 0;
    loop
        invariant_except_break
            start == i,
        invariant
            i <= ls.len(),
            lsv == views(ls@),
            lsv == lines(body@),
            header_block_end(lsv, 0) == header_block_end(lsv, i as int),
        ensures
            start <= ls.len(),
            start == header_block_end(lsv, 0),
        decreases ls.len() - i,
    {
        if i >= ls.len() {
            break;
        }
        let stripped = trim_text(string_of(&ls[i]).as_str());
        if stripped.as_str().is_empty() {
            start = i + 1;
            break;
        }
        let header = match regex_is_match(HEADER_LINE_PATTERN, stripped.as_str()) {
            Some(b) => b,
            None => false,
        };
        if header {
            start = i + 1;
            i = i + 1;
        } else {
            break;
        }
    }
    while start < ls.len() && trim_text(string_of(&ls[start]).as_str()).as_str().is_empty()
        invariant
            start <= ls.len(),
            lsv == views(ls@),
            skip_blank(lsv, header_block_end(lsv, 0)) == skip_blank(lsv, start as int),
        decreases ls.len() - start,
    {
        start = start + 1;
    }
    if start == 0 {
        body.to_owned()
    } else {
        let mut rest: Vec<String> = Vec::new();
        let mut k: usize = start;
        while k < ls.len()
            invariant
                start <= k <= ls.len(),
                lsv == views(ls@),
                strs_view(rest@) == lsv.subrange(start as int, k as int),
            decreases ls.len() - k,
        {
            let ghost prev = strs_view(rest@);
            let line = string_of(&ls[k]);
            rest.push(line);
            proof {
                assert(strs_view(rest@) =~= prev.push(line@));
                assert(lsv.subrange(start as int, k + 1) =~= lsv.subrange(start as int, k as int).push(
                    lsv[k as int],
                ));
            }
            k = k + 1;
        }
        proof {
            assert(lsv.subrange(start as int, k as int) =~= lsv.skip(start as int));
        }
        join_strings(&rest, "\n")
    }
}

/// The non-empty pieces of a list of strings.
fn keep_nonempty(parts: &Vec<String>) -> (r: Vec<String>)
    ensures
        strs_view(r@) == nonempty_texts(strs_view(parts@)),
{
    let mut r: Vec<String> = Vec::new();
    let mut i: usize = 0;
    while i < parts.len()
        invariant
            i <= parts.len(),
            strs_view(r@) == nonempty_texts(strs_view(parts@).take(i as int)),
        decreases parts.len() - i,
    {
        let ghost pv = strs_view(parts@);
        proof {
            assert(pv.take(i + 1).drop_last() =~= pv.take(i as int));
        }
        if !parts[i].as_str().is_empty() {
            let ghost prev = strs_view(r@);
            r.push(parts[i].clone());
            proof {
                assert(strs_view(r@) =~= prev.push(parts@[i as int]@));
            }
        }
        i = i + 1;
    }
    proof {
        assert(strs_view(parts@).take(i as int) =~= strs_view(parts@));
    }
    r
}

/// The body of a message: its non-empty text parts, else its non-empty
/// HTML parts, joined by line breaks, with CR LF made LF and leading header
/// lines dropped.
pub open spec fn spec_get_body(m: DecodedMailView) -> Seq<char> {
    let parts = if nonempty_texts(m.text_bodies).len() > 0 {
        nonempty_texts(m.text_bodies)
    } else {
        nonempty_texts(m.html_bodies)
    };
    spec_clean_body(crlf_to_lf(join(parts, "\n"@)))
}

/// The body of a message (see [`spec_get_body`]).
pub fn get_body(msg: &DecodedMail) -> (r: String)
    ensures
        r@ == spec_get_body(msg@),
{
    let mut parts = keep_nonempty(&msg.text_bodies);
    if parts.len() == 0 {
        parts = keep_nonempty(&msg.html_bodies);
    }
    let body = join_strings(&parts, "\n");
    let body = crlf_text_to_lf(body.as_str());
    clean_body_leading_headers(body.as_str())
}

// ---------------------------------------------------------------------------
// The sender
// ---------------------------------------------------------------------------
/// An address read from the groups of a match: `name <user@domain>`, or
/// `user@domain` where the name is empty.
pub open spec fn address_of_groups(g: Seq<Option<Seq<char>>>) -> Seq<char> {
    let name = trim(group_text(g, 1));
    let email = group_text(g, 2) + "@"@ + group_text(g, 3);
    if name.len() == 0 {
        email
    } else {
        name + " <"@ + email + ">"@
    }
}

/// Executable [`address_of_groups`].
fn address_from_groups(g: &Vec<Option<String>>) -> (r: String)
    ensures
        r@ == address_of_groups(groups_view(g@)),
{
    let name = trim_text(group_string(g, 1).as_str());
    let mut email = group_string(g, 2);
    push_str(&mut email, "@");
    push_str(&mut email, group_string(g, 3).as_str());
    if name.as_str().is_empty() {
        email
    } else {
        let mut r = name;
        push_str(&mut r, " <");
        push_str(&mut r, email.as_str());
        push_str(&mut r, ">");
        r
    }
}

/// Executable [`group_text`].
fn group_string(g: &Vec<Option<String>>, i: usize) -> (r: String)
    ensures
        r@ == group_text(groups_view(g@), i as int),
{
    if i < g.len() {
        match &g[i] {
            Some(t) => t.clone(),
            None => String::new(),
        }
    } else {
        String::new()
    }
}

/// A sender written with `(a)` or ` at ` for `@`, written back with `@`;
/// any other text unchanged.
pub open spec fn spec_normalize_email(value: Seq<char>) -> Seq<char> {
    match spec_regex_captures(EMAIL_OBFUSCATED_A_PATTERN@, value) {
        Some(Some(g)) => address_of_groups(g),
        _ => match spec_regex_captures(EMAIL_OBFUSCATED_AT_PATTERN@, value) {
            Some(Some(g)) => address_of_groups(g),
            _ => value,
        },
    }
}

/// Writes an obfuscated sender back with `@` (see [`spec_normalize_email`]).
pub fn normalize_email(value: &str) -> (r: String)
    ensures
        r@ == spec_normalize_email(value@),
{
    if let Some(Some(g)) = regex_captures(EMAIL_OBFUSCATED_A_PATTERN, value) {
        return address_from_groups(&g);
    }
    if let Some(Some(g)) = regex_captures(EMAIL_OBFUSCATED_AT_PATTERN, value) {
        return address_from_groups(&g);
    }
    value.to_owned()
}

/// How much a sender text is trusted: whether it has a name, whether its
/// address is written plainly, and which obfuscation it uses (0 for none,
/// 1 for ` at `, 2 for `(a)`).
pub open spec fn spec_score(value: Seq<char>) -> (bool, bool, int) {
    match spec_regex_captures(EMAIL_PATTERN@, value) {
        Some(Some(g)) => (trim(group_text(g, 1)).len() > 0, true, 0),
        _ => match spec_regex_captures(EMAIL_OBFUSCATED_A_PATTERN@, value) {
            Some(Some(g)) => (trim(group_text(g, 1)).len() > 0, false, 2),
            _ => match spec_regex_captures(EMAIL_OBFUSCATED_AT_PATTERN@, value) {
                Some(Some(g)) => (trim(group_text(g, 1)).len() > 0, false, 1),
                _ => (false, false, 0),
            },
        },
    }
}

/// The obfuscation marker of a score.
pub open spec fn marker_of(k: int) -> Option<&'static str> {
    if k == 2 {
        Some("(a)")
    } else if k == 1 {
        Some(" at ")
    } else {
        None
    }
}

/// Scores a sender text (see [`spec_score`]).
pub fn score_email_address(value: &str) -> (r: (bool, bool, Option<&'static str>))
    ensures
        r.0 == spec_score(value@).0,
        r.1 == spec_score(value@).1,
        r.2 == marker_of(spec_score(value@).2),
{
    if let Some(Some(g)) = regex_captures(EMAIL_PATTERN, value) {
        let name = trim_text(group_string(&g, 1).as_str());
        return (!name.as_str().is_empty(), true, None);
    }
    if let Some(Some(g)) = regex_captures(EMAIL_OBFUSCATED_A_PATTERN, value) {
        let name = trim_text(group_string(&g, 1).as_str());
        return (!name.as_str().is_empty(), false, Some("(a)"));
    }
    if let Some(Some(g)) = regex_captures(EMAIL_OBFUSCATED_AT_PATTERN, value) {
        let name = trim_text(group_string(&g, 1).as_str());
        return (!name.as_str().is_empty(), false, Some(" at "));
    }
    (false, false, None)
}

/// A score as one number, ordered as the scores are (a name first, then a
/// plain address, then `(a)` over ` at ` over none).
pub open spec fn score_rank(s: (bool, bool, int)) -> int {
    (if s.0 { 6int } else { 0int }) + (if s.1 { 3int } else { 0int }) + s.2
}

/// The [`score_rank`] of a sender text.
fn rank_of(value: &str) -> (r: u64)
    ensures
        r == score_rank(spec_score(value@)),
{
    proof {
        reveal_strlit("(a)");
        reveal_strlit(" at ");
    }
    let s = score_email_address(value);
    let name: u64 = if s.0 { 6 } else { 0 };
    let plain: u64 = if s.1 { 3 } else { 0 };
    let marker: u64 = match s.2 {
        Some(t) => if str_eq(t, "(a)") { 2 } else { 1 },
        None => 0,
    };
    proof {
        let k = spec_score(value@).2;
        assert(k == 0 || k == 1 || k == 2);
        if k == 1 {
            assert(s.2 == Some(" at "));
            assert(" at "@.len() == 4);
            assert("(a)"@.len() == 3);
            assert(" at "@ != "(a)"@);
        }
    }
    name + plain + marker
}

/// Position of the first best scored sender.
pub open spec fn best_index(values: Seq<Seq<char>>) -> int
    decreases values.len(),
{
    if values.len() <= 1 {
        0
    } else {
        let b = best_index(values.drop_last());
        if score_rank(spec_score(values.last())) > score_rank(spec_score(values[b])) {
            values.len() - 1
        } else {
            b
        }
    }
}

proof fn lemma_best_index(values: Seq<Seq<char>>)
    requires
        values.len() > 0,
    ensures
        0 <= best_index(values) < values.len(),
    decreases values.len(),
{
    if values.len() > 1 {
        lemma_best_index(values.drop_last());
    }
}

/// The sender chosen among the candidates: the first of the best scored,
/// written back with `@`; empty where there is none.
pub open spec fn spec_select_best(values: Seq<Seq<char>>) -> Seq<char> {
    if values.len() == 0 {
        Seq::empty()
    } else if values.len() == 1 {
        spec_normalize_email(values[0])
    } else {
        spec_normalize_email(values[best_index(values)])
    }
}

/// Chooses the sender among the candidates (see [`spec_select_best`]).
pub fn select_best_from_header(values: &Vec<String>) -> (r: String)
    ensures
        r@ == spec_select_best(strs_view(values@)),
{
    let ghost vs = strs_view(values@);
    if values.len() == 0 {
        return String::new();
    }
    if values.len() == 1 {
        return normalize_email(values[0].as_str());
    }
    let mut b: usize = 0;
    let mut best = rank_of(values[0].as_str());
    let mut i: usize = 1;
    proof {
        assert(vs.take(1).len() == 1);
    }
    while i < values.len()
        invariant
            1 <= i <= values.len(),
            b < i,
            vs == strs_view(values@),
            best_index(vs.take(i as int)) == b,
            best == score_rank(spec_score(vs[b as int])),
        decreases values.len() - i,
    {
        let rank = rank_of(values[i].as_str());
        proof {
            assert(vs.take(i + 1).drop_last() =~= vs.take(i as int));
            assert(vs.take(i + 1).last() == vs[i as int]);
            assert(vs.take(i + 1)[b as int] == vs[b as int]);
        }
        if rank > best {
            b = i;
            best = rank;
        }
        i = i + 1;
    }
    proof {
        assert(vs.take(i as int) =~= vs);
    }
    normalize_email(values[b].as_str())
}

/// The senders of `From:` lines of the text matched by one pattern.
pub open spec fn spec_from_candidates(pattern: Seq<char>, text: Seq<char>) -> Seq<Seq<char>> {
    match spec_regex_captures_all(pattern, text) {
        Some(ms) => ms.map_values(|g: Seq<Option<Seq<char>>>| address_of_groups(g)),
        None => Seq::empty(),
    }
}

/// The senders of the `From:` lines of a raw message (its bytes read as
/// UTF-8, invalid sequences replaced): plain addresses, then those with
/// `(a)`, then those with ` at `.
pub open spec fn spec_body_senders(raw: Seq<u8>) -> Seq<Seq<char>> {
    let t = spec_utf8_lossy(raw);
    spec_from_candidates(BODY_FROM_PLAIN@, t) + spec_from_candidates(BODY_FROM_A@, t)
        + spec_from_candidates(BODY_FROM_AT@, t)
}

/// Appends the senders that one pattern finds.
fn push_from_candidates(pattern: &str, text: &str, out: &mut Vec<String>)
    ensures
        strs_view(final(out)@) == strs_view(old(out)@) + spec_from_candidates(pattern@, text@),
{
    let ghost start = strs_view(out@);
    let ms = match regex_captures_all(pattern, text) {
        Some(m) => m,
        None => {
            proof {
                assert(strs_view(out@) =~= start + Seq::<Seq<char>>::empty());
            }
            return;
        },
    };
    let ghost sm = spec_regex_captures_all(pattern@, text@)->0;
    let mut i: usize = 0;
    while i < ms.len()
        invariant
            i <= ms.len(),
            sm.len() == ms@.len(),
            forall|j: int| 0 <= j < ms@.len() ==> #[trigger] sm[j] == groups_view(ms@[j]@),
            strs_view(out@) == start + sm.take(i as int).map_values(
                |g: Seq<Option<Seq<char>>>| address_of_groups(g),
            ),
        decreases ms.len() - i,
    {
        let a = address_from_groups(&ms[i]);
        let ghost prev = strs_view(out@);
        out.push(a);
        proof {
            assert(sm[i as int] == groups_view(ms@[i as int]@));
            assert(strs_view(out@) =~= prev.push(a@));
            assert(sm.take(i + 1).map_values(|g: Seq<Option<Seq<char>>>| address_of_groups(g))
                =~= sm.take(i as int).map_values(|g: Seq<Option<Seq<char>>>| address_of_groups(g)).push(
                address_of_groups(sm[i as int]),
            ));
        }
        i = i + 1;
    }
    proof {
        assert(sm.take(i as int) =~= sm);
    }
}

/// The senders of the `From:` lines of a raw message (see
/// [`spec_body_senders`]).
pub fn extract_all_from_from_body(raw_email: &[u8]) -> (r: Vec<String>)
    ensures
        strs_view(r@) == spec_body_senders(raw_email@),
{
    let text = utf8_lossy(raw_email);
    let mut r: Vec<String> = Vec::new();
    proof {
        assert(strs_view(r@) =~= Seq::<Seq<char>>::empty());
    }
    push_from_candidates(BODY_FROM_PLAIN, text.as_str(), &mut r);
    push_from_candidates(BODY_FROM_A, text.as_str(), &mut r);
    push_from_candidates(BODY_FROM_AT, text.as_str(), &mut r);
    proof {
        assert(Seq::<Seq<char>>::empty() + spec_from_candidates(BODY_FROM_PLAIN@, text@)
            + spec_from_candidates(BODY_FROM_A@, text@) + spec_from_candidates(BODY_FROM_AT@, text@)
            =~= spec_body_senders(raw_email@));
    }
    r
}

// ---------------------------------------------------------------------------
// Header fields
// ---------------------------------------------------------------------------
/// One field added to the fields read so far: `from` is left for the
/// sender choice, `date` keeps the last value, and any other field repeated
/// gets its values joined by `, `.
pub open spec fn merge_field(h: Map<Seq<char>, Seq<char>>, key: Seq<char>, val: Seq<char>) -> Map<Seq<char>, Seq<char>> {
    if key == "from"@ {
        h
    } else if key == "date"@ {
        h.insert("date"@, val)
    } else if h.dom().contains(key) {
        h.insert(key, h[key] + ", "@ + val)
    } else {
        h.insert(key, val)
    }
}

/// The fields of a message, names in lower case (see [`merge_field`]).
pub open spec fn fold_fields(fields: Seq<(Seq<char>, HeaderTextView)>) -> Map<Seq<char>, Seq<char>>
    decreases fields.len(),
{
    if fields.len() == 0 {
        Map::empty()
    } else {
        merge_field(
            fold_fields(fields.drop_last()),
            spec_to_lowercase(fields.last().0),
            header_value_text(fields.last().1),
        )
    }
}

/// The values of the `from` fields, in order.
pub open spec fn from_values(fields: Seq<(Seq<char>, HeaderTextView)>) -> Seq<Seq<char>>
    decreases fields.len(),
{
    if fields.len() == 0 {
        Seq::empty()
    } else if spec_to_lowercase(fields.last().0) == "from"@ {
        from_values(fields.drop_last()).push(header_value_text(fields.last().1))
    } else {
        from_values(fields.drop_last())
    }
}

/// The sender candidates of a message: its `from` fields (or, where it has
/// none, the addresses of its `From` header), then the senders of the
/// `From:` lines of the raw message.
pub open spec fn sender_candidates(m: DecodedMailView, raw: Seq<u8>) -> Seq<Seq<char>> {
    let c = from_values(m.headers);
    let c2 = if c.len() == 0 {
        m.from.map_values(|a: AddressView| addr_text(a))
    } else {
        c
    };
    c2 + spec_body_senders(raw)
}

/// The header fields of a message: all fields by lower-case name, and
/// `from` set to the sender chosen among the candidates where there is one.
pub open spec fn spec_get_headers(m: DecodedMailView, raw: Seq<u8>) -> Map<Seq<char>, Seq<char>> {
    let h = fold_fields(m.headers);
    let c = sender_candidates(m, raw);
    if c.len() > 0 {
        h.insert("from"@, spec_select_best(c))
    } else {
        h
    }
}

/// The header fields of a message (see [`spec_get_headers`]).
pub fn get_headers(msg: &DecodedMail, raw_email: &[u8]) -> (r: Headers)
    ensures
        r@ == spec_get_headers(msg@, raw_email@),
{
    let ghost fv = fields_view(msg.headers@);
    let mut headers = Headers::new();
    let mut from_candidates: Vec<String> = Vec::new();
    let mut i: usize = 0;
    while i < msg.headers.len()
        invariant
            i <= msg.headers.len(),
            fv == fields_view(msg.headers@),
            headers@ == fold_fields(fv.take(i as int)),
            strs_view(from_candidates@) == from_values(fv.take(i as int)),
        decreases msg.headers.len() - i,
    {
        proof {
            assert(fv.take(i + 1).drop_last() =~= fv.take(i as int));
            assert(fv.take(i + 1).last() == fv[i as int]);
        }
        let key = to_lowercase(msg.headers[i].0.as_str());
        let val = hdr_value_to_string(&msg.headers[i].1);
        if str_eq(key.as_str(), "from") {
            let ghost prev = strs_view(from_candidates@);
            from_candidates.push(val);
            proof {
                assert(strs_view(from_candidates@) =~= prev.push(val@));
            }
        } else if str_eq(key.as_str(), "date") {
            headers.insert(String::from_str("date"), val);
        } else {
            let existing = headers.get(key.as_str());
            match existing {
                Some(e) => {
                    let mut joined = e.clone();
                    push_str(&mut joined, ", ");
                    push_str(&mut joined, val.as_str());
                    headers.insert(key, joined);
                },
                None => {
                    headers.insert(key, val);
                },
            }
        }
        i = i + 1;
    }
    proof {
        assert(fv.take(i as int) =~= fv);
    }
    if from_candidates.len() == 0 {
        let mut j: usize = 0;
        while j < msg.from.len()
            invariant
                j <= msg.from.len(),
                strs_view(from_candidates@) == addresses_view(msg.from@).take(j as int).map_values(
                    |a: AddressView| addr_text(a),
                ),
            decreases msg.from.len() - j,
        {
            let a = addr_to_string(&msg.from[j]);
            let ghost prev = strs_view(from_candidates@);
            from_candidates.push(a);
            proof {
                assert(strs_view(from_candidates@) =~= prev.push(a@));
                assert(addresses_view(msg.from@).take(j + 1).map_values(|a: AddressView| addr_text(a))
                    =~= addresses_view(msg.from@).take(j as int).map_values(
                    |a: AddressView| addr_text(a),
                ).push(addr_text(msg.from@[j as int]@)));
            }
            j = j + 1;
        }
        proof {
            assert(addresses_view(msg.from@).take(j as int) =~= addresses_view(msg.from@));
        }
    }
    let body_from = extract_all_from_from_body(raw_email);
    let ghost before_body = strs_view(from_candidates@);
    let mut k: usize = 0;
    while k < body_from.len()
        invariant
            k <= body_from.len(),
            strs_view(from_candidates@) == before_body + strs_view(body_from@).take(k as int),
        decreases body_from.len() - k,
    {
        let ghost prev = strs_view(from_candidates@);
        from_candidates.push(body_from[k].clone());
        proof {
            assert(strs_view(from_candidates@) =~= prev.push(body_from@[k as int]@));
            assert(strs_view(body_from@).take(k + 1) =~= strs_view(body_from@).take(k as int).push(
                body_from@[k as int]@,
            ));
        }
        k = k + 1;
    }
    proof {
        assert(strs_view(body_from@).take(k as int) =~= strs_view(body_from@));
        assert(strs_view(from_candidates@) =~= sender_candidates(msg@, raw_email@));
    }
    if from_candidates.len() > 0 {
        let best = select_best_from_header(&from_candidates);
        headers.insert(String::from_str("from"), best);
    }
    headers
}

/// The texts of the header fields whose lower-case name is `key`, in the
/// order they come.
pub open spec fn values_named(fields: Seq<(Seq<char>, HeaderTextView)>, key: Seq<char>) -> Seq<Seq<char>>
    decreases fields.len(),
{
    if fields.len() == 0 {
        Seq::empty()
    } else if spec_to_lowercase(fields.last().0) == key {
        values_named(fields.drop_last(), key).push(header_value_text(fields.last().1))
    } else {
        values_named(fields.drop_last(), key)
    }
}

/// The fields read so far hold `key` exactly when one of them is named so,
/// with their texts joined by `, `.
proof fn lemma_fold_fields_named(fields: Seq<(Seq<char>, HeaderTextView)>, key: Seq<char>)
    requires
        key != "from"@,
        key != "date"@,
    ensures
        fold_fields(fields).dom().contains(key) <==> values_named(fields, key).len() > 0,
        values_named(fields, key).len() > 0 ==> fold_fields(fields)[key] == join(
            values_named(fields, key),
            ", "@,
        ),
    decreases fields.len(),
{
    if fields.len() > 0 {
        let init = fields.drop_last();
        lemma_fold_fields_named(init, key);
        let vs = values_named(init, key);
        let name = spec_to_lowercase(fields.last().0);
        let val = header_value_text(fields.last().1);
        if name == key {
            let ws = vs.push(val);
            assert(ws.drop_last() =~= vs);
            if vs.len() == 0 {
                assert(ws =~= seq![val]);
            }
        }
    }
}

/// Law: every header field other than `from` and `date` holds the texts of
/// all the fields of that lower-case name, in order, joined by `, `; it is
/// present exactly when the message has such a field.
pub proof fn law_repeated_fields_joined(m: DecodedMailView, raw: Seq<u8>, key: Seq<char>)
    requires
        key != "from"@,
        key != "date"@,
    ensures
        spec_get_headers(m, raw).dom().contains(key) <==> values_named(m.headers, key).len() > 0,
        values_named(m.headers, key).len() > 0 ==> spec_get_headers(m, raw)[key] == join(
            values_named(m.headers, key),
            ", "@,
        ),
{
    lemma_fold_fields_named(m.headers, key);
}

/// Pieces that are all non-empty are kept as they are.
proof fn lemma_nonempty_texts_all(parts: Seq<Seq<char>>)
    requires
        forall|i: int| 0 <= i < parts.len() ==> (#[trigger] parts[i]).len() > 0,
    ensures
        nonempty_texts(parts) == parts,
    decreases parts.len(),
{
    if parts.len() > 0 {
        let init = parts.drop_last();
        assert forall|i: int| 0 <= i < init.len() implies (#[trigger] init[i]).len() > 0 by {
            assert(init[i] == parts[i]);
        }
        lemma_nonempty_texts_all(init);
        assert(parts[parts.len() - 1].len() > 0);
        assert(init.push(parts.last()) =~= parts);
    }
}

/// The first line of the join of pieces is the first line of the first
/// piece, where that piece is not empty.
proof fn lemma_join_first_line(parts: Seq<Seq<char>>)
    requires
        parts.len() > 0,
        parts[0].len() > 0,
    ensures
        first_line(join(parts, "\n"@)) == first_line(parts[0]),
{
    reveal_strlit("\n");
    let p0 = parts[0];
    lemma_first_index(p0, '\n');
    if parts.len() == 1 {
        assert(join(parts, "\n"@) == p0);
    } else {
        lemma_join_first(parts, "\n"@);
        let rest = "\n"@ + join(parts.drop_first(), "\n"@);
        assert(join(parts, "\n"@) =~= p0 + rest);
        lemma_first_index_concat(p0, rest, '\n');
        assert(rest[0] == '\n');
        assert(first_index(rest, '\n') == 0);
        let k = first_index(p0, '\n');
        if k >= 0 {
            assert((p0 + rest).take(k) =~= p0.take(k));
        } else {
            assert((p0 + rest).take(p0.len() as int) =~= p0);
        }
    }
}

/// Law: every text part of a message occurs, as it is, in its body. This
/// holds where the parts are all non-empty and free of carriage returns
/// and the first of them does not start with a header line or a blank
/// line (where the body drops leading header lines and turns `\r\n` into
/// `\n`, a part can lose its start or its carriage returns).
pub proof fn law_body_holds_every_text_part(m: DecodedMailView, i: int) -> (off: int)
    requires
        0 <= i < m.text_bodies.len(),
        forall|j: int| 0 <= j < m.text_bodies.len() ==> (#[trigger] m.text_bodies[j]).len() > 0,
        forall|j: int| 0 <= j < m.text_bodies.len() ==> no_char(#[trigger] m.text_bodies[j], '\r'),
        trim(first_line(m.text_bodies[0])).len() > 0,
        !is_header_line(first_line(m.text_bodies[0])),
    ensures
        0 <= off,
        off + m.text_bodies[i].len() <= spec_get_body(m).len(),
        spec_get_body(m).subrange(off, off + m.text_bodies[i].len()) == m.text_bodies[i],
{
    reveal_strlit("\n");
    let tb = m.text_bodies;
    lemma_nonempty_texts_all(tb);
    let j = join(tb, "\n"@);
    assert(no_char("\n"@, '\r'));
    lemma_join_no_char(tb, "\n"@, '\r');
    lemma_crlf_to_lf_no_cr(j);
    let off = lemma_join_contains(tb, "\n"@, i);
    assert(j.len() > 0);
    lemma_lines_first(j);
    lemma_join_first_line(tb);
    let ls = lines(j);
    assert(ls[0] == first_line(tb[0]));
    assert(header_block_end(ls, 0) == 0);
    assert(skip_blank(ls, 0) == 0);
    assert(spec_clean_body(j) == j);
    assert(spec_get_body(m) == j);
    off
}

} // verus!
