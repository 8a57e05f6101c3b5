//! E-mails handed to a store, and how e-mails are stored.
use vstd::prelude::*;
use crate::text::{
    all_digits, ascii_lower, chars_eq, chars_of, decimal, decimal_string, is_ascii_chars, is_digit,
    lemma_decimal, lowercase, parse_uint, parse_uint_range, push_str, to_lowercase,
};

verus! {

/// One fetched e-mail: its id and raw content.
#[derive(Debug, Clone)]
pub struct EmailData {
    pub email_id: String,
    pub content: String,
}

/// How fetched e-mails are written.
#[derive(Debug, Clone, Copy, PartialEq, Eq, Structural)]
pub enum WriteMode {
    /// One `.eml` file per e-mail.
    RawEmails,
    /// Batches of `buffer_size` e-mails per Parquet file.
    Parquet { buffer_size: usize },
}

impl Default for WriteMode {
    fn default() -> (r: Self)
        ensures
            r == (WriteMode::Parquet { buffer_size: 10_000 }),
    {
        WriteMode::Parquet { buffer_size: 10_000 }
    }
}

/// Index of the first ASCII digit, or `-1`.
pub open spec fn first_digit(s: Seq<char>) -> int
    decreases s.len(),
{
    if s.len() == 0 {
        -1
    } else if is_digit(s[0]) {
        0
    } else {
        let r = first_digit(s.drop_first());
        if r < 0 {
            -1
        } else {
            r + 1
        }
    }
}

/// Length of the run of ASCII digits at the start of `s`.
pub open spec fn digit_run(s: Seq<char>) -> nat
    decreases s.len(),
{
    if s.len() > 0 && is_digit(s[0]) {
        1 + digit_run(s.drop_first())
    } else {
        0
    }
}

/// The error message for an unknown mode.
pub open spec fn unknown_mode_message(s: Seq<char>) -> Seq<char> {
    "Unknown WriteMode: '"@ + s + "'. Valid options are 'raw' or 'parquet:SIZE'"@
}

/// The error message for a Parquet mode without a size.
pub open spec fn missing_size_message(s: Seq<char>) -> Seq<char> {
    "Parquet mode requires a buffer size (e.g., 'parquet:1000'). Received: "@ + s
}

/// The error message for a size that does not fit.
pub open spec fn bad_size_message(s: Seq<char>) -> Seq<char> {
    "Could not parse buffer size from: "@ + s
}

/// Meaning of a write-mode text, permissive about case and punctuation:
/// `raw`, `raw_email` or `rawemail` select raw e-mails; any text starting
/// with `parquet` selects Parquet with the first run of digits as size.
pub open spec fn spec_parse_write_mode(s: Seq<char>) -> Result<WriteMode, Seq<char>> {
    let cleaned = lowercase(s);
    if cleaned == "raw"@ || cleaned == "raw_email"@ || cleaned == "rawemail"@ {
        Ok(WriteMode::RawEmails)
    } else if cleaned.len() >= 7 && cleaned.take(7) == "parquet"@ {
        let start = first_digit(cleaned);
        if start < 0 {
            Err(missing_size_message(s))
        } else {
            let digits = cleaned.subrange(start, start + digit_run(cleaned.skip(start)));
            match parse_uint(digits, usize::MAX as nat) {
                Some(n) => Ok(WriteMode::Parquet { buffer_size: n as usize }),
                None => Err(bad_size_message(s)),
            }
        }
    } else {
        Err(unknown_mode_message(s))
    }
}

/// The text form of a write mode (`raw_email` or `parquet:SIZE`).
pub open spec fn spec_display(m: WriteMode) -> Seq<char> {
    match m {
        WriteMode::RawEmails => "raw_email"@,
        WriteMode::Parquet { buffer_size } => "parquet:"@ + decimal(buffer_size as nat),
    }
}

/// Whether `v[at..]` starts with the characters of `lit`.
fn starts_with_at(v: &Vec<char>, at: usize, lit: &str) -> (b: bool)
    requires
        at <= v.len(),
    ensures
        b == (at + lit@.len() <= v.len() && v@.subrange(at as int, at + lit@.len()) == lit@),
{
    let p = chars_of(lit);
    crate::text::has_prefix_at(v, at, &p)
}

/// Law: the text form of a write mode is read back as that mode.
pub proof fn law_write_mode_round_trip(m: WriteMode)
    ensures
        spec_parse_write_mode(spec_display(m)) == Ok::<WriteMode, Seq<char>>(m),
{
    reveal_strlit("raw_email");
    reveal_strlit("raw");
    reveal_strlit("rawemail");
    reveal_strlit("parquet");
    reveal_strlit("parquet:");
    let t = spec_display(m);
    match m {
        WriteMode::RawEmails => {
            assert(is_ascii_chars(t));
            assert(ascii_lower(t) =~= t);
        },
        WriteMode::Parquet { buffer_size } => {
            let d = decimal(buffer_size as nat);
            lemma_decimal(buffer_size as nat);
            assert(t == "parquet:"@ + d);
            assert forall|i: int| 0 <= i < t.len() implies (#[trigger] t[i]) as u32 <= 0x7f by {
                if i >= 8 {
                    assert(t[i] == d[i - 8]);
                    assert(is_digit(d[i - 8]));
                }
            }
            assert forall|i: int| 0 <= i < t.len() implies !('A' <= #[trigger] t[i] && t[i] <= 'Z') by {
                if i >= 8 {
                    assert(t[i] == d[i - 8]);
                    assert(is_digit(d[i - 8]));
                }
            }
            assert(ascii_lower(t) =~= t);
            assert(lowercase(t) == t);
            assert(t.take(7) =~= "parquet"@);
            assert(t != "raw"@ && t != "raw_email"@ && t != "rawemail"@) by {
                assert(t[0] == 'p');
            }
            lemma_first_digit_after(t, 8);
            assert(t.skip(8) =~= d);
            lemma_digit_run_all(d);
            assert(t.subrange(8, 8 + d.len() as int) =~= d);
        },
    }
}

/// The first digit of `t` is at `k` when none comes before and `t[k]` is one.
proof fn lemma_first_digit_after(t: Seq<char>, k: int)
    requires
        0 <= k < t.len(),
        is_digit(t[k]),
        forall|i: int| 0 <= i < k ==> !is_digit(#[trigger] t[i]),
    ensures
        first_digit(t) == k,
    decreases k,
{
    if k > 0 {
        assert(!is_digit(t[0]));
        lemma_first_digit_after(t.drop_first(), k - 1);
    }
}

/// A text of digits is one run of digits.
proof fn lemma_digit_run_all(d: Seq<char>)
    requires
        all_digits(d),
    ensures
        digit_run(d) == d.len(),
    decreases d.len(),
{
    if d.len() > 0 {
        assert(is_digit(d[0]));
        lemma_digit_run_all(d.drop_first());
    }
}

impl WriteMode {
    /// Parses a write mode (see [`spec_parse_write_mode`]).
    pub fn parse(s: &str) -> (r: Result<WriteMode, String>)
        ensures
            match spec_parse_write_mode(s@) {
                Ok(m) => r == Ok::<WriteMode, String>(m),
                Err(msg) => r is Err && r->Err_0@ == msg,
            },
    {
        let lower = to_lowercase(s);
        let cleaned = chars_of(lower.as_str());
        let raw = chars_of("raw");
        let raw_email = chars_of("raw_email");
        let rawemail = chars_of("rawemail");
        if chars_eq(&cleaned, &raw) || chars_eq(&cleaned, &raw_email) || chars_eq(
            &cleaned,
            &rawemail,
        ) {
            return Ok(WriteMode::RawEmails);
        }
        if starts_with_at(&cleaned, 0, "parquet") {
            proof {
                reveal_strlit("parquet");
                assert(cleaned@.subrange(0, 7) =~= cleaned@.take(7));
            }
            let mut start: usize = 0;
            proof {
                assert(cleaned@.skip(0) =~= cleaned@);
            }
            while start < cleaned.len() && !('0' <= cleaned[start] && cleaned[start] <= '9')
                invariant
                    start <= cleaned.len(),
                    first_digit(cleaned@) == (if first_digit(cleaned@.skip(start as int)) < 0 {
                        -1
                    } else {
                        first_digit(cleaned@.skip(start as int)) + start
                    }),
                decreases cleaned.len() - start,
            {
                proof {
                    assert(cleaned@.skip(start as int).drop_first() =~= cleaned@.skip(start + 1));
                }
                start = start + 1;
            }
            if start == cleaned.len() {
                proof {
                    assert(cleaned@.skip(start as int) =~= Seq::<char>::empty());
                }
                let mut msg = String::from_str(
                    "Parquet mode requires a buffer size (e.g., 'parquet:1000'). Received: ",
                );
                push_str(&mut msg, s);
                return Err(msg);
            }
            let mut end = start;
            while end < cleaned.len() && '0' <= cleaned[end] && cleaned[end] <= '9'
                invariant
                    start <= end <= cleaned.len(),
                    digit_run(cleaned@.skip(start as int)) == (end - start) + digit_run(
                        cleaned@.skip(end as int),
                    ),
                decreases cleaned.len() - end,
            {
                proof {
                    assert(cleaned@.skip(end as int).drop_first() =~= cleaned@.skip(end + 1));
                }
                end = end + 1;
            }
            proof {
                if end < cleaned.len() {
                    assert(cleaned@.skip(end as int)[0] == cleaned@[end as int]);
                }
                assert(digit_run(cleaned@.skip(end as int)) == 0);
                assert(cleaned@.skip(start as int)[0] == cleaned@[start as int]);
            }
            match parse_uint_range(&cleaned, start, end, usize::MAX as u64) {
                Some(n) => Ok(WriteMode::Parquet { buffer_size: n as usize }),
                None => {
                    let mut msg = String::from_str("Could not parse buffer size from: ");
                    push_str(&mut msg, s);
                    Err(msg)
                },
            }
        } else {
            proof {
                if cleaned@.len() >= 7 {
                    reveal_strlit("parquet");
                    assert(cleaned@.subrange(0, 7) =~= cleaned@.take(7));
                }
            }
            let mut msg = String::from_str("Unknown WriteMode: '");
            push_str(&mut msg, s);
            push_str(&mut msg, "'. Valid options are 'raw' or 'parquet:SIZE'");
            proof {
                assert(msg@ =~= unknown_mode_message(s@));
            }
            Err(msg)
        }
    }

    /// The text form of the mode: `raw_email` or `parquet:SIZE`.
    pub fn to_display_string(&self) -> (r: String)
        ensures
            r@ == spec_display(*self),
    {
        match self {
            WriteMode::RawEmails => String::from_str("raw_email"),
            WriteMode::Parquet { buffer_size } => {
                let mut r = String::from_str("parquet:");
                let digits = decimal_string(*buffer_size as u64);
                push_str(&mut r, digits.as_str());
                r
            },
        }
    }
}

impl std::str::FromStr for WriteMode {
    type Err = String;

    fn from_str(s: &str) -> (r: Result<Self, Self::Err>)
        ensures
            match spec_parse_write_mode(s@) {
                Ok(m) => r == Ok::<WriteMode, String>(m),
                Err(msg) => r is Err && r->Err_0@ == msg,
            },
    {
        WriteMode::parse(s)
    }
}

} // verus!
