//! Public-inbox layout: inboxes and epochs, repository checks, and the ids
//! given to the e-mails read from them.
use vstd::prelude::*;
use crate::platform::{path_is_dir, path_is_file};
use crate::text::{
    all_digits, byte_boundary, chars_of, decimal, decimal_chars, find_char, first_index,
    is_digit, join_path, lemma_decimal, lemma_digits_value_zeros, lemma_first_index, no_char,
    parse_uint, parse_uint_range, push_char, push_str, string_of_range, utf8_char_len,
    utf8_prefix_len,
};

verus! {

/// A detected public-inbox directory.
#[derive(Debug, Clone)]
pub struct PublicInbox {
    /// Display name of the inbox (the directory name).
    pub name: String,
    /// Layout of the inbox (`V1`, `V2`, with variants such as
    /// `V2 (incomplete)`).
    pub version: String,
    /// The git repository holding the e-mails.
    pub git_dir: String,
}

/// One epoch of a V2 public inbox.
#[derive(Debug, Clone)]
pub struct EpochRepo {
    /// Epoch name derived from the directory name (`0`, `1`, `all`).
    pub epoch_name: String,
    /// The epoch's git repository.
    pub git_dir: String,
}

/// The parts of an e-mail id.
#[derive(Debug, Clone)]
pub struct ParsedEmailId {
    /// Sequential e-mail number (starting at 1).
    pub email_num: usize,
    /// Epoch name.
    pub epoch_name: String,
    /// Short commit sha.
    pub short_sha: String,
}

/// The commit sha shortened to 7 bytes (kept whole when shorter).
pub open spec fn short_sha(s: Seq<char>, k: int) -> Seq<char> {
    if utf8_prefix_len(s, s.len() as int) >= 7 {
        s.take(k)
    } else {
        s
    }
}

/// The e-mail number zero-padded to 10 digits.
pub open spec fn padded_number(n: nat) -> Seq<char> {
    let d = decimal(n);
    if d.len() < 10 {
        Seq::new((10 - d.len()) as nat, |i: int| '0') + d
    } else {
        d
    }
}

/// The e-mail id: `{padded number}-e{epoch}-{short sha}`.
pub open spec fn spec_email_id(n: nat, epoch: Seq<char>, sha: Seq<char>) -> Seq<char> {
    padded_number(n) + "-e"@ + epoch + seq!['-'] + sha
}

/// Meaning of an e-mail id: the text before the first `-` is the number,
/// the text between the first and second `-` is `e` followed by the epoch,
/// and the rest is the short sha.
pub open spec fn spec_parse_email_id(id: Seq<char>) -> Option<(nat, Seq<char>, Seq<char>)> {
    let i = first_index(id, '-');
    let rest = id.skip(i + 1);
    let j = first_index(rest, '-');
    if i < 0 || j < 0 {
        None
    } else {
        let p1 = rest.take(j);
        match parse_uint(id.take(i), usize::MAX as nat) {
            Some(n) => if p1.len() > 0 && p1[0] == 'e' {
                Some((n, p1.drop_first(), rest.skip(j + 1)))
            } else {
                None
            },
            None => None,
        }
    }
}

/// Formats the id of an e-mail from its number, epoch and commit sha.
///
/// The sha is cut after its first 7 bytes when it is that long; as for
/// slicing a `str`, the cut must fall on a character boundary (a hex sha is
/// ASCII, where every byte is one).
pub fn format_email_id(email_num: usize, epoch_name: &str, commit_sha: &str) -> (r: String)
    requires
        utf8_prefix_len(commit_sha@, commit_sha@.len() as int) >= 7 ==> byte_boundary(
            commit_sha@,
            7,
        ),
    ensures
        exists|k: int|
            0 <= k <= commit_sha@.len() && (utf8_prefix_len(commit_sha@, commit_sha@.len() as int)
                >= 7 ==> utf8_prefix_len(commit_sha@, k) == 7) && r@ == spec_email_id(
                email_num as nat,
                epoch_name@,
                short_sha(commit_sha@, k),
            ),
{
    let sha = chars_of(commit_sha);
    // bytes of the sha (counted up to 8), and the number of characters in
    // its first 7 bytes when they end on a character boundary
    let mut k: usize = 0;
    let mut bytes: u64 = 0;
    let mut cut: Option<usize> = None;
    while k < sha.len()
        invariant
            k <= sha.len(),
            sha@ == commit_sha@,
            bytes == (if utf8_prefix_len(sha@, k as int) < 8 {
                utf8_prefix_len(sha@, k as int)
            } else {
                8
            }),
            match cut {
                Some(c) => c <= k && utf8_prefix_len(sha@, c as int) == 7,
                None => forall|j: int| 0 <= j <= k ==> #[trigger] utf8_prefix_len(sha@, j) != 7,
            },
        decreases sha.len() - k,
    {
        let w = utf8_char_len(sha[k]);
        let ghost before = utf8_prefix_len(sha@, k as int);
        proof {
            assert(utf8_prefix_len(sha@, k + 1) == before + w);
        }
        if bytes < 8 {
            bytes = if bytes + w < 8 {
                bytes + w
            } else {
                8
            };
        }
        k = k + 1;
        if cut.is_none() && bytes == 7 {
            cut = Some(k);
        }
        proof {
            assert(utf8_prefix_len(sha@, k as int) == before + w);
            assert(bytes == (if utf8_prefix_len(sha@, k as int) < 8 {
                utf8_prefix_len(sha@, k as int)
            } else {
                8
            }));
            if cut.is_none() {
                assert forall|j: int| 0 <= j <= k implies #[trigger] utf8_prefix_len(sha@, j)
                    != 7 by {
                    if j == k {
                        assert(utf8_prefix_len(sha@, j) != 7);
                    }
                }
            }
        }
    }
    proof {
        assert(sha@.len() == commit_sha@.len());
    }
    let mut r = String::new();
    let digits = decimal_chars(email_num as u64);
    let pad: usize = if digits.len() < 10 {
        10 - digits.len()
    } else {
        0
    };
    let mut z: usize = 0;
    proof {
        assert(r@ =~= Seq::new(0, |i: int| '0'));
    }
    while z < pad
        invariant
            z <= pad,
            r@ == Seq::new(z as nat, |i: int| '0'),
        decreases pad - z,
    {
        push_char(&mut r, '0');
        z = z + 1;
        proof {
            assert(r@ =~= Seq::new(z as nat, |i: int| '0'));
        }
    }
    let mut i: usize = 0;
    let ghost zeros = r@;
    while i < digits.len()
        invariant
            i <= digits.len(),
            r@ == zeros + digits@.take(i as int),
        decreases digits.len() - i,
    {
        push_char(&mut r, digits[i]);
        i = i + 1;
        proof {
            assert(digits@.take(i as int) =~= digits@.take(i - 1).push(digits@[i - 1]));
        }
    }
    proof {
        assert(digits@.take(i as int) =~= digits@);
        if digits@.len() < 10 {
            assert(zeros =~= Seq::new((10 - digits@.len()) as nat, |i: int| '0'));
        } else {
            assert(zeros =~= Seq::<char>::empty());
        }
        assert(r@ =~= padded_number(email_num as nat));
    }
    push_str(&mut r, "-e");
    push_str(&mut r, epoch_name);
    push_char(&mut r, '-');
    let ghost head = r@;
    let end = if bytes >= 7 {
        match cut {
            Some(c) => c,
            None => sha.len(),
        }
    } else {
        sha.len()
    };
    proof {
        if bytes >= 7 && cut.is_none() {
            let j = choose|j: int| 0 <= j <= sha@.len() && utf8_prefix_len(sha@, j) == 7;
            assert(utf8_prefix_len(sha@, j) != 7);
        }
        if bytes < 7 {
            assert(utf8_prefix_len(sha@, sha@.len() as int) < 7);
        }
    }
    let tail = string_of_range(&sha, 0, end);
    push_str(&mut r, tail.as_str());
    proof {
        reveal_strlit("-e");
        assert(sha@.subrange(0, end as int) =~= sha@.take(end as int));
        assert(sha@.take(sha@.len() as int) =~= sha@);
        assert(r@ =~= spec_email_id(email_num as nat, epoch_name@, short_sha(sha@, end as int)));
    }
    r
}

/// Splits an e-mail id into its parts (see [`spec_parse_email_id`]).
pub fn parse_email_id(id: &str) -> (r: Option<ParsedEmailId>)
    ensures
        match spec_parse_email_id(id@) {
            Some((n, epoch, sha)) => r matches Some(p) && p.email_num == n && p.epoch_name@
                == epoch && p.short_sha@ == sha,
            None => r is None,
        },
{
    let v = chars_of(id);
    let i = match find_char(&v, 0, v.len(), '-') {
        Some(i) => i,
        None => {
            proof {
                assert(v@.subrange(0, v@.len() as int) =~= id@);
            }
            return None;
        },
    };
    proof {
        assert(v@.subrange(0, v@.len() as int) =~= id@);
        lemma_first_index(id@, '-');
    }
    let j = match find_char(&v, i + 1, v.len(), '-') {
        Some(j) => j,
        None => {
            proof {
                assert(v@.subrange(i + 1, v@.len() as int) =~= id@.skip(i + 1));
            }
            return None;
        },
    };
    let ghost rest = id@.skip(i + 1);
    proof {
        assert(v@.subrange(i + 1, v@.len() as int) =~= rest);
        lemma_first_index(rest, '-');
        assert(v@.subrange(0, i as int) =~= id@.take(i as int));
    }
    let n = match parse_uint_range(&v, 0, i, usize::MAX as u64) {
        Some(n) => n,
        None => {
            return None;
        },
    };
    let p1_start = i + 1;
    let p1_end = i + 1 + j;
    if p1_end == p1_start || v[p1_start] != 'e' {
        proof {
            if p1_end > p1_start {
                assert(rest.take(j as int)[0] == v@[p1_start as int]);
            }
        }
        return None;
    }
    let epoch_name = string_of_range(&v, p1_start + 1, p1_end);
    let short_sha = string_of_range(&v, p1_end + 1, v.len());
    proof {
        assert(v@.subrange(p1_start + 1, p1_end as int) =~= rest.take(j as int).drop_first());
        assert(v@.subrange(p1_end + 1, v@.len() as int) =~= rest.skip(j + 1));
    }
    Some(ParsedEmailId { email_num: n as usize, epoch_name, short_sha })
}

/// Whether `dir` looks like a git repository: it has a `HEAD` file and an
/// `objects` directory. Both are questions to the file system, so nothing
/// is claimed of the answer.
pub fn is_git_repo(dir: &str) -> bool {
    let head = join_path(dir, "HEAD");
    let objects = join_path(dir, "objects");
    path_is_file(head.as_str()) && path_is_dir(objects.as_str())
}

/// The first `c` of `s` is at `k` when `s[k]` is `c` and none comes before.
proof fn lemma_first_index_at(s: Seq<char>, c: char, k: int)
    requires
        0 <= k < s.len(),
        s[k] == c,
        forall|i: int| 0 <= i < k ==> #[trigger] s[i] != c,
    ensures
        first_index(s, c) == k,
{
    lemma_first_index(s, c);
    let f = first_index(s, c);
    if f < 0 {
        assert(s[k] == c);
    } else if f < k {
        assert(s[f] == c);
    } else if f > k {
        assert(s.take(f)[k] == c);
    }
}

/// The padded number is made of digits and reads back as the number.
proof fn lemma_padded_number(n: nat)
    requires
        n <= usize::MAX,
    ensures
        no_char(padded_number(n), '-'),
        padded_number(n).len() > 0,
        parse_uint(padded_number(n), usize::MAX as nat) == Some(n),
{
    lemma_decimal(n);
    let d = decimal(n);
    let p = padded_number(n);
    if d.len() < 10 {
        let z = Seq::new((10 - d.len()) as nat, |i: int| '0');
        lemma_digits_value_zeros(z, d);
        assert(p == z + d);
        assert forall|i: int| 0 <= i < p.len() implies is_digit(#[trigger] p[i]) by {
            if i >= z.len() {
                assert(p[i] == d[i - z.len()]);
            }
        }
    }
    assert(all_digits(p));
    assert(!is_digit('-'));
    assert(!is_digit('+'));
    assert(p[0] != '+');
}

/// Law: the parts of an e-mail id are those it was formatted from, when
/// the epoch name holds no `-` (the sha may hold any text).
pub proof fn law_email_id_round_trip(n: nat, epoch: Seq<char>, sha: Seq<char>)
    requires
        n <= usize::MAX,
        no_char(epoch, '-'),
    ensures
        spec_parse_email_id(spec_email_id(n, epoch, sha)) == Some((n, epoch, sha)),
{
    reveal_strlit("-e");
    let p = padded_number(n);
    lemma_padded_number(n);
    let id = spec_email_id(n, epoch, sha);
    assert(id =~= p + seq!['-', 'e'] + epoch + seq!['-'] + sha);
    assert(id[p.len() as int] == '-');
    assert forall|i: int| 0 <= i < p.len() implies #[trigger] id[i] != '-' by {
        assert(id[i] == p[i]);
    }
    lemma_first_index_at(id, '-', p.len() as int);
    let rest = id.skip(p.len() + 1int);
    assert(rest =~= seq!['e'] + epoch + seq!['-'] + sha);
    let e1 = epoch.len() + 1int;
    assert(rest[e1] == '-');
    assert forall|i: int| 0 <= i < epoch.len() + 1 implies #[trigger] rest[i] != '-' by {
        if i > 0 {
            assert(rest[i] == epoch[i - 1]);
        }
    }
    lemma_first_index_at(rest, '-', e1);
    assert(id.take(p.len() as int) =~= p);
    assert(rest.take(e1) =~= seq!['e'] + epoch);
    assert((seq!['e'] + epoch).drop_first() =~= epoch);
    assert(rest.skip(e1 + 1) =~= sha);
}

} // verus!
