//! What the parser makes of an e-mail: its header fields, body, trailers
//! and patches.
use vstd::prelude::*;
use crate::text::{chars_of, push_char, str_eq};

verus! {

/// One `*-by:` trailer of an e-mail, such as `Signed-off-by`.
#[derive(Debug, Clone, PartialEq)]
pub struct Attribution {
    /// The trailer's kind, such as `Signed-off-by`.
    pub attribution: String,
    /// Who it names, as `Name <address>`.
    pub identification: String,
}

/// The character sequences of a list of header pairs.
pub open spec fn pairs_view(s: Seq<(String, String)>) -> Seq<(Seq<char>, Seq<char>)> {
    s.map_values(|p: (String, String)| (p.0@, p.1@))
}

/// The map that a list of pairs stands for: a later pair of a name takes
/// the place of an earlier one.
pub open spec fn to_map(s: Seq<(Seq<char>, Seq<char>)>) -> Map<Seq<char>, Seq<char>>
    decreases s.len(),
{
    if s.len() == 0 {
        Map::empty()
    } else {
        to_map(s.drop_last()).insert(s.last().0, s.last().1)
    }
}

/// Whether the pair at `i` is the last one of its name.
pub open spec fn last_of_key(s: Seq<(Seq<char>, Seq<char>)>, i: int) -> bool {
    &&& 0 <= i < s.len()
    &&& forall|j: int| i < j < s.len() ==> #[trigger] s[j].0 != s[i].0
}

/// A name is in the map exactly when some pair has it.
pub proof fn lemma_to_map_dom(s: Seq<(Seq<char>, Seq<char>)>, k: Seq<char>)
    ensures
        to_map(s).dom().contains(k) <==> exists|i: int| 0 <= i < s.len() && #[trigger] s[i].0 == k,
    decreases s.len(),
{
    if s.len() > 0 {
        lemma_to_map_dom(s.drop_last(), k);
        if exists|i: int| 0 <= i < s.len() && #[trigger] s[i].0 == k {
            let i = choose|i: int| 0 <= i < s.len() && #[trigger] s[i].0 == k;
            if i < s.len() - 1 {
                assert(s.drop_last()[i].0 == k);
            }
        }
        if exists|i: int| 0 <= i < s.len() - 1 && #[trigger] s.drop_last()[i].0 == k {
            let i = choose|i: int| 0 <= i < s.len() - 1 && #[trigger] s.drop_last()[i].0 == k;
            assert(s[i].0 == k);
        }
    }
}

/// The value of a name is that of its last pair.
pub proof fn lemma_to_map_last(s: Seq<(Seq<char>, Seq<char>)>, i: int)
    requires
        last_of_key(s, i),
    ensures
        to_map(s).dom().contains(s[i].0),
        to_map(s)[s[i].0] == s[i].1,
    decreases s.len(),
{
    if i < s.len() - 1 {
        assert(s[s.len() - 1].0 != s[i].0);
        let t = s.drop_last();
        assert(t[i] == s[i]);
        assert forall|j: int| i < j < t.len() implies #[trigger] t[j].0 != t[i].0 by {
            assert(t[j] == s[j]);
        }
        lemma_to_map_last(t, i);
    }
}

/// Replacing the last pair of a name sets that name in the map.
pub proof fn lemma_to_map_update(s: Seq<(Seq<char>, Seq<char>)>, i: int, v: Seq<char>)
    requires
        last_of_key(s, i),
    ensures
        to_map(s.update(i, (s[i].0, v))) == to_map(s).insert(s[i].0, v),
    decreases s.len(),
{
    let k = s[i].0;
    let u = s.update(i, (k, v));
    if i == s.len() - 1 {
        assert(u.drop_last() =~= s.drop_last());
    } else {
        let t = s.drop_last();
        assert(t[i] == s[i]);
        assert forall|j: int| i < j < t.len() implies #[trigger] t[j].0 != t[i].0 by {
            assert(t[j] == s[j]);
        }
        lemma_to_map_update(t, i, v);
        assert(u.drop_last() =~= t.update(i, (k, v)));
        assert(s.last().0 != k);
        assert(to_map(u) =~= to_map(s).insert(k, v));
    }
}

/// A text with every UTF-16 surrogate code point replaced by U+FFFD. A
/// `char` is never a surrogate, so the text comes back unchanged.
pub fn sanitize_text(s: &str) -> (r: String)
    ensures
        r@ == s@,
{
    let v = chars_of(s);
    let mut r = String::new();
    let mut i: usize = 0;
    while i < v.len()
        invariant
            i <= v.len(),
            v@ == s@,
            r@ == v@.take(i as int),
        decreases v.len() - i,
    {
        let c = v[i];
        let code = c as u32;
        proof {
            vstd::utf8::char_is_scalar(c);
        }
        if 0xD800 <= code && code <= 0xDFFF {
            push_char(&mut r, '\u{FFFD}');
        } else {
            push_char(&mut r, c);
        }
        proof {
            assert(v@.take(i + 1) =~= v@.take(i as int).push(c));
        }
        i = i + 1;
    }
    proof {
        assert(v@.take(i as int) =~= v@);
    }
    r
}

/// The header fields of an e-mail: lower-case names and their values.
///
/// Read as a map from name to value; see [`to_map`].
#[derive(Debug, Clone)]
pub struct Headers {
    entries: Vec<(String, String)>,
}

impl View for Headers {
    type V = Map<Seq<char>, Seq<char>>;

    closed spec fn view(&self) -> Map<Seq<char>, Seq<char>> {
        to_map(pairs_view(self.entries@))
    }
}

impl Headers {
    /// No header field.
    pub fn new() -> (h: Headers)
        ensures
            h@ == Map::<Seq<char>, Seq<char>>::empty(),
    {
        let h = Headers { entries: Vec::new() };
        proof {
            assert(pairs_view(h.entries@) =~= Seq::<(Seq<char>, Seq<char>)>::empty());
        }
        h
    }

    /// Position of the last pair named `key`.
    fn find(&self, key: &str) -> (r: Option<usize>)
        ensures
            match r {
                Some(i) => last_of_key(pairs_view(self.entries@), i as int) && self.entries@[i as int].0@
                    == key@,
                None => forall|j: int|
                    0 <= j < self.entries@.len() ==> #[trigger] self.entries@[j].0@ != key@,
            },
    {
        let ghost s = pairs_view(self.entries@);
        let mut i: usize = self.entries.len();
        while i > 0
            invariant
                i <= self.entries.len(),
                s == pairs_view(self.entries@),
                forall|j: int| i <= j < self.entries@.len() ==> #[trigger] self.entries@[j].0@ != key@,
            decreases i,
        {
            i = i - 1;
            if str_eq(self.entries[i].0.as_str(), key) {
                proof {
                    assert forall|j: int| i < j < s.len() implies #[trigger] s[j].0 != s[i as int].0 by {
                        assert(s[j].0 == self.entries@[j].0@);
                    }
                }
                return Some(i);
            }
        }
        None
    }

    /// The value of a field.
    pub fn get(&self, key: &str) -> (r: Option<&String>)
        ensures
            match r {
                Some(v) => self@.dom().contains(key@) && v@ == self@[key@],
                None => !self@.dom().contains(key@),
            },
    {
        let ghost s = pairs_view(self.entries@);
        match self.find(key) {
            Some(i) => {
                proof {
                    lemma_to_map_last(s, i as int);
                }
                Some(&self.entries[i].1)
            },
            None => {
                proof {
                    lemma_to_map_dom(s, key@);
                    if exists|j: int| 0 <= j < s.len() && #[trigger] s[j].0 == key@ {
                        let j = choose|j: int| 0 <= j < s.len() && #[trigger] s[j].0 == key@;
                        assert(self.entries@[j].0@ == key@);
                    }
                }
                None
            },
        }
    }

    /// The value of a field, or the empty string where it is missing.
    pub fn get_or_empty(&self, key: &str) -> (r: String)
        ensures
            r@ == (if self@.dom().contains(key@) { self@[key@] } else { Seq::empty() }),
    {
        match self.get(key) {
            Some(v) => v.clone(),
            None => String::new(),
        }
    }

    /// Whether a field is present.
    pub fn contains_key(&self, key: &str) -> (r: bool)
        ensures
            r == self@.dom().contains(key@),
    {
        self.get(key).is_some()
    }

    /// Sets a field, replacing any value it had.
    pub fn insert(&mut self, key: String, value: String)
        ensures
            final(self)@ == old(self)@.insert(key@, value@),
    {
        let ghost s = pairs_view(self.entries@);
        match self.find(key.as_str()) {
            Some(i) => {
                let ghost k = self.entries@[i as int].0@;
                self.entries.set(i, (key, value));
                proof {
                    lemma_to_map_update(s, i as int, value@);
                    assert(pairs_view(self.entries@) =~= s.update(i as int, (k, value@)));
                }
            },
            None => {
                self.entries.push((key, value));
                proof {
                    assert(pairs_view(self.entries@).drop_last() =~= s);
                }
            },
        }
    }

    /// The fields with each value passed through [`sanitize_text`].
    pub fn sanitize_values(&mut self)
        ensures
            final(self)@ == old(self)@,
    {
        let mut entries: Vec<(String, String)> = Vec::new();
        let mut i: usize = 0;
        while i < self.entries.len()
            invariant
                i <= self.entries.len(),
                pairs_view(entries@) == pairs_view(self.entries@).take(i as int),
            decreases self.entries.len() - i,
        {
            let k = self.entries[i].0.clone();
            let v = sanitize_text(self.entries[i].1.as_str());
            let ghost prev = pairs_view(entries@);
            entries.push((k, v));
            proof {
                assert(pairs_view(entries@) =~= prev.push((k@, v@)));
                assert(pairs_view(self.entries@).take(i + 1) =~= pairs_view(self.entries@).take(
                    i as int,
                ).push(pairs_view(self.entries@)[i as int]));
            }
            i = i + 1;
        }
        proof {
            assert(pairs_view(self.entries@).take(i as int) =~= pairs_view(self.entries@));
        }
        self.entries = entries;
    }

    /// The fields as name and value pairs, a later pair of a name taking
    /// the place of an earlier one.
    pub fn pairs(&self) -> (r: &Vec<(String, String)>)
        ensures
            to_map(pairs_view(r@)) == self@,
    {
        &self.entries
    }

    /// The fields of a list of name and value pairs, a later pair of a name
    /// taking the place of an earlier one.
    pub fn from_pairs(pairs: Vec<(String, String)>) -> (h: Headers)
        ensures
            h@ == to_map(pairs_view(pairs@)),
    {
        Headers { entries: pairs }
    }
}

/// An e-mail as the parser hands it on.
#[derive(Debug, Clone)]
pub struct ParsedEmail {
    /// Header fields by lower-case name.
    pub headers: Headers,
    /// The text of the body.
    pub raw_body: String,
    /// The `*-by:` trailers found in the body.
    pub trailers: Vec<Attribution>,
    /// The patches found in the body.
    pub code: Vec<String>,
}

/// Law: after a field is set, reading it gives the value set, and every
/// other field reads as before.
pub proof fn law_headers_read_after_write(
    h: Map<Seq<char>, Seq<char>>,
    key: Seq<char>,
    value: Seq<char>,
    other: Seq<char>,
)
    requires
        other != key,
    ensures
        h.insert(key, value).dom().contains(key),
        h.insert(key, value)[key] == value,
        h.insert(key, value).dom().contains(other) == h.dom().contains(other),
        h.insert(key, value)[other] == h[other],
{
}

} // verus!
