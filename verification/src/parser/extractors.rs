//! Trailers (`Signed-off-by:` and the like) and patches found in an
//! e-mail body.
use vstd::prelude::*;
use crate::parser::entities::Attribution;
use crate::parser::matching::{
    groups_view, regex_captures_all, regex_find_all, regex_replace_all, spec_regex_captures_all,
    spec_regex_find_all, spec_regex_replace_all,
};
use crate::text::{
    before_text, push_str, strs_view, text_before, trim, trim_strings, trim_text, trimmed_nonempty,
};

verus! {

/// The line that starts an e-mail signature.
pub const SIGNATURE_MARK: &'static str = "\n-- \n";

/// A trailer whose commit reference was wrapped onto a second line.
pub const WRAPPED_REFERENCE: &'static str = r"(?m)^(\S+:\s+[\da-f]+\s+\([^)]+)\n([^\n]+\))";

/// A trailer whose address was wrapped onto a second line.
pub const WRAPPED_ADDRESS: &'static str = r"(?m)^(\S+:\s+[^<]+)\n(<[^>]+>)$";

/// A `*-by:` trailer: its kind, name and address.
pub const TRAILER: &'static str = r"(?m)^\s*(?P<type>[a-zA-Z\-]+-by):\s*(?P<name>[^<\n]+?)\s*<(?P<email>[^>\n]+)>";

/// Patches between a `---` line and a signature line.
pub const PATCH_TO_SIGNATURE: &'static str = r"(?m)(^---$[\s\S]*?^--\s*\n^.*$)";

/// Patches between a `---` line and a `--` line that may hold `=`.
pub const PATCH_TO_RULE: &'static str = r"(?m)(^---$[\s\S]*?^--[\s=]*$\n^.*$)";

/// Patches from a `diff --git` line to a signature line.
pub const PATCH_FROM_DIFF: &'static str = r"(?m)(diff --git[\s\S]*?^--\s*\n^.*$)";

/// Patches between a `---` line and any line starting with `-`.
pub const PATCH_TO_DASHES: &'static str = r"(?m)(^---$[\s\S]*?^--*[\S\s=]*$\n^.*$)";

/// The text of group `i` of a match, or the empty text where it did not
/// take part.
pub open spec fn group_text(g: Seq<Option<Seq<char>>>, i: int) -> Seq<char> {
    if 0 <= i < g.len() {
        match g[i] {
            Some(t) => t,
            None => Seq::empty(),
        }
    } else {
        Seq::empty()
    }
}

/// The trailer read from the groups of a [`TRAILER`] match: its kind, and
/// `name <address>`.
pub open spec fn trailer_of(g: Seq<Option<Seq<char>>>) -> (Seq<char>, Seq<char>) {
    (trim(group_text(g, 1)), trim(group_text(g, 2)) + " <"@ + trim(group_text(g, 3)) + ">"@)
}

/// The character sequences of a list of trailers.
pub open spec fn attributions_view(v: Seq<Attribution>) -> Seq<(Seq<char>, Seq<char>)> {
    v.map_values(|a: Attribution| (a.attribution@, a.identification@))
}

/// The trailers of a message: in the text before the signature, lines
/// wrapped by copy and paste are joined again and each [`TRAILER`] match
/// gives one trailer. Nothing is found where a pattern does not compile.
pub open spec fn spec_attributions(message: Seq<char>) -> Seq<(Seq<char>, Seq<char>)> {
    let body = before_text(message, SIGNATURE_MARK@);
    match spec_regex_replace_all(WRAPPED_REFERENCE@, body, "$1 $2"@) {
        None => Seq::empty(),
        Some(b1) => match spec_regex_replace_all(WRAPPED_ADDRESS@, b1, "$1 $2"@) {
            None => Seq::empty(),
            Some(b2) => match spec_regex_captures_all(TRAILER@, b2) {
                None => Seq::empty(),
                Some(ms) => ms.map_values(|g: Seq<Option<Seq<char>>>| trailer_of(g)),
            },
        },
    }
}

/// Executable [`group_text`].
fn group_string(g: &Vec<Option<String>>, i: usize) -> (r: String)
    ensures
        r@ == group_text(groups_view(g@), i as int),
{
    if i < g.len() {
        match &g[i] {
            Some(t) => t.clone(),
            None => String::new(),
        }
    } else {
        String::new()
    }
}

/// The `*-by:` trailers of a commit message (see [`spec_attributions`]).
pub fn extract_attributions(commit_message: &str) -> (r: Vec<Attribution>)
    ensures
        attributions_view(r@) == spec_attributions(commit_message@),
{
    let body = text_before(commit_message, SIGNATURE_MARK);
    let b1 = match regex_replace_all(WRAPPED_REFERENCE, body.as_str(), "$1 $2") {
        Some(b) => b,
        None => return Vec::new(),
    };
    let b2 = match regex_replace_all(WRAPPED_ADDRESS, b1.as_str(), "$1 $2") {
        Some(b) => b,
        None => return Vec::new(),
    };
    let ms = match regex_captures_all(TRAILER, b2.as_str()) {
        Some(m) => m,
        None => {
            proof {
                assert(attributions_view(Seq::<Attribution>::empty()) =~= Seq::empty());
            }
            return Vec::new();
        },
    };
    let ghost spec_ms = spec_regex_captures_all(TRAILER@, b2@)->0;
    let mut r: Vec<Attribution> = Vec::new();
    let mut i: usize = 0;
    while i < ms.len()
        invariant
            i <= ms.len(),
            spec_ms.len() == ms@.len(),
            forall|j: int| 0 <= j < ms@.len() ==> #[trigger] spec_ms[j] == groups_view(ms@[j]@),
            attributions_view(r@) == spec_ms.take(i as int).map_values(
                |g: Seq<Option<Seq<char>>>| trailer_of(g),
            ),
        decreases ms.len() - i,
    {
        let g = &ms[i];
        let kind = trim_text(group_string(g, 1).as_str());
        let name = trim_text(group_string(g, 2).as_str());
        let email = trim_text(group_string(g, 3).as_str());
        let mut identification = name;
        push_str(&mut identification, " <");
        push_str(&mut identification, email.as_str());
        push_str(&mut identification, ">");
        let ghost prev = r@;
        r.push(Attribution { attribution: kind, identification });
        proof {
            assert(spec_ms[i as int] == groups_view(ms@[i as int]@));
            assert(attributions_view(r@) =~= attributions_view(prev).push(
                trailer_of(spec_ms[i as int]),
            ));
            assert(spec_ms.take(i + 1).map_values(|g: Seq<Option<Seq<char>>>| trailer_of(g))
                =~= spec_ms.take(i as int).map_values(|g: Seq<Option<Seq<char>>>| trailer_of(g)).push(
                trailer_of(spec_ms[i as int]),
            ));
        }
        i = i + 1;
    }
    proof {
        assert(spec_ms.take(i as int) =~= spec_ms);
    }
    r
}

/// The patch patterns, tried in this order.
pub open spec fn patch_patterns() -> Seq<Seq<char>> {
    seq![PATCH_TO_SIGNATURE@, PATCH_TO_RULE@, PATCH_FROM_DIFF@, PATCH_TO_DASHES@]
}

/// The non-empty trimmed matches of the first of `patterns` that has any;
/// a pattern that does not compile is passed over.
pub open spec fn patches_from(patterns: Seq<Seq<char>>, body: Seq<char>) -> Seq<Seq<char>>
    decreases patterns.len(),
{
    if patterns.len() == 0 {
        Seq::empty()
    } else {
        let found = match spec_regex_find_all(patterns[0], body) {
            Some(ms) => trimmed_nonempty(ms),
            None => Seq::empty(),
        };
        if found.len() > 0 {
            found
        } else {
            patches_from(patterns.drop_first(), body)
        }
    }
}

/// The patches of an e-mail body.
pub open spec fn spec_patches(body: Seq<char>) -> Seq<Seq<char>> {
    patches_from(patch_patterns(), body)
}

/// The non-empty trimmed matches of one pattern.
fn patches_for(pattern: &str, body: &str) -> (r: Vec<String>)
    ensures
        strs_view(r@) == match spec_regex_find_all(pattern@, body@) {
            Some(ms) => trimmed_nonempty(ms),
            None => Seq::empty(),
        },
{
    match regex_find_all(pattern, body) {
        Some(ms) => trim_strings(&ms),
        None => {
            proof {
                assert(strs_view(Seq::<String>::empty()) =~= Seq::empty());
            }
            Vec::new()
        },
    }
}

/// The patches of an e-mail body (see [`spec_patches`]).
pub fn extract_patches(email_body: &str) -> (r: Vec<String>)
    ensures
        strs_view(r@) == spec_patches(email_body@),
{
    let ghost pats = patch_patterns();
    proof {
        assert(pats.drop_first() =~= seq![PATCH_TO_RULE@, PATCH_FROM_DIFF@, PATCH_TO_DASHES@]);
        assert(pats.drop_first().drop_first() =~= seq![PATCH_FROM_DIFF@, PATCH_TO_DASHES@]);
        assert(pats.drop_first().drop_first().drop_first() =~= seq![PATCH_TO_DASHES@]);
        assert(pats.drop_first().drop_first().drop_first().drop_first() =~= Seq::<Seq<char>>::empty());
        reveal_with_fuel(patches_from, 5);
    }
    let p = patches_for(PATCH_TO_SIGNATURE, email_body);
    if p.len() > 0 {
        return p;
    }
    let p = patches_for(PATCH_TO_RULE, email_body);
    if p.len() > 0 {
        return p;
    }
    let p = patches_for(PATCH_FROM_DIFF, email_body);
    if p.len() > 0 {
        return p;
    }
    let p = patches_for(PATCH_TO_DASHES, email_body);
    if p.len() > 0 {
        return p;
    }
    proof {
        assert(strs_view(Seq::<String>::empty()) =~= Seq::empty());
    }
    Vec::new()
}

/// The non-empty trimmed matches of one patch pattern in a body; nothing
/// where the pattern does not compile.
pub open spec fn pattern_patches(pattern: Seq<char>, body: Seq<char>) -> Seq<Seq<char>> {
    match spec_regex_find_all(pattern, body) {
        Some(ms) => trimmed_nonempty(ms),
        None => Seq::empty(),
    }
}

/// Law: the patches of a body are those of the first pattern that finds
/// any, in the order: from a `---` line to a signature, from a `---` line
/// to a `--` rule, from a `diff --git` line to a signature, from a `---`
/// line to any line of dashes; none where no pattern finds any.
pub proof fn law_patch_pattern_priority(body: Seq<char>)
    ensures
        pattern_patches(PATCH_TO_SIGNATURE@, body).len() > 0 ==> spec_patches(body)
            == pattern_patches(PATCH_TO_SIGNATURE@, body),
        pattern_patches(PATCH_TO_SIGNATURE@, body).len() == 0 && pattern_patches(
            PATCH_TO_RULE@,
            body,
        ).len() > 0 ==> spec_patches(body) == pattern_patches(PATCH_TO_RULE@, body),
        pattern_patches(PATCH_TO_SIGNATURE@, body).len() == 0 && pattern_patches(
            PATCH_TO_RULE@,
            body,
        ).len() == 0 && pattern_patches(PATCH_FROM_DIFF@, body).len() > 0 ==> spec_patches(body)
            == pattern_patches(PATCH_FROM_DIFF@, body),
        pattern_patches(PATCH_TO_SIGNATURE@, body).len() == 0 && pattern_patches(
            PATCH_TO_RULE@,
            body,
        ).len() == 0 && pattern_patches(PATCH_FROM_DIFF@, body).len() == 0 ==> spec_patches(body)
            == pattern_patches(PATCH_TO_DASHES@, body),
{
    let pats = patch_patterns();
    assert(pats[0] == PATCH_TO_SIGNATURE@);
    assert(pats.drop_first() =~= seq![PATCH_TO_RULE@, PATCH_FROM_DIFF@, PATCH_TO_DASHES@]);
    assert(pats.drop_first().drop_first() =~= seq![PATCH_FROM_DIFF@, PATCH_TO_DASHES@]);
    assert(pats.drop_first().drop_first().drop_first() =~= seq![PATCH_TO_DASHES@]);
    assert(pats.drop_first().drop_first().drop_first().drop_first() =~= Seq::<Seq<char>>::empty());
    reveal_with_fuel(patches_from, 5);
}

/// Law: every `*-by:` trailer match in the text before the signature (once
/// wrapped lines are joined) gives one trailer, in order: the kind is the
/// match's first group, and the identification its name and address as
/// `name <address>`, each trimmed. No match is dropped or added.
pub proof fn law_one_trailer_per_match(message: Seq<char>, b1: Seq<char>, b2: Seq<char>, ms: Seq<Seq<Option<Seq<char>>>>)
    requires
        spec_regex_replace_all(WRAPPED_REFERENCE@, before_text(message, SIGNATURE_MARK@), "$1 $2"@)
            == Some(b1),
        spec_regex_replace_all(WRAPPED_ADDRESS@, b1, "$1 $2"@) == Some(b2),
        spec_regex_captures_all(TRAILER@, b2) == Some(ms),
    ensures
        spec_attributions(message).len() == ms.len(),
        forall|i: int|
            0 <= i < ms.len() ==> (#[trigger] spec_attributions(message)[i]).0 == trim(
                group_text(ms[i], 1),
            ) && spec_attributions(message)[i].1 == trim(group_text(ms[i], 2)) + " <"@ + trim(
                group_text(ms[i], 3),
            ) + ">"@,
{
}

} // verus!
