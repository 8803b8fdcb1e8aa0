use vstd::prelude::*;
use vstd::relations::sorted_by;
use crate::text_order::{sort_texts, text_order};

verus! {

/// The regular expression that finds `$name` placeholders in a translation.
pub const PLACEHOLDER_PATTERN: &'static str = "\\$[a-zA-Z0-9_-]+";

/// A character that may follow the `$` of a placeholder: `[a-zA-Z0-9_-]`.
pub open spec fn is_placeholder_char(c: char) -> bool {
    ('a' <= c && c <= 'z') || ('A' <= c && c <= 'Z') || ('0' <= c && c <= '9') || c == '_'
        || c == '-'
}

/// The number of placeholder characters in a row in `s` from index `i` on.
pub open spec fn placeholder_run(s: Seq<char>, i: int) -> nat
    decreases s.len() - i,
{
    if 0 <= i < s.len() && is_placeholder_char(s[i]) {
        1 + placeholder_run(s, i + 1)
    } else {
        0
    }
}

pub proof fn lemma_placeholder_run_bound(s: Seq<char>, i: int)
    requires
        0 <= i <= s.len(),
    ensures
        i + placeholder_run(s, i) <= s.len(),
        forall|j: int| i <= j < i + placeholder_run(s, i) ==> is_placeholder_char(#[trigger] s[j]),
    decreases s.len() - i,
{
    if i < s.len() && is_placeholder_char(s[i]) {
        lemma_placeholder_run_bound(s, i + 1);
    }
}

/// The placeholders of `s` from index `i` on, left to right, as the pattern
/// `\$[a-zA-Z0-9_-]+` finds them: each is a `$` followed by the longest run of
/// placeholder characters after it (at least one), and the search resumes
/// after each match.
pub open spec fn placeholders_from(s: Seq<char>, i: int) -> Seq<Seq<char>>
    decreases s.len() - i,
{
    if i < 0 || i >= s.len() {
        seq![]
    } else if s[i] == '$' && placeholder_run(s, i + 1) > 0 {
        let end = i + 1 + placeholder_run(s, i + 1);
        proof {
            lemma_placeholder_run_bound(s, i + 1);
        }
        seq![s.subrange(i, end)] + placeholders_from(s, end)
    } else {
        placeholders_from(s, i + 1)
    }
}

/// A placeholder: a `$` followed by one or more of `[a-zA-Z0-9_-]`.
pub open spec fn is_placeholder(p: Seq<char>) -> bool {
    &&& p.len() >= 2
    &&& p[0] == '$'
    &&& forall|k: int| 1 <= k < p.len() ==> is_placeholder_char(#[trigger] p[k])
}

/// A placeholder starts at index `j`: a `$` with a placeholder character
/// right after it.
pub open spec fn placeholder_starts_at(s: Seq<char>, j: int) -> bool {
    0 <= j && j + 1 < s.len() && s[j] == '$' && is_placeholder_char(s[j + 1])
}

/// Whether the text holds a placeholder anywhere.
pub open spec fn has_placeholder(s: Seq<char>) -> bool {
    exists|j: int| placeholder_starts_at(s, j)
}

/// Every match is a placeholder: `$` and then only placeholder characters,
/// at least one.
pub proof fn lemma_placeholder_shape(s: Seq<char>, i: int)
    ensures
        forall|k: int|
            0 <= k < placeholders_from(s, i).len() ==> is_placeholder(
                #[trigger] placeholders_from(s, i)[k],
            ),
    decreases s.len() - i,
{
    if 0 <= i < s.len() {
        if s[i] == '$' && placeholder_run(s, i + 1) > 0 {
            let end = i + 1 + placeholder_run(s, i + 1);
            lemma_placeholder_run_bound(s, i + 1);
            lemma_placeholder_shape(s, end);
            let rest = placeholders_from(s, end);
            assert forall|k: int| 0 <= k < placeholders_from(s, i).len() implies is_placeholder(
                #[trigger] placeholders_from(s, i)[k],
            ) by {
                if k > 0 {
                    assert(placeholders_from(s, i)[k] == rest[k - 1]);
                } else {
                    let p = s.subrange(i, end);
                    assert(placeholders_from(s, i)[0] == p);
                    assert forall|m: int| 1 <= m < p.len() implies is_placeholder_char(
                        #[trigger] p[m],
                    ) by {
                        assert(p[m] == s[i + m]);
                    }
                }
            }
        } else {
            lemma_placeholder_shape(s, i + 1);
            assert(placeholders_from(s, i) == placeholders_from(s, i + 1));
        }
    }
}

/// From index `i` on there are no matches exactly when no placeholder
/// starts at or after `i`.
pub proof fn lemma_placeholders_empty(s: Seq<char>, i: int)
    requires
        0 <= i,
    ensures
        placeholders_from(s, i).len() == 0 <==> forall|j: int|
            i <= j ==> !#[trigger] placeholder_starts_at(s, j),
    decreases s.len() - i,
{
    if i >= s.len() {
        assert forall|j: int| i <= j implies !#[trigger] placeholder_starts_at(s, j) by {}
    } else if s[i] == '$' && placeholder_run(s, i + 1) > 0 {
        assert(i + 1 < s.len() && is_placeholder_char(s[i + 1]));
        assert(placeholder_starts_at(s, i));
    } else {
        lemma_placeholders_empty(s, i + 1);
        assert(placeholders_from(s, i) == placeholders_from(s, i + 1));
        assert(!placeholder_starts_at(s, i)) by {
            if i + 1 < s.len() && is_placeholder_char(s[i + 1]) {
                assert(placeholder_run(s, i + 1) > 0);
            }
        }
        if placeholders_from(s, i).len() == 0 {
            assert forall|j: int| i <= j implies !#[trigger] placeholder_starts_at(s, j) by {
                if j > i {
                    assert(!placeholder_starts_at(s, j));
                }
            }
        }
    }
}

/// A text has no placeholders exactly when no `$` in it is followed by a
/// placeholder character.
pub proof fn lemma_no_placeholders(s: Seq<char>)
    ensures
        placeholders(s).len() == 0 <==> !has_placeholder(s),
{
    lemma_placeholders_empty(s, 0);
    if has_placeholder(s) {
        let j = choose|j: int| placeholder_starts_at(s, j);
        assert(0 <= j);
    }
}

/// The placeholders of a translation, in the order they occur.
pub open spec fn placeholders(s: Seq<char>) -> Seq<Seq<char>> {
    placeholders_from(s, 0)
}

/// The placeholders of a translation, in text order (duplicates kept).
pub open spec fn sorted_placeholders(s: Seq<char>) -> Seq<Seq<char>> {
    placeholders(s).sort_by(text_order())
}

/// What `regex::Regex::new(pattern)` followed by `find_iter(haystack)`
/// yields: `None` where the pattern does not compile, else the matched texts
/// in order.
pub uninterp spec fn regex_matches(pattern: Seq<char>, haystack: Seq<char>) -> Option<
    Seq<Seq<char>>,
>;

/// Calls `regex::Regex::new` and `Regex::find_iter`, collecting the matched
/// texts. The contract names the result (`regex_matches`) and states, for the
/// placeholder pattern only, what the regex crate documents for it: matches
/// are leftmost-first and non-overlapping, and `+` is greedy, so each match
/// is a `$` with the whole run of class characters after it.
#[verifier::external_body]
fn regex_find_all(pattern: &str, haystack: &str) -> (res: Option<Vec<String>>)
    ensures
        res.deep_view() == regex_matches(pattern@, haystack@),
        pattern@ == PLACEHOLDER_PATTERN@ ==> res.deep_view() == Some(placeholders(haystack@)),
{
    match regex::Regex::new(pattern) {
        Ok(re) => Some(re.find_iter(haystack).map(|m| m.as_str().to_owned()).collect()),
        Err(_) => None,
    }
}

/// The placeholders of a translation in text order, duplicates kept.
pub fn extract_vars(tr: &str) -> (res: Vec<String>)
    ensures
        res.deep_view() == sorted_placeholders(tr@),
        sorted_by(res.deep_view(), text_order()),
        res.deep_view().to_multiset() == placeholders(tr@).to_multiset(),
        forall|k: int| 0 <= k < res.len() ==> is_placeholder(#[trigger] res.deep_view()[k]),
        res.len() == 0 <==> !has_placeholder(tr@),
{
    match regex_find_all(PLACEHOLDER_PATTERN, tr) {
        Some(found) => {
            let res = sort_texts(found);
            proof {
                broadcast use vstd::seq_lib::group_to_multiset_ensures;

                let ps = placeholders(tr@);
                lemma_placeholder_shape(tr@, 0);
                lemma_no_placeholders(tr@);
                assert(res.deep_view().to_multiset().len() == ps.to_multiset().len());
                assert(res.deep_view().len() == ps.len());
                assert forall|k: int| 0 <= k < res.len() implies is_placeholder(
                    #[trigger] res.deep_view()[k],
                ) by {
                    let x = res.deep_view()[k];
                    assert(res.deep_view().contains(x));
                    assert(ps.to_multiset().count(x) > 0);
                    assert(ps.contains(x));
                    let q = choose|q: int| 0 <= q < ps.len() && ps[q] == x;
                    assert(is_placeholder(ps[q]));
                }
            }
            res
        },
        None => {
            proof {
                assert(false);
            }
            Vec::new()
        },
    }
}

} // verus!
