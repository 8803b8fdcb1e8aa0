use vstd::prelude::*;
use crate::codegen::{generate_code, is_ascii_digit, is_ascii_ident, is_ascii_letter, macro_text, placeholders_are_idents, var_name};
use crate::placeholders::{extract_vars, placeholders, sorted_placeholders};
use crate::translations::{TableView, Translations, entries_langs_distinct, keys_distinct, lemma_merge_langs_distinct, lemma_merge_overrides, merge_tables, table_map};

verus! {

#[verifier::external_type_specification]
#[verifier::external_body]
pub struct ExJsonError(serde_json::Error);

/// Why no `t!` macro could be generated.
#[derive(Debug)]
pub enum LocaleError {
    /// A locale file is not a JSON object of objects of strings.
    Parse(serde_json::Error),
    /// A placeholder does not name a valid identifier (such as `$1st` or
    /// `$first-name`), so no macro argument can stand for it.
    InvalidPlaceholder,
}

/// What `serde_json::from_str` yields on a locale file read as a map from key
/// to a map from language to text: `None` where the text is not such a JSON
/// object, else its entries in the map's iteration order.
pub uninterp spec fn json_locale_entries(text: Seq<char>) -> Option<TableView>;

/// Calls `serde_json::from_str` into a `BTreeMap` of `BTreeMap`s of strings
/// and lists the entries. The result is named (`json_locale_entries`); as
/// maps, the `BTreeMap`s hold each key once, and each language of a key
/// once. The error is passed on.
#[verifier::external_body]
fn parse_locale_file(text: &str) -> (res: Result<
    Vec<(String, Vec<(String, String)>)>,
    serde_json::Error,
>)
    ensures
        res is Ok <==> json_locale_entries(text@) is Some,
        res matches Ok(v) ==> json_locale_entries(text@) == Some(v.deep_view()),
        res matches Ok(v) ==> keys_distinct(v.deep_view()) && entries_langs_distinct(
            v.deep_view(),
        ),
{
    let parsed: std::collections::BTreeMap<String, std::collections::BTreeMap<String, String>> =
        serde_json::from_str(text)?;
    Ok(parsed.into_iter().map(|(key, texts)| (key, texts.into_iter().collect())).collect())
}

/// Every locale file parses.
pub open spec fn all_files_parse(files: Seq<Seq<char>>) -> bool {
    forall|i: int| 0 <= i < files.len() ==> (#[trigger] json_locale_entries(files[i])) is Some
}

/// The table of all locale files, merged in order: a key's translations come
/// from the last file that has the key.
pub open spec fn merged_files(files: Seq<Seq<char>>) -> TableView
    decreases files.len(),
{
    if files.len() == 0 {
        seq![]
    } else {
        merge_tables(merged_files(files.drop_last()), json_locale_entries(files.last()).unwrap())
    }
}

/// Locale files override the ones before them key by key: in the merged
/// table each key occurs once, and its translations are those of the last
/// file that has the key.
pub proof fn lemma_later_files_override(files: Seq<Seq<char>>)
    ensures
        keys_distinct(merged_files(files)),
        files.len() > 0 ==> table_map(merged_files(files)) == table_map(
            merged_files(files.drop_last()),
        ).union_prefer_right(table_map(json_locale_entries(files.last()).unwrap())),
    decreases files.len(),
{
    if files.len() > 0 {
        lemma_later_files_override(files.drop_last());
        lemma_merge_overrides(
            merged_files(files.drop_last()),
            json_locale_entries(files.last()).unwrap(),
        );
    }
}

/// Whether a placeholder names a valid identifier.
pub fn is_ident_placeholder(p: &str) -> (res: bool)
    requires
        p@.len() > 0,
    ensures
        res == is_ascii_ident(var_name(p@)),
{
    let n = p.unicode_len();
    if n < 2 {
        return false;
    }
    let first = p.get_char(1);
    if !(('a' <= first && first <= 'z') || ('A' <= first && first <= 'Z') || first == '_') {
        return false;
    }
    let mut i: usize = 1;
    while i < n
        invariant
            n == p@.len(),
            1 <= i <= n,
            is_ascii_letter(var_name(p@)[0]) || var_name(p@)[0] == '_',
            forall|k: int|
                0 <= k < i - 1 ==> is_ascii_letter(#[trigger] var_name(p@)[k]) || is_ascii_digit(
                    var_name(p@)[k],
                ) || var_name(p@)[k] == '_',
        decreases n - i,
    {
        let c = p.get_char(i);
        if !(('a' <= c && c <= 'z') || ('A' <= c && c <= 'Z') || ('0' <= c && c <= '9') || c
            == '_') {
            proof {
                assert(var_name(p@)[i - 1] == c);
            }
            return false;
        }
        proof {
            assert(var_name(p@)[i - 1] == c);
        }
        i = i + 1;
    }
    true
}

/// Whether every placeholder of the table names a valid identifier.
pub fn placeholders_valid(translations: &Translations) -> (res: bool)
    ensures
        res == placeholders_are_idents(translations@),
{
    let t = Ghost(translations@);
    let n = translations.entries.len();
    let mut i: usize = 0;
    while i < n
        invariant
            n == translations.entries.len(),
            t@ == translations@,
            i <= n,
            forall|a: int, b: int, p: Seq<char>|
                0 <= a < i && 0 <= b < t@[a].1.len() && #[trigger] placeholders(
                    t@[a].1[b].1,
                ).contains(p) ==> is_ascii_ident(#[trigger] var_name(p)),
        decreases n - i,
    {
        let texts = &translations.entries[i].1;
        let m = texts.len();
        let mut j: usize = 0;
        proof {
            assert(t@[i as int].1 == texts.deep_view());
        }
        while j < m
            invariant
                n == translations.entries.len(),
                t@ == translations@,
                i < n,
                m == texts.len(),
                texts.deep_view() == t@[i as int].1,
                j <= m,
                forall|a: int, b: int, p: Seq<char>|
                    0 <= a < i && 0 <= b < t@[a].1.len() && #[trigger] placeholders(
                        t@[a].1[b].1,
                    ).contains(p) ==> is_ascii_ident(#[trigger] var_name(p)),
                forall|b: int, p: Seq<char>|
                    0 <= b < j && #[trigger] placeholders(t@[i as int].1[b].1).contains(p)
                        ==> is_ascii_ident(#[trigger] var_name(p)),
            decreases m - j,
        {
            let text = &texts[j].1;
            proof {
                assert(t@[i as int].1[j as int].1 == text@);
            }
            let vars = extract_vars(text.as_str());
            let k_len = vars.len();
            let mut k: usize = 0;
            while k < k_len
                invariant
                    t@ == translations@,
                    i < t@.len(),
                    j < t@[i as int].1.len(),
                    t@[i as int].1[j as int].1 == text@,
                    k_len == vars.len(),
                    k <= k_len,
                    vars.deep_view() == sorted_placeholders(text@),
                    vars.deep_view().to_multiset() == placeholders(text@).to_multiset(),
                    forall|q: int| 0 <= q < k ==> is_ascii_ident(#[trigger] var_name(vars.deep_view()[q])),
                decreases k_len - k,
            {
                let p = &vars[k];
                proof {
                    assert(vars.deep_view()[k as int] == p@);
                    crate::placeholders::lemma_placeholder_shape(text@, 0);
                    assert(vars.deep_view().to_multiset().count(p@) > 0) by {
                        broadcast use vstd::seq_lib::group_to_multiset_ensures;
                        assert(vars.deep_view().contains(p@));
                    }
                    assert(placeholders(text@).contains(p@)) by {
                        broadcast use vstd::seq_lib::group_to_multiset_ensures;
                    }
                    let q = choose|q: int| 0 <= q < placeholders(text@).len() && placeholders(text@)[q] == p@;
                    assert(placeholders(text@)[q].len() >= 2);
                }
                if !is_ident_placeholder(p.as_str()) {
                    proof {
                        assert(placeholders(t@[i as int].1[j as int].1).contains(p@));
                        assert(!is_ascii_ident(var_name(p@)));
                    }
                    return false;
                }
                k = k + 1;
            }
            proof {
                assert forall|b: int, p: Seq<char>|
                    0 <= b < j + 1 && #[trigger] placeholders(t@[i as int].1[b].1).contains(p)
                        implies is_ascii_ident(#[trigger] var_name(p)) by {
                    if b == j {
                        broadcast use vstd::seq_lib::group_to_multiset_ensures;
                        assert(placeholders(text@).to_multiset().count(p) > 0);
                        assert(vars.deep_view().contains(p));
                        let q = choose|q: int| 0 <= q < vars.deep_view().len() && vars.deep_view()[q] == p;
                        assert(is_ascii_ident(var_name(vars.deep_view()[q])));
                    }
                }
            }
            j = j + 1;
        }
        i = i + 1;
    }
    true
}

/// Generates the text of the `t!` translation macro from the contents of the
/// locale files, in the order the files were found. A file that does not
/// parse, or a placeholder that names no identifier, stops the generation.
pub fn generate_locales(files: &Vec<String>) -> (res: Result<String, LocaleError>)
    ensures
        res is Ok <==> all_files_parse(files.deep_view()) && placeholders_are_idents(
            merged_files(files.deep_view()),
        ),
        res matches Err(LocaleError::Parse(_)) <==> !all_files_parse(files.deep_view()),
        res matches Ok(code) ==> code@ == macro_text(merged_files(files.deep_view())),
{
    let mut translations = Translations::new();
    let n = files.len();
    let mut i: usize = 0;
    while i < n
        invariant
            n == files.len(),
            i <= n,
            all_files_parse(files.deep_view().subrange(0, i as int)),
            translations@ == merged_files(files.deep_view().subrange(0, i as int)),
            entries_langs_distinct(translations@),
        decreases n - i,
    {
        let ghost s = files.deep_view().subrange(0, i + 1);
        proof {
            assert(s.drop_last() =~= files.deep_view().subrange(0, i as int));
            assert(s.last() == files[i as int]@);
        }
        match parse_locale_file(files[i].as_str()) {
            Ok(entries) => {
                proof {
                    lemma_merge_langs_distinct(translations@, entries.deep_view());
                }
                translations.merge(entries);
            },
            Err(e) => {
                proof {
                    assert(files.deep_view()[i as int] == files[i as int]@);
                }
                return Err(LocaleError::Parse(e));
            },
        }
        proof {
            assert forall|k: int| 0 <= k < s.len() implies (#[trigger] json_locale_entries(
                s[k],
            )) is Some by {
                if k < i {
                    assert(s[k] == files.deep_view().subrange(0, i as int)[k]);
                }
            }
        }
        i = i + 1;
    }
    proof {
        assert(files.deep_view().subrange(0, n as int) =~= files.deep_view());
        lemma_later_files_override(files.deep_view());
    }
    if !placeholders_valid(&translations) {
        return Err(LocaleError::InvalidPlaceholder);
    }
    Ok(generate_code(&translations))
}

} // verus!
