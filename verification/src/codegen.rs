use vstd::prelude::*;
use crate::placeholders::{extract_vars, placeholders, sorted_placeholders};
use crate::text_order::{chars_le, lemma_text_order_total, sort_texts, text_order};
use vstd::relations::sorted_by;
use crate::translations::{LangTextsView, TableView, Translations, table_wf};

verus! {

// The pieces of the generated `t!` macro. The text is laid out the way
// proc-macro2 prints a token stream: tokens separated by one space, `=>`
// and `>>` kept together, "(" and "[" followed and ")" and "]" preceded by
// no space, "{ " and " }" around a non-empty brace group.
pub const MACRO_HEAD: &'static str = "# [macro_export] macro_rules ! t { ";

pub const MACRO_TAIL: &'static str =
    "($ key : expr , $ lang : expr) => { compile_error ! (\"Missing translation\") ; } }";

pub const ARROW: &'static str = " => ";

pub const REPLACE_OPEN: &'static str = " . replace (";

pub const REPLACE_MID: &'static str = " , $ ";

pub const CLOSE_PAREN: &'static str = ")";

pub const ARM_END: &'static str = " ,";

pub const SPACE: &'static str = " ";

pub const MATCH_OPEN: &'static str = "{ match $ lang . as_ref () { ";

pub const MATCH_CLOSE: &'static str = "e => panic ! (\"Missing language: {}\" , e) } }";

pub const OPEN_PAREN: &'static str = "(";

pub const KEY_SEP: &'static str = " , ";

pub const CAPTURE_MID: &'static str = " : $ ";

pub const CAPTURE_END: &'static str = " : expr , ";

pub const LANG_CAPTURE: &'static str = "$ lang : expr) => ";

pub const PLAIN_CAPTURE: &'static str = " , $ lang : expr) => ";

pub const BRANCH_END: &'static str = " ; ";

pub const GUARD_OPEN: &'static str =
    " , $ ($ e : tt) *) => { compile_error ! (stringify ! (Please provide :";

pub const GUARD_END: &'static str = " >> The order matters !)) ; } ; ";

/// What `proc_macro2::Literal::string(s).to_string()` yields: `s` as a Rust
/// string literal, quoted and escaped.
pub uninterp spec fn string_literal_text(s: Seq<char>) -> Seq<char>;

/// Calls `proc_macro2::Literal::string` and prints the literal. The result
/// is named; the source shows it is the text between two double quotes.
#[verifier::external_body]
fn string_literal(s: &str) -> (res: String)
    ensures
        res@ == string_literal_text(s@),
        res@.len() >= 2,
        res@[0] == '"',
        res@.last() == '"',
{
    proc_macro2::Literal::string(s).to_string()
}

pub open spec fn is_ascii_letter(c: char) -> bool {
    ('a' <= c && c <= 'z') || ('A' <= c && c <= 'Z')
}

pub open spec fn is_ascii_digit(c: char) -> bool {
    '0' <= c && c <= '9'
}

/// An ASCII identifier: a letter or `_`, then letters, digits and `_`.
/// On ASCII text this is exactly what `proc_macro2::Ident::new` accepts.
pub open spec fn is_ascii_ident(s: Seq<char>) -> bool {
    &&& s.len() > 0
    &&& (is_ascii_letter(s[0]) || s[0] == '_')
    &&& forall|i: int|
        0 <= i < s.len() ==> is_ascii_letter(#[trigger] s[i]) || is_ascii_digit(s[i]) || s[i]
            == '_'
}

/// Calls `proc_macro2::Ident::new` (at the call-site span) and prints the
/// identifier. Its source panics unless the text is a valid identifier,
/// which `requires` keeps out; a valid non-raw identifier prints as given.
#[verifier::external_body]
fn ident_text(name: &str) -> (res: String)
    requires
        is_ascii_ident(name@),
    ensures
        res@ == name@,
{
    proc_macro2::Ident::new(name, proc_macro2::Span::call_site()).to_string()
}

/// The macro variable a placeholder binds: the placeholder without its `$`.
pub open spec fn var_name(placeholder: Seq<char>) -> Seq<char> {
    placeholder.drop_first()
}

/// Every placeholder in every translation of the table names a valid
/// identifier (the generator cannot emit it otherwise).
pub open spec fn placeholders_are_idents(t: TableView) -> bool {
    forall|i: int, j: int, p: Seq<char>|
        0 <= i < t.len() && 0 <= j < t[i].1.len() && #[trigger] placeholders(
            t[i].1[j].1,
        ).contains(p) ==> is_ascii_ident(#[trigger] var_name(p))
}

/// Every placeholder of the given texts names a valid identifier.
pub open spec fn texts_placeholders_are_idents(trs: LangTextsView) -> bool {
    forall|j: int, p: Seq<char>|
        0 <= j < trs.len() && #[trigger] placeholders(trs[j].1).contains(p) ==> is_ascii_ident(
            #[trigger] var_name(p),
        )
}

/// The `.replace(..)` calls that substitute each placeholder by its macro
/// argument.
pub open spec fn replace_calls(vars: Seq<Seq<char>>) -> Seq<char>
    decreases vars.len(),
{
    if vars.len() == 0 {
        seq![]
    } else {
        replace_calls(vars.drop_last()) + REPLACE_OPEN@ + string_literal_text(vars.last())
            + REPLACE_MID@ + var_name(vars.last()) + CLOSE_PAREN@
    }
}

/// The match arm of one language: `"lang" => "text" .replace(..)* ,`.
pub open spec fn lang_arm(lang: Seq<char>, text: Seq<char>) -> Seq<char> {
    string_literal_text(lang) + ARROW@ + string_literal_text(text) + replace_calls(
        sorted_placeholders(text),
    ) + ARM_END@
}

/// The arms of all languages of a key, each followed by a space.
pub open spec fn lang_arms(trs: LangTextsView) -> Seq<char>
    decreases trs.len(),
{
    if trs.len() == 0 {
        seq![]
    } else {
        lang_arms(trs.drop_last()) + lang_arm(trs.last().0, trs.last().1) + SPACE@
    }
}

/// The sorted placeholders of each translation, one after the other.
pub open spec fn all_placeholders(trs: LangTextsView) -> Seq<Seq<char>>
    decreases trs.len(),
{
    if trs.len() == 0 {
        seq![]
    } else {
        all_placeholders(trs.drop_last()) + sorted_placeholders(trs.last().1)
    }
}

/// `s` with each run of equal neighbours reduced to one element.
pub open spec fn dedup_adjacent(s: Seq<Seq<char>>) -> Seq<Seq<char>>
    decreases s.len(),
{
    if s.len() == 0 {
        seq![]
    } else {
        let d = dedup_adjacent(s.drop_last());
        if d.len() > 0 && d.last() == s.last() {
            d
        } else {
            d.push(s.last())
        }
    }
}

/// The macro arguments of a key: the placeholders of all its translations,
/// sorted, each once.
pub open spec fn key_vars(trs: LangTextsView) -> Seq<Seq<char>> {
    dedup_adjacent(all_placeholders(trs).sort_by(text_order()))
}

/// Whether a key's arm takes arguments. The generator decides this on the
/// last language it visits: the arm takes arguments when that translation
/// has placeholders.
pub open spec fn needs_interpolation(trs: LangTextsView) -> bool {
    trs.len() > 0 && sorted_placeholders(trs.last().1).len() > 0
}

/// The body of a key's arm: a match on the language.
pub open spec fn match_block(trs: LangTextsView) -> Seq<char> {
    MATCH_OPEN@ + lang_arms(trs) + MATCH_CLOSE@
}

/// The argument captures `name : $ name : expr ,` of an arm.
pub open spec fn captures(vars: Seq<Seq<char>>) -> Seq<char>
    decreases vars.len(),
{
    if vars.len() == 0 {
        seq![]
    } else {
        captures(vars.drop_last()) + var_name(vars.last()) + CAPTURE_MID@ + var_name(vars.last())
            + CAPTURE_END@
    }
}

/// The argument names, comma separated, each preceded by a space.
pub open spec fn name_list(vars: Seq<Seq<char>>) -> Seq<char>
    decreases vars.len(),
{
    if vars.len() == 0 {
        seq![]
    } else if vars.len() == 1 {
        SPACE@ + var_name(vars[0])
    } else {
        name_list(vars.drop_last()) + KEY_SEP@ + var_name(vars.last())
    }
}

/// How every arm of a key's group begins: `(` and the key as a literal.
pub open spec fn arm_prefix(key: Seq<char>) -> Seq<char> {
    OPEN_PAREN@ + string_literal_text(key)
}

/// The arm of a key that takes no arguments:
/// `("key" , $ lang : expr) => { match .. } ;`.
pub open spec fn plain_arm(key: Seq<char>, trs: LangTextsView) -> Seq<char> {
    arm_prefix(key) + PLAIN_CAPTURE@ + match_block(trs) + BRANCH_END@
}

/// The arm of a key that binds its arguments:
/// `("key" , a : $ a : expr , .. $ lang : expr) => { match .. } ;`.
pub open spec fn bound_arm(key: Seq<char>, trs: LangTextsView) -> Seq<char> {
    arm_prefix(key) + KEY_SEP@ + captures(key_vars(trs)) + LANG_CAPTURE@ + match_block(trs)
        + BRANCH_END@
}

/// The arm that fails to compile when a key's arguments are not given:
/// `("key" , $ ($ e : tt) *) => { compile_error ! (..) ; } ;`.
pub open spec fn guard_arm(key: Seq<char>, vars: Seq<Seq<char>>) -> Seq<char> {
    arm_prefix(key) + GUARD_OPEN@ + name_list(vars) + GUARD_END@
}

/// The macro arms of one key, each followed by a space. A key whose
/// translation needs arguments gets an arm that binds them and an arm that
/// fails to compile when they are not given; any other key gets one arm.
pub open spec fn key_arms(key: Seq<char>, trs: LangTextsView) -> Seq<char> {
    if needs_interpolation(trs) {
        bound_arm(key, trs) + guard_arm(key, key_vars(trs))
    } else {
        plain_arm(key, trs)
    }
}

/// The arms of all keys, in table order.
pub open spec fn table_arms(t: TableView) -> Seq<char>
    decreases t.len(),
{
    if t.len() == 0 {
        seq![]
    } else {
        table_arms(t.drop_last()) + key_arms(t.last().0, t.last().1)
    }
}

/// The text of the generated `t!` macro for a table.
pub open spec fn macro_text(t: TableView) -> Seq<char> {
    MACRO_HEAD@ + table_arms(t) + MACRO_TAIL@
}

proof fn lemma_sorted_contains(s: Seq<Seq<char>>, p: Seq<char>)
    requires
        s.sort_by(text_order()).contains(p),
    ensures
        s.contains(p),
{
    crate::text_order::lemma_text_order_total();
    s.lemma_sort_by_ensures(text_order());
}

proof fn lemma_all_placeholders_contains(trs: LangTextsView, p: Seq<char>)
    requires
        all_placeholders(trs).contains(p),
    ensures
        exists|j: int| 0 <= j < trs.len() && #[trigger] placeholders(trs[j].1).contains(p),
    decreases trs.len(),
{
    if trs.len() > 0 {
        let a = all_placeholders(trs.drop_last());
        let b = sorted_placeholders(trs.last().1);
        let k = choose|k: int| 0 <= k < a.len() + b.len() && (a + b)[k] == p;
        if k < a.len() {
            assert(a[k] == p);
            lemma_all_placeholders_contains(trs.drop_last(), p);
            let j = choose|j: int|
                0 <= j < trs.drop_last().len() && #[trigger] placeholders(
                    trs.drop_last()[j].1,
                ).contains(p);
            assert(trs[j] == trs.drop_last()[j]);
        } else {
            assert(b[k - a.len()] == p);
            lemma_sorted_contains(placeholders(trs.last().1), p);
            assert(placeholders(trs[trs.len() - 1].1).contains(p));
        }
    }
}

proof fn lemma_dedup_contains(s: Seq<Seq<char>>, p: Seq<char>)
    requires
        dedup_adjacent(s).contains(p),
    ensures
        s.contains(p),
    decreases s.len(),
{
    if s.len() > 0 {
        let d = dedup_adjacent(s.drop_last());
        if d.contains(p) {
            lemma_dedup_contains(s.drop_last(), p);
            let k = choose|k: int| 0 <= k < s.drop_last().len() && s.drop_last()[k] == p;
            assert(s[k] == p);
        } else {
            assert(p == s.last());
            assert(s[s.len() - 1] == p);
        }
    }
}

proof fn lemma_key_vars_are_idents(trs: LangTextsView, p: Seq<char>)
    requires
        texts_placeholders_are_idents(trs),
        key_vars(trs).contains(p),
    ensures
        p.len() > 0,
        is_ascii_ident(var_name(p)),
{
    lemma_dedup_contains(all_placeholders(trs).sort_by(text_order()), p);
    lemma_sorted_contains(all_placeholders(trs), p);
    lemma_all_placeholders_contains(trs, p);
    let j = choose|j: int| 0 <= j < trs.len() && #[trigger] placeholders(trs[j].1).contains(p);
    lemma_placeholder_contains_shape(trs[j].1, p);
}

proof fn lemma_placeholder_contains_shape(text: Seq<char>, p: Seq<char>)
    requires
        placeholders(text).contains(p),
    ensures
        p.len() >= 2,
        p[0] == '$',
{
    crate::placeholders::lemma_placeholder_shape(text, 0);
    let k = choose|k: int| 0 <= k < placeholders(text).len() && placeholders(text)[k] == p;
    assert(placeholders(text)[k].len() >= 2);
}


proof fn lemma_dedup_sorted(s: Seq<Seq<char>>)
    requires
        sorted_by(s, text_order()),
    ensures
        forall|i: int, j: int|
            0 <= i < j < dedup_adjacent(s).len() ==> chars_le(
                #[trigger] dedup_adjacent(s)[i],
                #[trigger] dedup_adjacent(s)[j],
            ) && dedup_adjacent(s)[i] != dedup_adjacent(s)[j],
        forall|x: Seq<char>| #[trigger] dedup_adjacent(s).contains(x) <==> s.contains(x),
        s.len() > 0 ==> dedup_adjacent(s).len() > 0 && dedup_adjacent(s).last() == s.last(),
    decreases s.len(),
{
    lemma_text_order_total();
    let order = text_order();
    if s.len() > 0 {
        let s1 = s.drop_last();
        let x = s.last();
        assert(sorted_by(s1, order)) by {
            assert forall|i: int, j: int| 0 <= i < j < s1.len() implies #[trigger] order(
                s1[i],
                s1[j],
            ) by {
                assert(s1[i] == s[i] && s1[j] == s[j]);
            }
        }
        lemma_dedup_sorted(s1);
        let d1 = dedup_adjacent(s1);
        let d = dedup_adjacent(s);
        assert forall|y: Seq<char>| s.contains(y) <==> (s1.contains(y) || y == x) by {
            if s.contains(y) && y != x {
                let k = choose|k: int| 0 <= k < s.len() && s[k] == y;
                assert(k < s.len() - 1);
                assert(s1[k] == y);
            }
            if s1.contains(y) {
                let k = choose|k: int| 0 <= k < s1.len() && s1[k] == y;
                assert(s[k] == y);
            }
            if y == x {
                assert(s[s.len() - 1] == y);
            }
        }
        if d1.len() > 0 && d1.last() == x {
            assert(d == d1);
            assert(d1.contains(x)) by {
                assert(d1[d1.len() - 1] == x);
            }
            assert forall|y: Seq<char>| #[trigger] d.contains(y) <==> s.contains(y) by {
                assert(d1.contains(y) <==> s1.contains(y));
            }
        } else {
            assert(d == d1.push(x));
            assert forall|y: Seq<char>| d1.push(x).contains(y) <==> (d1.contains(y) || y == x) by {
                if d1.push(x).contains(y) && y != x {
                    let k = choose|k: int| 0 <= k < d1.len() + 1 && d1.push(x)[k] == y;
                    assert(d1[k] == y);
                }
                if d1.contains(y) {
                    let k = choose|k: int| 0 <= k < d1.len() && d1[k] == y;
                    assert(d1.push(x)[k] == y);
                }
                if y == x {
                    assert(d1.push(x)[d1.len() as int] == y);
                }
            }
            assert forall|y: Seq<char>| #[trigger] d.contains(y) <==> s.contains(y) by {
                assert(d1.contains(y) <==> s1.contains(y));
            }
            assert forall|i: int, j: int| 0 <= i < j < d.len() implies chars_le(
                #[trigger] d[i],
                #[trigger] d[j],
            ) && d[i] != d[j] by {
                if j < d1.len() {
                    assert(d[i] == d1[i] && d[j] == d1[j]);
                } else {
                    assert(d[i] == d1[i] && d[j] == x);
                    assert(d1.contains(d1[i]));
                    assert(s1.contains(d1[i]));
                    let k = choose|k: int| 0 <= k < s1.len() && s1[k] == d1[i];
                    assert(order(s[k], s[s.len() - 1]));
                    assert(chars_le(d1[i], x));
                    if d1[i] == x {
                        let last = d1.last();
                        if i < d1.len() - 1 {
                            assert(chars_le(d1[i], d1[d1.len() - 1]));
                        } else {
                            assert(d1[i] == last);
                        }
                        assert(s1.last() == last);
                        assert(order(s[s.len() - 2], s[s.len() - 1]));
                        assert(chars_le(last, x));
                        assert(chars_le(x, last));
                        assert(order(last, x) && order(x, last));
                    }
                }
            }
        }
    }
}

/// The arguments of a key's arm are the placeholders of its translations,
/// each once, in strictly increasing text order.
pub proof fn lemma_key_vars_sorted_unique(trs: LangTextsView)
    ensures
        forall|i: int, j: int|
            0 <= i < j < key_vars(trs).len() ==> chars_le(
                #[trigger] key_vars(trs)[i],
                #[trigger] key_vars(trs)[j],
            ) && key_vars(trs)[i] != key_vars(trs)[j],
        forall|p: Seq<char>| #[trigger] key_vars(trs).contains(p) <==> all_placeholders(trs).contains(
            p,
        ),
{
    lemma_text_order_total();
    let all = all_placeholders(trs);
    all.lemma_sort_by_ensures(text_order());
    lemma_dedup_sorted(all.sort_by(text_order()));
    assert forall|p: Seq<char>| #[trigger] key_vars(trs).contains(p) <==> all.contains(p) by {
        broadcast use vstd::seq_lib::group_to_multiset_ensures;
        assert(all.contains(p) <==> all.to_multiset().count(p) > 0);
        assert(all.sort_by(text_order()).contains(p) <==> all.sort_by(text_order()).to_multiset().count(p) > 0);
    }
}


/// One `.replace(..)` call: `. replace ("$v" , $ v)`.
pub open spec fn replace_call(v: Seq<char>) -> Seq<char> {
    REPLACE_OPEN@ + string_literal_text(v) + REPLACE_MID@ + var_name(v) + CLOSE_PAREN@
}

/// One argument capture: `v : $ v : expr ,`.
pub open spec fn capture(v: Seq<char>) -> Seq<char> {
    var_name(v) + CAPTURE_MID@ + var_name(v) + CAPTURE_END@
}

proof fn lemma_replace_calls_flat(vars: Seq<Seq<char>>)
    ensures
        replace_calls(vars) == Seq::new(vars.len(), |k: int| replace_call(vars[k])).flatten(),
        replace_calls(vars).len() == 0 <==> vars.len() == 0,
    decreases vars.len(),
{
    broadcast use Seq::lemma_flatten_push;

    if vars.len() == 0 {
        assert(Seq::new(vars.len(), |k: int| replace_call(vars[k])) =~= Seq::<Seq<char>>::empty());
    } else {
        lemma_replace_calls_flat(vars.drop_last());
        let d = vars.drop_last();
        assert(Seq::new(vars.len(), |k: int| replace_call(vars[k])) =~= Seq::new(
            d.len(),
            |k: int| replace_call(d[k]),
        ).push(replace_call(vars.last())));
        reveal_strlit(")");
        assert(CLOSE_PAREN@.len() == 1);
        assert(replace_calls(vars) =~= replace_calls(d) + replace_call(vars.last()));
    }
}

proof fn lemma_captures_flat(vars: Seq<Seq<char>>)
    ensures
        captures(vars) == Seq::new(vars.len(), |k: int| capture(vars[k])).flatten(),
    decreases vars.len(),
{
    broadcast use Seq::lemma_flatten_push;

    if vars.len() == 0 {
        assert(Seq::new(vars.len(), |k: int| capture(vars[k])) =~= Seq::<Seq<char>>::empty());
    } else {
        lemma_captures_flat(vars.drop_last());
        let d = vars.drop_last();
        assert(Seq::new(vars.len(), |k: int| capture(vars[k])) =~= Seq::new(
            d.len(),
            |k: int| capture(d[k]),
        ).push(capture(vars.last())));
        assert(captures(vars) =~= captures(d) + capture(vars.last()));
    }
}

proof fn lemma_name_list_flat(vars: Seq<Seq<char>>)
    requires
        vars.len() > 0,
    ensures
        name_list(vars) == SPACE@ + var_name(vars[0]) + Seq::new(
            (vars.len() - 1) as nat,
            |k: int| KEY_SEP@ + var_name(vars[k + 1]),
        ).flatten(),
    decreases vars.len(),
{
    broadcast use Seq::lemma_flatten_push;

    let f = Seq::new((vars.len() - 1) as nat, |k: int| KEY_SEP@ + var_name(vars[k + 1]));
    if vars.len() == 1 {
        assert(f =~= Seq::<Seq<char>>::empty());
        assert(name_list(vars) =~= SPACE@ + var_name(vars[0]) + f.flatten());
    } else {
        let d = vars.drop_last();
        lemma_name_list_flat(d);
        let g = Seq::new((d.len() - 1) as nat, |k: int| KEY_SEP@ + var_name(d[k + 1]));
        assert(f =~= g.push(KEY_SEP@ + var_name(vars.last())));
        assert(d[0] == vars[0]);
        assert(name_list(vars) =~= SPACE@ + var_name(vars[0]) + f.flatten());
    }
}

proof fn lemma_lang_arms_flat(trs: LangTextsView)
    ensures
        lang_arms(trs) == Seq::new(trs.len(), |j: int| lang_arm(trs[j].0, trs[j].1) + SPACE@).flatten(),
    decreases trs.len(),
{
    broadcast use Seq::lemma_flatten_push;

    if trs.len() == 0 {
        assert(Seq::new(trs.len(), |j: int| lang_arm(trs[j].0, trs[j].1) + SPACE@)
            =~= Seq::<Seq<char>>::empty());
    } else {
        let d = trs.drop_last();
        lemma_lang_arms_flat(d);
        assert(Seq::new(trs.len(), |j: int| lang_arm(trs[j].0, trs[j].1) + SPACE@) =~= Seq::new(
            d.len(),
            |j: int| lang_arm(d[j].0, d[j].1) + SPACE@,
        ).push(lang_arm(trs.last().0, trs.last().1) + SPACE@));
        assert(lang_arms(trs) =~= lang_arms(d) + (lang_arm(trs.last().0, trs.last().1) + SPACE@));
    }
}

proof fn lemma_table_arms_flat(t: TableView)
    ensures
        table_arms(t) == Seq::new(t.len(), |i: int| key_arms(t[i].0, t[i].1)).flatten(),
    decreases t.len(),
{
    broadcast use Seq::lemma_flatten_push;

    if t.len() == 0 {
        assert(Seq::new(t.len(), |i: int| key_arms(t[i].0, t[i].1)) =~= Seq::<Seq<char>>::empty());
    } else {
        let d = t.drop_last();
        lemma_table_arms_flat(d);
        assert(Seq::new(t.len(), |i: int| key_arms(t[i].0, t[i].1)) =~= Seq::new(
            d.len(),
            |i: int| key_arms(d[i].0, d[i].1),
        ).push(key_arms(t.last().0, t.last().1)));
    }
}

/// The macro is its head (`#[macro_export] macro_rules! t {`), then the arm
/// group of each key of the table, in table order, each key once (in a table
/// as a map of maps holds it), then the catch-all arm that fails with
/// "Missing translation".
pub proof fn lemma_macro_groups(t: TableView)
    ensures
        macro_text(t) == MACRO_HEAD@ + Seq::new(t.len(), |i: int| key_arms(t[i].0, t[i].1)).flatten()
            + MACRO_TAIL@,
        crate::translations::table_wf(t) ==> forall|i: int, j: int|
            0 <= i < j < t.len() ==> #[trigger] t[i].0 != #[trigger] t[j].0,
{
    lemma_table_arms_flat(t);
}

/// The body of a key's arm matches on the language: one arm per language of
/// the key, in order, then the arm that fails with "Missing language".
/// Each language's arm is `"lang" => "text"` followed by one `.replace(..)`
/// call per placeholder in the order `extract_vars` returns them
/// (duplicates kept), and no call when the text has no placeholder.
pub proof fn lemma_match_block(trs: LangTextsView)
    ensures
        match_block(trs) == MATCH_OPEN@ + Seq::new(
            trs.len(),
            |j: int| lang_arm(trs[j].0, trs[j].1) + SPACE@,
        ).flatten() + MATCH_CLOSE@,
        forall|j: int|
            0 <= j < trs.len() ==> #[trigger] lang_arm(trs[j].0, trs[j].1) == string_literal_text(
                trs[j].0,
            ) + ARROW@ + string_literal_text(trs[j].1) + Seq::new(
                sorted_placeholders(trs[j].1).len(),
                |k: int| replace_call(sorted_placeholders(trs[j].1)[k]),
            ).flatten() + ARM_END@,
        forall|j: int|
            0 <= j < trs.len() ==> (replace_calls(#[trigger] sorted_placeholders(trs[j].1)).len()
                == 0 <==> !crate::placeholders::has_placeholder(trs[j].1)),
{
    lemma_lang_arms_flat(trs);
    assert forall|j: int| 0 <= j < trs.len() implies #[trigger] lang_arm(trs[j].0, trs[j].1)
        == string_literal_text(trs[j].0) + ARROW@ + string_literal_text(trs[j].1) + Seq::new(
        sorted_placeholders(trs[j].1).len(),
        |k: int| replace_call(sorted_placeholders(trs[j].1)[k]),
    ).flatten() + ARM_END@ by {
        lemma_replace_calls_flat(sorted_placeholders(trs[j].1));
    }
    assert forall|j: int| 0 <= j < trs.len() implies (replace_calls(
        #[trigger] sorted_placeholders(trs[j].1),
    ).len() == 0 <==> !crate::placeholders::has_placeholder(trs[j].1)) by {
        let text = trs[j].1;
        lemma_replace_calls_flat(sorted_placeholders(text));
        lemma_text_order_total();
        placeholders(text).lemma_sort_by_ensures(text_order());
        broadcast use vstd::seq_lib::group_to_multiset_ensures;
        assert(placeholders(text).to_multiset().len() == sorted_placeholders(text).to_multiset().len());
        crate::placeholders::lemma_no_placeholders(text);
    }
}

/// The arm group of a key. When none of its translations has placeholders
/// it is the one arm `("key" , $ lang : expr) => ..`. When all of them have
/// (and there is at least one), it is the arm that binds the arguments
/// `v : $ v : expr ,` for each argument and the arm that fails with "Please
/// provide: v1, .., vm >> The order matters!". The arguments are the
/// placeholders of all translations of the key, each once, in strictly
/// increasing order, named without their `$`. Every arm of the group starts
/// with `(` and the key as a literal.
pub proof fn lemma_key_arms_cases(key: Seq<char>, trs: LangTextsView)
    ensures
        (forall|j: int| 0 <= j < trs.len() ==> (#[trigger] sorted_placeholders(trs[j].1)).len() == 0)
            ==> key_arms(key, trs) == plain_arm(key, trs),
        (trs.len() > 0 && forall|j: int|
            0 <= j < trs.len() ==> (#[trigger] sorted_placeholders(trs[j].1)).len() > 0)
            ==> key_arms(key, trs) == bound_arm(key, trs) + guard_arm(key, key_vars(trs)),
        arm_prefix(key).is_prefix_of(plain_arm(key, trs)),
        arm_prefix(key).is_prefix_of(bound_arm(key, trs)),
        arm_prefix(key).is_prefix_of(guard_arm(key, key_vars(trs))),
        captures(key_vars(trs)) == Seq::new(
            key_vars(trs).len(),
            |k: int| capture(key_vars(trs)[k]),
        ).flatten(),
        key_vars(trs).len() > 0 ==> name_list(key_vars(trs)) == SPACE@ + var_name(key_vars(trs)[0])
            + Seq::new(
            (key_vars(trs).len() - 1) as nat,
            |k: int| KEY_SEP@ + var_name(key_vars(trs)[k + 1]),
        ).flatten(),
        forall|i: int, j: int|
            0 <= i < j < key_vars(trs).len() ==> chars_le(
                #[trigger] key_vars(trs)[i],
                #[trigger] key_vars(trs)[j],
            ) && key_vars(trs)[i] != key_vars(trs)[j],
        forall|p: Seq<char>| #[trigger] key_vars(trs).contains(p) <==> exists|j: int|
            0 <= j < trs.len() && #[trigger] placeholders(trs[j].1).contains(p),
{
    if trs.len() > 0 && forall|j: int|
        0 <= j < trs.len() ==> (#[trigger] sorted_placeholders(trs[j].1)).len() > 0 {
        assert(sorted_placeholders(trs[trs.len() - 1].1).len() > 0);
    }
    if forall|j: int| 0 <= j < trs.len() ==> (#[trigger] sorted_placeholders(trs[j].1)).len() == 0 {
        if trs.len() > 0 {
            assert(sorted_placeholders(trs[trs.len() - 1].1).len() == 0);
        }
    }
    let pre = arm_prefix(key);
    assert(pre =~= plain_arm(key, trs).subrange(0, pre.len() as int));
    assert(pre =~= bound_arm(key, trs).subrange(0, pre.len() as int));
    assert(pre =~= guard_arm(key, key_vars(trs)).subrange(0, pre.len() as int));
    lemma_captures_flat(key_vars(trs));
    if key_vars(trs).len() > 0 {
        lemma_name_list_flat(key_vars(trs));
    }
    lemma_key_vars_sorted_unique(trs);
    assert forall|p: Seq<char>| #[trigger] key_vars(trs).contains(p) <==> exists|j: int|
        0 <= j < trs.len() && #[trigger] placeholders(trs[j].1).contains(p) by {
        if key_vars(trs).contains(p) {
            lemma_all_placeholders_contains(trs, p);
        }
        if exists|j: int| 0 <= j < trs.len() && #[trigger] placeholders(trs[j].1).contains(p) {
            let j = choose|j: int| 0 <= j < trs.len() && #[trigger] placeholders(trs[j].1).contains(p);
            lemma_all_placeholders_has(trs, j, p);
        }
    }
}


/// Both kinds of arm of a key match on every language of the key: the
/// binding arm and the plain arm hold the same match, with one arm per
/// (language, text) of the key in order, then the "Missing language" arm.
pub proof fn lemma_arms_match_every_language(key: Seq<char>, trs: LangTextsView)
    ensures
        bound_arm(key, trs) == arm_prefix(key) + KEY_SEP@ + captures(key_vars(trs)) + LANG_CAPTURE@
            + (MATCH_OPEN@ + Seq::new(
            trs.len(),
            |j: int| lang_arm(trs[j].0, trs[j].1) + SPACE@,
        ).flatten() + MATCH_CLOSE@) + BRANCH_END@,
        plain_arm(key, trs) == arm_prefix(key) + PLAIN_CAPTURE@ + (MATCH_OPEN@ + Seq::new(
            trs.len(),
            |j: int| lang_arm(trs[j].0, trs[j].1) + SPACE@,
        ).flatten() + MATCH_CLOSE@) + BRANCH_END@,
{
    lemma_lang_arms_flat(trs);
}

proof fn lemma_all_placeholders_has(trs: LangTextsView, j: int, p: Seq<char>)
    requires
        0 <= j < trs.len(),
        placeholders(trs[j].1).contains(p),
    ensures
        all_placeholders(trs).contains(p),
    decreases trs.len(),
{
    let a = all_placeholders(trs.drop_last());
    let b = sorted_placeholders(trs.last().1);
    if j < trs.len() - 1 {
        assert(trs.drop_last()[j] == trs[j]);
        lemma_all_placeholders_has(trs.drop_last(), j, p);
        let k = choose|k: int| 0 <= k < a.len() && a[k] == p;
        assert((a + b)[k] == p);
    } else {
        lemma_text_order_total();
        placeholders(trs.last().1).lemma_sort_by_ensures(text_order());
        broadcast use vstd::seq_lib::group_to_multiset_ensures;
        assert(placeholders(trs.last().1).to_multiset().count(p) > 0);
        assert(b.contains(p));
        let k = choose|k: int| 0 <= k < b.len() && b[k] == p;
        assert((a + b)[a.len() + k] == p);
    }
}

/// Text of the `.replace(..)` calls of a translation.
fn replace_calls_text(vars: &Vec<String>) -> (res: String)
    requires
        forall|p: Seq<char>| #[trigger] vars.deep_view().contains(p) ==> p.len() > 0 && is_ascii_ident(var_name(p)),
    ensures
        res@ == replace_calls(vars.deep_view()),
{
    let mut out = String::new();
    let n = vars.len();
    let mut i: usize = 0;
    while i < n
        invariant
            n == vars.len(),
            i <= n,
            forall|p: Seq<char>| #[trigger] vars.deep_view().contains(p) ==> p.len() > 0
                && is_ascii_ident(var_name(p)),
            out@ == replace_calls(vars.deep_view().subrange(0, i as int)),
        decreases n - i,
    {
        let v = &vars[i];
        let vlen = v.as_str().unicode_len();
        proof {
            assert(vars.deep_view()[i as int] == v@);
            assert(vars.deep_view().contains(v@));
            assert(v@.len() > 0);
        }
        let name = v.as_str().substring_char(1, vlen);
        proof {
            assert(name@ =~= var_name(v@));
        }
        let lit = string_literal(v.as_str());
        let ident = ident_text(name);
        out.append(REPLACE_OPEN);
        out.append(lit.as_str());
        out.append(REPLACE_MID);
        out.append(ident.as_str());
        out.append(CLOSE_PAREN);
        proof {
            let s = vars.deep_view().subrange(0, i + 1);
            assert(s.drop_last() =~= vars.deep_view().subrange(0, i as int));
            assert(s.last() == v@);
        }
        i = i + 1;
    }
    proof {
        assert(vars.deep_view().subrange(0, n as int) =~= vars.deep_view());
    }
    out
}

/// The `name : $ name : expr ,` captures of an arm.
fn captures_text(vars: &Vec<String>) -> (res: String)
    requires
        forall|p: Seq<char>| #[trigger] vars.deep_view().contains(p) ==> p.len() > 0 && is_ascii_ident(var_name(p)),
    ensures
        res@ == captures(vars.deep_view()),
{
    let mut out = String::new();
    let n = vars.len();
    let mut i: usize = 0;
    while i < n
        invariant
            n == vars.len(),
            i <= n,
            forall|p: Seq<char>| #[trigger] vars.deep_view().contains(p) ==> p.len() > 0
                && is_ascii_ident(var_name(p)),
            out@ == captures(vars.deep_view().subrange(0, i as int)),
        decreases n - i,
    {
        let v = &vars[i];
        let vlen = v.as_str().unicode_len();
        proof {
            assert(vars.deep_view()[i as int] == v@);
            assert(vars.deep_view().contains(v@));
            assert(v@.len() > 0);
        }
        let name = v.as_str().substring_char(1, vlen);
        proof {
            assert(name@ =~= var_name(v@));
        }
        let ident = ident_text(name);
        out.append(ident.as_str());
        out.append(CAPTURE_MID);
        out.append(ident.as_str());
        out.append(CAPTURE_END);
        proof {
            let s = vars.deep_view().subrange(0, i + 1);
            assert(s.drop_last() =~= vars.deep_view().subrange(0, i as int));
            assert(s.last() == v@);
        }
        i = i + 1;
    }
    proof {
        assert(vars.deep_view().subrange(0, n as int) =~= vars.deep_view());
    }
    out
}

/// The argument names of an arm, comma separated.
fn name_list_text(vars: &Vec<String>) -> (res: String)
    requires
        forall|p: Seq<char>| #[trigger] vars.deep_view().contains(p) ==> p.len() > 0 && is_ascii_ident(var_name(p)),
    ensures
        res@ == name_list(vars.deep_view()),
{
    let mut out = String::new();
    let n = vars.len();
    let mut i: usize = 0;
    while i < n
        invariant
            n == vars.len(),
            i <= n,
            forall|p: Seq<char>| #[trigger] vars.deep_view().contains(p) ==> p.len() > 0
                && is_ascii_ident(var_name(p)),
            out@ == name_list(vars.deep_view().subrange(0, i as int)),
        decreases n - i,
    {
        let v = &vars[i];
        let vlen = v.as_str().unicode_len();
        proof {
            assert(vars.deep_view()[i as int] == v@);
            assert(vars.deep_view().contains(v@));
            assert(v@.len() > 0);
        }
        let name = v.as_str().substring_char(1, vlen);
        proof {
            assert(name@ =~= var_name(v@));
        }
        let ident = ident_text(name);
        if i == 0 {
            out.append(SPACE);
        } else {
            out.append(KEY_SEP);
        }
        out.append(ident.as_str());
        proof {
            let s = vars.deep_view().subrange(0, i + 1);
            assert(s.drop_last() =~= vars.deep_view().subrange(0, i as int));
            assert(s.last() == v@);
            if i == 0 {
                assert(s.len() == 1 && s[0] == v@);
                assert(out@ =~= SPACE@ + var_name(v@));
            }
        }
        i = i + 1;
    }
    proof {
        assert(vars.deep_view().subrange(0, n as int) =~= vars.deep_view());
    }
    out
}

/// Reduces each run of equal neighbours to one element.
fn dedup_texts(v: Vec<String>) -> (res: Vec<String>)
    ensures
        res.deep_view() == dedup_adjacent(v.deep_view()),
{
    let mut out: Vec<String> = Vec::new();
    let n = v.len();
    let mut i: usize = 0;
    while i < n
        invariant
            n == v.len(),
            i <= n,
            out.deep_view() == dedup_adjacent(v.deep_view().subrange(0, i as int)),
        decreases n - i,
    {
        let ghost before = out.deep_view();
        let x = &v[i];
        let ghost s = v.deep_view().subrange(0, i + 1);
        proof {
            assert(s.drop_last() =~= v.deep_view().subrange(0, i as int));
            assert(s.last() == x@);
        }
        let keep = out.len() == 0 || out[out.len() - 1] != *x;
        if keep {
            out.push(x.clone());
            proof {
                assert(out.deep_view() =~= before.push(x@));
            }
        } else {
            proof {
                assert(before.last() == out[out.len() - 1]@);
            }
        }
        i = i + 1;
    }
    proof {
        assert(v.deep_view().subrange(0, n as int) =~= v.deep_view());
    }
    out
}

/// The arms that the generator emits for one key.
pub fn key_arms_text(key: &String, trs: &Vec<(String, String)>) -> (res: String)
    requires
        texts_placeholders_are_idents(trs.deep_view()),
    ensures
        res@ == key_arms(key@, trs.deep_view()),
{
    let mut arms = String::new();
    let mut vars: Vec<String> = Vec::new();
    let mut needs = false;
    let n = trs.len();
    let mut j: usize = 0;
    while j < n
        invariant
            n == trs.len(),
            j <= n,
            texts_placeholders_are_idents(trs.deep_view()),
            arms@ == lang_arms(trs.deep_view().subrange(0, j as int)),
            vars.deep_view() == all_placeholders(trs.deep_view().subrange(0, j as int)),
            needs == needs_interpolation(trs.deep_view().subrange(0, j as int)),
        decreases n - j,
    {
        let lang = &trs[j].0;
        let tr = &trs[j].1;
        let ghost s = trs.deep_view().subrange(0, j + 1);
        proof {
            assert(trs.deep_view()[j as int] == (lang@, tr@));
            assert(s.drop_last() =~= trs.deep_view().subrange(0, j as int));
            assert(s.last() == (lang@, tr@));
        }
        let lang_vars = extract_vars(tr.as_str());
        proof {
            assert forall|p: Seq<char>| #[trigger] lang_vars.deep_view().contains(p) implies p.len()
                > 0 && is_ascii_ident(var_name(p)) by {
                lemma_sorted_contains(placeholders(tr@), p);
                assert(placeholders(trs.deep_view()[j as int].1).contains(p));
                lemma_placeholder_contains_shape(tr@, p);
            }
        }
        needs = lang_vars.len() > 0;
        let lit_lang = string_literal(lang.as_str());
        let lit_tr = string_literal(tr.as_str());
        let calls = replace_calls_text(&lang_vars);
        arms.append(lit_lang.as_str());
        arms.append(ARROW);
        arms.append(lit_tr.as_str());
        arms.append(calls.as_str());
        arms.append(ARM_END);
        arms.append(SPACE);
        let ghost vars_before = vars.deep_view();
        let m = lang_vars.len();
        let mut k: usize = 0;
        while k < m
            invariant
                m == lang_vars.len(),
                k <= m,
                vars.deep_view() == vars_before + lang_vars.deep_view().subrange(0, k as int),
            decreases m - k,
        {
            let ghost vb = vars.deep_view();
            vars.push(lang_vars[k].clone());
            proof {
                assert(vars.deep_view() =~= vb.push(lang_vars.deep_view()[k as int]));
                assert(lang_vars.deep_view().subrange(0, k + 1) =~= lang_vars.deep_view().subrange(
                    0,
                    k as int,
                ).push(lang_vars.deep_view()[k as int]));
            }
            k = k + 1;
        }
        proof {
            assert(lang_vars.deep_view().subrange(0, m as int) =~= lang_vars.deep_view());
        }
        j = j + 1;
    }
    proof {
        assert(trs.deep_view().subrange(0, n as int) =~= trs.deep_view());
    }
    let sorted = sort_texts(vars);
    let unique = dedup_texts(sorted);
    proof {
        assert forall|p: Seq<char>| #[trigger] unique.deep_view().contains(p) implies p.len() > 0
            && is_ascii_ident(var_name(p)) by {
            lemma_key_vars_are_idents(trs.deep_view(), p);
        }
    }
    let lit_key = string_literal(key.as_str());
    let mut out = String::new();
    out.append(OPEN_PAREN);
    out.append(lit_key.as_str());
    if needs {
        let caps = captures_text(&unique);
        let names = name_list_text(&unique);
        out.append(KEY_SEP);
        out.append(caps.as_str());
        out.append(LANG_CAPTURE);
        out.append(MATCH_OPEN);
        out.append(arms.as_str());
        out.append(MATCH_CLOSE);
        out.append(BRANCH_END);
        out.append(OPEN_PAREN);
        out.append(lit_key.as_str());
        out.append(GUARD_OPEN);
        out.append(names.as_str());
        out.append(GUARD_END);
    } else {
        out.append(PLAIN_CAPTURE);
        out.append(MATCH_OPEN);
        out.append(arms.as_str());
        out.append(MATCH_CLOSE);
        out.append(BRANCH_END);
    }
    proof {
        assert(out@ =~= key_arms(key@, trs.deep_view()));
    }
    out
}

/// Generates the text of the `t!` macro: for each key, in table order, an
/// arm that selects the translation by language and substitutes the
/// placeholders by the macro arguments. The table must be one a map of maps
/// can hold: each key once, each language of a key once.
pub fn generate_code(translations: &Translations) -> (code: String)
    requires
        table_wf(translations@),
        placeholders_are_idents(translations@),
    ensures
        code@ == macro_text(translations@),
{
    let mut out = String::from_str(MACRO_HEAD);
    let n = translations.entries.len();
    let mut i: usize = 0;
    while i < n
        invariant
            n == translations.entries.len(),
            i <= n,
            placeholders_are_idents(translations@),
            out@ == MACRO_HEAD@ + table_arms(translations@.subrange(0, i as int)),
        decreases n - i,
    {
        let entry = &translations.entries[i];
        proof {
            assert(translations@[i as int] == (entry.0@, entry.1.deep_view()));
            assert forall|j: int, p: Seq<char>|
                0 <= j < entry.1.deep_view().len() && #[trigger] placeholders(
                    entry.1.deep_view()[j].1,
                ).contains(p) implies is_ascii_ident(#[trigger] var_name(p)) by {
                assert(placeholders(translations@[i as int].1[j].1).contains(p));
            }
        }
        let arms = key_arms_text(&entry.0, &entry.1);
        out.append(arms.as_str());
        proof {
            let s = translations@.subrange(0, i + 1);
            assert(s.drop_last() =~= translations@.subrange(0, i as int));
            assert(s.last() == (entry.0@, entry.1.deep_view()));
        }
        i = i + 1;
    }
    proof {
        assert(translations@.subrange(0, n as int) =~= translations@);
    }
    out.append(MACRO_TAIL);
    out
}

} // verus!
