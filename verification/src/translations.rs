use vstd::prelude::*;

verus! {

/// The translations of one key: (language, text) pairs.
pub type LangTextsView = Seq<(Seq<char>, Seq<char>)>;

/// A translation table: (key, translations of the key) entries, in order.
pub type TableView = Seq<(Seq<char>, LangTextsView)>;

/// A translation table. Entries are kept in the order in which their keys
/// were first seen; the generated `t!` macro has its arms in that order.
pub struct Translations {
    pub entries: Vec<(String, Vec<(String, String)>)>,
}

impl View for Translations {
    type V = TableView;

    open spec fn view(&self) -> TableView {
        self.entries.deep_view()
    }
}

/// No key occurs twice in the table.
pub open spec fn keys_distinct(t: TableView) -> bool {
    forall|i: int, j: int| 0 <= i < j < t.len() ==> #[trigger] t[i].0 != #[trigger] t[j].0
}

/// No language occurs twice among the translations of a key.
pub open spec fn langs_distinct(trs: LangTextsView) -> bool {
    forall|i: int, j: int| 0 <= i < j < trs.len() ==> #[trigger] trs[i].0 != #[trigger] trs[j].0
}

/// Every key of the table has its languages once each.
pub open spec fn entries_langs_distinct(t: TableView) -> bool {
    forall|i: int| 0 <= i < t.len() ==> langs_distinct(#[trigger] t[i].1)
}

/// A table as a map of maps holds it: each key once, and each language of a
/// key once.
pub open spec fn table_wf(t: TableView) -> bool {
    keys_distinct(t) && entries_langs_distinct(t)
}

/// The table read as a map from key to its translations.
pub open spec fn table_map(t: TableView) -> Map<Seq<char>, LangTextsView>
    decreases t.len(),
{
    if t.len() == 0 {
        Map::empty()
    } else {
        table_map(t.drop_last()).insert(t.last().0, t.last().1)
    }
}

/// The first index of an entry with key `key`, if there is one.
pub open spec fn key_index(t: TableView, key: Seq<char>) -> Option<int>
    decreases t.len(),
{
    if t.len() == 0 {
        None
    } else if t[0].0 == key {
        Some(0)
    } else {
        match key_index(t.drop_first(), key) {
            Some(i) => Some(i + 1),
            None => None,
        }
    }
}

/// One entry put into a table: it replaces the entry with the same key, in
/// place, or is appended when the key is new.
pub open spec fn put_entry(t: TableView, e: (Seq<char>, LangTextsView)) -> TableView {
    match key_index(t, e.0) {
        Some(i) => t.update(i, e),
        None => t.push(e),
    }
}

/// The entries of `more` put into `t` one after the other.
pub open spec fn merge_tables(t: TableView, more: TableView) -> TableView
    decreases more.len(),
{
    if more.len() == 0 {
        t
    } else {
        put_entry(merge_tables(t, more.drop_last()), more.last())
    }
}

pub proof fn lemma_key_index(t: TableView, key: Seq<char>)
    ensures
        match key_index(t, key) {
            Some(i) => 0 <= i < t.len() && t[i].0 == key && forall|j: int|
                0 <= j < i ==> #[trigger] t[j].0 != key,
            None => forall|j: int| 0 <= j < t.len() ==> #[trigger] t[j].0 != key,
        },
    decreases t.len(),
{
    if t.len() > 0 {
        lemma_key_index(t.drop_first(), key);
        match key_index(t.drop_first(), key) {
            Some(i) => {
                assert forall|j: int| 0 <= j < i + 1 implies #[trigger] t[j].0 != key || t[0].0
                    == key by {
                    if j > 0 {
                        assert(t[j] == t.drop_first()[j - 1]);
                    }
                }
            },
            None => {
                assert forall|j: int| 0 <= j < t.len() implies #[trigger] t[j].0 != key || t[0].0
                    == key by {
                    if j > 0 {
                        assert(t[j] == t.drop_first()[j - 1]);
                    }
                }
            },
        }
    }
}


proof fn lemma_table_map_update(t: TableView, i: int, v: LangTextsView)
    requires
        keys_distinct(t),
        0 <= i < t.len(),
    ensures
        table_map(t.update(i, (t[i].0, v))) == table_map(t).insert(t[i].0, v),
    decreases t.len(),
{
    let u = t.update(i, (t[i].0, v));
    if i == t.len() - 1 {
        assert(u.drop_last() =~= t.drop_last());
        assert(table_map(u) =~= table_map(t).insert(t[i].0, v));
    } else {
        assert(u.drop_last() =~= t.drop_last().update(i, (t[i].0, v)));
        assert(keys_distinct(t.drop_last()));
        lemma_table_map_update(t.drop_last(), i, v);
        assert(t.last().0 != t[i].0);
        assert(table_map(u) =~= table_map(t).insert(t[i].0, v));
    }
}

proof fn lemma_put_entry(t: TableView, e: (Seq<char>, LangTextsView))
    requires
        keys_distinct(t),
    ensures
        keys_distinct(put_entry(t, e)),
        table_map(put_entry(t, e)) == table_map(t).insert(e.0, e.1),
{
    lemma_key_index(t, e.0);
    match key_index(t, e.0) {
        Some(i) => {
            assert(t.update(i, e) =~= t.update(i, (t[i].0, e.1)));
            lemma_table_map_update(t, i, e.1);
        },
        None => {
            let p = t.push(e);
            assert(p.drop_last() =~= t);
            assert forall|a: int, b: int| 0 <= a < b < p.len() implies #[trigger] p[a].0
                != #[trigger] p[b].0 by {
                if b == t.len() {
                    assert(p[a] == t[a]);
                }
            }
        },
    }
}

/// Merging a table into a table with distinct keys keeps the keys distinct,
/// and, read as maps, the merged table is the first one overridden by the
/// second: a key's translations come from the last entry that has the key.
pub proof fn lemma_merge_overrides(t: TableView, more: TableView)
    requires
        keys_distinct(t),
    ensures
        keys_distinct(merge_tables(t, more)),
        table_map(merge_tables(t, more)) == table_map(t).union_prefer_right(table_map(more)),
    decreases more.len(),
{
    if more.len() == 0 {
        assert(table_map(t).union_prefer_right(table_map(more)) =~= table_map(t));
    } else {
        lemma_merge_overrides(t, more.drop_last());
        lemma_put_entry(merge_tables(t, more.drop_last()), more.last());
        assert(table_map(merge_tables(t, more)) =~= table_map(t).union_prefer_right(
            table_map(more),
        ));
    }
}

/// Merging tables whose keys each have their languages once gives such a
/// table.
pub proof fn lemma_merge_langs_distinct(t: TableView, more: TableView)
    requires
        entries_langs_distinct(t),
        entries_langs_distinct(more),
    ensures
        entries_langs_distinct(merge_tables(t, more)),
    decreases more.len(),
{
    if more.len() > 0 {
        assert(entries_langs_distinct(more.drop_last())) by {
            assert forall|i: int| 0 <= i < more.drop_last().len() implies langs_distinct(
                #[trigger] more.drop_last()[i].1,
            ) by {
                assert(more.drop_last()[i] == more[i]);
            }
        }
        lemma_merge_langs_distinct(t, more.drop_last());
        let m = merge_tables(t, more.drop_last());
        let e = more.last();
        assert(langs_distinct(more[more.len() - 1].1));
        lemma_key_index(m, e.0);
        let r = put_entry(m, e);
        assert forall|i: int| 0 <= i < r.len() implies langs_distinct(#[trigger] r[i].1) by {
            match key_index(m, e.0) {
                Some(k) => {
                    if i != k {
                        assert(r[i] == m[i]);
                    }
                },
                None => {
                    if i < m.len() {
                        assert(r[i] == m[i]);
                    }
                },
            }
        }
    }
}

impl Translations {
    /// An empty table.
    pub fn new() -> (res: Translations)
        ensures
            res@ == Seq::<(Seq<char>, LangTextsView)>::empty(),
    {
        Translations { entries: Vec::new() }
    }

    /// Puts one entry into the table: it replaces the translations of its key
    /// when the key is there, and is appended otherwise.
    pub fn put(&mut self, key: String, texts: Vec<(String, String)>)
        ensures
            final(self)@ == put_entry(old(self)@, (key@, texts.deep_view())),
    {
        proof {
            lemma_key_index(self@, key@);
        }
        let n = self.entries.len();
        let mut i: usize = 0;
        while i < n
            invariant
                n == self.entries.len(),
                i <= n,
                self@ == old(self)@,
                forall|j: int| 0 <= j < i ==> #[trigger] self@[j].0 != key@,
            decreases n - i,
        {
            if self.entries[i].0 == key {
                proof {
                    lemma_key_index(self@, key@);
                    assert(self@[i as int].0 == key@);
                    match key_index(self@, key@) {
                        Some(k) => {
                            assert(k == i);
                        },
                        None => {},
                    }
                }
                self.entries.set(i, (key, texts));
                proof {
                    assert(self@ =~= old(self)@.update(i as int, (key@, texts.deep_view())));
                }
                return ;
            }
            i = i + 1;
        }
        proof {
            lemma_key_index(self@, key@);
            match key_index(self@, key@) {
                Some(k) => {
                    assert(self@[k].0 == key@);
                },
                None => {},
            }
        }
        self.entries.push((key, texts));
        proof {
            assert(self@ =~= old(self)@.push((key@, texts.deep_view())));
        }
    }

    /// Puts every entry of `more` into the table, in order: later entries
    /// override earlier translations of the same key.
    pub fn merge(&mut self, more: Vec<(String, Vec<(String, String)>)>)
        ensures
            final(self)@ == merge_tables(old(self)@, more.deep_view()),
    {
        let n = more.len();
        let mut rest = more;
        let ghost m = rest.deep_view();
        let mut items: Vec<(String, Vec<(String, String)>)> = Vec::new();
        // Take the entries out in reverse, then put them in order.
        while rest.len() > 0
            invariant
                m.len() == n,
                rest.len() + items.len() == n,
                rest.deep_view() == m.subrange(0, rest.len() as int),
                forall|j: int|
                    0 <= j < items.len() ==> #[trigger] items.deep_view()[j] == m[n - 1 - j],
            decreases rest.len(),
        {
            let ghost before = rest.deep_view();
            let ghost items_before = items.deep_view();
            let e = rest.pop().unwrap();
            proof {
                assert(rest.deep_view() =~= before.drop_last());
                assert(e.deep_view() == before[before.len() - 1]);
                assert(e.deep_view() == m[n - 1 - items.len()]);
            }
            items.push(e);
            proof {
                assert(items.deep_view() =~= items_before.push(e.deep_view()));
            }
        }
        let mut k: usize = 0;
        while items.len() > 0
            invariant
                m.len() == n,
                k + items.len() == n,
                forall|j: int|
                    0 <= j < items.len() ==> #[trigger] items.deep_view()[j] == m[n - 1 - j],
                self@ == merge_tables(old(self)@, m.subrange(0, k as int)),
            decreases items.len(),
        {
            let ghost before = items.deep_view();
            let e = items.pop().unwrap();
            proof {
                assert(e.deep_view() == before[before.len() - 1]);
            }
            let (key, texts) = e;
            proof {
                assert(items.deep_view() =~= before.drop_last());
                assert((key@, texts.deep_view()) == m[k as int]);
                assert(m.subrange(0, k + 1).drop_last() =~= m.subrange(0, k as int));
            }
            self.put(key, texts);
            k = k + 1;
        }
        proof {
            assert(m.subrange(0, n as int) =~= m);
        }
    }
}

} // verus!
