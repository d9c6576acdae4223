//! The entry filter and sorter: which children of a directory are shown,
//! and in which order.
use vstd::prelude::*;
use vstd::relations::total_ordering;
use crate::config::Config;
use crate::order::{order_of, sort_values, views, Ordered};
use crate::text::{
    chars_of, lemma_lex_asymmetric, lemma_lex_irreflexive, lemma_lex_total, lemma_lex_transitive,
    lex_less, lex_lt, lower_of, lowercase, same_chars,
};

verus! {

broadcast use vstd::seq_lib::group_to_multiset_ensures, vstd::multiset::group_multiset_axioms;

/// One child of a directory listing.
pub struct Entry {
    /// The base name.
    pub name: String,
    /// Whether the entry is a directory.
    pub is_dir: bool,
    /// The entry's position in the listing it came from.
    pub slot: usize,
}

/// What an [`Entry`] holds, as mathematical values.
pub struct EntryView {
    pub name: Seq<char>,
    pub is_dir: bool,
    pub slot: nat,
}

impl View for Entry {
    type V = EntryView;

    open spec fn view(&self) -> EntryView {
        EntryView { name: self.name@, is_dir: self.is_dir, slot: self.slot as nat }
    }
}

/// The views of a sequence of entries.
pub open spec fn entry_views(s: Seq<Entry>) -> Seq<EntryView> {
    views(s)
}

/// The index of the last `.` in `s`, or -1 where there is none.
pub open spec fn last_dot(s: Seq<char>) -> int
    decreases s.len(),
{
    if s.len() == 0 {
        -1
    } else if s.last() == '.' {
        s.len() - 1
    } else {
        last_dot(s.drop_last())
    }
}

/// The extension of a file name: what follows its last `.`, unless the
/// name has no `.` or its only `.` is the first character.
pub open spec fn extension_of(name: Seq<char>) -> Option<Seq<char>> {
    let d = last_dot(name);
    if d <= 0 {
        None
    } else {
        Some(name.subrange(d + 1, name.len() as int))
    }
}

/// Whether a name marks a hidden entry.
pub open spec fn is_hidden(name: Seq<char>) -> bool {
    name.len() > 0 && name[0] == '.'
}

/// Whether the filter keeps an entry.
pub open spec fn visible(cfg: &Config, name: Seq<char>, is_dir: bool) -> bool {
    &&& (cfg.show_hidden || !is_hidden(name))
    &&& if is_dir {
        !cfg.ignores(name)
    } else {
        &&& !cfg.only_folders
        &&& match cfg.only_extension {
            Some(x) => extension_of(name) == Some(x@),
            None => true,
        }
    }
}

/// The sibling order for entries whose names have the lower-case forms
/// `ka` and `kb`: directories before files; then the lower-case forms;
/// then the names themselves; then position in the listing.
pub open spec fn keyed_before(ka: Seq<char>, a: EntryView, kb: Seq<char>, b: EntryView) -> bool {
    if a.is_dir != b.is_dir {
        a.is_dir
    } else if ka != kb {
        lex_lt(ka, kb)
    } else if a.name != b.name {
        lex_lt(a.name, b.name)
    } else {
        a.slot <= b.slot
    }
}

/// The sibling order: directories before files; then names compared
/// case-insensitively, by their lower-case forms; then names compared
/// exactly; then position in the listing.
pub open spec fn before(a: EntryView, b: EntryView) -> bool {
    keyed_before(lower_of(a.name), a, lower_of(b.name), b)
}

/// The order relation `before` as a closure.
pub open spec fn sibling_order() -> spec_fn(EntryView, EntryView) -> bool {
    order_of::<Entry>()
}

impl Ordered for Entry {
    open spec fn le(a: EntryView, b: EntryView) -> bool {
        before(a, b)
    }

    proof fn lemma_le_total() {
        lemma_order_total(|a: EntryView, b: EntryView| Entry::le(a, b));
    }

    fn precedes(&self, other: &Entry) -> (r: bool) {
        entry_before(self, other)
    }
}

/// The entries that the filter keeps, in listing order.
pub open spec fn kept(cfg: &Config, s: Seq<EntryView>) -> Seq<EntryView> {
    s.filter(|e: EntryView| visible(cfg, e.name, e.is_dir))
}

/// The entries that the filter keeps, in sibling order.
pub open spec fn ordered(cfg: &Config, s: Seq<EntryView>) -> Seq<EntryView> {
    kept(cfg, s).sort_by(sibling_order())
}

proof fn lemma_before_antisymmetric(a: EntryView, b: EntryView)
    ensures
        before(a, b) && before(b, a) ==> a == b,
{
    lemma_lex_asymmetric(lower_of(a.name), lower_of(b.name));
    lemma_lex_asymmetric(a.name, b.name);
}

proof fn lemma_before_connected(a: EntryView, b: EntryView)
    ensures
        before(a, b) || before(b, a),
{
    lemma_lex_total(lower_of(a.name), lower_of(b.name));
    lemma_lex_total(a.name, b.name);
}

proof fn lemma_before_transitive(a: EntryView, b: EntryView, c: EntryView)
    ensures
        before(a, b) && before(b, c) ==> before(a, c),
{
    lemma_lex_transitive(lower_of(a.name), lower_of(b.name), lower_of(c.name));
    lemma_lex_transitive(a.name, b.name, c.name);
    lemma_lex_asymmetric(lower_of(a.name), lower_of(b.name));
    lemma_lex_asymmetric(lower_of(b.name), lower_of(c.name));
    lemma_lex_asymmetric(a.name, b.name);
    lemma_lex_asymmetric(b.name, c.name);
    lemma_lex_irreflexive(lower_of(a.name));
    lemma_lex_irreflexive(a.name);
}

proof fn lemma_order_total(r: spec_fn(EntryView, EntryView) -> bool)
    requires
        forall|a: EntryView, b: EntryView| #[trigger] r(a, b) == before(a, b),
    ensures
        total_ordering(r),
{
    assert forall|a: EntryView, b: EntryView| #[trigger] r(a, b) && r(b, a) implies a == b by {
        lemma_before_antisymmetric(a, b);
    }
    assert forall|a: EntryView, b: EntryView| #[trigger] r(a, b) || r(b, a) by {
        lemma_before_connected(a, b);
    }
    assert forall|a: EntryView, b: EntryView, c: EntryView|
        #[trigger] r(a, b) && #[trigger] r(b, c) implies r(a, c) by {
        lemma_before_transitive(a, b, c);
    }
    assert forall|a: EntryView| #[trigger] r(a, a) by {
        lemma_lex_irreflexive(a.name);
    }
}

/// The sibling order is a total order on entry views.
pub proof fn lemma_sibling_order_total()
    ensures
        total_ordering(sibling_order()),
{
    lemma_order_total(sibling_order());
}

/// The extension of a file name, as `extension_of` defines it.
pub fn extension(name: &Vec<char>) -> (r: Option<Vec<char>>)
    ensures
        match r {
            Some(x) => extension_of(name@) == Some(x@),
            None => extension_of(name@) is None,
        },
{
    let mut i: usize = name.len();
    assert(name@.take(i as int) =~= name@);
    while i > 0 && name[i - 1] != '.'
        invariant
            i <= name.len(),
            last_dot(name@) == last_dot(name@.take(i as int)),
        decreases i,
    {
        assert(name@.take(i as int).drop_last() =~= name@.take(i - 1));
        i = i - 1;
    }
    if i <= 1 {
        if i == 1 {
            assert(name@.take(1).last() == '.');
        }
        return None;
    }
    assert(name@.take(i as int).last() == '.');
    let mut x: Vec<char> = Vec::new();
    let mut j: usize = i;
    while j < name.len()
        invariant
            i <= j <= name.len(),
            x@ == name@.subrange(i as int, j as int),
        decreases name.len() - j,
    {
        x.push(name[j]);
        assert(name@.subrange(i as int, j + 1) =~= name@.subrange(i as int, j as int).push(
            name@[j as int],
        ));
        j = j + 1;
    }
    Some(x)
}

/// Whether `cfg` ignores a directory named `name`.
pub fn is_ignored(cfg: &Config, name: &Vec<char>) -> (r: bool)
    ensures
        r == cfg.ignores(name@),
{
    let mut i: usize = 0;
    while i < cfg.ignore_folders.len()
        invariant
            i <= cfg.ignore_folders.len(),
            forall|j: int| 0 <= j < i ==> cfg.ignore_folders@[j]@ != name@,
        decreases cfg.ignore_folders.len() - i,
    {
        let candidate = chars_of(cfg.ignore_folders[i].as_str());
        if same_chars(&candidate, name) {
            assert(crate::config::names_of(cfg.ignore_folders@)[i as int] == name@);
            return true;
        }
        i = i + 1;
    }
    false
}

/// Whether the filter keeps an entry named `name`.
pub fn entry_visible(cfg: &Config, name: &str, is_dir: bool) -> (r: bool)
    ensures
        r == visible(cfg, name@, is_dir),
{
    let n = chars_of(name);
    if !cfg.show_hidden && n.len() > 0 && n[0] == '.' {
        return false;
    }
    if is_dir {
        !is_ignored(cfg, &n)
    } else if cfg.only_folders {
        false
    } else {
        match &cfg.only_extension {
            None => true,
            Some(want) => {
                let w = chars_of(want.as_str());
                match extension(&n) {
                    None => false,
                    Some(x) => same_chars(&x, &w),
                }
            },
        }
    }
}

/// Whether `a` may stand before `b` among siblings, where `ka` and `kb`
/// are the lower-case forms of their names.
pub fn entry_before_keyed(ka: &Vec<char>, a: &Entry, kb: &Vec<char>, b: &Entry) -> (r: bool)
    ensures
        r == keyed_before(ka@, a@, kb@, b@),
{
    if a.is_dir != b.is_dir {
        return a.is_dir;
    }
    if !same_chars(ka, kb) {
        lex_less(ka, kb)
    } else {
        let an = chars_of(a.name.as_str());
        let bn = chars_of(b.name.as_str());
        if !same_chars(&an, &bn) {
            lex_less(&an, &bn)
        } else {
            a.slot <= b.slot
        }
    }
}

/// Whether `a` may stand before `b` among siblings.
pub fn entry_before(a: &Entry, b: &Entry) -> (r: bool)
    ensures
        r == before(a@, b@),
{
    let ka = chars_of(lowercase(a.name.as_str()).as_str());
    let kb = chars_of(lowercase(b.name.as_str()).as_str());
    entry_before_keyed(&ka, a, &kb, b)
}

/// Keeps the entries that the filter lets through and puts them in
/// sibling order.
pub fn filter_and_sort_entries(entries: &mut Vec<Entry>, cfg: &Config)
    ensures
        entry_views(final(entries)@) == ordered(cfg, entry_views(old(entries)@)),
{
    let ghost all = entry_views(entries@);
    let mut pending: Vec<Entry> = Vec::new();
    std::mem::swap(entries, &mut pending);
    let mut kept_entries: Vec<Entry> = Vec::new();
    let ghost n = pending.len();
    while pending.len() > 0
        invariant
            n == all.len(),
            pending.len() <= n,
            entry_views(pending@) == all.skip(n - pending.len()),
            entry_views(kept_entries@) == kept(cfg, all.take(n - pending.len())),
        decreases pending.len(),
    {
        let ghost done = n - pending.len();
        let ghost pv = entry_views(pending@);
        let e = pending.remove(0);
        assert(e@ == all[done]) by {
            assert(pv[0] == all.skip(done)[0]);
        }
        assert(entry_views(pending@) =~= pv.drop_first());
        assert(entry_views(pending@) =~= all.skip(done + 1));
        assert(all.take(done + 1) =~= all.take(done).push(e@));
        let keep = entry_visible(cfg, e.name.as_str(), e.is_dir);
        let ghost before_push = entry_views(kept_entries@);
        if keep {
            kept_entries.push(e);
            assert(entry_views(kept_entries@) =~= before_push.push(e@));
        }
        proof {
            all.take(done).lemma_filter_push(e@, |v: EntryView| visible(cfg, v.name, v.is_dir));
        }
    }
    assert(all.take(n as int) =~= all);
    let sorted = sort_values(kept_entries);
    *entries = sorted;
}

/// Filtering keeps a sequence whole when every element passes.
proof fn lemma_filter_keeps_all(s: Seq<EntryView>, pred: spec_fn(EntryView) -> bool)
    requires
        forall|i: int| 0 <= i < s.len() ==> pred(#[trigger] s[i]),
    ensures
        s.filter(pred) == s,
    decreases s.len(),
{
    reveal(Seq::filter);
    if s.len() > 0 {
        lemma_filter_keeps_all(s.drop_last(), pred);
        assert(s.drop_last().push(s.last()) =~= s);
    }
}

/// Filtering and sorting a listing that was already filtered and sorted
/// changes nothing: the filter and sorter is idempotent.
pub proof fn lemma_filter_and_sort_idempotent(cfg: &Config, s: Seq<EntryView>)
    ensures
        ordered(cfg, ordered(cfg, s)) == ordered(cfg, s),
{
    let pred = |e: EntryView| visible(cfg, e.name, e.is_dir);
    let k = kept(cfg, s);
    let o = ordered(cfg, s);
    lemma_sibling_order_total();
    k.lemma_sort_by_ensures(sibling_order());
    assert forall|i: int| 0 <= i < o.len() implies pred(#[trigger] o[i]) by {
        assert(o.contains(o[i]));
        assert(k.contains(o[i]));
        let j = choose|j: int| 0 <= j < k.len() && k[j] == o[i];
        s.lemma_filter_pred(pred, j);
    }
    lemma_filter_keeps_all(o, pred);
    assert(kept(cfg, o) == o);
    o.lemma_sort_by_ensures(sibling_order());
    vstd::seq_lib::lemma_sorted_unique(o, o.sort_by(sibling_order()), sibling_order());
}

} // verus!
