//! Code statistics: the accumulator that the classifier's per-file counts
//! are folded into, and the values derived from it.
use vstd::prelude::*;
use vstd::relations::total_ordering;
use crate::classify::{comment_style, classify_text, style_of, tally_of, trimmed_lines, TallyView};
use crate::entry::{extension, extension_of};
use crate::order::{views, Ordered};
use crate::text::{
    chars_of, lemma_lex_asymmetric, lemma_lex_total, lemma_lex_transitive, lex_less, lex_lt,
    lower_of, lowercase, same_chars, string_from_chars,
};

verus! {

/// A count kept for one extension.
pub struct ExtCount {
    pub ext: String,
    pub count: u64,
}

impl View for ExtCount {
    type V = (Seq<char>, u64);

    open spec fn view(&self) -> (Seq<char>, u64) {
        (self.ext@, self.count)
    }
}

/// The ranking order of extension counts: larger counts first, equal
/// counts by extension.
pub open spec fn ranks_before(a: (Seq<char>, u64), b: (Seq<char>, u64)) -> bool {
    a.1 > b.1 || (a.1 == b.1 && (a.0 == b.0 || lex_lt(a.0, b.0)))
}

proof fn lemma_rank_total(r: spec_fn((Seq<char>, u64), (Seq<char>, u64)) -> bool)
    requires
        forall|a: (Seq<char>, u64), b: (Seq<char>, u64)| #[trigger] r(a, b) == ranks_before(a, b),
    ensures
        total_ordering(r),
{
    assert forall|a: (Seq<char>, u64), b: (Seq<char>, u64)|
        #[trigger] r(a, b) && r(b, a) implies a == b by {
        lemma_lex_asymmetric(a.0, b.0);
    }
    assert forall|a: (Seq<char>, u64), b: (Seq<char>, u64)| #[trigger] r(a, b) || r(b, a) by {
        lemma_lex_total(a.0, b.0);
    }
    assert forall|a: (Seq<char>, u64), b: (Seq<char>, u64), c: (Seq<char>, u64)|
        #[trigger] r(a, b) && #[trigger] r(b, c) implies r(a, c) by {
        lemma_lex_transitive(a.0, b.0, c.0);
    }
}

impl Ordered for ExtCount {
    open spec fn le(a: (Seq<char>, u64), b: (Seq<char>, u64)) -> bool {
        ranks_before(a, b)
    }

    proof fn lemma_le_total() {
        lemma_rank_total(|a: (Seq<char>, u64), b: (Seq<char>, u64)| ExtCount::le(a, b));
    }

    fn precedes(&self, other: &ExtCount) -> (r: bool) {
        if self.count != other.count {
            return self.count > other.count;
        }
        let a = chars_of(self.ext.as_str());
        let b = chars_of(other.ext.as_str());
        same_chars(&a, &b) || lex_less(&a, &b)
    }
}

/// `a + b`, held at `u64::MAX`.
pub open spec fn sat_add(a: u64, b: nat) -> u64 {
    if a + b > u64::MAX {
        u64::MAX
    } else {
        (a + b) as u64
    }
}

/// The index of the last pair with key `k`, or -1 where there is none.
pub open spec fn key_index(p: Seq<(Seq<char>, u64)>, k: Seq<char>) -> int
    decreases p.len(),
{
    if p.len() == 0 {
        -1
    } else if p.last().0 == k {
        p.len() - 1
    } else {
        key_index(p.drop_last(), k)
    }
}

/// The table `p` with `n` added to the count for `k`; a new key goes last.
pub open spec fn bumped(p: Seq<(Seq<char>, u64)>, k: Seq<char>, n: nat) -> Seq<(Seq<char>, u64)> {
    let i = key_index(p, k);
    if i < 0 {
        p.push((k, sat_add(0, n)))
    } else {
        p.update(i, (k, sat_add(p[i].1, n)))
    }
}

/// No key occurs twice in the table.
pub open spec fn keys_unique(p: Seq<(Seq<char>, u64)>) -> bool {
    forall|i: int, j: int| 0 <= i < j < p.len() ==> p[i].0 != p[j].0
}

proof fn lemma_key_index_absent(p: Seq<(Seq<char>, u64)>, k: Seq<char>)
    ensures
        key_index(p, k) < 0 ==> forall|i: int| 0 <= i < p.len() ==> p[i].0 != k,
    decreases p.len(),
{
    if p.len() > 0 {
        lemma_key_index_absent(p.drop_last(), k);
        assert forall|i: int| 0 <= i < p.len() - 1 implies p[i] == p.drop_last()[i] by {}
    }
}

/// Adding to a count keeps the keys of a table unique.
pub proof fn lemma_bumped_keys_unique(p: Seq<(Seq<char>, u64)>, k: Seq<char>, n: nat)
    requires
        keys_unique(p),
    ensures
        keys_unique(bumped(p, k, n)),
{
    lemma_key_index_range(p, k);
    lemma_key_index_absent(p, k);
}

proof fn lemma_key_index_range(p: Seq<(Seq<char>, u64)>, k: Seq<char>)
    ensures
        -1 <= key_index(p, k) < p.len(),
        key_index(p, k) >= 0 ==> p[key_index(p, k)].0 == k,
    decreases p.len(),
{
    if p.len() > 0 {
        lemma_key_index_range(p.drop_last(), k);
    }
}

/// Adds `n` to the count for `key` in `table`.
fn bump(table: &mut Vec<ExtCount>, key: &Vec<char>, n: u64)
    ensures
        views(final(table)@) == bumped(views(old(table)@), key@, n as nat),
{
    let ghost p = views(table@);
    let mut i: usize = table.len();
    assert(p.take(i as int) =~= p);
    while i > 0 && !same_chars(&chars_of(table[i - 1].ext.as_str()), key)
        invariant
            i <= table.len(),
            p == views(table@),
            key_index(p, key@) == key_index(p.take(i as int), key@),
        decreases i,
    {
        assert(p.take(i as int).drop_last() =~= p.take(i - 1));
        i = i - 1;
    }
    proof {
        lemma_key_index_range(p, key@);
    }
    if i == 0 {
        assert(key_index(p, key@) == -1);
        table.push(ExtCount { ext: string_from_chars(key), count: n });
        assert(views(table@) =~= p.push((key@, sat_add(0, n as nat))));
    } else {
        assert(p.take(i as int).last().0 == key@);
        let mut e = table.remove(i - 1);
        e.count = e.count.saturating_add(n);
        table.insert(i - 1, e);
        assert(views(table@) =~= p.update(i - 1, (key@, sat_add(p[i - 1].1, n as nat))));
    }
}

/// Totals over every analysed file.
pub struct CodeStats {
    pub total_files: u64,
    pub total_lines: u64,
    pub blank_lines: u64,
    pub comment_lines: u64,
    pub total_bytes: u64,
    /// Files per lower-case extension, in order of first appearance.
    pub files_by_extension: Vec<ExtCount>,
    /// Lines per lower-case extension, in order of first appearance.
    pub lines_by_extension: Vec<ExtCount>,
    pub int_count: u64,
    pub float_count: u64,
    pub string_count: u64,
    pub bool_count: u64,
    pub function_count: u64,
    pub class_count: u64,
}

/// The key under which a file's counts are kept: its extension in lower
/// case, or `unknown` where it has none.
pub open spec fn ext_key(name: Seq<char>) -> Seq<char> {
    match extension_of(name) {
        Some(e) => lower_of(e),
        None => "unknown"@,
    }
}

/// The counts that the classifier finds in `content`, for a file kept
/// under the extension key `key`.
pub open spec fn keyed_tally(key: Seq<char>, content: Seq<char>) -> TallyView {
    tally_of(trimmed_lines(content), style_of(key))
}

impl CodeStats {
    /// Statistics with every count zero and no extension seen.
    pub fn new() -> (r: CodeStats)
        ensures
            r@ == empty_stats(),
            stats_wf(r@),
    {
        let r = CodeStats {
            total_files: 0,
            total_lines: 0,
            blank_lines: 0,
            comment_lines: 0,
            total_bytes: 0,
            files_by_extension: Vec::new(),
            lines_by_extension: Vec::new(),
            int_count: 0,
            float_count: 0,
            string_count: 0,
            bool_count: 0,
            function_count: 0,
            class_count: 0,
        };
        assert(r@.files_by_extension =~= Seq::<(Seq<char>, u64)>::empty());
        assert(r@.lines_by_extension =~= Seq::<(Seq<char>, u64)>::empty());
        r
    }
}

/// What [`CodeStats`] holds, as mathematical values.
pub struct StatsView {
    pub total_files: u64,
    pub total_lines: u64,
    pub blank_lines: u64,
    pub comment_lines: u64,
    pub total_bytes: u64,
    pub files_by_extension: Seq<(Seq<char>, u64)>,
    pub lines_by_extension: Seq<(Seq<char>, u64)>,
    pub int_count: u64,
    pub float_count: u64,
    pub string_count: u64,
    pub bool_count: u64,
    pub function_count: u64,
    pub class_count: u64,
}

impl View for CodeStats {
    type V = StatsView;

    open spec fn view(&self) -> StatsView {
        StatsView {
            total_files: self.total_files,
            total_lines: self.total_lines,
            blank_lines: self.blank_lines,
            comment_lines: self.comment_lines,
            total_bytes: self.total_bytes,
            files_by_extension: views(self.files_by_extension@),
            lines_by_extension: views(self.lines_by_extension@),
            int_count: self.int_count,
            float_count: self.float_count,
            string_count: self.string_count,
            bool_count: self.bool_count,
            function_count: self.function_count,
            class_count: self.class_count,
        }
    }
}

/// Statistics with every count zero and no extension seen.
pub open spec fn empty_stats() -> StatsView {
    StatsView {
        total_files: 0,
        total_lines: 0,
        blank_lines: 0,
        comment_lines: 0,
        total_bytes: 0,
        files_by_extension: Seq::empty(),
        lines_by_extension: Seq::empty(),
        int_count: 0,
        float_count: 0,
        string_count: 0,
        bool_count: 0,
        function_count: 0,
        class_count: 0,
    }
}

/// Each extension has at most one count in each table.
pub open spec fn stats_wf(s: StatsView) -> bool {
    keys_unique(s.files_by_extension) && keys_unique(s.lines_by_extension)
}

/// `s` after folding in a file of `size` bytes holding `content`, kept
/// under the extension key `key`.
pub open spec fn add_file_keyed(s: StatsView, key: Seq<char>, content: Seq<char>, size: u64) -> StatsView {
    let t = keyed_tally(key, content);
    StatsView {
        total_files: sat_add(s.total_files, 1),
        total_lines: sat_add(s.total_lines, t.lines),
        blank_lines: sat_add(s.blank_lines, t.blank),
        comment_lines: sat_add(s.comment_lines, t.comment),
        total_bytes: sat_add(s.total_bytes, size as nat),
        files_by_extension: bumped(s.files_by_extension, key, 1),
        lines_by_extension: bumped(s.lines_by_extension, key, t.lines),
        int_count: sat_add(s.int_count, t.int_like),
        float_count: sat_add(s.float_count, t.float_like),
        string_count: sat_add(s.string_count, t.string_like),
        bool_count: sat_add(s.bool_count, t.bool_like),
        function_count: sat_add(s.function_count, t.function_like),
        class_count: sat_add(s.class_count, t.class_like),
    }
}

/// `s` after folding in the file `name` of `size` bytes holding `content`.
pub open spec fn add_file(s: StatsView, name: Seq<char>, content: Seq<char>, size: u64) -> StatsView {
    add_file_keyed(s, ext_key(name), content, size)
}

/// Classifies the lines of a file of `size` bytes holding `content` and
/// folds the counts into `stats` under the extension key `key`, which also
/// selects the comment syntax.
pub fn analyze_keyed(key: &Vec<char>, content: &str, size: u64, stats: &mut CodeStats)
    ensures
        final(stats)@ == add_file_keyed(old(stats)@, key@, content@, size),
        stats_wf(old(stats)@) ==> stats_wf(final(stats)@),
{
    proof {
        if stats_wf(stats@) {
            let t = keyed_tally(key@, content@);
            lemma_bumped_keys_unique(stats@.files_by_extension, key@, 1);
            lemma_bumped_keys_unique(stats@.lines_by_extension, key@, t.lines);
        }
    }
    let style = comment_style(key);
    let t = classify_text(content, style);
    stats.total_files = stats.total_files.saturating_add(1);
    stats.total_lines = stats.total_lines.saturating_add(t.lines as u64);
    stats.blank_lines = stats.blank_lines.saturating_add(t.blank as u64);
    stats.comment_lines = stats.comment_lines.saturating_add(t.comment as u64);
    stats.total_bytes = stats.total_bytes.saturating_add(size);
    bump(&mut stats.files_by_extension, key, 1);
    bump(&mut stats.lines_by_extension, key, t.lines as u64);
    stats.int_count = stats.int_count.saturating_add(t.int_like as u64);
    stats.float_count = stats.float_count.saturating_add(t.float_like as u64);
    stats.string_count = stats.string_count.saturating_add(t.string_like as u64);
    stats.bool_count = stats.bool_count.saturating_add(t.bool_like as u64);
    stats.function_count = stats.function_count.saturating_add(t.function_like as u64);
    stats.class_count = stats.class_count.saturating_add(t.class_like as u64);
}

/// Classifies the lines of the file `name`, of `size` bytes and holding
/// `content`, and folds the counts into `stats` under the file's extension
/// in lower case, or `unknown` where it has none.
pub fn analyze_file(name: &str, content: &str, size: u64, stats: &mut CodeStats)
    ensures
        final(stats)@ == add_file(old(stats)@, name@, content@, size),
        stats_wf(old(stats)@) ==> stats_wf(final(stats)@),
{
    let name_chars = chars_of(name);
    let key: Vec<char> = match extension(&name_chars) {
        Some(e) => chars_of(lowercase(string_from_chars(&e).as_str()).as_str()),
        None => chars_of("unknown"),
    };
    assert(key@ == ext_key(name@));
    analyze_keyed(&key, content, size, stats);
}

/// Lines that are neither blank nor comments, never below zero.
pub open spec fn code_lines_of(s: StatsView) -> nat {
    if s.total_lines >= s.blank_lines + s.comment_lines {
        (s.total_lines - s.blank_lines - s.comment_lines) as nat
    } else {
        0
    }
}

/// Code lines as a share of all lines, in tenths of a percent, rounded
/// half up; zero where there are no lines.
pub open spec fn density_tenths(s: StatsView) -> nat {
    if s.total_lines == 0 {
        0
    } else {
        ((code_lines_of(s) * 1000 + s.total_lines / 2) / (s.total_lines as int)) as nat
    }
}

/// Lines that are neither blank nor comments, never below zero.
pub fn code_lines(stats: &CodeStats) -> (r: u64)
    ensures
        r == code_lines_of(stats@),
{
    let used = stats.blank_lines as u128 + stats.comment_lines as u128;
    if stats.total_lines as u128 >= used {
        (stats.total_lines as u128 - used) as u64
    } else {
        0
    }
}

/// Code density in tenths of a percent: from 0 to 1000, and 0 where there
/// are no lines.
pub fn code_density_tenths(stats: &CodeStats) -> (r: u64)
    ensures
        r == density_tenths(stats@),
        r <= 1000,
        stats.total_lines == 0 ==> r == 0,
{
    proof {
        lemma_density_bounds(stats@);
    }
    if stats.total_lines == 0 {
        return 0;
    }
    let code = code_lines(stats) as u128;
    let total = stats.total_lines as u128;
    ((code * 1000 + total / 2) / total) as u64
}

/// Code density lies between 0 and 100 percent, and is 0 where there are
/// no lines.
pub proof fn lemma_density_bounds(s: StatsView)
    ensures
        0 <= density_tenths(s) <= 1000,
        s.total_lines == 0 ==> density_tenths(s) == 0,
{
    if s.total_lines > 0 {
        let c = code_lines_of(s);
        let t = s.total_lines as nat;
        assert(c <= t);
        assert(c * 1000 + t / 2 < 1001 * t) by (nonlinear_arith)
            requires
                c <= t,
                t > 0,
        ;
        assert((c * 1000 + t / 2) / t <= 1000) by (nonlinear_arith)
            requires
                c * 1000 + t / 2 < 1001 * t,
                t > 0,
        ;
    }
}

} // verus!
