//! The analysis report: the statistics rendered as text.
use vstd::prelude::*;
use crate::order::{order_of, sort_values, views};
use crate::stats::{code_density_tenths, code_lines, code_lines_of, density_tenths, CodeStats, ExtCount, StatsView};
use crate::text::{decimal, decimal_string};

verus! {

/// A line holding `label` and the numeral for `n`.
pub open spec fn count_line(label: Seq<char>, n: nat) -> Seq<char> {
    label + decimal(n) + "\n"@
}

/// The line for one extension count; `unit` ends it.
pub open spec fn ext_line(e: (Seq<char>, u64), unit: Seq<char>) -> Seq<char> {
    "  ."@ + e.0 + ": "@ + decimal(e.1 as nat) + unit
}

/// The lines for a sequence of extension counts.
pub open spec fn ext_block(p: Seq<(Seq<char>, u64)>, unit: Seq<char>) -> Seq<char>
    decreases p.len(),
{
    if p.len() == 0 {
        Seq::empty()
    } else {
        ext_block(p.drop_last(), unit) + ext_line(p.last(), unit)
    }
}

/// Extension counts in ranking order: larger counts first, equal counts
/// by extension.
pub open spec fn ranked(p: Seq<(Seq<char>, u64)>) -> Seq<(Seq<char>, u64)> {
    p.sort_by(order_of::<ExtCount>())
}

/// The first `top` items of `p`, or all of them where `top` is `None`.
pub open spec fn first_n<A>(p: Seq<A>, top: Option<usize>) -> Seq<A> {
    match top {
        Some(n) => if n < p.len() {
            p.take(n as int)
        } else {
            p
        },
        None => p,
    }
}

/// The analysis report for `s`, listing at most `top` extensions in each
/// ranking.
pub open spec fn analysis_text(s: StatsView, top: Option<usize>) -> Seq<char> {
    let d = density_tenths(s);
    count_line("Total Files: "@, s.total_files as nat) + count_line(
        "Total Lines: "@,
        s.total_lines as nat,
    ) + count_line("Blank Lines: "@, s.blank_lines as nat) + count_line(
        "Comment Lines: "@,
        s.comment_lines as nat,
    ) + count_line("Code Lines: "@, code_lines_of(s)) + "\nFiles by Extension:\n"@ + ext_block(
        first_n(ranked(s.files_by_extension), top),
        " files\n"@,
    ) + "\nLines by Extension:\n"@ + ext_block(
        first_n(ranked(s.lines_by_extension), top),
        " lines\n"@,
    ) + "\nCode Elements (approximate):\n"@ + count_line("  Functions: "@, s.function_count as nat)
        + count_line("  Classes/Structs: "@, s.class_count as nat) + count_line(
        "  Int declarations: "@,
        s.int_count as nat,
    ) + count_line("  Float declarations: "@, s.float_count as nat) + count_line(
        "  String declarations: "@,
        s.string_count as nat,
    ) + count_line("  Bool declarations: "@, s.bool_count as nat) + "\nCode Density: "@ + decimal(
        d / 10,
    ) + "."@ + decimal(d % 10) + "%\n"@
}

fn append_count_line(out: &mut String, label: &str, n: u64)
    ensures
        final(out)@ == old(out)@ + count_line(label@, n as nat),
{
    out.append(label);
    out.append(decimal_string(n).as_str());
    out.append("\n");
    assert(final(out)@ =~= old(out)@ + count_line(label@, n as nat));
}

fn append_ext_block(out: &mut String, items: &Vec<ExtCount>, n: usize, unit: &str)
    requires
        n <= items.len(),
    ensures
        final(out)@ == old(out)@ + ext_block(views(items@).take(n as int), unit@),
{
    let ghost p = views(items@);
    assert(old(out)@ + ext_block(p.take(0), unit@) =~= old(out)@);
    let mut i: usize = 0;
    while i < n
        invariant
            n <= items.len(),
            p == views(items@),
            i <= n,
            out@ == old(out)@ + ext_block(p.take(i as int), unit@),
        decreases n - i,
    {
        let ghost before = out@;
        out.append("  .");
        out.append(items[i].ext.as_str());
        out.append(": ");
        out.append(decimal_string(items[i].count).as_str());
        out.append(unit);
        assert(p.take(i + 1).drop_last() =~= p.take(i as int));
        assert(out@ =~= before + ext_line(p[i as int], unit@));
        i = i + 1;
    }
}

fn copy_table(v: &Vec<ExtCount>) -> (r: Vec<ExtCount>)
    ensures
        views(r@) == views(v@),
{
    let mut r: Vec<ExtCount> = Vec::new();
    for i in 0..v.len()
        invariant
            views(r@) == views(v@).take(i as int),
    {
        let ghost before = views(r@);
        let e = ExtCount { ext: v[i].ext.clone(), count: v[i].count };
        assert(e@ == v@[i as int]@);
        r.push(e);
        assert(views(r@) =~= before.push(e@));
        assert(views(v@).take(i + 1) =~= views(v@).take(i as int).push(v@[i as int]@));
    }
    assert(views(v@).take(v.len() as int) =~= views(v@));
    r
}

/// The analysis report for `stats`, listing at most `top` extensions in
/// each ranking, or all of them where `top` is `None`.
pub fn format_top_analysis(stats: &CodeStats, top: Option<usize>) -> (r: String)
    ensures
        r@ == analysis_text(stats@, top),
{
    let mut out = String::new();
    append_count_line(&mut out, "Total Files: ", stats.total_files);
    append_count_line(&mut out, "Total Lines: ", stats.total_lines);
    append_count_line(&mut out, "Blank Lines: ", stats.blank_lines);
    append_count_line(&mut out, "Comment Lines: ", stats.comment_lines);
    append_count_line(&mut out, "Code Lines: ", code_lines(stats));
    out.append("\nFiles by Extension:\n");
    let files = sort_values(copy_table(&stats.files_by_extension));
    let nf = match top {
        Some(n) => if n < files.len() {
            n
        } else {
            files.len()
        },
        None => files.len(),
    };
    append_ext_block(&mut out, &files, nf, " files\n");
    assert(views(files@).take(nf as int) =~= first_n(ranked(stats@.files_by_extension), top));
    out.append("\nLines by Extension:\n");
    let lines = sort_values(copy_table(&stats.lines_by_extension));
    let nl = match top {
        Some(n) => if n < lines.len() {
            n
        } else {
            lines.len()
        },
        None => lines.len(),
    };
    append_ext_block(&mut out, &lines, nl, " lines\n");
    assert(views(lines@).take(nl as int) =~= first_n(ranked(stats@.lines_by_extension), top));
    out.append("\nCode Elements (approximate):\n");
    append_count_line(&mut out, "  Functions: ", stats.function_count);
    append_count_line(&mut out, "  Classes/Structs: ", stats.class_count);
    append_count_line(&mut out, "  Int declarations: ", stats.int_count);
    append_count_line(&mut out, "  Float declarations: ", stats.float_count);
    append_count_line(&mut out, "  String declarations: ", stats.string_count);
    append_count_line(&mut out, "  Bool declarations: ", stats.bool_count);
    let d = code_density_tenths(stats);
    out.append("\nCode Density: ");
    out.append(decimal_string(d / 10).as_str());
    out.append(".");
    out.append(decimal_string(d % 10).as_str());
    out.append("%\n");
    out
}

/// The analysis report for `stats`, listing every extension.
pub fn format_analysis(stats: &CodeStats) -> (r: String)
    ensures
        r@ == analysis_text(stats@, None),
{
    format_top_analysis(stats, None)
}

} // verus!
