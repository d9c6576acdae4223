//! The content dump and the assembly of a run's whole output.
use vstd::prelude::*;
use crate::config::Config;
use crate::order::views;
use crate::report::{analysis_text, format_analysis};
use crate::text::{decimal, decimal_string};
use crate::walk::{display_structure, walk_of, CapturedFile, Node, Walk, WalkView};

verus! {

/// The rule drawn after each dumped file.
pub open spec fn separator() -> Seq<char> {
    "--------------------------------------------------------------------------------"@
}

/// The dump of one file: its 1-based number and path, then its text.
pub open spec fn dump_entry(number: nat, path: Seq<char>, content: Seq<char>) -> Seq<char> {
    decimal(number) + ". "@ + path + ":\n\n"@ + content + "\n\n"@ + separator() + "\n\n"@
}

/// The dump of captured files, numbered from 1 in the order given.
pub open spec fn dump_text(files: Seq<(Seq<char>, Seq<char>)>) -> Seq<char>
    decreases files.len(),
{
    if files.len() == 0 {
        Seq::empty()
    } else {
        dump_text(files.drop_last()) + dump_entry(files.len(), files.last().0, files.last().1)
    }
}

/// Renders captured files in the order they were captured, each under a
/// header with its number and path and above a separator.
pub fn format_code_dump(files: &Vec<CapturedFile>) -> (r: String)
    ensures
        r@ == dump_text(views(files@)),
{
    let ghost fs = views(files@);
    let mut out = String::new();
    assert(fs.take(0) =~= Seq::<(Seq<char>, Seq<char>)>::empty());
    for i in 0..files.len()
        invariant
            fs == views(files@),
            out@ == dump_text(fs.take(i as int)),
    {
        let ghost before = out@;
        out.append(decimal_string((i + 1) as u64).as_str());
        out.append(". ");
        out.append(files[i].path.as_str());
        out.append(":\n\n");
        out.append(files[i].content.as_str());
        out.append("\n\n");
        out.append("--------------------------------------------------------------------------------");
        out.append("\n\n");
        assert(fs.take(i + 1).drop_last() =~= fs.take(i as int));
        assert(out@ =~= before + dump_entry((i + 1) as nat, fs[i as int].0, fs[i as int].1));
    }
    assert(fs.take(files.len() as int) =~= fs);
    out
}

/// The whole output of a run: the tree, then the content dump where
/// `cfg.show_code` is set and some file was captured, then the analysis
/// report where `cfg.analyze_code` is set.
pub open spec fn output_text(cfg: &Config, w: WalkView) -> Seq<char> {
    let code = if cfg.show_code && w.captured.len() > 0 {
        "\n\n=== CODE CONTENT ===\n\n"@ + dump_text(w.captured)
    } else {
        Seq::empty()
    };
    let analysis = if cfg.analyze_code {
        "\n\n=== CODE ANALYSIS ===\n\n"@ + analysis_text(w.stats, None)
    } else {
        Seq::empty()
    };
    w.text + code + analysis
}

/// Joins a walk's tree text with the sections that `cfg` asks for.
pub fn assemble_output(walk: &Walk, cfg: &Config) -> (r: String)
    ensures
        r@ == output_text(cfg, walk@),
{
    let mut out = walk.text.clone();
    let ghost w = walk@;
    let ghost after_tree = out@;
    if cfg.show_code && walk.captured.len() > 0 {
        out.append("\n\n=== CODE CONTENT ===\n\n");
        out.append(format_code_dump(&walk.captured).as_str());
    }
    assert(out@ =~= w.text + (if cfg.show_code && w.captured.len() > 0 {
        "\n\n=== CODE CONTENT ===\n\n"@ + dump_text(w.captured)
    } else {
        Seq::empty()
    }));
    let ghost after_code = out@;
    if cfg.analyze_code {
        out.append("\n\n=== CODE ANALYSIS ===\n\n");
        out.append(format_analysis(&walk.stats).as_str());
    }
    assert(out@ =~= output_text(cfg, w));
    out
}

/// Walks the tree below a root named `root_name` and returns the run's
/// whole output.
pub fn render(root_name: &str, children: &Vec<Node>, cfg: &Config) -> (r: String)
    ensures
        r@ == output_text(cfg, walk_of(cfg, root_name@, children@)),
{
    let walk = display_structure(root_name, children, cfg);
    assemble_output(&walk, cfg)
}

} // verus!
