//! The recursive tree walker: renders a directory snapshot as tree lines
//! and, in the same pass, captures file texts and folds them into the
//! statistics.
use vstd::prelude::*;
use crate::classify::{count_lines, lines_of};
use crate::config::Config;
use crate::entry::{filter_and_sort_entries, kept, ordered, visible, Entry, EntryView};
use crate::order::views;
use crate::stats::{add_file, analyze_file, empty_stats, CodeStats, StatsView};
use crate::text::{decimal, decimal_string};

verus! {

/// A directory tree as read from disk. A file's text is absent where it
/// was not needed or could not be read as text.
pub enum Node {
    Dir { name: String, children: Vec<Node> },
    File { name: String, size: u64, content: Option<String> },
}

impl Node {
    /// The node's base name.
    pub open spec fn name_of(&self) -> Seq<char> {
        match self {
            Node::Dir { name, .. } => name@,
            Node::File { name, .. } => name@,
        }
    }

    /// The node's base name.
    pub fn name(&self) -> (r: &String)
        ensures
            r@ == self.name_of(),
    {
        match self {
            Node::Dir { name, .. } => name,
            Node::File { name, .. } => name,
        }
    }

    /// Whether the node is a directory.
    pub fn is_dir(&self) -> (r: bool)
        ensures
            r == self is Dir,
    {
        match self {
            Node::Dir { .. } => true,
            Node::File { .. } => false,
        }
    }
}

/// A file's text captured for the content dump, with its path relative to
/// the root.
pub struct CapturedFile {
    pub path: String,
    pub content: String,
}

impl View for CapturedFile {
    type V = (Seq<char>, Seq<char>);

    open spec fn view(&self) -> (Seq<char>, Seq<char>) {
        (self.path@, self.content@)
    }
}

/// One emitted tree line, with what the walk learnt at it.
pub struct Row {
    /// The depth of the entry; the root's children are at depth 0.
    pub depth: nat,
    /// The line, with its newline.
    pub text: Seq<char>,
    pub name: Seq<char>,
    /// The path relative to the root, with `/` between names.
    pub path: Seq<char>,
    pub is_file: bool,
    pub size: u64,
    pub content: Option<Seq<char>>,
}

/// The connector glyph of a line.
pub open spec fn connector(last: bool) -> Seq<char> {
    if last {
        "└──"@
    } else {
        "├──"@
    }
}

/// What a line adds to the prefix of its children's lines.
pub open spec fn continuation(last: bool) -> Seq<char> {
    if last {
        "    "@
    } else {
        "│   "@
    }
}

/// The path of `name` inside the directory at `parent`.
pub open spec fn child_path(parent: Seq<char>, name: Seq<char>) -> Seq<char> {
    if parent.len() == 0 {
        name
    } else {
        parent + "/"@ + name
    }
}

/// The view of a file's text, where present.
pub open spec fn text_of(content: Option<String>) -> Option<Seq<char>> {
    match content {
        Some(c) => Some(c@),
        None => None,
    }
}

/// The number of lines of a file's text; none where it is absent.
pub open spec fn line_count_of(content: Option<Seq<char>>) -> nat {
    match content {
        Some(c) => lines_of(c).len(),
        None => 0,
    }
}

/// The tree line of a directory.
pub open spec fn dir_line(prefix: Seq<char>, last: bool, name: Seq<char>) -> Seq<char> {
    prefix + connector(last) + " "@ + name + "\n"@
}

/// The tree line of a file; its line count follows where `cfg` asks.
pub open spec fn file_line(
    cfg: &Config,
    prefix: Seq<char>,
    last: bool,
    name: Seq<char>,
    content: Option<Seq<char>>,
) -> Seq<char> {
    let counted = if cfg.show_lines {
        " ("@ + decimal(line_count_of(content)) + ")"@
    } else {
        Seq::empty()
    };
    prefix + connector(last) + " "@ + name + counted + "\n"@
}

/// The entries of a directory's children, each at its position.
pub open spec fn listing(kids: Seq<Node>) -> Seq<EntryView> {
    Seq::new(
        kids.len(),
        |i: int| EntryView { name: kids[i].name_of(), is_dir: kids[i] is Dir, slot: i as nat },
    )
}

/// The rows of `n` and of what is shown below it.
pub open spec fn node_rows(
    cfg: &Config,
    n: Node,
    prefix: Seq<char>,
    last: bool,
    depth: nat,
    parent: Seq<char>,
) -> Seq<Row>
    decreases n, 0nat,
{
    match n {
        Node::File { name, size, content } => seq![
            Row {
                depth,
                text: file_line(cfg, prefix, last, name@, text_of(content)),
                name: name@,
                path: child_path(parent, name@),
                is_file: true,
                size,
                content: text_of(content),
            },
        ],
        Node::Dir { name, children } => {
            let own = Row {
                depth,
                text: dir_line(prefix, last, name@),
                name: name@,
                path: child_path(parent, name@),
                is_file: false,
                size: 0,
                content: None,
            };
            if cfg.expands(depth) {
                let order = ordered(cfg, listing(children@));
                seq![own] + children_rows(
                    cfg,
                    children@,
                    order,
                    order.len(),
                    prefix + continuation(last),
                    depth + 1,
                    child_path(parent, name@),
                )
            } else {
                seq![own]
            }
        },
    }
}

/// The rows of the first `count` children in `order`, the last of `order`
/// drawn as the last sibling.
pub open spec fn children_rows(
    cfg: &Config,
    kids: Seq<Node>,
    order: Seq<EntryView>,
    count: nat,
    prefix: Seq<char>,
    depth: nat,
    parent: Seq<char>,
) -> Seq<Row>
    decreases kids, count,
{
    if count == 0 || count > order.len() {
        Seq::empty()
    } else {
        let slot = order[count - 1].slot;
        let head = children_rows(cfg, kids, order, (count - 1) as nat, prefix, depth, parent);
        if slot < kids.len() {
            head + node_rows(cfg, kids[slot as int], prefix, count == order.len(), depth, parent)
        } else {
            head
        }
    }
}

/// The rows below a root whose children are `kids`.
pub open spec fn tree_rows(cfg: &Config, kids: Seq<Node>) -> Seq<Row> {
    let order = ordered(cfg, listing(kids));
    children_rows(cfg, kids, order, order.len(), Seq::empty(), 0, Seq::empty())
}

/// The text of rows, one after another.
pub open spec fn rows_text(rows: Seq<Row>) -> Seq<char>
    decreases rows.len(),
{
    if rows.len() == 0 {
        Seq::empty()
    } else {
        rows_text(rows.drop_last()) + rows.last().text
    }
}

/// The (path, text) pairs of the files among `rows` whose text is present.
pub open spec fn captures(rows: Seq<Row>) -> Seq<(Seq<char>, Seq<char>)>
    decreases rows.len(),
{
    if rows.len() == 0 {
        Seq::empty()
    } else {
        let r = rows.last();
        let head = captures(rows.drop_last());
        if r.is_file && r.content is Some {
            head.push((r.path, r.content->0))
        } else {
            head
        }
    }
}

/// `s` after folding in each file among `rows` whose text is present.
pub open spec fn stats_after(s: StatsView, rows: Seq<Row>) -> StatsView
    decreases rows.len(),
{
    if rows.len() == 0 {
        s
    } else {
        let r = rows.last();
        let head = stats_after(s, rows.drop_last());
        if r.is_file && r.content is Some {
            add_file(head, r.name, r.content->0, r.size)
        } else {
            head
        }
    }
}

/// What a walk produces: the tree text, the captured files in visiting
/// order, and the statistics.
pub struct Walk {
    pub text: String,
    pub captured: Vec<CapturedFile>,
    pub stats: CodeStats,
}

/// What a [`Walk`] holds, as mathematical values.
pub struct WalkView {
    pub text: Seq<char>,
    pub captured: Seq<(Seq<char>, Seq<char>)>,
    pub stats: StatsView,
}

impl View for Walk {
    type V = WalkView;

    open spec fn view(&self) -> WalkView {
        WalkView { text: self.text@, captured: views(self.captured@), stats: self.stats@ }
    }
}

/// `b` is `a` after walking over `rows` under `cfg`.
pub open spec fn walked(cfg: &Config, a: WalkView, b: WalkView, rows: Seq<Row>) -> bool {
    &&& b.text == a.text + rows_text(rows)
    &&& b.captured == a.captured + if cfg.show_code {
        captures(rows)
    } else {
        Seq::empty()
    }
    &&& b.stats == if cfg.analyze_code {
        stats_after(a.stats, rows)
    } else {
        a.stats
    }
}

proof fn lemma_folds_concat(s: StatsView, r1: Seq<Row>, r2: Seq<Row>)
    ensures
        rows_text(r1 + r2) == rows_text(r1) + rows_text(r2),
        captures(r1 + r2) == captures(r1) + captures(r2),
        stats_after(s, r1 + r2) == stats_after(stats_after(s, r1), r2),
    decreases r2.len(),
{
    if r2.len() == 0 {
        assert(r1 + r2 =~= r1);
        assert(rows_text(r1) + rows_text(r2) =~= rows_text(r1));
        assert(captures(r1) + captures(r2) =~= captures(r1));
    } else {
        lemma_folds_concat(s, r1, r2.drop_last());
        assert((r1 + r2).drop_last() =~= r1 + r2.drop_last());
        assert((r1 + r2).last() == r2.last());
        assert(rows_text(r1 + r2) =~= rows_text(r1) + rows_text(r2));
        assert(captures(r1 + r2) =~= captures(r1) + captures(r2));
    }
}

proof fn lemma_walked_chain(cfg: &Config, a: WalkView, b: WalkView, c: WalkView, r1: Seq<Row>, r2: Seq<Row>)
    requires
        walked(cfg, a, b, r1),
        walked(cfg, b, c, r2),
    ensures
        walked(cfg, a, c, r1 + r2),
{
    lemma_folds_concat(a.stats, r1, r2);
    assert(c.text =~= a.text + rows_text(r1 + r2));
    if cfg.show_code {
        assert(c.captured =~= a.captured + captures(r1 + r2));
    } else {
        assert(c.captured =~= a.captured + Seq::<(Seq<char>, Seq<char>)>::empty());
    }
}

proof fn lemma_walked_one(cfg: &Config, a: WalkView, b: WalkView, r: Row)
    requires
        b.text == a.text + r.text,
        b.captured == a.captured + if cfg.show_code && r.is_file && r.content is Some {
            seq![(r.path, r.content->0)]
        } else {
            Seq::empty()
        },
        b.stats == if cfg.analyze_code && r.is_file && r.content is Some {
            add_file(a.stats, r.name, r.content->0, r.size)
        } else {
            a.stats
        },
    ensures
        walked(cfg, a, b, seq![r]),
{
    let rows = seq![r];
    assert(rows.drop_last() =~= Seq::<Row>::empty());
    assert(rows.last() == r);
    assert(rows_text(rows.drop_last()) == Seq::<char>::empty());
    assert(rows_text(rows) =~= r.text);
    assert(captures(rows.drop_last()) == Seq::<(Seq<char>, Seq<char>)>::empty());
    assert(stats_after(a.stats, rows.drop_last()) == a.stats);
    if cfg.show_code && r.is_file && r.content is Some {
        assert(captures(rows) =~= seq![(r.path, r.content->0)]);
    }
    if cfg.show_code && !(r.is_file && r.content is Some) {
        assert(b.captured =~= a.captured + captures(rows));
    }
    if !cfg.show_code {
        assert(b.captured =~= a.captured + Seq::<(Seq<char>, Seq<char>)>::empty());
    }
}

fn join_path(parent: &String, name: &String) -> (r: String)
    ensures
        r@ == child_path(parent@, name@),
{
    if parent.as_str().is_empty() {
        name.clone()
    } else {
        let mut p = parent.clone();
        p.append("/");
        p.append(name.as_str());
        p
    }
}

/// Renders the subtree of `node` at `depth`, under lines that begin with
/// `prefix`, in the directory whose path relative to the root is `parent`:
/// the node's own line, then, for an expanded directory, its shown
/// children in sibling order. In the same pass it captures and analyses
/// the shown files' texts as `cfg` asks.
pub fn walk_node(
    cfg: &Config,
    node: &Node,
    prefix: &String,
    is_last: bool,
    depth: usize,
    parent: &String,
    out: &mut Walk,
)
    ensures
        walked(
            cfg,
            old(out)@,
            final(out)@,
            node_rows(cfg, *node, prefix@, is_last, depth as nat, parent@),
        ),
    decreases node,
{
    let ghost a = out@;
    let ghost rows = node_rows(cfg, *node, prefix@, is_last, depth as nat, parent@);
    out.text.append(prefix.as_str());
    if is_last {
        out.text.append("└──");
    } else {
        out.text.append("├──");
    }
    out.text.append(" ");
    match node {
        Node::File { name, size, content } => {
            out.text.append(name.as_str());
            if cfg.show_lines {
                let n: usize = match content {
                    Some(c) => count_lines(c.as_str()),
                    None => 0,
                };
                out.text.append(" (");
                out.text.append(decimal_string(n as u64).as_str());
                out.text.append(")");
            }
            out.text.append("\n");
            assert(out.text@ =~= a.text + rows[0].text);
            match content {
                Some(c) => {
                    if cfg.show_code {
                        let path = join_path(parent, name);
                        let ghost before = views(out.captured@);
                        out.captured.push(CapturedFile { path, content: c.clone() });
                        assert(views(out.captured@) =~= before + seq![(rows[0].path, c@)]);
                    }
                    if cfg.analyze_code {
                        analyze_file(name.as_str(), c.as_str(), *size, &mut out.stats);
                    }
                },
                None => {},
            }
            proof {
                assert(rows =~= seq![rows[0]]);
                if !(cfg.show_code && content is Some) {
                    assert(out@.captured =~= a.captured + Seq::<(Seq<char>, Seq<char>)>::empty());
                }
                lemma_walked_one(cfg, a, out@, rows[0]);
            }
        },
        Node::Dir { name, children } => {
            out.text.append(name.as_str());
            out.text.append("\n");
            let ghost own = Row {
                depth: depth as nat,
                text: dir_line(prefix@, is_last, name@),
                name: name@,
                path: child_path(parent@, name@),
                is_file: false,
                size: 0,
                content: None,
            };
            assert(out.text@ =~= a.text + own.text);
            proof {
                assert(out@.captured =~= a.captured + Seq::<(Seq<char>, Seq<char>)>::empty());
                lemma_walked_one(cfg, a, out@, own);
            }
            if cfg.expands_at(depth) {
                let mut p = prefix.clone();
                if is_last {
                    p.append("    ");
                } else {
                    p.append("│   ");
                }
                let path = join_path(parent, name);
                let ghost b = out@;
                walk_children(cfg, children, &p, depth + 1, &path, out);
                proof {
                    let order = ordered(cfg, listing(children@));
                    let below = children_rows(
                        cfg,
                        children@,
                        order,
                        order.len(),
                        p@,
                        (depth + 1) as nat,
                        path@,
                    );
                    lemma_walked_chain(cfg, a, b, out@, seq![own], below);
                    assert(rows == seq![own] + below);
                }
            } else {
                assert(rows == seq![own]);
            }
        },
    }
}

/// Every entry of a listing's order names a child that exists.
proof fn lemma_order_slots(cfg: &Config, kids: Seq<Node>)
    ensures
        forall|j: int|
            0 <= j < ordered(cfg, listing(kids)).len() ==> #[trigger] ordered(
                cfg,
                listing(kids),
            )[j].slot < kids.len(),
{
    let l = listing(kids);
    let pred = |e: EntryView| visible(cfg, e.name, e.is_dir);
    let k = l.filter(pred);
    let o = ordered(cfg, l);
    crate::entry::lemma_sibling_order_total();
    k.lemma_sort_by_ensures(crate::entry::sibling_order());
    assert forall|j: int| 0 <= j < o.len() implies #[trigger] o[j].slot < kids.len() by {
        assert(o.contains(o[j]));
        assert(k.contains(o[j]));
        l.lemma_filter_contains_rev(pred, o[j]);
        let m = choose|m: int| 0 <= m < l.len() && l[m] == o[j];
    }
}

fn walk_children(
    cfg: &Config,
    kids: &Vec<Node>,
    prefix: &String,
    depth: usize,
    parent: &String,
    out: &mut Walk,
)
    ensures
        walked(
            cfg,
            old(out)@,
            final(out)@,
            children_rows(
                cfg,
                kids@,
                ordered(cfg, listing(kids@)),
                ordered(cfg, listing(kids@)).len(),
                prefix@,
                depth as nat,
                parent@,
            ),
        ),
    decreases kids@,
{
    let mut entries: Vec<Entry> = Vec::new();
    for i in 0..kids.len()
        invariant
            views(entries@) == listing(kids@).take(i as int),
    {
        let e = Entry { name: kids[i].name().clone(), is_dir: kids[i].is_dir(), slot: i };
        let ghost before = views(entries@);
        entries.push(e);
        assert(views(entries@) =~= before.push(e@));
        assert(listing(kids@).take(i + 1) =~= listing(kids@).take(i as int).push(e@));
    }
    assert(listing(kids@).take(kids.len() as int) =~= listing(kids@));
    filter_and_sort_entries(&mut entries, cfg);
    let ghost order = ordered(cfg, listing(kids@));
    proof {
        lemma_order_slots(cfg, kids@);
    }
    let n = entries.len();
    let mut i: usize = 0;
    proof {
        let empty = Seq::<Row>::empty();
        assert(children_rows(cfg, kids@, order, 0, prefix@, depth as nat, parent@) == empty);
        assert(out@.text =~= old(out)@.text + rows_text(empty));
        assert(out@.captured =~= old(out)@.captured + captures(empty));
        assert(out@.captured =~= old(out)@.captured + Seq::<(Seq<char>, Seq<char>)>::empty());
    }
    while i < n
        invariant
            views(entries@) == order,
            n == order.len(),
            i <= n,
            forall|j: int| 0 <= j < order.len() ==> #[trigger] order[j].slot < kids.len(),
            walked(
                cfg,
                old(out)@,
                out@,
                children_rows(cfg, kids@, order, i as nat, prefix@, depth as nat, parent@),
            ),
        decreases n - i,
    {
        let slot = entries[i].slot;
        assert(slot == order[i as int].slot);
        let ghost b = out@;
        walk_node(cfg, &kids[slot], prefix, i + 1 == n, depth, parent, out);
        proof {
            let head = children_rows(cfg, kids@, order, i as nat, prefix@, depth as nat, parent@);
            let one = node_rows(cfg, kids@[slot as int], prefix@, i + 1 == n, depth as nat, parent@);
            lemma_walked_chain(cfg, old(out)@, b, out@, head, one);
            assert(children_rows(cfg, kids@, order, (i + 1) as nat, prefix@, depth as nat, parent@)
                == head + one);
        }
        i = i + 1;
    }
}

/// The walk from an empty start: the root line and nothing else.
pub open spec fn start_view(root_name: Seq<char>) -> WalkView {
    WalkView { text: root_name + "/\n"@, captured: Seq::empty(), stats: empty_stats() }
}

/// What walking the tree below a root named `root_name` with children
/// `kids` produces.
pub open spec fn walk_of(cfg: &Config, root_name: Seq<char>, kids: Seq<Node>) -> WalkView {
    let start = start_view(root_name);
    let rows = tree_rows(cfg, kids);
    WalkView {
        text: start.text + rows_text(rows),
        captured: if cfg.show_code {
            captures(rows)
        } else {
            Seq::empty()
        },
        stats: if cfg.analyze_code {
            stats_after(start.stats, rows)
        } else {
            start.stats
        },
    }
}

/// Renders the tree below a root named `root_name` whose children are
/// `children`: the root line, then one line per shown entry, each
/// directory's shown children in sibling order below it. In the same pass
/// it captures the texts of shown files where `cfg.show_code` is set, and
/// folds them into the statistics where `cfg.analyze_code` is set.
pub fn display_structure(root_name: &str, children: &Vec<Node>, cfg: &Config) -> (r: Walk)
    ensures
        r@ == walk_of(cfg, root_name@, children@),
{
    let mut text = String::from_str(root_name);
    text.append("/\n");
    let mut out = Walk { text, captured: Vec::new(), stats: CodeStats::new() };
    assert(out@.captured =~= Seq::<(Seq<char>, Seq<char>)>::empty());
    let prefix = String::new();
    let parent = String::new();
    walk_children(cfg, children, &prefix, 0, &parent, &mut out);
    assert(out@.captured =~= walk_of(cfg, root_name@, children@).captured);
    out
}

/// In the subtree of a node at `depth` no deeper than the depth limit, no
/// line stands deeper than the limit.
pub proof fn lemma_node_depths(
    cfg: &Config,
    n: Node,
    prefix: Seq<char>,
    last: bool,
    depth: nat,
    parent: Seq<char>,
    limit: usize,
)
    requires
        cfg.max_depth == Some(limit),
        depth <= limit,
    ensures
        forall|i: int|
            0 <= i < node_rows(cfg, n, prefix, last, depth, parent).len() ==> #[trigger] node_rows(
                cfg,
                n,
                prefix,
                last,
                depth,
                parent,
            )[i].depth <= limit,
    decreases n, 0nat,
{
    match n {
        Node::File { .. } => {},
        Node::Dir { name, children } => {
            if cfg.expands(depth) {
                let order = ordered(cfg, listing(children@));
                lemma_children_depths(
                    cfg,
                    children@,
                    order,
                    order.len(),
                    prefix + continuation(last),
                    depth + 1,
                    child_path(parent, name@),
                    limit,
                );
            }
        },
    }
}

proof fn lemma_children_depths(
    cfg: &Config,
    kids: Seq<Node>,
    order: Seq<EntryView>,
    count: nat,
    prefix: Seq<char>,
    depth: nat,
    parent: Seq<char>,
    limit: usize,
)
    requires
        cfg.max_depth == Some(limit),
        depth <= limit,
    ensures
        forall|i: int|
            0 <= i < children_rows(cfg, kids, order, count, prefix, depth, parent).len()
                ==> #[trigger] children_rows(
                cfg,
                kids,
                order,
                count,
                prefix,
                depth,
                parent,
            )[i].depth <= limit,
    decreases kids, count,
{
    if count > 0 && count <= order.len() {
        let slot = order[count - 1].slot;
        lemma_children_depths(cfg, kids, order, (count - 1) as nat, prefix, depth, parent, limit);
        if slot < kids.len() {
            lemma_node_depths(cfg, kids[slot as int], prefix, count == order.len(), depth, parent, limit);
        }
    }
}

/// With a depth limit `limit`, no tree line stands deeper than `limit`;
/// a directory at depth `limit` still has its own line, but none for its
/// children.
pub proof fn lemma_depth_limit(cfg: &Config, kids: Seq<Node>, limit: usize)
    requires
        cfg.max_depth == Some(limit),
    ensures
        forall|i: int|
            0 <= i < tree_rows(cfg, kids).len() ==> #[trigger] tree_rows(cfg, kids)[i].depth <= limit,
        forall|n: Node, prefix: Seq<char>, last: bool, parent: Seq<char>|
            node_rows(cfg, n, prefix, last, limit as nat, parent).len() == 1,
{
    let order = ordered(cfg, listing(kids));
    lemma_children_depths(cfg, kids, order, order.len(), Seq::empty(), 0, Seq::empty(), limit);
}

/// The number of lines that the entry `e` of the listing `kids` at
/// `depth` accounts for: its own, and for a directory that is expanded,
/// those for its own children that pass the filter.
pub open spec fn entry_lines(cfg: &Config, kids: Seq<Node>, e: EntryView, depth: nat) -> nat
    decreases kids, 0nat,
{
    let below: nat = if e.slot < kids.len() {
        match kids[e.slot as int] {
            Node::Dir { children, .. } => if cfg.expands(depth) {
                lines_for(cfg, children@, kept(cfg, listing(children@)), depth + 1)
            } else {
                0
            },
            Node::File { .. } => 0,
        }
    } else {
        0
    };
    1 + below
}

/// The number of lines that the entries `es` of the listing `kids` at
/// `depth` account for.
pub open spec fn lines_for(cfg: &Config, kids: Seq<Node>, es: Seq<EntryView>, depth: nat) -> nat
    decreases kids, es.len() + 1,
{
    if es.len() == 0 {
        0
    } else {
        lines_for(cfg, kids, es.drop_last(), depth) + entry_lines(cfg, kids, es.last(), depth)
    }
}

/// The number of lines below a directory whose children are `kids`, at
/// `depth`: one for each child that passes the filter, in the order of the
/// listing, plus those below each expanded directory among them.
pub open spec fn shown_lines(cfg: &Config, kids: Seq<Node>, depth: nat) -> nat {
    lines_for(cfg, kids, kept(cfg, listing(kids)), depth)
}

proof fn lemma_lines_for_remove(cfg: &Config, kids: Seq<Node>, es: Seq<EntryView>, depth: nat, j: int)
    requires
        0 <= j < es.len(),
    ensures
        lines_for(cfg, kids, es, depth) == lines_for(cfg, kids, es.remove(j), depth) + entry_lines(
            cfg,
            kids,
            es[j],
            depth,
        ),
    decreases es.len(),
{
    if j == es.len() - 1 {
        assert(es.remove(j) =~= es.drop_last());
    } else {
        lemma_lines_for_remove(cfg, kids, es.drop_last(), depth, j);
        assert(es.remove(j).drop_last() =~= es.drop_last().remove(j));
        assert(es.remove(j).last() == es.last());
    }
}

proof fn lemma_lines_for_permutation(
    cfg: &Config,
    kids: Seq<Node>,
    a: Seq<EntryView>,
    b: Seq<EntryView>,
    depth: nat,
)
    requires
        a.to_multiset() == b.to_multiset(),
    ensures
        lines_for(cfg, kids, a, depth) == lines_for(cfg, kids, b, depth),
    decreases a.len(),
{
    broadcast use vstd::seq_lib::group_to_multiset_ensures, vstd::multiset::group_multiset_axioms;

    if a.len() == 0 {
        assert(b.to_multiset().len() == 0);
        assert(b.len() == 0);
    } else {
        let x = a.last();
        assert(a.to_multiset().contains(x));
        assert(b.to_multiset().contains(x));
        assert(b.contains(x));
        let j = choose|j: int| 0 <= j < b.len() && b[j] == x;
        vstd::seq_lib::to_multiset_remove(b, j);
        assert(a.drop_last().push(x) =~= a);
        assert(a.drop_last().to_multiset() =~= a.to_multiset().remove(x));
        lemma_lines_for_permutation(cfg, kids, a.drop_last(), b.remove(j), depth);
        lemma_lines_for_remove(cfg, kids, b, depth, j);
    }
}

/// The subtree of a node has one line for the node itself and, for an
/// expanded directory, one for each entry below it that passes the filter
/// at each directory that is listed: none is dropped or doubled.
pub proof fn lemma_node_count(
    cfg: &Config,
    n: Node,
    prefix: Seq<char>,
    last: bool,
    depth: nat,
    parent: Seq<char>,
)
    ensures
        node_rows(cfg, n, prefix, last, depth, parent).len() == 1 + match n {
            Node::Dir { children, .. } => if cfg.expands(depth) {
                shown_lines(cfg, children@, depth + 1)
            } else {
                0
            },
            Node::File { .. } => 0,
        },
    decreases n, 0nat,
{
    match n {
        Node::File { .. } => {},
        Node::Dir { name, children } => {
            if cfg.expands(depth) {
                let l = listing(children@);
                let order = ordered(cfg, l);
                lemma_order_slots(cfg, children@);
                lemma_children_count(
                    cfg,
                    children@,
                    order,
                    order.len(),
                    prefix + continuation(last),
                    depth + 1,
                    child_path(parent, name@),
                );
                assert(order.take(order.len() as int) =~= order);
                crate::entry::lemma_sibling_order_total();
                kept(cfg, l).lemma_sort_by_ensures(crate::entry::sibling_order());
                lemma_lines_for_permutation(cfg, children@, order, kept(cfg, l), depth + 1);
            }
        },
    }
}

proof fn lemma_children_count(
    cfg: &Config,
    kids: Seq<Node>,
    order: Seq<EntryView>,
    count: nat,
    prefix: Seq<char>,
    depth: nat,
    parent: Seq<char>,
)
    requires
        count <= order.len(),
        forall|j: int| 0 <= j < order.len() ==> #[trigger] order[j].slot < kids.len(),
    ensures
        children_rows(cfg, kids, order, count, prefix, depth, parent).len() == lines_for(
            cfg,
            kids,
            order.take(count as int),
            depth,
        ),
    decreases kids, count,
{
    if count == 0 {
        assert(order.take(0) =~= Seq::<EntryView>::empty());
    } else {
        let slot = order[count - 1].slot;
        lemma_children_count(cfg, kids, order, (count - 1) as nat, prefix, depth, parent);
        lemma_node_count(cfg, kids[slot as int], prefix, count == order.len(), depth, parent);
        assert(order.take(count as int).drop_last() =~= order.take(count - 1));
        assert(order.take(count as int).last() == order[count - 1]);
        assert(slot < kids.len());
        let head = children_rows(cfg, kids, order, (count - 1) as nat, prefix, depth, parent);
        let one = node_rows(cfg, kids[slot as int], prefix, count == order.len(), depth, parent);
        assert(children_rows(cfg, kids, order, count, prefix, depth, parent) == head + one);
        assert(one.len() == entry_lines(cfg, kids, order[count - 1], depth));
    }
}

/// The tree has exactly one line for each entry that passes the filter at
/// each directory that is listed: none is dropped or doubled.
pub proof fn lemma_line_count(cfg: &Config, kids: Seq<Node>)
    ensures
        tree_rows(cfg, kids).len() == shown_lines(cfg, kids, 0),
{
    let l = listing(kids);
    let order = ordered(cfg, l);
    lemma_order_slots(cfg, kids);
    lemma_children_count(cfg, kids, order, order.len(), Seq::empty(), 0, Seq::empty());
    assert(order.take(order.len() as int) =~= order);
    crate::entry::lemma_sibling_order_total();
    kept(cfg, l).lemma_sort_by_ensures(crate::entry::sibling_order());
    lemma_lines_for_permutation(cfg, kids, order, kept(cfg, l), 0);
}

/// A node at or beyond the depth limit has its own line and nothing more:
/// a directory there is shown, but its children are not.
pub proof fn lemma_at_depth_limit(
    cfg: &Config,
    n: Node,
    prefix: Seq<char>,
    last: bool,
    depth: nat,
    parent: Seq<char>,
    limit: usize,
)
    requires
        cfg.max_depth == Some(limit),
        depth >= limit,
    ensures
        node_rows(cfg, n, prefix, last, depth, parent).len() == 1,
        node_rows(cfg, n, prefix, last, depth, parent)[0].depth == depth,
        n is Dir ==> node_rows(cfg, n, prefix, last, depth, parent)[0].text == dir_line(
            prefix,
            last,
            n.name_of(),
        ),
{
}

} // verus!
