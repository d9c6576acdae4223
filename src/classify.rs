//! The line classifier: splits a file's text into lines, trims them, and
//! sorts each into blank, comment or other, alongside approximate
//! declaration and structure counters. The heuristics recognise common
//! patterns of C-like, Python-like and JS-like text; they are no parser.
use vstd::prelude::*;
use crate::text::{
    chars_of, contains_seq, contains_text, has_prefix, lower_of, lowercase, same_chars, starts_with,
    string_from_chars,
};

verus! {

/// The comment syntax that a file's extension selects.
#[derive(Clone, Copy, Debug, PartialEq, Eq, Structural)]
pub enum CommentStyle {
    /// `//`, `/*` and `*`, as in C-family and brace languages.
    Brace,
    /// `#`, as in script languages.
    Script,
    /// `<!--`, as in markup.
    Markup,
    /// `//`, `#`, `/*` and `*`, for extensions the table does not know.
    Mixed,
}

/// The comment style for a lower-case extension.
pub open spec fn style_of(ext: Seq<char>) -> CommentStyle {
    if ext == "rs"@ || ext == "c"@ || ext == "h"@ || ext == "cpp"@ || ext == "hpp"@
        || ext == "cc"@ || ext == "java"@ || ext == "js"@ || ext == "jsx"@ || ext == "ts"@
        || ext == "tsx"@ || ext == "go"@ || ext == "cs"@ || ext == "swift"@ || ext == "kt"@
        || ext == "scala"@ || ext == "css"@ {
        CommentStyle::Brace
    } else if ext == "py"@ || ext == "sh"@ || ext == "bash"@ || ext == "rb"@ || ext == "pl"@
        || ext == "yaml"@ || ext == "yml"@ || ext == "toml"@ {
        CommentStyle::Script
    } else if ext == "html"@ || ext == "htm"@ || ext == "xml"@ || ext == "svg"@ || ext
        == "md"@ {
        CommentStyle::Markup
    } else {
        CommentStyle::Mixed
    }
}

fn is_word(e: &Vec<char>, w: &str) -> (r: bool)
    ensures
        r == (e@ == w@),
{
    same_chars(e, &chars_of(w))
}

/// The comment style for a lower-case extension.
pub fn comment_style(ext: &Vec<char>) -> (r: CommentStyle)
    ensures
        r == style_of(ext@),
{
    if is_word(ext, "rs") || is_word(ext, "c") || is_word(ext, "h") || is_word(ext, "cpp")
        || is_word(ext, "hpp") || is_word(ext, "cc") || is_word(ext, "java") || is_word(ext, "js")
        || is_word(ext, "jsx") || is_word(ext, "ts") || is_word(ext, "tsx") || is_word(ext, "go")
        || is_word(ext, "cs") || is_word(ext, "swift") || is_word(ext, "kt") || is_word(
        ext,
        "scala",
    ) || is_word(ext, "css") {
        CommentStyle::Brace
    } else if is_word(ext, "py") || is_word(ext, "sh") || is_word(ext, "bash") || is_word(ext, "rb")
        || is_word(ext, "pl") || is_word(ext, "yaml") || is_word(ext, "yml") || is_word(
        ext,
        "toml",
    ) {
        CommentStyle::Script
    } else if is_word(ext, "html") || is_word(ext, "htm") || is_word(ext, "xml") || is_word(
        ext,
        "svg",
    ) || is_word(ext, "md") {
        CommentStyle::Markup
    } else {
        CommentStyle::Mixed
    }
}

/// Whether a trimmed line opens with a comment marker of `style`.
pub open spec fn opens_comment(style: CommentStyle, t: Seq<char>) -> bool {
    match style {
        CommentStyle::Brace => has_prefix(t, "//"@) || has_prefix(t, "/*"@) || has_prefix(t, "*"@),
        CommentStyle::Script => has_prefix(t, "#"@),
        CommentStyle::Markup => has_prefix(t, "<!--"@),
        CommentStyle::Mixed => has_prefix(t, "//"@) || has_prefix(t, "#"@) || has_prefix(t, "/*"@)
            || has_prefix(t, "*"@),
    }
}

/// Whitespace as `char::is_whitespace` defines it (the Unicode
/// `White_Space` property).
pub open spec fn is_space(c: char) -> bool {
    ||| ('\t' <= c && c <= '\r')
    ||| c == ' '
    ||| c == '\u{85}'
    ||| c == '\u{a0}'
    ||| c == '\u{1680}'
    ||| ('\u{2000}' <= c && c <= '\u{200a}')
    ||| c == '\u{2028}'
    ||| c == '\u{2029}'
    ||| c == '\u{202f}'
    ||| c == '\u{205f}'
    ||| c == '\u{3000}'
}

fn space(c: char) -> (r: bool)
    ensures
        r == is_space(c),
{
    ('\t' <= c && c <= '\r') || c == ' ' || c == '\u{85}' || c == '\u{a0}' || c == '\u{1680}' || (
    '\u{2000}' <= c && c <= '\u{200a}') || c == '\u{2028}' || c == '\u{2029}' || c == '\u{202f}'
        || c == '\u{205f}' || c == '\u{3000}'
}

/// `s` without its leading whitespace.
pub open spec fn trim_start(s: Seq<char>) -> Seq<char>
    decreases s.len(),
{
    if s.len() > 0 && is_space(s[0]) {
        trim_start(s.drop_first())
    } else {
        s
    }
}

/// `s` without its trailing whitespace.
pub open spec fn trim_end(s: Seq<char>) -> Seq<char>
    decreases s.len(),
{
    if s.len() > 0 && is_space(s.last()) {
        trim_end(s.drop_last())
    } else {
        s
    }
}

/// `s` without leading and trailing whitespace.
pub open spec fn trim(s: Seq<char>) -> Seq<char> {
    trim_end(trim_start(s))
}

/// `s` without leading and trailing whitespace.
pub fn trim_chars(s: &Vec<char>) -> (r: Vec<char>)
    ensures
        r@ == trim(s@),
{
    let mut lo: usize = 0;
    assert(s@.subrange(0, s.len() as int) =~= s@);
    while lo < s.len() && space(s[lo])
        invariant
            lo <= s.len(),
            trim_start(s@) == trim_start(s@.subrange(lo as int, s.len() as int)),
        decreases s.len() - lo,
    {
        assert(s@.subrange(lo as int, s.len() as int).drop_first() =~= s@.subrange(
            lo + 1,
            s.len() as int,
        ));
        lo = lo + 1;
    }
    let mut hi: usize = s.len();
    assert(trim_start(s@) == s@.subrange(lo as int, hi as int));
    while hi > lo && space(s[hi - 1])
        invariant
            lo <= hi <= s.len(),
            trim(s@) == trim_end(s@.subrange(lo as int, hi as int)),
        decreases hi,
    {
        assert(s@.subrange(lo as int, hi as int).drop_last() =~= s@.subrange(lo as int, hi - 1));
        hi = hi - 1;
    }
    let mut r: Vec<char> = Vec::new();
    let mut i: usize = lo;
    while i < hi
        invariant
            lo <= i <= hi <= s.len(),
            r@ == s@.subrange(lo as int, i as int),
        decreases hi - i,
    {
        r.push(s[i]);
        assert(s@.subrange(lo as int, i + 1) =~= s@.subrange(lo as int, i as int).push(
            s@[i as int],
        ));
        i = i + 1;
    }
    r
}

/// The pieces of `s` between newlines; there is always at least one.
pub open spec fn pieces(s: Seq<char>) -> Seq<Seq<char>>
    decreases s.len(),
{
    if s.len() == 0 {
        seq![Seq::<char>::empty()]
    } else {
        let p = pieces(s.drop_last());
        if s.last() == '\n' {
            p.push(Seq::<char>::empty())
        } else {
            p.update(p.len() - 1, p.last().push(s.last()))
        }
    }
}

/// The lines of `s`: the pieces between newlines, where an empty piece
/// after the final newline is no line.
pub open spec fn lines_of(s: Seq<char>) -> Seq<Seq<char>> {
    let p = pieces(s);
    if p.last().len() == 0 {
        p.drop_last()
    } else {
        p
    }
}

/// What the classifier finds on one trimmed line.
pub struct LineKinds {
    pub blank: bool,
    pub comment: bool,
    pub int_like: bool,
    pub float_like: bool,
    pub string_like: bool,
    pub bool_like: bool,
    pub function_like: bool,
    pub class_like: bool,
}

/// An integer-like declaration marker occurs in the lower-cased line `l`.
pub open spec fn int_like(l: Seq<char>) -> bool {
    contains_seq(l, "int "@) || contains_seq(l, ": i32"@) || contains_seq(l, ": i64"@)
        || contains_seq(l, ": usize"@)
}

/// A float-like declaration marker occurs in the lower-cased line `l`.
pub open spec fn float_like(l: Seq<char>) -> bool {
    contains_seq(l, "float "@) || contains_seq(l, "double "@) || contains_seq(l, ": f32"@)
        || contains_seq(l, ": f64"@)
}

/// A string- or character-like declaration marker occurs in the lower-cased
/// line `l`.
pub open spec fn string_like(l: Seq<char>) -> bool {
    contains_seq(l, "str"@) || contains_seq(l, "char"@)
}

/// A boolean-like declaration marker occurs in the lower-cased line `l`.
pub open spec fn bool_like(l: Seq<char>) -> bool {
    contains_seq(l, "bool"@)
}

/// The line opens with a control-flow keyword.
pub open spec fn opens_control_flow(t: Seq<char>) -> bool {
    has_prefix(t, "if "@) || has_prefix(t, "if("@) || has_prefix(t, "while "@) || has_prefix(
        t,
        "while("@,
    ) || has_prefix(t, "for "@) || has_prefix(t, "for("@)
}

/// The line looks like the start of a function.
pub open spec fn function_like(t: Seq<char>) -> bool {
    ||| has_prefix(t, "fn "@)
    ||| has_prefix(t, "def "@)
    ||| has_prefix(t, "function "@)
    ||| has_prefix(t, "func "@)
    ||| (t.contains('(') && t.contains(')') && t.contains('{') && !opens_control_flow(t))
}

/// The line looks like the start of a type.
pub open spec fn class_like(t: Seq<char>) -> bool {
    has_prefix(t, "class "@) || has_prefix(t, "struct "@) || has_prefix(t, "impl "@) || has_prefix(
        t,
        "trait "@,
    )
}

/// What the classifier finds on the trimmed line `t` whose lower-case form
/// is `l`. A blank line counts for nothing else; a comment line may still
/// match the heuristics. The declaration markers are matched in `l`, so
/// case is ignored.
pub open spec fn kinds_of(t: Seq<char>, l: Seq<char>, style: CommentStyle) -> LineKinds {
    let blank = t.len() == 0;
    LineKinds {
        blank,
        comment: !blank && opens_comment(style, t),
        int_like: !blank && int_like(l),
        float_like: !blank && float_like(l),
        string_like: !blank && string_like(l),
        bool_like: !blank && bool_like(l),
        function_like: !blank && function_like(t),
        class_like: !blank && class_like(t),
    }
}

/// What the classifier finds on the trimmed line `t`.
pub open spec fn line_kinds(t: Seq<char>, style: CommentStyle) -> LineKinds {
    kinds_of(t, lower_of(t), style)
}

fn has_char(t: &Vec<char>, c: char) -> (r: bool)
    ensures
        r == t@.contains(c),
{
    let mut i: usize = 0;
    while i < t.len()
        invariant
            i <= t.len(),
            forall|j: int| 0 <= j < i ==> t@[j] != c,
        decreases t.len() - i,
    {
        if t[i] == c {
            assert(t@[i as int] == c);
            return true;
        }
        i = i + 1;
    }
    false
}

/// Classifies the trimmed line `t` of a file whose comments follow `style`.
pub fn classify_line(t: &Vec<char>, style: CommentStyle) -> (r: LineKinds)
    ensures
        r == line_kinds(t@, style),
{
    let l = chars_of(lowercase(string_from_chars(t).as_str()).as_str());
    classify_lowered(t, &l, style)
}

/// Classifies the trimmed line `t`, whose lower-case form is `l`, of a
/// file whose comments follow `style`.
pub fn classify_lowered(t: &Vec<char>, l: &Vec<char>, style: CommentStyle) -> (r: LineKinds)
    ensures
        r == kinds_of(t@, l@, style),
{
    if t.len() == 0 {
        return LineKinds {
            blank: true,
            comment: false,
            int_like: false,
            float_like: false,
            string_like: false,
            bool_like: false,
            function_like: false,
            class_like: false,
        };
    }
    let comment = match style {
        CommentStyle::Brace => starts_with(t, "//") || starts_with(t, "/*") || starts_with(t, "*"),
        CommentStyle::Script => starts_with(t, "#"),
        CommentStyle::Markup => starts_with(t, "<!--"),
        CommentStyle::Mixed => starts_with(t, "//") || starts_with(t, "#") || starts_with(t, "/*")
            || starts_with(t, "*"),
    };
    let int_like = contains_text(l, "int ") || contains_text(l, ": i32") || contains_text(l, ": i64")
        || contains_text(l, ": usize");
    let float_like = contains_text(l, "float ") || contains_text(l, "double ") || contains_text(
        l,
        ": f32",
    ) || contains_text(l, ": f64");
    let string_like = contains_text(l, "str") || contains_text(l, "char");
    let bool_like = contains_text(l, "bool");
    let control = starts_with(t, "if ") || starts_with(t, "if(") || starts_with(t, "while ")
        || starts_with(t, "while(") || starts_with(t, "for ") || starts_with(t, "for(");
    let function_like = starts_with(t, "fn ") || starts_with(t, "def ") || starts_with(
        t,
        "function ",
    ) || starts_with(t, "func ") || (has_char(t, '(') && has_char(t, ')') && has_char(t, '{')
        && !control);
    let class_like = starts_with(t, "class ") || starts_with(t, "struct ") || starts_with(
        t,
        "impl ",
    ) || starts_with(t, "trait ");
    LineKinds {
        blank: false,
        comment,
        int_like,
        float_like,
        string_like,
        bool_like,
        function_like,
        class_like,
    }
}

/// The lines of `s`, each trimmed.
pub open spec fn trimmed_lines(s: Seq<char>) -> Seq<Seq<char>> {
    lines_of(s).map_values(|l: Seq<char>| trim(l))
}

/// Counts of lines by kind.
pub struct LineTally {
    pub lines: usize,
    pub blank: usize,
    pub comment: usize,
    pub int_like: usize,
    pub float_like: usize,
    pub string_like: usize,
    pub bool_like: usize,
    pub function_like: usize,
    pub class_like: usize,
}

/// What a [`LineTally`] holds, as mathematical values.
pub struct TallyView {
    pub lines: nat,
    pub blank: nat,
    pub comment: nat,
    pub int_like: nat,
    pub float_like: nat,
    pub string_like: nat,
    pub bool_like: nat,
    pub function_like: nat,
    pub class_like: nat,
}

impl View for LineTally {
    type V = TallyView;

    open spec fn view(&self) -> TallyView {
        TallyView {
            lines: self.lines as nat,
            blank: self.blank as nat,
            comment: self.comment as nat,
            int_like: self.int_like as nat,
            float_like: self.float_like as nat,
            string_like: self.string_like as nat,
            bool_like: self.bool_like as nat,
            function_like: self.function_like as nat,
            class_like: self.class_like as nat,
        }
    }
}

/// 1 where `b` holds, else 0.
pub open spec fn one_if(b: bool) -> nat {
    if b {
        1
    } else {
        0
    }
}

/// `t` with one more line of kinds `k`.
pub open spec fn counted(t: TallyView, k: LineKinds) -> TallyView {
    TallyView {
        lines: t.lines + 1,
        blank: t.blank + one_if(k.blank),
        comment: t.comment + one_if(k.comment),
        int_like: t.int_like + one_if(k.int_like),
        float_like: t.float_like + one_if(k.float_like),
        string_like: t.string_like + one_if(k.string_like),
        bool_like: t.bool_like + one_if(k.bool_like),
        function_like: t.function_like + one_if(k.function_like),
        class_like: t.class_like + one_if(k.class_like),
    }
}

/// The counts over trimmed lines `ls` of a file whose comments follow
/// `style`.
pub open spec fn tally_of(ls: Seq<Seq<char>>, style: CommentStyle) -> TallyView
    decreases ls.len(),
{
    if ls.len() == 0 {
        TallyView {
            lines: 0,
            blank: 0,
            comment: 0,
            int_like: 0,
            float_like: 0,
            string_like: 0,
            bool_like: 0,
            function_like: 0,
            class_like: 0,
        }
    } else {
        counted(tally_of(ls.drop_last(), style), line_kinds(ls.last(), style))
    }
}

/// Every count is at most the number of lines.
pub open spec fn tally_bounded(t: TallyView) -> bool {
    &&& t.blank <= t.lines
    &&& t.comment <= t.lines
    &&& t.int_like <= t.lines
    &&& t.float_like <= t.lines
    &&& t.string_like <= t.lines
    &&& t.bool_like <= t.lines
    &&& t.function_like <= t.lines
    &&& t.class_like <= t.lines
}

proof fn lemma_tally_bounded(ls: Seq<Seq<char>>, style: CommentStyle)
    ensures
        tally_bounded(tally_of(ls, style)),
        tally_of(ls, style).lines == ls.len(),
    decreases ls.len(),
{
    if ls.len() > 0 {
        lemma_tally_bounded(ls.drop_last(), style);
    }
}

/// A text has no more pieces after its first than characters, and no
/// more when its last piece is not empty.
proof fn lemma_pieces_len(s: Seq<char>)
    ensures
        pieces(s).len() >= 1,
        pieces(s).len() - 1 + one_if(pieces(s).last().len() > 0) <= s.len(),
    decreases s.len(),
{
    if s.len() > 0 {
        lemma_pieces_len(s.drop_last());
    }
}

impl LineTally {
    fn record(&mut self, k: LineKinds)
        requires
            old(self).lines < usize::MAX,
            tally_bounded(old(self)@),
        ensures
            final(self)@ == counted(old(self)@, k),
    {
        self.lines = self.lines + 1;
        if k.blank {
            self.blank = self.blank + 1;
        }
        if k.comment {
            self.comment = self.comment + 1;
        }
        if k.int_like {
            self.int_like = self.int_like + 1;
        }
        if k.float_like {
            self.float_like = self.float_like + 1;
        }
        if k.string_like {
            self.string_like = self.string_like + 1;
        }
        if k.bool_like {
            self.bool_like = self.bool_like + 1;
        }
        if k.function_like {
            self.function_like = self.function_like + 1;
        }
        if k.class_like {
            self.class_like = self.class_like + 1;
        }
    }
}

/// Classifies every line of `content`, whose comments follow `style`.
pub fn classify_text(content: &str, style: CommentStyle) -> (r: LineTally)
    ensures
        r@ == tally_of(trimmed_lines(content@), style),
{
    let cs = chars_of(content);
    let mut tally = LineTally {
        lines: 0,
        blank: 0,
        comment: 0,
        int_like: 0,
        float_like: 0,
        string_like: 0,
        bool_like: 0,
        function_like: 0,
        class_like: 0,
    };
    let mut cur: Vec<char> = Vec::new();
    let ghost mut done: Seq<Seq<char>> = Seq::empty();
    let mut i: usize = 0;
    assert(cs@.take(0) =~= Seq::<char>::empty());
    while i < cs.len()
        invariant
            i <= cs.len(),
            pieces(cs@.take(i as int)) == done.push(cur@),
            tally@ == tally_of(done.map_values(|l: Seq<char>| trim(l)), style),
        decreases cs.len() - i,
    {
        proof {
            lemma_pieces_len(cs@.take(i as int));
            lemma_tally_bounded(done.map_values(|l: Seq<char>| trim(l)), style);
            assert(cs@.take(i + 1).drop_last() =~= cs@.take(i as int));
        }
        let c = cs[i];
        if c == '\n' {
            let t = trim_chars(&cur);
            let k = classify_line(&t, style);
            tally.record(k);
            proof {
                let before = done.map_values(|l: Seq<char>| trim(l));
                done = done.push(cur@);
                assert(done.map_values(|l: Seq<char>| trim(l)).drop_last() =~= before);
            }
            cur = Vec::new();
        } else {
            cur.push(c);
            proof {
                let p = pieces(cs@.take(i as int));
                assert(p.update(p.len() - 1, p.last().push(c)) =~= done.push(cur@));
            }
        }
        i = i + 1;
    }
    assert(cs@.take(cs.len() as int) =~= cs@);
    proof {
        lemma_pieces_len(cs@);
        lemma_tally_bounded(done.map_values(|l: Seq<char>| trim(l)), style);
    }
    if cur.len() > 0 {
        let t = trim_chars(&cur);
        let k = classify_line(&t, style);
        tally.record(k);
        proof {
            let before = done.map_values(|l: Seq<char>| trim(l));
            assert(lines_of(cs@) == done.push(cur@));
            assert(trimmed_lines(cs@).drop_last() =~= before);
        }
    } else {
        assert(lines_of(cs@) =~= done);
    }
    tally
}

/// The number of lines in `content`.
pub fn count_lines(content: &str) -> (r: usize)
    ensures
        r == lines_of(content@).len(),
{
    let cs = chars_of(content);
    let mut count: usize = 0;
    let mut cur_len: usize = 0;
    let mut i: usize = 0;
    assert(cs@.take(0) =~= Seq::<char>::empty());
    while i < cs.len()
        invariant
            i <= cs.len(),
            pieces(cs@.take(i as int)).len() == count + 1,
            pieces(cs@.take(i as int)).last().len() == cur_len,
            cur_len <= i,
        decreases cs.len() - i,
    {
        proof {
            lemma_pieces_len(cs@.take(i as int));
            assert(cs@.take(i + 1).drop_last() =~= cs@.take(i as int));
        }
        if cs[i] == '\n' {
            count = count + 1;
            cur_len = 0;
        } else {
            cur_len = cur_len + 1;
        }
        i = i + 1;
    }
    assert(cs@.take(cs.len() as int) =~= cs@);
    proof {
        lemma_pieces_len(cs@);
    }
    if cur_len > 0 {
        count + 1
    } else {
        count
    }
}

} // verus!
