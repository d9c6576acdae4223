//! The run's configuration: which entries are shown and which optional
//! passes run.
use vstd::prelude::*;

verus! {

/// Options that decide what a run shows and computes.
pub struct Config {
    /// Directory names that are never shown nor descended into.
    pub ignore_folders: Vec<String>,
    /// Leave files out of the tree.
    pub only_folders: bool,
    /// Append each file's line count to its tree line.
    pub show_lines: bool,
    /// Show only files whose extension is exactly this (no leading dot).
    pub only_extension: Option<String>,
    /// Directories at this depth are listed but not expanded; the root's
    /// children are at depth 0.
    pub max_depth: Option<usize>,
    /// Show entries whose names begin with a dot.
    pub show_hidden: bool,
    /// Capture the text of visited files for the content dump.
    pub show_code: bool,
    /// Run the line classifier on visited files.
    pub analyze_code: bool,
}

/// The directory names that every configuration ignores: version control,
/// dependency, build output, editor and cache directories.
pub open spec fn default_ignored(name: Seq<char>) -> bool {
    ||| name == ".git"@
    ||| name == "node_modules"@
    ||| name == "__pycache__"@
    ||| name == "target"@
    ||| name == ".idea"@
    ||| name == ".vscode"@
}

/// The names held in a list of strings.
pub open spec fn names_of(v: Seq<String>) -> Seq<Seq<char>> {
    v.map_values(|s: String| s@)
}

impl Config {
    /// Whether a directory named `name` is ignored.
    pub open spec fn ignores(&self, name: Seq<char>) -> bool {
        names_of(self.ignore_folders@).contains(name)
    }

    /// The configuration with every option off and only the default
    /// directory names ignored.
    pub fn new() -> (r: Config)
        ensures
            forall|name: Seq<char>| r.ignores(name) <==> default_ignored(name),
            !r.only_folders,
            !r.show_lines,
            r.only_extension is None,
            r.max_depth is None,
            !r.show_hidden,
            !r.show_code,
            !r.analyze_code,
    {
        let mut v: Vec<String> = Vec::new();
        v.push(String::from_str(".git"));
        v.push(String::from_str("node_modules"));
        v.push(String::from_str("__pycache__"));
        v.push(String::from_str("target"));
        v.push(String::from_str(".idea"));
        v.push(String::from_str(".vscode"));
        let r = Config {
            ignore_folders: v,
            only_folders: false,
            show_lines: false,
            only_extension: None,
            max_depth: None,
            show_hidden: false,
            show_code: false,
            analyze_code: false,
        };
        assert forall|name: Seq<char>| r.ignores(name) <==> default_ignored(name) by {
            if default_ignored(name) {
                if name == ".git"@ {
                    assert(names_of(r.ignore_folders@)[0] == name);
                } else if name == "node_modules"@ {
                    assert(names_of(r.ignore_folders@)[1] == name);
                } else if name == "__pycache__"@ {
                    assert(names_of(r.ignore_folders@)[2] == name);
                } else if name == "target"@ {
                    assert(names_of(r.ignore_folders@)[3] == name);
                } else if name == ".idea"@ {
                    assert(names_of(r.ignore_folders@)[4] == name);
                } else {
                    assert(names_of(r.ignore_folders@)[5] == name);
                }
            }
        }
        r
    }

    /// Adds `name` to the ignored directory names; an ignored name stays
    /// ignored.
    pub fn ignore(&mut self, name: String)
        ensures
            forall|n: Seq<char>| final(self).ignores(n) <==> (old(self).ignores(n) || n == name@),
            final(self).only_folders == old(self).only_folders,
            final(self).show_lines == old(self).show_lines,
            final(self).only_extension == old(self).only_extension,
            final(self).max_depth == old(self).max_depth,
            final(self).show_hidden == old(self).show_hidden,
            final(self).show_code == old(self).show_code,
            final(self).analyze_code == old(self).analyze_code,
    {
        let ghost before = names_of(self.ignore_folders@);
        self.ignore_folders.push(name);
        let ghost after = names_of(self.ignore_folders@);
        assert(after =~= before.push(name@));
        assert forall|n: Seq<char>| after.contains(n) <==> (before.contains(n) || n == name@) by {
            if before.contains(n) {
                let i = choose|i: int| 0 <= i < before.len() && before[i] == n;
                assert(after[i] == n);
            }
            if n == name@ {
                assert(after[before.len() as int] == n);
            }
        }
    }

    /// Whether a directory at `depth` has its children listed. Without a
    /// limit every directory is expanded up to the largest depth a `usize`
    /// can count.
    pub open spec fn expands(&self, depth: nat) -> bool {
        match self.max_depth {
            Some(d) => depth < d,
            None => depth < usize::MAX,
        }
    }

    /// Whether a directory at `depth` has its children listed.
    pub fn expands_at(&self, depth: usize) -> (r: bool)
        ensures
            r == self.expands(depth as nat),
    {
        match self.max_depth {
            Some(d) => depth < d,
            None => depth < usize::MAX,
        }
    }
}

} // verus!
