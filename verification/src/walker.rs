use vstd::prelude::*;
use vstd::string::StringExecFns;
use crate::config::{
    first_config_error, matcher_spec, matcher_view, size_matches, spec_size_type, type_token_of,
    Config, ConfigError, FindType, SizeType,
};
use crate::matcher::{final_component, final_component_of, regex_matches};

verus! {

/// A filesystem subtree as classification saw it, symbolic links never
/// followed. `Unknown` covers entries whose metadata could not be read; a
/// file's `size` is `None` when its byte length could not be read.
#[derive(Debug)]
pub enum FsTree {
    File { size: Option<u64> },
    Symlink,
    Dir { listing: DirListing },
    Unknown,
}

/// What listing a directory's contents gave: its entries, or a failure that
/// ends traversal of that subtree alone.
#[derive(Debug)]
pub enum DirListing {
    Unreadable,
    Entries(Vec<DirEntry>),
}

/// One yielded directory entry: a named child, or an entry that could not be
/// read and is skipped with a diagnostic.
#[derive(Debug)]
pub enum DirEntry {
    Unreadable,
    Child { name: String, node: FsTree },
}

/// How a traversal-time failure arose.
#[derive(Clone, Copy, Debug, PartialEq, Eq, Structural)]
pub enum DiagKind {
    /// A directory's contents could not be listed.
    UnreadableListing,
    /// A single entry could not be read while enumerating a directory.
    UnreadableEntry,
}

/// A non-fatal traversal-time notice, distinct from the match stream: the
/// path of the directory where the failure arose, and its kind.
#[derive(Debug)]
pub struct Diagnostic {
    pub path: String,
    pub kind: DiagKind,
}

impl DeepView for Diagnostic {
    type V = (Seq<char>, DiagKind);

    open spec fn deep_view(&self) -> (Seq<char>, DiagKind) {
        (self.path@, self.kind)
    }
}

/// The path of a directory's child: the directory's path, a separator, and
/// the child's name.
pub open spec fn child_path(dir: Seq<char>, name: Seq<char>) -> Seq<char> {
    dir + seq!['/'] + name
}

/// Whether the configured name filter accepts an entry at this path: true
/// with no filter, else the filter applied to the final path component.
pub open spec fn name_matches(cfg: Config, path: Seq<char>) -> bool {
    match cfg.matcher {
        Option::Some(m) => regex_matches(m.pattern@, final_component(path)),
        Option::None => true,
    }
}

/// A regular file is reported when files are sought and both the name filter
/// and the size constraint accept it.
pub open spec fn file_reported(cfg: Config, path: Seq<char>, size: Option<u64>) -> bool {
    cfg.find_type == FindType::File && name_matches(cfg, path) && size_matches(
        cfg.size_in_bytes,
        size,
    )
}

/// A symbolic link is reported when links are sought and the name filter
/// accepts it; the size constraint does not apply.
pub open spec fn symlink_reported(cfg: Config, path: Seq<char>) -> bool {
    cfg.find_type == FindType::Symlink && name_matches(cfg, path)
}

/// What a directory contributes for itself: its own path when directories
/// are sought; name and size filters do not apply to directories.
pub open spec fn dir_own(cfg: Config, path: Seq<char>) -> Seq<Seq<char>> {
    if cfg.find_type == FindType::Dir {
        seq![path]
    } else {
        Seq::empty()
    }
}

/// Whether the depth counter has reached the configured maximum, so that a
/// directory's contents are not descended into.
pub open spec fn at_limit(cfg: Config, depth: u16) -> bool {
    match cfg.depth {
        Option::Some(d) => depth == d,
        Option::None => false,
    }
}

/// The counter children are visited at. Without a configured maximum the
/// counter is never consulted and stays as it is.
pub open spec fn next_depth(cfg: Config, depth: u16) -> u16 {
    if cfg.depth is Some {
        (depth + 1) as u16
    } else {
        depth
    }
}

/// The outcome of visiting one node: the matched paths it reports, in
/// pre-order, and the diagnostics it emits, both fully determined by the
/// configuration, the path, the subtree and the depth counter.
pub open spec fn walk_spec(cfg: Config, path: Seq<char>, node: FsTree, depth: u16) -> (
    Seq<Seq<char>>,
    Seq<(Seq<char>, DiagKind)>,
)
    decreases node,
{
    match node {
        FsTree::File { size } => (
            if file_reported(cfg, path, size) {
                seq![path]
            } else {
                Seq::empty()
            },
            Seq::empty(),
        ),
        FsTree::Symlink => (
            if symlink_reported(cfg, path) {
                seq![path]
            } else {
                Seq::empty()
            },
            Seq::empty(),
        ),
        FsTree::Unknown => (Seq::empty(), Seq::empty()),
        FsTree::Dir { listing } => {
            let below = children_spec(cfg, path, listing, depth);
            (dir_own(cfg, path) + below.0, below.1)
        },
    }
}

/// The outcome of attempting a directory's contents: nothing at the depth
/// limit; one diagnostic when the listing is unreadable; else the entries'
/// outcomes at the next depth.
pub open spec fn children_spec(cfg: Config, path: Seq<char>, listing: DirListing, depth: u16) -> (
    Seq<Seq<char>>,
    Seq<(Seq<char>, DiagKind)>,
)
    decreases listing,
{
    if at_limit(cfg, depth) {
        (Seq::empty(), Seq::empty())
    } else {
        match listing {
            DirListing::Unreadable => (Seq::empty(), seq![(path, DiagKind::UnreadableListing)]),
            DirListing::Entries(v) => entries_spec(cfg, path, v@, next_depth(cfg, depth)),
        }
    }
}

/// The concatenated outcomes of a run of entries, in listing order.
pub open spec fn entries_spec(
    cfg: Config,
    dir: Seq<char>,
    entries: Seq<DirEntry>,
    depth: u16,
) -> (Seq<Seq<char>>, Seq<(Seq<char>, DiagKind)>)
    decreases entries,
{
    if entries.len() == 0 {
        (Seq::empty(), Seq::empty())
    } else {
        let head = entry_spec(cfg, dir, entries[0], depth);
        let tail = entries_spec(cfg, dir, entries.subrange(1, entries.len() as int), depth);
        (head.0 + tail.0, head.1 + tail.1)
    }
}

/// The outcome of one yielded entry: a diagnostic for an unreadable one, the
/// child's subtree outcome otherwise.
pub open spec fn entry_spec(cfg: Config, dir: Seq<char>, e: DirEntry, depth: u16) -> (
    Seq<Seq<char>>,
    Seq<(Seq<char>, DiagKind)>,
)
    decreases e,
{
    match e {
        DirEntry::Unreadable => (Seq::empty(), seq![(dir, DiagKind::UnreadableEntry)]),
        DirEntry::Child { name, node } => walk_spec(cfg, child_path(dir, name@), node, depth),
    }
}

proof fn lemma_deep_view_push<T: DeepView>(a: Vec<T>, b: Vec<T>, x: T)
    requires
        b@ == a@.push(x),
    ensures
        b.deep_view() == a.deep_view().push(x.deep_view()),
{
    assert(b.deep_view() =~= a.deep_view().push(x.deep_view()));
}

/// Extending a run of entries by one appends that entry's outcome.
proof fn lemma_entries_spec_push(
    cfg: Config,
    dir: Seq<char>,
    entries: Seq<DirEntry>,
    e: DirEntry,
    depth: u16,
)
    ensures
        entries_spec(cfg, dir, entries.push(e), depth).0 == entries_spec(cfg, dir, entries, depth).0
            + entry_spec(cfg, dir, e, depth).0,
        entries_spec(cfg, dir, entries.push(e), depth).1 == entries_spec(cfg, dir, entries, depth).1
            + entry_spec(cfg, dir, e, depth).1,
    decreases entries.len(),
{
    let all = entries.push(e);
    let he = entry_spec(cfg, dir, e, depth);
    let tail = all.subrange(1, all.len() as int);
    if entries.len() == 0 {
        assert(all[0] == e);
        assert(tail =~= Seq::<DirEntry>::empty());
        assert(entries_spec(cfg, dir, tail, depth).0 =~= Seq::<Seq<char>>::empty());
        assert(entries_spec(cfg, dir, tail, depth).1 =~= Seq::<(Seq<char>, DiagKind)>::empty());
        assert(entries_spec(cfg, dir, all, depth).0 == he.0 + entries_spec(
            cfg,
            dir,
            tail,
            depth,
        ).0);
        assert(he.0 + entries_spec(cfg, dir, tail, depth).0 =~= he.0);
        assert(he.1 + entries_spec(cfg, dir, tail, depth).1 =~= he.1);
        assert(entries_spec(cfg, dir, entries, depth).0 + he.0 =~= he.0);
        assert(entries_spec(cfg, dir, entries, depth).1 + he.1 =~= he.1);
    } else {
        let rest = entries.subrange(1, entries.len() as int);
        assert(all[0] == entries[0]);
        assert(tail =~= rest.push(e));
        lemma_entries_spec_push(cfg, dir, rest, e, depth);
        let h = entry_spec(cfg, dir, entries[0], depth);
        let t = entries_spec(cfg, dir, rest, depth);
        assert(entries_spec(cfg, dir, all, depth).0 == h.0 + entries_spec(cfg, dir, tail, depth).0);
        assert(entries_spec(cfg, dir, all, depth).1 == h.1 + entries_spec(cfg, dir, tail, depth).1);
        assert(entries_spec(cfg, dir, tail, depth).0 == t.0 + he.0);
        assert(entries_spec(cfg, dir, tail, depth).1 == t.1 + he.1);
        assert(h.0 + (t.0 + he.0) =~= (h.0 + t.0) + he.0);
        assert(h.1 + (t.1 + he.1) =~= (h.1 + t.1) + he.1);
        assert(entries_spec(cfg, dir, entries, depth).0 == h.0 + t.0);
        assert(entries_spec(cfg, dir, entries, depth).1 == h.1 + t.1);
    }
}

/// The Walker: the configuration it was built with, the depth counter, and
/// the two sinks matches and diagnostics are collected in.
#[derive(Debug)]
pub struct Find {
    pub config: Config,
    pub depth: u16,
    pub matches: Vec<String>,
    pub diagnostics: Vec<Diagnostic>,
}

impl Find {
    /// The walker's invariant: a well-formed configuration, and a counter
    /// within the configured bound.
    pub open spec fn wf(self) -> bool {
        &&& self.config.wf()
        &&& (match self.config.depth {
            Option::Some(d) => self.depth <= d,
            Option::None => self.depth == 0,
        })
    }

    /// A walker for one traversal: the counter at zero and both sinks empty.
    pub fn new(config: Config) -> (r: Find)
        ensures
            r.config == config,
            r.depth == 0,
            r.matches.deep_view() == Seq::<Seq<char>>::empty(),
            r.diagnostics.deep_view() == Seq::<(Seq<char>, DiagKind)>::empty(),
            config.wf() ==> r.wf(),
    {
        let r = Find { config, depth: 0, matches: Vec::new(), diagnostics: Vec::new() };
        proof {
            assert(r.matches.deep_view() =~= Seq::<Seq<char>>::empty());
            assert(r.diagnostics.deep_view() =~= Seq::<(Seq<char>, DiagKind)>::empty());
        }
        r
    }

    /// Whether the name filter accepts the entry at `path`.
    pub fn match_name(&self, path: &str) -> (r: bool)
        requires
            self.config.wf(),
        ensures
            r == name_matches(self.config, path@),
    {
        match &self.config.matcher {
            Option::None => true,
            Option::Some(m) => {
                let fname = final_component_of(path);
                m.matches(fname)
            },
        }
    }

    /// Whether the size constraint accepts an entry of the given byte
    /// length, `None` standing for a length that could not be read.
    pub fn match_size(&self, size: Option<u64>) -> (r: bool)
        ensures
            r == size_matches(self.config.size_in_bytes, size),
    {
        match self.config.size_in_bytes {
            Option::None => true,
            Option::Some(st) => match size {
                Option::None => false,
                Option::Some(sz) => match st {
                    SizeType::ExactlyEquals(b) => sz == b,
                    SizeType::AtLeast(b) => sz >= b,
                    SizeType::AtMost(b) => sz <= b,
                },
            },
        }
    }

    /// Whether directories are the sought kind.
    pub fn find_type_is_dir(&self) -> (r: bool)
        ensures
            r == (self.config.find_type == FindType::Dir),
    {
        self.config.find_type == FindType::Dir
    }

    /// Whether a regular file at `path` with the given length is reported.
    pub fn file_matches(&self, path: &str, size: Option<u64>) -> (r: bool)
        requires
            self.config.wf(),
        ensures
            r == file_reported(self.config, path@, size),
    {
        self.config.find_type == FindType::File && self.match_name(path) && self.match_size(size)
    }

    /// Whether a symbolic link at `path` is reported.
    pub fn symlink_matches(&self, path: &str) -> (r: bool)
        requires
            self.config.wf(),
        ensures
            r == symlink_reported(self.config, path@),
    {
        self.config.find_type == FindType::Symlink && self.match_name(path)
    }

    /// Visit one node: report it per the decision table, and descend into a
    /// directory's contents, depth permitting. Appends exactly the node's
    /// outcome to the two sinks.
    pub fn run(&mut self, path: &str, node: &FsTree)
        requires
            old(self).wf(),
        ensures
            final(self).wf(),
            final(self).config == old(self).config,
            final(self).depth == old(self).depth,
            final(self).matches.deep_view() == old(self).matches.deep_view() + walk_spec(
                old(self).config,
                path@,
                *node,
                old(self).depth,
            ).0,
            final(self).diagnostics.deep_view() == old(self).diagnostics.deep_view() + walk_spec(
                old(self).config,
                path@,
                *node,
                old(self).depth,
            ).1,
        decreases node,
    {
        let ghost cfg0 = self.config;
        let ghost d0 = self.depth;
        let ghost m0 = self.matches.deep_view();
        let ghost g0 = self.diagnostics.deep_view();
        match node {
            FsTree::File { size } => {
                if self.file_matches(path, *size) {
                    let p = String::from_str(path);
                    let ghost pgh = p;
                    let ghost pre = self.matches;
                    self.matches.push(p);
                    proof {
                        lemma_deep_view_push(pre, self.matches, pgh);
                    }
                }
                proof {
                    assert(self.matches.deep_view() =~= m0 + walk_spec(cfg0, path@, *node, d0).0);
                    assert(self.diagnostics.deep_view() =~= g0 + walk_spec(
                        cfg0,
                        path@,
                        *node,
                        d0,
                    ).1);
                }
            },
            FsTree::Symlink => {
                if self.symlink_matches(path) {
                    let p = String::from_str(path);
                    let ghost pgh = p;
                    let ghost pre = self.matches;
                    self.matches.push(p);
                    proof {
                        lemma_deep_view_push(pre, self.matches, pgh);
                    }
                }
                proof {
                    assert(self.matches.deep_view() =~= m0 + walk_spec(cfg0, path@, *node, d0).0);
                    assert(self.diagnostics.deep_view() =~= g0 + walk_spec(
                        cfg0,
                        path@,
                        *node,
                        d0,
                    ).1);
                }
            },
            FsTree::Unknown => {
                proof {
                    assert(self.matches.deep_view() =~= m0 + walk_spec(cfg0, path@, *node, d0).0);
                    assert(self.diagnostics.deep_view() =~= g0 + walk_spec(
                        cfg0,
                        path@,
                        *node,
                        d0,
                    ).1);
                }
            },
            FsTree::Dir { listing } => {
                if self.find_type_is_dir() {
                    let p = String::from_str(path);
                    let ghost pgh = p;
                    let ghost pre = self.matches;
                    self.matches.push(p);
                    proof {
                        lemma_deep_view_push(pre, self.matches, pgh);
                    }
                }
                self.inspect_dir(path, listing);
                proof {
                    let below = children_spec(cfg0, path@, *listing, d0);
                    assert(self.matches.deep_view() =~= m0 + (dir_own(cfg0, path@) + below.0));
                    assert(self.diagnostics.deep_view() =~= g0 + below.1);
                }
            },
        }
    }

    /// Attempt a directory's contents: stop at the depth limit, emit one
    /// diagnostic when the listing is unreadable, else visit each yielded
    /// entry in order, skipping unreadable ones with a diagnostic each.
    pub fn inspect_dir(&mut self, path: &str, listing: &DirListing)
        requires
            old(self).wf(),
        ensures
            final(self).wf(),
            final(self).config == old(self).config,
            final(self).depth == old(self).depth,
            final(self).matches.deep_view() == old(self).matches.deep_view() + children_spec(
                old(self).config,
                path@,
                *listing,
                old(self).depth,
            ).0,
            final(self).diagnostics.deep_view() == old(self).diagnostics.deep_view()
                + children_spec(old(self).config, path@, *listing, old(self).depth).1,
        decreases listing,
    {
        let ghost cfg0 = self.config;
        let ghost d0 = self.depth;
        let ghost m0 = self.matches.deep_view();
        let ghost g0 = self.diagnostics.deep_view();
        let at_max: bool = match self.config.depth {
            Option::Some(d) => self.depth == d,
            Option::None => false,
        };
        if at_max {
            proof {
                assert(self.matches.deep_view() =~= m0 + children_spec(
                    cfg0,
                    path@,
                    *listing,
                    d0,
                ).0);
                assert(self.diagnostics.deep_view() =~= g0 + children_spec(
                    cfg0,
                    path@,
                    *listing,
                    d0,
                ).1);
            }
            return;
        }
        if self.config.depth.is_some() {
            self.depth = self.depth + 1;
        }
        let ghost nd = next_depth(cfg0, d0);
        proof {
            assert(self.depth == nd);
        }
        match listing {
            DirListing::Unreadable => {
                let diag = Diagnostic { path: String::from_str(path), kind: DiagKind::UnreadableListing };
                let ghost dgh = diag;
                let ghost pre = self.diagnostics;
                self.diagnostics.push(diag);
                proof {
                    lemma_deep_view_push(pre, self.diagnostics, dgh);
                    assert(self.diagnostics.deep_view() =~= g0 + children_spec(
                        cfg0,
                        path@,
                        *listing,
                        d0,
                    ).1);
                    assert(self.matches.deep_view() =~= m0 + children_spec(
                        cfg0,
                        path@,
                        *listing,
                        d0,
                    ).0);
                }
            },
            DirListing::Entries(v) => {
                let n = v.len();
                let mut i: usize = 0;
                while i < n
                    invariant
                        i <= n,
                        n == v@.len(),
                        *listing == DirListing::Entries(*v),
                        self.config == cfg0,
                        cfg0.wf(),
                        self.depth == nd,
                        (match cfg0.depth {
                            Option::Some(d) => nd <= d,
                            Option::None => nd == 0,
                        }),
                        self.matches.deep_view() == m0 + entries_spec(
                            cfg0,
                            path@,
                            v@.subrange(0, i as int),
                            nd,
                        ).0,
                        self.diagnostics.deep_view() == g0 + entries_spec(
                            cfg0,
                            path@,
                            v@.subrange(0, i as int),
                            nd,
                        ).1,
                    decreases n - i,
                {
                    let ghost done = v@.subrange(0, i as int);
                    match &v[i] {
                        DirEntry::Unreadable => {
                            let diag = Diagnostic { path: String::from_str(path), kind: DiagKind::UnreadableEntry };
                            let ghost dgh = diag;
                            let ghost pre = self.diagnostics;
                            self.diagnostics.push(diag);
                            proof {
                                lemma_deep_view_push(pre, self.diagnostics, dgh);
                            }
                        },
                        DirEntry::Child { name, node } => {
                            let mut cp = String::from_str(path);
                            cp.append("/");
                            cp.append(name.as_str());
                            proof {
                                reveal_strlit("/");
                                assert(cp@ =~= child_path(path@, name@));
                                assert(*listing == DirListing::Entries(*v));
                                assert(decreases_to!(*listing => listing->Entries_0));
                                assert(decreases_to!(*v => v@));
                                assert(decreases_to!(v@ => v@[i as int]));
                                assert(decreases_to!(v@[i as int] => *node));
                            }
                            self.run(cp.as_str(), node);
                        },
                    }
                    proof {
                        assert(v@.subrange(0, i + 1) =~= done.push(v@[i as int]));
                        lemma_entries_spec_push(cfg0, path@, done, v@[i as int], nd);
                        assert(self.matches.deep_view() =~= m0 + entries_spec(
                            cfg0,
                            path@,
                            v@.subrange(0, i + 1),
                            nd,
                        ).0);
                        assert(self.diagnostics.deep_view() =~= g0 + entries_spec(
                            cfg0,
                            path@,
                            v@.subrange(0, i + 1),
                            nd,
                        ).1);
                    }
                    i = i + 1;
                }
                proof {
                    assert(v@.subrange(0, n as int) =~= v@);
                }
            },
        }
        if self.config.depth.is_some() {
            self.depth = self.depth - 1;
        }
    }
}

/// Two subtrees that cannot be told apart without descending more than
/// `budget` directory levels below them.
pub open spec fn agree_to(t1: FsTree, t2: FsTree, budget: nat) -> bool
    decreases t1,
{
    match (t1, t2) {
        (FsTree::File { size: s1 }, FsTree::File { size: s2 }) => s1 == s2,
        (FsTree::Symlink, FsTree::Symlink) => true,
        (FsTree::Unknown, FsTree::Unknown) => true,
        (FsTree::Dir { listing: l1 }, FsTree::Dir { listing: l2 }) => budget == 0
            || listings_agree(l1, l2, (budget - 1) as nat),
        _ => false,
    }
}

/// Two directory listings that agree entry for entry down to `budget` more
/// directory levels.
pub open spec fn listings_agree(l1: DirListing, l2: DirListing, budget: nat) -> bool
    decreases l1,
{
    match (l1, l2) {
        (DirListing::Unreadable, DirListing::Unreadable) => true,
        (DirListing::Entries(v1), DirListing::Entries(v2)) => v1@.len() == v2@.len() && (forall|
            i: int,
        |
            0 <= i < v1@.len() ==> entries_agree(v1@[i], v2@[i], budget)),
        _ => false,
    }
}

/// Two yielded entries with the same name whose subtrees agree down to
/// `budget` more directory levels.
pub open spec fn entries_agree(e1: DirEntry, e2: DirEntry, budget: nat) -> bool
    decreases e1,
{
    match (e1, e2) {
        (DirEntry::Unreadable, DirEntry::Unreadable) => true,
        (
            DirEntry::Child { name: n1, node: c1 },
            DirEntry::Child { name: n2, node: c2 },
        ) => n1@ == n2@ && agree_to(c1, c2, budget),
        _ => false,
    }
}

/// With a configured maximum depth `d`, the traversal's outcome is
/// determined by the tree down to nesting level `d` below the current node:
/// two trees that agree that far give identical matches and diagnostics, so
/// nothing at a level greater than `d` is ever visited or reported.
pub proof fn lemma_depth_bound(
    cfg: Config,
    path: Seq<char>,
    t1: FsTree,
    t2: FsTree,
    depth: u16,
    d: u16,
)
    requires
        cfg.depth == Some(d),
        depth <= d,
        agree_to(t1, t2, (d - depth) as nat),
    ensures
        walk_spec(cfg, path, t1, depth) == walk_spec(cfg, path, t2, depth),
    decreases t1,
{
    match (t1, t2) {
        (FsTree::Dir { listing: l1 }, FsTree::Dir { listing: l2 }) => {
            if !at_limit(cfg, depth) {
                assert(depth < d);
                match (l1, l2) {
                    (DirListing::Entries(v1), DirListing::Entries(v2)) => {
                        lemma_depth_bound_entries(cfg, path, v1@, v2@, (depth + 1) as u16, d);
                    },
                    _ => {},
                }
            }
        },
        _ => {},
    }
}

proof fn lemma_depth_bound_entries(
    cfg: Config,
    dir: Seq<char>,
    s1: Seq<DirEntry>,
    s2: Seq<DirEntry>,
    depth: u16,
    d: u16,
)
    requires
        cfg.depth == Some(d),
        depth <= d,
        s1.len() == s2.len(),
        forall|i: int| 0 <= i < s1.len() ==> entries_agree(s1[i], s2[i], (d - depth) as nat),
    ensures
        entries_spec(cfg, dir, s1, depth) == entries_spec(cfg, dir, s2, depth),
    decreases s1,
{
    if s1.len() > 0 {
        assert(entries_agree(s1[0], s2[0], (d - depth) as nat));
        match (s1[0], s2[0]) {
            (
                DirEntry::Child { name: n1, node: c1 },
                DirEntry::Child { name: n2, node: c2 },
            ) => {
                lemma_depth_bound(cfg, child_path(dir, n1@), c1, c2, depth, d);
                assert(entry_spec(cfg, dir, s1[0], depth) == entry_spec(cfg, dir, s2[0], depth));
            },
            _ => {
                assert(entry_spec(cfg, dir, s1[0], depth) == entry_spec(cfg, dir, s2[0], depth));
            },
        }
        let r1 = s1.subrange(1, s1.len() as int);
        let r2 = s2.subrange(1, s2.len() as int);
        assert forall|i: int| 0 <= i < r1.len() implies entries_agree(
            r1[i],
            r2[i],
            (d - depth) as nat,
        ) by {
            assert(r1[i] == s1[i + 1]);
            assert(r2[i] == s2[i + 1]);
            assert(entries_agree(s1[i + 1], s2[i + 1], (d - depth) as nat));
        }
        lemma_depth_bound_entries(cfg, dir, r1, r2, depth, d);
        assert(entries_spec(cfg, dir, s1, depth).0 == entry_spec(cfg, dir, s1[0], depth).0
            + entries_spec(cfg, dir, r1, depth).0);
        assert(entries_spec(cfg, dir, s2, depth).0 == entry_spec(cfg, dir, s2[0], depth).0
            + entries_spec(cfg, dir, r2, depth).0);
        assert(entries_spec(cfg, dir, s1, depth).1 == entry_spec(cfg, dir, s1[0], depth).1
            + entries_spec(cfg, dir, r1, depth).1);
        assert(entries_spec(cfg, dir, s2, depth).1 == entry_spec(cfg, dir, s2[0], depth).1
            + entries_spec(cfg, dir, r2, depth).1);
    }
}

/// Traversal is repeatable: two runs with identical configurations over an
/// unmodified tree report the identical sequence of matches and the
/// identical diagnostics, since the outcome is a function of configuration,
/// root path and tree alone.
pub proof fn lemma_traversal_repeatable(
    cfg1: Config,
    cfg2: Config,
    path: Seq<char>,
    node: FsTree,
    depth: u16,
)
    requires
        cfg1 == cfg2,
    ensures
        walk_spec(cfg1, path, node, depth) == walk_spec(cfg2, path, node, depth),
{
}

/// Validate resolved command inputs and, when they are accepted, walk the
/// tree rooted at the configured directory path, collecting every match and
/// every diagnostic.
pub fn find_all(
    dir: String,
    find_type: &str,
    size: Option<String>,
    name: Option<String>,
    iname: Option<String>,
    regex: Option<String>,
    depth: Option<u16>,
    root: &FsTree,
) -> (r: Result<Find, ConfigError>)
    ensures
        r matches Err(e) ==> Some(e) == first_config_error(
            find_type@,
            size.deep_view(),
            regex.deep_view(),
            name.deep_view(),
            iname.deep_view(),
            depth,
        ),
        r matches Ok(f) ==> {
            &&& first_config_error(
                find_type@,
                size.deep_view(),
                regex.deep_view(),
                name.deep_view(),
                iname.deep_view(),
                depth,
            ) is None
            &&& f.wf()
            &&& f.config.dir == dir
            &&& Some(f.config.find_type) == type_token_of(find_type@)
            &&& (match size.deep_view() {
                Option::Some(s) => f.config.size_in_bytes == Some(spec_size_type(s)),
                Option::None => f.config.size_in_bytes is None,
            })
            &&& Ok::<Option<Seq<char>>, ConfigError>(matcher_view(f.config.matcher))
                == matcher_spec(regex.deep_view(), name.deep_view(), iname.deep_view())
            &&& f.config.depth == depth
            &&& f.depth == 0
            &&& f.matches.deep_view() == walk_spec(f.config, dir@, *root, 0).0
            &&& f.diagnostics.deep_view() == walk_spec(f.config, dir@, *root, 0).1
        },
{
    let cfg = match Config::parse(dir, find_type, size, name, iname, regex, depth) {
        Ok(c) => c,
        Err(e) => {
            return Err(e);
        },
    };
    let root_path = String::from_str(cfg.dir.as_str());
    let mut f = Find::new(cfg);
    f.run(root_path.as_str(), root);
    proof {
        assert(f.matches.deep_view() =~= walk_spec(f.config, root_path@, *root, 0).0);
        assert(f.diagnostics.deep_view() =~= walk_spec(f.config, root_path@, *root, 0).1);
    }
    Ok(f)
}

} // verus!
