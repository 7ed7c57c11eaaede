//! The persistence model and its operations. A `FileSystem` holds the files
//! (a map from path to content) and the directories known to exist. The
//! operations carry the contracts of the persistence layer: saving creates
//! the missing parent chain and replaces any file at the path, reading
//! returns the whole content or fails, and resolving the application data
//! directory creates it under the platform data root.

use vstd::prelude::*;
use vstd::string::*;

use crate::errors::{FsError, IoOp};
use crate::paths::{
    dir_chain, is_chain_prefix, is_root, app_dir_of, app_namespace_segment, parent_spec, last_sep,
    lemma_last_sep, lemma_chain_prefix_trans, str_eq, parent_of, join_under,
};

verus! {

/// The file entries as a map from path to content; a later entry for the
/// same path replaces an earlier one.
spec fn map_of(entries: Seq<(String, String)>) -> Map<Seq<char>, Seq<char>>
    decreases entries.len(),
{
    if entries.len() == 0 {
        Map::empty()
    } else {
        map_of(entries.drop_last()).insert(entries.last().0@, entries.last().1@)
    }
}

/// The directory entries as a set of paths.
spec fn set_of(names: Seq<String>) -> Set<Seq<char>>
    decreases names.len(),
{
    if names.len() == 0 {
        Set::empty()
    } else {
        set_of(names.drop_last()).insert(names.last()@)
    }
}

proof fn lemma_map_of_contains(entries: Seq<(String, String)>, k: Seq<char>)
    ensures
        map_of(entries).contains_key(k) <==> exists|i: int|
            0 <= i < entries.len() && entries[i].0@ == k,
    decreases entries.len(),
{
    if entries.len() == 0 {
    } else {
        let q = entries.drop_last();
        lemma_map_of_contains(q, k);
        if entries.last().0@ == k {
            assert(entries[entries.len() - 1].0@ == k);
        } else {
            if map_of(entries).contains_key(k) {
                let i = choose|i: int| 0 <= i < q.len() && q[i].0@ == k;
                assert(entries[i].0@ == k);
            }
            if exists|i: int| 0 <= i < entries.len() && entries[i].0@ == k {
                let i = choose|i: int| 0 <= i < entries.len() && entries[i].0@ == k;
                assert(q[i].0@ == k);
            }
        }
    }
}

proof fn lemma_map_of_value(entries: Seq<(String, String)>, i: int, k: Seq<char>)
    requires
        0 <= i < entries.len(),
        entries[i].0@ == k,
        forall|j: int| i < j < entries.len() ==> entries[j].0@ != k,
    ensures
        map_of(entries).contains_key(k),
        map_of(entries)[k] == entries[i].1@,
    decreases entries.len(),
{
    let q = entries.drop_last();
    if i == entries.len() - 1 {
    } else {
        assert(entries[entries.len() - 1].0@ != k);
        assert(q[i].0@ == k);
        assert(forall|j: int| i < j < q.len() ==> q[j].0@ == entries[j].0@);
        lemma_map_of_value(q, i, k);
    }
}

proof fn lemma_map_of_push(entries: Seq<(String, String)>, e: (String, String))
    ensures
        map_of(entries.push(e)) == map_of(entries).insert(e.0@, e.1@),
{
    assert(entries.push(e).drop_last() =~= entries);
    assert(entries.push(e).last() == e);
}

proof fn lemma_set_of_contains(names: Seq<String>, k: Seq<char>)
    ensures
        set_of(names).contains(k) <==> exists|i: int| 0 <= i < names.len() && names[i]@ == k,
    decreases names.len(),
{
    if names.len() == 0 {
    } else {
        let q = names.drop_last();
        lemma_set_of_contains(q, k);
        if names.last()@ == k {
            assert(names[names.len() - 1]@ == k);
        } else {
            if set_of(names).contains(k) {
                let i = choose|i: int| 0 <= i < q.len() && q[i]@ == k;
                assert(names[i]@ == k);
            }
            if exists|i: int| 0 <= i < names.len() && names[i]@ == k {
                let i = choose|i: int| 0 <= i < names.len() && names[i]@ == k;
                assert(q[i]@ == k);
            }
        }
    }
}

proof fn lemma_set_of_push(names: Seq<String>, x: String)
    ensures
        set_of(names.push(x)) == set_of(names).insert(x@),
{
    assert(names.push(x).drop_last() =~= names);
    assert(names.push(x).last() == x);
}

/// Relies on dirs::data_local_dir: the conventional per-user local data
/// root, if the platform supplies one. The outcome depends on the host
/// environment, so nothing is promised of it; the inner level reports
/// whether the path was valid text.
#[verifier::external_body]
fn platform_data_root() -> (r: Option<Option<String>>) {
    match dirs::data_local_dir() {
        None => None,
        Some(p) => Some(p.to_str().map(|s| s.to_string())),
    }
}

/// The state of the modelled filesystem: which files hold which content,
/// and which directories exist.
pub struct FileSystem {
    files: Vec<(String, String)>,
    dirs: Vec<String>,
}

impl FileSystem {
    /// The files: a map from path to content.
    pub closed spec fn file_map(self) -> Map<Seq<char>, Seq<char>> {
        map_of(self.files@)
    }

    /// The directories known to exist, the root aside.
    pub closed spec fn dir_set(self) -> Set<Seq<char>> {
        set_of(self.dirs@)
    }

    /// A file stands at `p`.
    pub open spec fn file_exists(self, p: Seq<char>) -> bool {
        self.file_map().contains_key(p)
    }

    /// A directory stands at `p`; the root always exists.
    pub open spec fn dir_exists(self, p: Seq<char>) -> bool {
        is_root(p) || self.dir_set().contains(p)
    }

    /// Something stands at `p`, file or directory.
    pub open spec fn node_exists(self, p: Seq<char>) -> bool {
        self.file_exists(p) || self.dir_exists(p)
    }

    /// Well-formed: no path is both a file and a directory, the directories
    /// are closed under their ancestor chains, and every file's parent
    /// directory exists.
    pub open spec fn wf(self) -> bool {
        &&& forall|p: Seq<char>| #[trigger] self.file_exists(p) ==> !self.dir_exists(p)
        &&& forall|d: Seq<char>, q: Seq<char>|
            self.dir_set().contains(d) && #[trigger] is_chain_prefix(d, q)
                ==> self.dir_set().contains(q)
        &&& forall|p: Seq<char>| #[trigger] self.file_exists(p) ==> match parent_spec(p) {
            Some(d) => self.dir_exists(d),
            None => true,
        }
    }

    /// An empty filesystem: no files, no directories beyond the root.
    pub fn new() -> (r: Self)
        ensures
            r.file_map() == Map::<Seq<char>, Seq<char>>::empty(),
            r.dir_set() == Set::<Seq<char>>::empty(),
            r.wf(),
    {
        FileSystem { files: Vec::new(), dirs: Vec::new() }
    }

    /// The index of the last entry for `path`, which holds its content.
    fn find_file(&self, path: &str) -> (r: Option<usize>)
        ensures
            match r {
                Some(i) => {
                    &&& i < self.files@.len()
                    &&& self.files@[i as int].0@ == path@
                    &&& self.file_exists(path@)
                    &&& self.file_map()[path@] == self.files@[i as int].1@
                },
                None => !self.file_exists(path@),
            },
    {
        let n = self.files.len();
        let mut i: usize = n;
        while i > 0
            invariant
                i <= n,
                n == self.files@.len(),
                forall|j: int| i <= j < n ==> self.files@[j].0@ != path@,
            decreases i,
        {
            i -= 1;
            if str_eq(self.files[i].0.as_str(), path) {
                proof {
                    lemma_map_of_value(self.files@, i as int, path@);
                }
                return Some(i);
            }
        }
        proof {
            lemma_map_of_contains(self.files@, path@);
        }
        None
    }

    /// Does a file stand at `path`?
    pub fn has_file(&self, path: &str) -> (r: bool)
        ensures
            r == self.file_exists(path@),
    {
        self.find_file(path).is_some()
    }

    /// Does a directory stand at `path`?
    pub fn has_dir(&self, path: &str) -> (r: bool)
        ensures
            r == self.dir_exists(path@),
    {
        if path.unicode_len() == 1 && path.get_char(0) == '/' {
            proof {
                assert(path@ =~= seq!['/']);
            }
            return true;
        }
        let n = self.dirs.len();
        let mut i: usize = 0;
        while i < n
            invariant
                i <= n,
                n == self.dirs@.len(),
                forall|j: int| 0 <= j < i ==> self.dirs@[j]@ != path@,
            decreases n - i,
        {
            if str_eq(self.dirs[i].as_str(), path) {
                proof {
                    lemma_set_of_contains(self.dirs@, path@);
                }
                return true;
            }
            i += 1;
        }
        proof {
            lemma_set_of_contains(self.dirs@, path@);
            if is_root(path@) {
                assert(path@.len() == 1 && path@[0] == '/');
            }
        }
        false
    }

    /// Does anything stand at `path`?
    pub fn has_node(&self, path: &str) -> (r: bool)
        ensures
            r == self.node_exists(path@),
    {
        self.has_file(path) || self.has_dir(path)
    }

    /// A file occupies `d` or an ancestor of `d`, so the directory chain of
    /// `d` cannot be created.
    pub open spec fn chain_blocked(self, d: Seq<char>) -> bool {
        exists|q: Seq<char>| #[trigger] is_chain_prefix(d, q) && self.file_exists(q)
    }

    /// Scans the chain of `d` for a file standing in its way.
    fn chain_conflict(&self, d: &str) -> (r: bool)
        requires
            d@.len() > 0,
        ensures
            r == self.chain_blocked(d@),
    {
        if self.has_file(d) {
            proof {
                assert(is_chain_prefix(d@, d@));
            }
            return true;
        }
        let n = d.unicode_len();
        let mut i: usize = 1;
        while i < n
            invariant
                1 <= i,
                i <= n,
                n == d@.len(),
                !self.file_exists(d@),
                forall|q: Seq<char>|
                    #[trigger] is_chain_prefix(d@, q) && q.len() < i ==> !self.file_exists(q),
            decreases n - i,
        {
            if d.get_char(i) == '/' {
                let pre = d.substring_char(0, i);
                if self.has_file(pre) {
                    proof {
                        assert(pre@ == d@.subrange(0, i as int));
                        assert(is_chain_prefix(d@, pre@));
                    }
                    return true;
                }
            }
            i += 1;
            proof {
                assert forall|q: Seq<char>|
                    #[trigger] is_chain_prefix(d@, q) && q.len() < i implies !self.file_exists(
                    q,
                ) by {
                    if q.len() == i - 1 {
                        assert(q == d@.subrange(0, (i - 1) as int));
                    }
                }
            }
        }
        proof {
            assert forall|q: Seq<char>| #[trigger] is_chain_prefix(d@, q) implies !self
                .file_exists(q) by {
                if q.len() < n {
                }
            }
        }
        false
    }

    /// Creates the directory `d` together with every missing ancestor on
    /// its chain; fails, changing nothing, when a file stands in the way.
    fn create_dir_all(&mut self, d: &str) -> (r: Result<(), FsError>)
        requires
            old(self).wf(),
            d@.len() > 0,
        ensures
            final(self).wf(),
            final(self).file_map() == old(self).file_map(),
            match r {
                Ok(_) => {
                    &&& !old(self).chain_blocked(d@)
                    &&& final(self).dir_set() == old(self).dir_set().union(dir_chain(d@))
                },
                Err(e) => {
                    &&& old(self).chain_blocked(d@)
                    &&& final(self).dir_set() == old(self).dir_set()
                    &&& e matches FsError::Io(op, cause) && op == IoOp::CreateDirectory && cause@
                        == "a file stands in the way"@
                },
            },
    {
        if self.chain_conflict(d) {
            return Err(
                FsError::Io(IoOp::CreateDirectory, String::from_str("a file stands in the way")),
            );
        }
        let n = d.unicode_len();
        let mut i: usize = 1;
        while i < n
            invariant
                1 <= i,
                i <= n,
                n == d@.len(),
                self.files@ == old(self).files@,
                self.dir_set() == old(self).dir_set().union(
                    Set::new(|q: Seq<char>| is_chain_prefix(d@, q) && q.len() < i),
                ),
            decreases n - i,
        {
            if d.get_char(i) == '/' {
                let pre = d.substring_char(0, i);
                let owned = pre.to_owned();
                let ghost prev = self.dirs@;
                let ghost x = owned;
                self.dirs.push(owned);
                proof {
                    lemma_set_of_push(prev, x);
                    assert(self.dir_set() == set_of(prev).insert(d@.subrange(0, i as int)));
                }
            }
            i += 1;
            proof {
                assert(self.dir_set() =~= old(self).dir_set().union(
                    Set::new(|q: Seq<char>| is_chain_prefix(d@, q) && q.len() < i),
                ));
            }
        }
        let owned = String::from_str(d);
        let ghost prev = self.dirs@;
        let ghost x = owned;
        self.dirs.push(owned);
        proof {
            lemma_set_of_push(prev, x);
            assert(self.dir_set() == set_of(prev).insert(d@));
            assert(is_chain_prefix(d@, d@));
            assert(self.dir_set() =~= old(self).dir_set().union(dir_chain(d@)));
            assert forall|dd: Seq<char>, q: Seq<char>|
                self.dir_set().contains(dd) && #[trigger] is_chain_prefix(dd, q) implies self
                .dir_set().contains(q) by {
                if !old(self).dir_set().contains(dd) {
                    assert(is_chain_prefix(d@, dd));
                    lemma_chain_prefix_trans(d@, dd, q);
                }
            }
            assert forall|p: Seq<char>| #[trigger] self.file_exists(p) implies !self.dir_exists(
                p,
            ) by {
                assert(old(self).file_exists(p));
                assert(!old(self).dir_exists(p));
                if dir_chain(d@).contains(p) {
                    assert(is_chain_prefix(d@, p));
                    assert(old(self).chain_blocked(d@));
                }
            }
            assert forall|p: Seq<char>| #[trigger] self.file_exists(p) implies match parent_spec(
                p,
            ) {
                Some(dd) => self.dir_exists(dd),
                None => true,
            } by {
                assert(old(self).file_exists(p));
                match parent_spec(p) {
                    Some(dd) => {
                        assert(old(self).dir_exists(dd));
                        assert(self.dir_set().contains(dd) || is_root(dd));
                    }
                    None => {}
                }
            }
        }
        Ok(())
    }

    /// The parent chain of `path` cannot be created: the parent is missing
    /// and a file occupies part of its chain.
    pub open spec fn dir_creation_blocked(self, path: Seq<char>) -> bool {
        match parent_spec(path) {
            None => false,
            Some(d) => !self.node_exists(d) && self.chain_blocked(d),
        }
    }

    /// No file can be created at `path`: a directory already stands there,
    /// or its parent exists as a file rather than a directory.
    pub open spec fn file_creation_blocked(self, path: Seq<char>) -> bool {
        self.dir_exists(path) || match parent_spec(path) {
            None => false,
            Some(d) => self.file_exists(d),
        }
    }

    /// A save to `path` succeeds: nothing blocks the parent chain and
    /// nothing blocks the file itself.
    pub open spec fn save_ok(self, path: Seq<char>) -> bool {
        !self.dir_creation_blocked(path) && !self.file_creation_blocked(path)
    }

    /// The directories that a successful save to `path` brings into being:
    /// the chain of the parent when it is missing, and nothing otherwise.
    pub open spec fn save_creates(self, path: Seq<char>) -> Set<Seq<char>> {
        match parent_spec(path) {
            None => Set::empty(),
            Some(d) => if self.node_exists(d) {
                Set::empty()
            } else {
                dir_chain(d)
            },
        }
    }

    /// Saves `content` at `file_path`: creates the missing parent chain,
    /// then writes the file, replacing in full whatever file stood there.
    /// On failure nothing changes, and the error names the operation that
    /// failed: the directory creation when the chain is blocked, else the
    /// file creation.
    pub fn save_text_file(&mut self, content: &str, file_path: &str) -> (r: Result<(), FsError>)
        requires
            old(self).wf(),
        ensures
            final(self).wf(),
            match r {
                Ok(_) => {
                    &&& old(self).save_ok(file_path@)
                    &&& final(self).file_map() == old(self).file_map().insert(
                        file_path@,
                        content@,
                    )
                    &&& final(self).dir_set() == old(self).dir_set().union(
                        old(self).save_creates(file_path@),
                    )
                },
                Err(e) => {
                    &&& !old(self).save_ok(file_path@)
                    &&& final(self).file_map() == old(self).file_map()
                    &&& final(self).dir_set() == old(self).dir_set()
                    &&& (old(self).dir_creation_blocked(file_path@) ==> (e matches FsError::Io(
                        op,
                        c,
                    ) && op == IoOp::CreateDirectory && c@ == "a file stands in the way"@))
                    &&& (!old(self).dir_creation_blocked(file_path@) ==> (e matches FsError::Io(
                        op,
                        c,
                    ) && op == IoOp::CreateFile && c@ == (if old(self).dir_exists(file_path@) {
                        "the path is a directory"@
                    } else {
                        "the parent path is not a directory"@
                    })))
                },
            },
    {
        let parent = parent_of(file_path);
        if self.has_dir(file_path) {
            proof {
                lemma_last_sep(file_path@);
                match parent_spec(file_path@) {
                    Some(dd) => {
                        if self.dir_set().contains(file_path@) && last_sep(file_path@) >= 1 {
                            assert(is_chain_prefix(file_path@, dd));
                            assert(self.dir_set().contains(dd));
                        }
                    }
                    None => {}
                }
            }
            return Err(FsError::Io(IoOp::CreateFile, String::from_str("the path is a directory")));
        }
        match &parent {
            Some(dname) => {
                if self.has_file(dname.as_str()) {
                    return Err(
                        FsError::Io(
                            IoOp::CreateFile,
                            String::from_str("the parent path is not a directory"),
                        ),
                    );
                }
                if !self.has_node(dname.as_str()) {
                    proof {
                        lemma_last_sep(file_path@);
                    }
                    match self.create_dir_all(dname.as_str()) {
                        Ok(_) => {}
                        Err(e) => {
                            return Err(e);
                        }
                    }
                }
            }
            None => {}
        }
        let ghost s1 = *self;
        let pair = (file_path.to_owned(), content.to_owned());
        let ghost prev = self.files@;
        let ghost e = pair;
        self.files.push(pair);
        proof {
            lemma_map_of_push(prev, e);
            lemma_last_sep(file_path@);
            assert(self.file_map() == s1.file_map().insert(file_path@, content@));
            assert(self.dir_set() == s1.dir_set());
            match parent_spec(file_path@) {
                Some(dd) => {
                    if !old(self).node_exists(dd) {
                        assert(s1.dir_set() == old(self).dir_set().union(dir_chain(dd)));
                        assert(dd.len() < file_path@.len());
                    } else {
                        assert(s1.dir_set() =~= old(self).dir_set().union(
                            old(self).save_creates(file_path@),
                        ));
                    }
                }
                None => {
                    assert(s1.dir_set() =~= old(self).dir_set().union(
                        old(self).save_creates(file_path@),
                    ));
                }
            }
            assert forall|p: Seq<char>| #[trigger] self.file_exists(p) implies !self.dir_exists(
                p,
            ) by {
                if p == file_path@ {
                    assert(!old(self).dir_exists(p));
                    match parent_spec(file_path@) {
                        Some(dd) => {
                            if !old(self).node_exists(dd) {
                                if dir_chain(dd).contains(p) {
                                    assert(is_chain_prefix(dd, p));
                                }
                            }
                        }
                        None => {}
                    }
                } else {
                    assert(s1.file_exists(p));
                    assert(!s1.dir_exists(p));
                }
            }
            assert forall|p: Seq<char>| #[trigger] self.file_exists(p) implies match parent_spec(
                p,
            ) {
                Some(dd) => self.dir_exists(dd),
                None => true,
            } by {
                if p == file_path@ {
                    match parent_spec(p) {
                        Some(dd) => {
                            if !old(self).node_exists(dd) {
                                assert(is_chain_prefix(dd, dd));
                                assert(s1.dir_set().contains(dd));
                            } else {
                                assert(!old(self).file_exists(dd));
                                assert(old(self).dir_exists(dd));
                            }
                        }
                        None => {}
                    }
                } else {
                    assert(s1.file_exists(p));
                }
            }
            assert forall|dd: Seq<char>, q: Seq<char>|
                self.dir_set().contains(dd) && #[trigger] is_chain_prefix(dd, q) implies self
                .dir_set().contains(q) by {
                assert(s1.dir_set().contains(dd));
            }
        }
        Ok(())
    }

    /// Resolves the application data directory under the supplied platform
    /// data root and makes sure it exists as a directory, so that callers
    /// may place files under it at once. `platform_root` reports what the
    /// platform gave: no root at all, a root that is not valid text, or the
    /// root path itself. The directory, the fixed application namespace
    /// under the root, is created with its chain when it is missing; a
    /// second call finds it in place and creates nothing. A file standing
    /// at the target or on its chain blocks the creation and fails the
    /// resolution.
    pub fn resolve_app_data_dir(&mut self, platform_root: Option<Option<String>>) -> (r: Result<
        String,
        FsError,
    >)
        requires
            old(self).wf(),
        ensures
            final(self).wf(),
            final(self).file_map() == old(self).file_map(),
            match platform_root {
                None => {
                    &&& final(self).dir_set() == old(self).dir_set()
                    &&& r matches Err(e) && e matches FsError::Platform(c) && c@
                        == "no data directory"@
                },
                Some(None) => {
                    &&& final(self).dir_set() == old(self).dir_set()
                    &&& r matches Err(e) && e matches FsError::Encoding(c) && c@
                        == "the platform path is not valid text"@
                },
                Some(Some(root)) => {
                    let target = app_dir_of(root@);
                    if old(self).dir_exists(target) {
                        &&& final(self).dir_set() == old(self).dir_set()
                        &&& r matches Ok(s) && s@ == target
                    } else if old(self).chain_blocked(target) {
                        &&& final(self).dir_set() == old(self).dir_set()
                        &&& r matches Err(e) && e matches FsError::Io(op, c) && op
                            == IoOp::CreateDirectory && c@ == "a file stands in the way"@
                    } else {
                        &&& final(self).dir_set() == old(self).dir_set().union(dir_chain(target))
                        &&& r matches Ok(s) && s@ == target
                    }
                },
            },
            r matches Ok(s) ==> final(self).dir_exists(s@),
    {
        match platform_root {
            None => Err(FsError::Platform(String::from_str("no data directory"))),
            Some(inner) => {
                match inner {
                    None => Err(
                        FsError::Encoding(String::from_str("the platform path is not valid text")),
                    ),
                    Some(root) => {
                        let segment = app_namespace_segment();
                        let target = join_under(root.as_str(), segment.as_str());
                        if !self.has_dir(target.as_str()) {
                            match self.create_dir_all(target.as_str()) {
                                Ok(_) => {}
                                Err(e) => {
                                    return Err(e);
                                }
                            }
                        }
                        proof {
                            assert(is_chain_prefix(target@, target@));
                        }
                        Ok(target)
                    }
                }
            }
        }
    }

    /// Resolves the application data directory under the data root that the
    /// host platform reports for the current user, creating it if it is
    /// missing. The platform decides the root, so the contract promises
    /// what holds of every outcome: the files are untouched, no directory
    /// is lost, and a returned path exists as a directory, ready to hold
    /// files.
    pub fn get_app_data_dir(&mut self) -> (r: Result<String, FsError>)
        requires
            old(self).wf(),
        ensures
            final(self).wf(),
            final(self).file_map() == old(self).file_map(),
            old(self).dir_set().subset_of(final(self).dir_set()),
            r matches Ok(s) ==> final(self).dir_exists(s@),
    {
        let root = platform_data_root();
        self.resolve_app_data_dir(root)
    }

    /// Reads the whole content of the file at `file_path`; fails, and never
    /// reports an empty success, when no file stands there.
    pub fn read_text_file(&self, file_path: &str) -> (r: Result<String, FsError>)
        ensures
            match r {
                Ok(c) => self.file_exists(file_path@) && c@ == self.file_map()[file_path@],
                Err(e) => {
                    &&& !self.file_exists(file_path@)
                    &&& e matches FsError::Io(op, cause) && op == IoOp::ReadFile && cause@
                        == "no such file"@
                },
            },
    {
        match self.find_file(file_path) {
            Some(i) => Ok(self.files[i].1.clone()),
            None => Err(FsError::Io(IoOp::ReadFile, String::from_str("no such file"))),
        }
    }
}

} // verus!
