//! The laws of the persistence layer, stated over the same views and spec
//! functions that the operations' contracts use. Each law relates the state
//! a contract leaves behind to what the next operation's contract then
//! promises.

use vstd::prelude::*;

use crate::paths::{app_dir_of, dir_chain, is_chain_prefix, lemma_last_sep, parent_spec};
use crate::store::FileSystem;

verus! {

/// Round trip: a successful save of `content` at `path` leaves exactly
/// `content` as the file's content, so a read of `path` returns it whole,
/// the empty content included.
pub proof fn lemma_save_then_read(
    fs: FileSystem,
    fs_after: FileSystem,
    path: Seq<char>,
    content: Seq<char>,
)
    requires
        fs_after.file_map() == fs.file_map().insert(path, content),
    ensures
        fs_after.file_exists(path),
        fs_after.file_map()[path] == content,
{
}

/// Overwrite: saving `c2` at a path that already holds `c1` succeeds in a
/// well-formed state and leaves only `c2` readable there.
pub proof fn lemma_overwrite(
    fs: FileSystem,
    fs_after: FileSystem,
    path: Seq<char>,
    c1: Seq<char>,
    c2: Seq<char>,
)
    requires
        fs.wf(),
        fs.file_exists(path),
        fs.file_map()[path] == c1,
        fs_after.file_map() == fs.file_map().insert(path, c2),
    ensures
        fs.save_ok(path),
        fs_after.file_exists(path),
        fs_after.file_map()[path] == c2,
{
    match parent_spec(path) {
        Some(d) => {
            assert(fs.dir_exists(d));
        },
        None => {},
    }
}

/// Directory auto-creation: a successful save to a path whose parent
/// directory was missing creates every directory on the parent's chain,
/// the parent itself included.
pub proof fn lemma_save_creates_chain(
    fs: FileSystem,
    fs_after: FileSystem,
    path: Seq<char>,
    d: Seq<char>,
)
    requires
        parent_spec(path) == Some(d),
        !fs.node_exists(d),
        fs_after.dir_set() == fs.dir_set().union(fs.save_creates(path)),
    ensures
        forall|q: Seq<char>| #[trigger] is_chain_prefix(d, q) ==> fs_after.dir_exists(q),
        fs_after.dir_exists(d),
{
    lemma_last_sep(path);
    assert(d.len() > 0);
    assert(is_chain_prefix(d, d));
    assert forall|q: Seq<char>| #[trigger] is_chain_prefix(d, q) implies fs_after.dir_exists(
        q,
    ) by {
        assert(dir_chain(d).contains(q));
    }
}

/// Idempotent resolution: after any successful resolution under `root`,
/// the application data directory exists as a directory, so a second
/// resolution under the same root finds it in place, succeeds with the
/// same path, and creates nothing.
pub proof fn lemma_resolve_idempotent(fs: FileSystem, fs_after: FileSystem, root: Seq<char>)
    requires
        fs.wf(),
        fs.dir_exists(app_dir_of(root)) || !fs.chain_blocked(app_dir_of(root)),
        fs_after.file_map() == fs.file_map(),
        fs_after.dir_set() == if fs.dir_exists(app_dir_of(root)) {
            fs.dir_set()
        } else {
            fs.dir_set().union(dir_chain(app_dir_of(root)))
        },
    ensures
        fs_after.dir_exists(app_dir_of(root)),
{
    let t = app_dir_of(root);
    assert(t.len() > 0);
    assert(is_chain_prefix(t, t));
    if !fs.dir_exists(t) {
        assert(dir_chain(t).contains(t));
    }
}

/// A file standing at the resolution target blocks it: in a well-formed
/// state the target is then no directory, and its chain cannot be created,
/// so the resolution fails with the directory-creation error rather than
/// handing out a path that holds no directory.
pub proof fn lemma_file_at_target_blocks_resolution(fs: FileSystem, root: Seq<char>)
    requires
        fs.wf(),
        fs.file_exists(app_dir_of(root)),
    ensures
        !fs.dir_exists(app_dir_of(root)),
        fs.chain_blocked(app_dir_of(root)),
{
    let t = app_dir_of(root);
    assert(t.len() > 0);
    assert(is_chain_prefix(t, t));
}

/// Bare filename save: a path without a directory component is saved
/// without creating any directory, and the save succeeds whenever no
/// directory of that name stands in the way.
pub proof fn lemma_bare_name_save(fs: FileSystem, path: Seq<char>)
    requires
        fs.wf(),
        parent_spec(path) is None,
        !fs.dir_exists(path),
    ensures
        fs.save_ok(path),
        fs.save_creates(path) == Set::<Seq<char>>::empty(),
{
}

} // verus!
