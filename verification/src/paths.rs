//! Pure path logic over plain strings. A path is a sequence of characters;
//! `/` separates its components. The parent of a path is everything before
//! its last separator, and the chain of a directory is the set of
//! directories that creating it with all its ancestors brings into being.

use vstd::prelude::*;
use vstd::string::*;

verus! {

/// True when `p` holds at least one separator, i.e. has a directory component.
pub open spec fn has_sep(p: Seq<char>) -> bool {
    exists|i: int| 0 <= i < p.len() && p[i] == '/'
}

/// The index of the last separator in `p`, or -1 when there is none.
pub open spec fn last_sep(p: Seq<char>) -> int
    decreases p.len(),
{
    if p.len() == 0 {
        -1
    } else if p[p.len() - 1] == '/' {
        p.len() - 1
    } else {
        last_sep(p.drop_last())
    }
}

/// `last_sep` finds the last separator exactly: it is a separator position,
/// and no later position holds one.
pub proof fn lemma_last_sep(p: Seq<char>)
    ensures
        -1 <= last_sep(p) < p.len(),
        has_sep(p) <==> last_sep(p) >= 0,
        has_sep(p) ==> p[last_sep(p)] == '/',
        forall|j: int| last_sep(p) < j < p.len() ==> p[j] != '/',
    decreases p.len(),
{
    if p.len() == 0 {
        assert(!has_sep(p));
    } else if p[p.len() - 1] == '/' {
        assert(has_sep(p));
    } else {
        let q = p.drop_last();
        lemma_last_sep(q);
        assert(forall|j: int| 0 <= j < q.len() ==> p[j] == q[j]);
        if has_sep(p) {
            let i = choose|i: int| 0 <= i < p.len() && p[i] == '/';
            assert(q[i] == '/');
            assert(has_sep(q));
        }
        if has_sep(q) {
            let i = choose|i: int| 0 <= i < q.len() && q[i] == '/';
            assert(p[i] == '/');
            assert(has_sep(p));
        }
        assert forall|j: int| last_sep(p) < j < p.len() implies p[j] != '/' by {
            if j < q.len() {
                assert(p[j] == q[j]);
            }
        }
    }
}

/// True when `p` is the filesystem root, a single separator.
pub open spec fn is_root(p: Seq<char>) -> bool {
    p == seq!['/']
}

/// The parent directory of `p`: everything before the last separator, the
/// root when the last separator is the first character, and nothing when
/// `p` is a bare name without a directory component.
pub open spec fn parent_spec(p: Seq<char>) -> Option<Seq<char>> {
    if !has_sep(p) {
        None
    } else if last_sep(p) == 0 {
        Some(seq!['/'])
    } else {
        Some(p.subrange(0, last_sep(p)))
    }
}

/// `q` lies on the directory chain of `d`: it is `d` itself, or a proper
/// prefix of `d` that ends right before a separator.
pub open spec fn is_chain_prefix(d: Seq<char>, q: Seq<char>) -> bool {
    0 < q.len() && (q == d || (q.len() < d.len() && q == d.subrange(0, q.len() as int) && d[q.len() as int]
        == '/'))
}

/// Every directory that creating `d` together with its missing ancestors
/// brings into being: `d` and each ancestor on its chain.
pub open spec fn dir_chain(d: Seq<char>) -> Set<Seq<char>> {
    Set::new(|q: Seq<char>| is_chain_prefix(d, q))
}

/// The directory chain relation is transitive: an ancestor of an ancestor
/// of `d` is an ancestor of `d`.
pub proof fn lemma_chain_prefix_trans(d: Seq<char>, q: Seq<char>, r: Seq<char>)
    requires
        is_chain_prefix(d, q),
        is_chain_prefix(q, r),
    ensures
        is_chain_prefix(d, r),
{
    if q == d || r == q {
    } else {
        assert(q == d.subrange(0, q.len() as int));
        assert(r == q.subrange(0, r.len() as int));
        assert(r =~= d.subrange(0, r.len() as int));
        assert(d[r.len() as int] == q[r.len() as int]);
    }
}

/// `base` with `name` appended under it as one more component.
pub open spec fn joined(base: Seq<char>, name: Seq<char>) -> Seq<char> {
    base + seq!['/'] + name
}

/// The fixed namespace segment under which this application keeps its data.
pub open spec fn app_namespace() -> Seq<char> {
    "task-manager"@
}

/// The application data directory under a given platform data root.
pub open spec fn app_dir_of(root: Seq<char>) -> Seq<char> {
    joined(root, app_namespace())
}

/// The application namespace segment, as a value callers can pass around.
pub fn app_namespace_segment() -> (r: String)
    ensures
        r@ == app_namespace(),
{
    String::from_str("task-manager")
}

/// Compares two strings character by character.
pub fn str_eq(a: &str, b: &str) -> (r: bool)
    ensures
        r == (a@ == b@),
{
    let n = a.unicode_len();
    if n != b.unicode_len() {
        return false;
    }
    let mut i: usize = 0;
    while i < n
        invariant
            n == a@.len(),
            n == b@.len(),
            0 <= i <= n,
            forall|j: int| 0 <= j < i ==> a@[j] == b@[j],
        decreases n - i,
    {
        if a.get_char(i) != b.get_char(i) {
            return false;
        }
        i += 1;
    }
    proof {
        assert(a@ =~= b@);
    }
    true
}

/// The parent directory of `path`, or nothing for a bare file name.
pub fn parent_of(path: &str) -> (r: Option<String>)
    ensures
        match r {
            Some(d) => parent_spec(path@) == Some(d@),
            None => parent_spec(path@) is None,
        },
{
    let n = path.unicode_len();
    let mut found: Option<usize> = None;
    let mut i: usize = 0;
    while i < n
        invariant
            n == path@.len(),
            0 <= i <= n,
            match found {
                Some(k) => k < i && path@[k as int] == '/' && (forall|j: int|
                    k < j < i ==> path@[j] != '/'),
                None => forall|j: int| 0 <= j < i ==> path@[j] != '/',
            },
        decreases n - i,
    {
        if path.get_char(i) == '/' {
            found = Some(i);
        }
        i += 1;
    }
    match found {
        None => {
            proof {
                assert(!has_sep(path@));
            }
            None
        }
        Some(k) => {
            proof {
                lemma_last_sep(path@);
                assert(path@[k as int] == '/');
                assert(has_sep(path@));
                assert(last_sep(path@) == k);
            }
            if k == 0 {
                let s = String::from_str("/");
                proof {
                    reveal_strlit("/");
                    assert(s@ =~= seq!['/']);
                }
                Some(s)
            } else {
                let d = path.substring_char(0, k);
                Some(d.to_owned())
            }
        }
    }
}

/// `path` lies under `base`: it is `base` itself, or `base` is an ancestor
/// on its directory chain. A caller that confines writes to a base
/// directory, the resolved application data directory say, tests this
/// before saving; the writer itself trusts its caller with the path.
pub fn is_under(base: &str, path: &str) -> (r: bool)
    ensures
        r == is_chain_prefix(path@, base@),
{
    let nb = base.unicode_len();
    let np = path.unicode_len();
    if nb == 0 || nb > np {
        return false;
    }
    let mut i: usize = 0;
    while i < nb
        invariant
            nb == base@.len(),
            np == path@.len(),
            nb <= np,
            0 <= i <= nb,
            forall|j: int| 0 <= j < i ==> base@[j] == path@[j],
        decreases nb - i,
    {
        if base.get_char(i) != path.get_char(i) {
            proof {
                assert(base@ != path@.subrange(0, nb as int) && base@ != path@);
            }
            return false;
        }
        i += 1;
    }
    proof {
        assert(base@ =~= path@.subrange(0, nb as int));
    }
    if nb == np {
        proof {
            assert(base@ =~= path@);
        }
        true
    } else {
        path.get_char(nb) == '/'
    }
}

/// Joins `name` under `base` with a separator between them.
pub fn join_under(base: &str, name: &str) -> (r: String)
    ensures
        r@ == joined(base@, name@),
{
    let mut s = String::from_str(base);
    s.append("/");
    s.append(name);
    proof {
        reveal_strlit("/");
        assert(("/")@ =~= seq!['/']);
    }
    s
}

} // verus!
