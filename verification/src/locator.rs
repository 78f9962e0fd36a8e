//! Profile discovery: turning the catalog's candidate roots into concrete
//! profile directories on the host.
//!
//! A directory is a profile exactly when it directly holds a file named
//! `Preferences`; that predicate is the sole signal separating a profile
//! from a directory that merely contains profiles. Discovery is tolerant by
//! design: a root that cannot be resolved or read is skipped silently and
//! never aborts the walk.

use crate::catalog::{all_browsers, spec_all_browsers, spec_profile_root, Browser, Platform};
use crate::probe;
use vstd::prelude::*;
use vstd::string::StringExecFns;

verus! {

/// The path of entry `name` directly under directory `dir`.
pub open spec fn spec_join(dir: Seq<char>, name: Seq<char>) -> Seq<char> {
    dir + "/"@ + name
}

/// Joins a directory and an entry name with a path separator.
pub fn join(dir: &str, name: &str) -> (r: String)
    ensures
        r@ == spec_join(dir@, name@),
{
    let mut r = dir.to_owned();
    r.append("/");
    r.append(name);
    proof {
        assert(r@ =~= spec_join(dir@, name@));
    }
    r
}

/// `p` lies at or directly under `root`: it is `root` itself, or `root`
/// followed by a separator and an entry name.
pub open spec fn under_root(p: Seq<char>, root: Seq<char>) -> bool {
    ||| p == root
    ||| (p.len() > root.len() && p.subrange(0, root.len() as int) == root && p[root.len() as int]
        == '/')
}

/// A joined path lies directly under the directory it was joined from.
pub proof fn lemma_join_under_root(dir: Seq<char>, name: Seq<char>)
    ensures
        under_root(spec_join(dir, name), dir),
{
    reveal_strlit("/");
    let p = spec_join(dir, name);
    assert(p.subrange(0, dir.len() as int) =~= dir);
    assert(p[dir.len() as int] == '/');
}

/// `p` lies at or directly under one of the paths in `roots`.
pub open spec fn under_some_root(p: Seq<char>, roots: Seq<String>) -> bool {
    exists|j: int| 0 <= j < roots.len() && under_root(p, #[trigger] roots[j]@)
}

/// The view of a sequence of paths as character sequences.
pub open spec fn paths_view(s: Seq<String>) -> Seq<Seq<char>> {
    s.map_values(|x: String| x@)
}

/// The entries of `names` whose flag in `keep` holds, joined below `root`,
/// in enumeration order.
pub open spec fn kept_joined(root: Seq<char>, names: Seq<Seq<char>>, keep: Seq<bool>) -> Seq<
    Seq<char>,
>
    decreases names.len(),
{
    if names.len() == 0 || keep.len() != names.len() {
        Seq::empty()
    } else {
        let rest = kept_joined(root, names.drop_last(), keep.drop_last());
        if keep.last() {
            rest.push(spec_join(root, names.last()))
        } else {
            rest
        }
    }
}

/// The profiles one readable root contributes, given the entry names its
/// directory listing yielded and the profile-predicate verdict for each
/// joined entry (`keep`) and for the root itself (`keep_root`): the kept
/// entries joined below the root, in enumeration order, then the root
/// itself when its own verdict holds.
pub open spec fn spec_root_profiles(
    root: Seq<char>,
    names: Seq<Seq<char>>,
    keep: Seq<bool>,
    keep_root: bool,
) -> Seq<Seq<char>> {
    kept_joined(root, names, keep) + if keep_root {
        seq![root]
    } else {
        Seq::empty()
    }
}

proof fn lemma_kept_joined_under(root: Seq<char>, names: Seq<Seq<char>>, keep: Seq<bool>)
    ensures
        forall|j: int|
            0 <= j < kept_joined(root, names, keep).len() ==> under_root(
                #[trigger] kept_joined(root, names, keep)[j],
                root,
            ),
    decreases names.len(),
{
    if names.len() > 0 && keep.len() == names.len() {
        let rest = kept_joined(root, names.drop_last(), keep.drop_last());
        lemma_kept_joined_under(root, names.drop_last(), keep.drop_last());
        if keep.last() {
            lemma_join_under_root(root, names.last());
        }
        assert forall|j: int| 0 <= j < kept_joined(root, names, keep).len() implies under_root(
            #[trigger] kept_joined(root, names, keep)[j],
            root,
        ) by {
            if j < rest.len() {
                assert(kept_joined(root, names, keep)[j] == rest[j]);
            }
        }
    }
}

/// Everything a root contributes lies at or directly under that root.
pub proof fn lemma_root_profiles_under(
    root: Seq<char>,
    names: Seq<Seq<char>>,
    keep: Seq<bool>,
    keep_root: bool,
)
    ensures
        forall|j: int|
            0 <= j < spec_root_profiles(root, names, keep, keep_root).len() ==> under_root(
                #[trigger] spec_root_profiles(root, names, keep, keep_root)[j],
                root,
            ),
{
    lemma_kept_joined_under(root, names, keep);
}

/// Selects the profiles one root contributes, from the listed entry names
/// and the verdict of the profile predicate on each joined entry and on the
/// root itself.
pub fn collect_profiles(root: &str, names: &Vec<String>, keep: &Vec<bool>, keep_root: bool) -> (r:
    Vec<String>)
    requires
        keep@.len() == names@.len(),
    ensures
        paths_view(r@) == spec_root_profiles(root@, paths_view(names@), keep@, keep_root),
{
    let mut r: Vec<String> = Vec::new();
    let mut k: usize = 0;
    proof {
        assert(paths_view(r@) =~= kept_joined(
            root@,
            paths_view(names@).subrange(0, 0),
            keep@.subrange(0, 0),
        ));
    }
    while k < names.len()
        invariant
            keep@.len() == names@.len(),
            k <= names@.len(),
            paths_view(r@) == kept_joined(
                root@,
                paths_view(names@).subrange(0, k as int),
                keep@.subrange(0, k as int),
            ),
        decreases names.len() - k,
    {
        let ghost prev_names = paths_view(names@).subrange(0, k as int);
        let ghost prev_keep = keep@.subrange(0, k as int);
        let ghost next_names = paths_view(names@).subrange(0, k as int + 1);
        let ghost next_keep = keep@.subrange(0, k as int + 1);
        proof {
            assert(next_names.drop_last() =~= prev_names);
            assert(next_keep.drop_last() =~= prev_keep);
            assert(next_names.last() == names@[k as int]@);
        }
        if keep[k] {
            let p = join(root, names[k].as_str());
            let ghost gp = p@;
            r.push(p);
            proof {
                assert(paths_view(r@) =~= paths_view(r@.drop_last()).push(gp));
            }
        }
        k = k + 1;
    }
    proof {
        assert(paths_view(names@).subrange(0, names@.len() as int) =~= paths_view(names@));
        assert(keep@.subrange(0, keep@.len() as int) =~= keep@);
    }
    if keep_root {
        let own = root.to_owned();
        let ghost gown = own@;
        r.push(own);
        proof {
            assert(paths_view(r@) =~= paths_view(r@.drop_last()).push(gown));
            assert(paths_view(r@) =~= spec_root_profiles(
                root@,
                paths_view(names@),
                keep@,
                keep_root,
            ));
        }
    } else {
        proof {
            assert(paths_view(r@) =~= spec_root_profiles(
                root@,
                paths_view(names@),
                keep@,
                keep_root,
            ));
        }
    }
    r
}

/// One root's observed listing outcome, as discovery used it: `None` when
/// the directory read failed, else the entry names the listing yielded, the
/// profile-predicate verdict for each joined entry, and the verdict for the
/// root itself.
pub type RootListing = Option<(Seq<Seq<char>>, Seq<bool>, bool)>;

/// The in-order concatenation, over the candidate roots, of the profiles
/// each root's listing outcome selects; a failed read contributes nothing.
pub open spec fn outcomes_profiles(roots: Seq<String>, outs: Seq<RootListing>) -> Seq<Seq<char>>
    decreases roots.len(),
{
    if roots.len() == 0 || outs.len() != roots.len() {
        Seq::empty()
    } else {
        outcomes_profiles(roots.drop_last(), outs.drop_last()) + match outs.last() {
            Some(o) => spec_root_profiles(roots.last()@, o.0, o.1, o.2),
            None => Seq::empty(),
        }
    }
}

/// `found` is exactly what the per-root listing outcomes `outs` select from
/// `roots`, concatenated in order.
pub open spec fn listings_explain(
    roots: Seq<String>,
    outs: Seq<RootListing>,
    found: Seq<Seq<char>>,
) -> bool {
    &&& outs.len() == roots.len()
    &&& found == outcomes_profiles(roots, outs)
}

/// `path` is the catalog profile root of some channel on platform `p`,
/// below some user-data base directory.
pub open spec fn catalog_root(path: Seq<char>, p: Platform) -> bool {
    exists|b: Browser, base: Seq<char>| path == #[trigger] spec_profile_root(b, p, base)
}

/// `path` lies at or directly under the catalog profile root of some
/// channel on platform `p`.
pub open spec fn discovered_shape(path: Seq<char>, p: Platform) -> bool {
    exists|root: Seq<char>| catalog_root(root, p) && #[trigger] under_root(path, root)
}

/// Whether `path` is a browser profile directory: an existing directory that
/// directly holds a file named `Preferences`. The Preferences file's content
/// is never read. The answer comes from the filesystem probes, so nothing is
/// claimed about it.
pub fn is_profile(path: &str) -> bool {
    if probe::path_is_dir(path) {
        let prefs = join(path, "Preferences");
        probe::path_is_file(prefs.as_str())
    } else {
        false
    }
}

/// Discovers profiles at or directly under each candidate root. A root
/// whose directory cannot be read is skipped silently and contributes
/// nothing. For a readable root, the entries whose joined path satisfies
/// the profile predicate are included in enumeration order, and then the
/// root itself if it satisfies the predicate too; both checks are applied,
/// so a root can contribute itself as well as its children. The result is
/// exactly the in-order concatenation of what the per-root listing outcomes
/// select, duplicates across roots kept.
pub fn discover_roots(roots: &Vec<String>) -> (r: Vec<String>)
    ensures
        forall|i: int| 0 <= i < r@.len() ==> #[trigger] under_some_root(r@[i]@, roots@),
        exists|outs: Seq<RootListing>| #[trigger] listings_explain(roots@, outs, paths_view(r@)),
{
    let mut result: Vec<String> = Vec::new();
    let ghost mut outs: Seq<RootListing> = Seq::empty();
    let mut ri: usize = 0;
    proof {
        assert(roots@.subrange(0, 0) =~= Seq::<String>::empty());
        assert(paths_view(result@) =~= outcomes_profiles(roots@.subrange(0, 0), outs));
    }
    while ri < roots.len()
        invariant
            ri <= roots@.len(),
            outs.len() == ri,
            paths_view(result@) == outcomes_profiles(roots@.subrange(0, ri as int), outs),
            forall|i: int|
                0 <= i < result@.len() ==> #[trigger] under_some_root(result@[i]@, roots@),
        decreases roots.len() - ri,
    {
        let ghost prev_outs = outs;
        let ghost prev_len = result@.len() as int;
        let ghost prev_view = paths_view(result@);
        match probe::read_dir_names(roots[ri].as_str()) {
            Some(entries) => {
                let mut keep: Vec<bool> = Vec::new();
                let mut k: usize = 0;
                while k < entries.len()
                    invariant
                        ri < roots@.len(),
                        k <= entries@.len(),
                        keep@.len() == k,
                    decreases entries.len() - k,
                {
                    let p = join(roots[ri].as_str(), entries[k].as_str());
                    keep.push(is_profile(p.as_str()));
                    k = k + 1;
                }
                let keep_root = is_profile(roots[ri].as_str());
                let mut found = collect_profiles(roots[ri].as_str(), &entries, &keep, keep_root);
                let ghost gfound = found@;
                proof {
                    lemma_root_profiles_under(
                        roots@[ri as int]@,
                        paths_view(entries@),
                        keep@,
                        keep_root,
                    );
                    outs = outs.push(Some((paths_view(entries@), keep@, keep_root)));
                }
                result.append(&mut found);
                proof {
                    assert(paths_view(result@) =~= prev_view + paths_view(gfound));
                    assert forall|i: int| 0 <= i < result@.len() implies #[trigger] under_some_root(
                        result@[i]@,
                        roots@,
                    ) by {
                        if i >= prev_len {
                            assert(result@[i]@ == paths_view(gfound)[i - prev_len]);
                            assert(under_root(result@[i]@, roots@[ri as int]@));
                        }
                    }
                }
            },
            None => {
                proof {
                    outs = outs.push(None);
                }
            },
        }
        proof {
            let prev_roots = roots@.subrange(0, ri as int);
            let next_roots = roots@.subrange(0, ri as int + 1);
            assert(next_roots.drop_last() =~= prev_roots);
            assert(outs.drop_last() =~= prev_outs);
            assert(next_roots.last() == roots@[ri as int]);
            assert(paths_view(result@) =~= outcomes_profiles(next_roots, outs));
        }
        ri = ri + 1;
    }
    proof {
        assert(roots@.subrange(0, roots@.len() as int) =~= roots@);
        assert(listings_explain(roots@, outs, paths_view(result@)));
    }
    result
}

/// The values of the `Some` elements of `opts`, in order.
pub open spec fn some_values(opts: Seq<Option<String>>) -> Seq<String>
    decreases opts.len(),
{
    if opts.len() == 0 {
        Seq::empty()
    } else {
        let rest = some_values(opts.drop_last());
        match opts.last() {
            Some(root) => rest.push(root),
            None => rest,
        }
    }
}

/// `roots` is a per-channel resolution outcome: `opts` has one slot per
/// catalog channel, in catalog order; a resolved channel yields its catalog
/// path below some base directory and an unresolved one yields nothing; and
/// `roots` is exactly the resolved paths in that order.
pub open spec fn roots_resolved(roots: Seq<String>, opts: Seq<Option<String>>, p: Platform) -> bool {
    &&& opts.len() == spec_all_browsers().len()
    &&& roots == some_values(opts)
    &&& forall|i: int|
        0 <= i < opts.len() ==> ((#[trigger] opts[i]) matches Some(root)
            ==> exists|base: Seq<char>| root@ == spec_profile_root(spec_all_browsers()[i], p, base))
}

/// The candidate profile roots of the catalog channels on platform `p`: each
/// channel, in catalog order, contributes its catalog path below some base
/// directory, or nothing when its base directory cannot be resolved; a
/// skipped channel is not an error. Every returned root is the catalog path
/// of some channel below some base directory.
pub fn resolve_roots(p: Platform) -> (r: Vec<String>)
    ensures
        forall|i: int| 0 <= i < r@.len() ==> #[trigger] catalog_root(r@[i]@, p),
        exists|opts: Seq<Option<String>>| #[trigger] roots_resolved(r@, opts, p),
{
    let browsers = all_browsers();
    let mut r: Vec<String> = Vec::new();
    let ghost mut opts: Seq<Option<String>> = Seq::empty();
    let mut i: usize = 0;
    while i < browsers.len()
        invariant
            browsers@ == spec_all_browsers(),
            i <= browsers@.len(),
            opts.len() == i,
            r@ == some_values(opts),
            forall|k: int| 0 <= k < r@.len() ==> #[trigger] catalog_root(r@[k]@, p),
            forall|k: int|
                0 <= k < opts.len() ==> ((#[trigger] opts[k]) matches Some(root)
                    ==> exists|base: Seq<char>|
                    root@ == spec_profile_root(browsers@[k], p, base)),
        decreases browsers.len() - i,
    {
        match browsers[i].get_profile_root(p) {
            Some(root) => {
                proof {
                    let b = browsers@[i as int];
                    let base = choose|base: Seq<char>| root@ == spec_profile_root(b, p, base);
                    assert(root@ == spec_profile_root(b, p, base));
                    assert(catalog_root(root@, p));
                    let prev_opts = opts;
                    opts = opts.push(Some(root));
                    assert(opts.drop_last() =~= prev_opts);
                    assert(some_values(opts) == some_values(prev_opts).push(root));
                }
                r.push(root);
            },
            None => {
                proof {
                    let prev_opts = opts;
                    opts = opts.push(None);
                    assert(opts.drop_last() =~= prev_opts);
                    assert(some_values(opts) == some_values(prev_opts));
                }
            },
        }
        i = i + 1;
    }
    proof {
        assert(roots_resolved(r@, opts, p));
    }
    r
}

/// `found` is a discovery outcome for platform `p`: some per-channel
/// resolution, in catalog order, yields the candidate roots, and some
/// per-root listing outcome selects from them exactly the paths of `found`,
/// concatenated in order. An unresolved channel and an unreadable root
/// contribute nothing.
pub open spec fn discovery_explained(found: Seq<Seq<char>>, p: Platform) -> bool {
    exists|opts: Seq<Option<String>>, outs: Seq<RootListing>|
        roots_resolved(some_values(opts), opts, p) && #[trigger] listings_explain(
            some_values(opts),
            outs,
            found,
        )
}

/// Discovers the browser profiles of every catalog channel on platform `p`.
/// Channels that are not installed contribute nothing: an unresolvable base
/// directory or an unreadable root is skipped silently and never aborts the
/// walk. Every discovered profile lies at or directly under the catalog
/// profile root of some channel, and the whole result is the in-order
/// concatenation of what the per-root listing outcomes selected.
pub fn discover(p: Platform) -> (r: Vec<String>)
    ensures
        forall|i: int| 0 <= i < r@.len() ==> #[trigger] discovered_shape(r@[i]@, p),
        discovery_explained(paths_view(r@), p),
{
    let roots = resolve_roots(p);
    let r = discover_roots(&roots);
    proof {
        assert forall|i: int| 0 <= i < r@.len() implies #[trigger] discovered_shape(
            r@[i]@,
            p,
        ) by {
            assert(under_some_root(r@[i]@, roots@));
            let j = choose|j: int| 0 <= j < roots@.len() && under_root(r@[i]@, roots@[j]@);
            assert(catalog_root(roots@[j]@, p));
            assert(under_root(r@[i]@, roots@[j]@));
        }
        let opts = choose|opts: Seq<Option<String>>| roots_resolved(roots@, opts, p);
        let outs = choose|outs: Seq<RootListing>|
            listings_explain(roots@, outs, paths_view(r@));
        assert(roots_resolved(some_values(opts), opts, p));
        assert(listings_explain(some_values(opts), outs, paths_view(r@)));
    }
    r
}

} // verus!
