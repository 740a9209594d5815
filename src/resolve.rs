//! Depth-first, pre-order dependency resolution with cycle detection.
use vstd::prelude::*;
use crate::index::{listed, lines_of, tux_find_package};
use crate::package::{descriptor_of, names_view, same_text, Descriptor, JSONPackage, Repository};

verus! {

/// Why resolution stopped.
#[derive(Clone, Copy, Debug, PartialEq, Eq, Structural)]
pub enum Failure {
    /// The package is not a line of the index.
    NotFound,
    /// The index lists the package but its descriptor file is missing.
    Stale,
    /// The descriptor file could not be read or parsed.
    Unreadable,
    /// The package depends on itself, directly or through others.
    Cycle,
    /// The package's descriptor has not been read into the snapshot yet.
    Unloaded,
}

/// A failed resolution: the reason and the package it concerns.
#[derive(Debug)]
pub struct ResolveError {
    pub failure: Failure,
    pub package: String,
}

pub type Outcome = Result<Seq<Seq<char>>, (Failure, Seq<char>)>;

/// Number of index lines not on the current path: it shrinks at each descent.
pub open spec fn unvisited(repo: Repository, path: Seq<Seq<char>>) -> nat {
    lines_of(repo.index@).to_set().difference(path.to_set()).len()
}

pub proof fn lemma_descent_shrinks(repo: Repository, path: Seq<Seq<char>>, name: Seq<char>)
    requires
        listed(repo.index@, name),
        !path.contains(name),
    ensures
        unvisited(repo, path.push(name)) < unvisited(repo, path),
{
    broadcast use vstd::seq_lib::seq_to_set_is_finite;
    path.lemma_push_to_set_commute(name);
    let all = lines_of(repo.index@).to_set();
    let before = all.difference(path.to_set());
    assert(path.push(name).to_set() == path.to_set().insert(name));
    assert(all.difference(path.push(name).to_set()) =~= before.remove(name));
    assert(before.contains(name));
    vstd::set_lib::lemma_len_subset(before, all);
}

/// Prepends `pre` to a successful outcome; a failure stays as it is.
pub open spec fn prepend(pre: Seq<Seq<char>>, r: Outcome) -> Outcome {
    match r {
        Ok(s) => Ok(pre + s),
        Err(e) => Err(e),
    }
}

/// The expansion of `name` below the packages on `path`: for each of its
/// dependencies in declared order, the dependency's name followed by its own
/// expansion. The first failure met in that order ends it.
pub open spec fn expand(repo: Repository, path: Seq<Seq<char>>, name: Seq<char>) -> Outcome
    decreases unvisited(repo, path), 0nat,
{
    if path.contains(name) {
        Err((Failure::Cycle, name))
    } else if !listed(repo.index@, name) {
        Err((Failure::NotFound, name))
    } else {
        match descriptor_of(repo.entries@, name) {
            None => Err((Failure::Unloaded, name)),
            Some(Descriptor::Missing) => Err((Failure::Stale, name)),
            Some(Descriptor::Unreadable) => Err((Failure::Unreadable, name)),
            Some(Descriptor::Read(p)) => {
                proof {
                    lemma_descent_shrinks(repo, path, name);
                }
                expand_from(repo, path.push(name), names_view(p.depends@), 0)
            },
        }
    }
}

/// The expansions of `deps[i..]` below `path`, one after the other.
pub open spec fn expand_from(
    repo: Repository,
    path: Seq<Seq<char>>,
    deps: Seq<Seq<char>>,
    i: int,
) -> Outcome
    decreases unvisited(repo, path), (if i < deps.len() { deps.len() - i } else { 0 }) + 1,
{
    if i < 0 || i >= deps.len() {
        Ok(Seq::empty())
    } else {
        match expand(repo, path, deps[i]) {
            Err(e) => Err(e),
            Ok(sub) => prepend(seq![deps[i]] + sub, expand_from(repo, path, deps, i + 1)),
        }
    }
}

/// The dependency set of `name`: its whole expansion, the package itself not included.
pub open spec fn resolution(repo: Repository, name: Seq<char>) -> Outcome {
    expand(repo, Seq::empty(), name)
}

/// Whether `path` holds `name`.
fn on_path(path: &Vec<String>, name: &str) -> (r: bool)
    ensures
        r == names_view(path@).contains(name@),
{
    let mut i: usize = 0;
    while i < path.len()
        invariant
            i <= path@.len(),
            forall|k: int| 0 <= k < i ==> path@[k]@ != name@,
        decreases path@.len() - i,
    {
        if same_text(path[i].as_str(), name) {
            assert(names_view(path@)[i as int] == name@);
            return true;
        }
        i = i + 1;
    }
    assert(!names_view(path@).contains(name@)) by {
        if names_view(path@).contains(name@) {
            let k = choose|k: int| 0 <= k < names_view(path@).len() && names_view(path@)[k] == name@;
            assert(path@[k]@ == name@);
        }
    }
    false
}

fn fail_with(kind: Failure, name: &str) -> (e: ResolveError)
    ensures
        e.failure == kind,
        e.package@ == name@,
{
    ResolveError { failure: kind, package: name.to_owned() }
}

/// Appends the expansion of `name` below `path` to `out`.
fn expand_into(
    repo: &Repository,
    path: &mut Vec<String>,
    name: &str,
    out: &mut Vec<String>,
) -> (r: Result<(), ResolveError>)
    ensures
        match expand(*repo, names_view(old(path)@), name@) {
            Ok(s) => r is Ok && names_view(final(out)@) == names_view(old(out)@) + s
                && final(path)@ == old(path)@,
            Err(e) => r matches Err(err) && (err.failure, err.package@) == e,
        },
    decreases unvisited(*repo, names_view(old(path)@)), 0nat,
{
    let ghost outer = names_view(path@);
    if on_path(path, name) {
        return Err(fail_with(Failure::Cycle, name));
    }
    if !tux_find_package(repo.index.as_str(), name) {
        return Err(fail_with(Failure::NotFound, name));
    }
    let deps: &Vec<String> = match repo.descriptor(name) {
        None => {
            return Err(fail_with(Failure::Unloaded, name));
        },
        Some(Descriptor::Missing) => {
            return Err(fail_with(Failure::Stale, name));
        },
        Some(Descriptor::Unreadable) => {
            return Err(fail_with(Failure::Unreadable, name));
        },
        Some(Descriptor::Read(p)) => &p.depends,
    };
    proof {
        lemma_descent_shrinks(*repo, outer, name@);
    }
    path.push(name.to_owned());
    let ghost below = names_view(path@);
    assert(below =~= outer.push(name@));
    let ghost dv = names_view(deps@);
    let ghost out0 = names_view(out@);
    let ghost pre_path = path@;
    assert(expand(*repo, outer, name@) == expand_from(*repo, below, dv, 0));
    assert(Seq::<Seq<char>>::empty() + expand_from(*repo, below, dv, 0)->Ok_0 =~= expand_from(
        *repo,
        below,
        dv,
        0,
    )->Ok_0);
    let mut i: usize = 0;
    while i < deps.len()
        invariant
            i <= deps@.len(),
            dv == names_view(deps@),
            path@ == pre_path,
            names_view(pre_path) == below,
            names_view(path@) == below,
            outer == names_view(old(path)@),
            expand(*repo, outer, name@) == expand_from(*repo, below, dv, 0),
            unvisited(*repo, below) < unvisited(*repo, outer),
            expand_from(*repo, below, dv, 0) == prepend(
                names_view(out@).subrange(out0.len() as int, names_view(out@).len() as int),
                expand_from(*repo, below, dv, i as int),
            ),
            names_view(out@).len() >= out0.len(),
            names_view(out@).subrange(0, out0.len() as int) == out0,
        decreases deps@.len() - i,
    {
        let ghost before = names_view(out@);
        let dep = &deps[i];
        assert(dv[i as int] == dep@);
        out.push(dep.clone());
        assert(names_view(out@) =~= before.push(dv[i as int]));
        let r = expand_into(repo, path, dep.as_str(), out);
        match r {
            Err(e) => {
                assert(expand_from(*repo, below, dv, i as int) == Err::<Seq<Seq<char>>, (Failure, Seq<char>)>((e.failure, e.package@)));
                return Err(e);
            },
            Ok(()) => {},
        }
        proof {
            let sub = expand(*repo, below, dv[i as int])->Ok_0;
            let pre = before.subrange(out0.len() as int, before.len() as int);
            let now = names_view(out@);
            assert(now =~= before + seq![dv[i as int]] + sub);
            assert(now.subrange(out0.len() as int, now.len() as int) =~= pre + (seq![dv[i as int]]
                + sub));
            assert(now.subrange(0, out0.len() as int) =~= before.subrange(0, out0.len() as int));
            let rest = expand_from(*repo, below, dv, i + 1);
            match rest {
                Ok(x) => {
                    assert(pre + (seq![dv[i as int]] + sub + x) =~= pre + (seq![dv[i as int]] + sub)
                        + x);
                },
                Err(_) => {},
            }
        }
        i = i + 1;
    }
    path.pop();
    proof {
        assert(path@ =~= old(path)@);
        let now = names_view(out@);
        assert(now =~= out0 + now.subrange(out0.len() as int, now.len() as int));
        let tail = now.subrange(out0.len() as int, now.len() as int);
        assert(tail + Seq::<Seq<char>>::empty() =~= tail);
    }
    Ok(())
}

/// Resolves the dependencies of `package_name` in depth-first pre-order.
pub fn tux_resolve_dependencies(repo: &Repository, package_name: &str) -> (r: Result<
    Vec<String>,
    ResolveError,
>)
    ensures
        match resolution(*repo, package_name@) {
            Ok(s) => r matches Ok(v) && names_view(v@) == s,
            Err(e) => r matches Err(err) && (err.failure, err.package@) == e,
        },
{
    let mut path: Vec<String> = Vec::new();
    let mut out: Vec<String> = Vec::new();
    assert(names_view(path@) =~= Seq::<Seq<char>>::empty());
    match expand_into(repo, &mut path, package_name, &mut out) {
        Ok(()) => {
            assert(names_view(Seq::<String>::empty()) =~= Seq::<Seq<char>>::empty());
            assert(Seq::<Seq<char>>::empty() + names_view(out@) =~= names_view(out@));
            Ok(out)
        },
        Err(e) => Err(e),
    }
}

/// Splits a successful expansion of `deps[i..]` at the block of `deps[j]`:
/// what comes before it, the dependency's name, its own expansion, and the
/// expansion of the dependencies after it.
pub proof fn lemma_block(
    repo: Repository,
    path: Seq<Seq<char>>,
    deps: Seq<Seq<char>>,
    i: int,
    j: int,
) -> (before: Seq<Seq<char>>)
    requires
        expand_from(repo, path, deps, i) is Ok,
        0 <= i <= j < deps.len(),
    ensures
        expand(repo, path, deps[j]) is Ok,
        expand_from(repo, path, deps, j + 1) is Ok,
        expand_from(repo, path, deps, i)->Ok_0 == before + seq![deps[j]] + expand(
            repo,
            path,
            deps[j],
        )->Ok_0 + expand_from(repo, path, deps, j + 1)->Ok_0,
    decreases j - i,
{
    let sub = expand(repo, path, deps[i])->Ok_0;
    let rest = expand_from(repo, path, deps, i + 1);
    if i == j {
        assert(expand_from(repo, path, deps, i)->Ok_0 =~= Seq::empty() + seq![deps[j]] + sub
            + rest->Ok_0);
        Seq::empty()
    } else {
        let b = lemma_block(repo, path, deps, i + 1, j);
        let before = seq![deps[i]] + sub + b;
        assert(expand_from(repo, path, deps, i)->Ok_0 =~= before + seq![deps[j]] + expand(
            repo,
            path,
            deps[j],
        )->Ok_0 + expand_from(repo, path, deps, j + 1)->Ok_0);
        before
    }
}

/// A successful expansion of `name` lists each of its direct dependencies.
pub proof fn lemma_direct_dependency_listed(
    repo: Repository,
    path: Seq<Seq<char>>,
    name: Seq<char>,
    p: JSONPackage,
    x: Seq<char>,
) -> (k: int)
    requires
        expand(repo, path, name) is Ok,
        descriptor_of(repo.entries@, name) == Some(Descriptor::Read(p)),
        names_view(p.depends@).contains(x),
    ensures
        0 <= k < expand(repo, path, name)->Ok_0.len(),
        expand(repo, path, name)->Ok_0[k] == x,
{
    let deps = names_view(p.depends@);
    let kx = choose|kx: int| 0 <= kx < deps.len() && deps[kx] == x;
    let before = lemma_block(repo, path.push(name), deps, 0, kx);
    before.len() as int
}

/// A package that the index does not list is never resolved: resolution
/// stops at once with a not-found failure naming it.
pub proof fn lemma_unlisted_not_found(repo: Repository, name: Seq<char>)
    requires
        !listed(repo.index@, name),
    ensures
        resolution(repo, name) == Err::<Seq<Seq<char>>, (Failure, Seq<char>)>(
            (Failure::NotFound, name),
        ),
{
}

/// A listed package whose descriptor declares no dependencies resolves to
/// the empty set.
pub proof fn lemma_no_dependencies(repo: Repository, name: Seq<char>, p: JSONPackage)
    requires
        listed(repo.index@, name),
        descriptor_of(repo.entries@, name) == Some(Descriptor::Read(p)),
        p.depends@.len() == 0,
    ensures
        resolution(repo, name) == Ok::<Seq<Seq<char>>, (Failure, Seq<char>)>(Seq::empty()),
{
    assert(!Seq::<Seq<char>>::empty().contains(name));
    assert(names_view(p.depends@).len() == 0);
}

/// Shared dependencies are not merged: when the root depends on two distinct
/// packages that both depend on `x`, `x` appears at two positions of the
/// root's resolved set.
pub proof fn lemma_shared_dependency_repeats(
    repo: Repository,
    root: Seq<char>,
    p: JSONPackage,
    b: Seq<char>,
    pb: JSONPackage,
    c: Seq<char>,
    pc: JSONPackage,
    x: Seq<char>,
)
    requires
        resolution(repo, root) is Ok,
        descriptor_of(repo.entries@, root) == Some(Descriptor::Read(p)),
        names_view(p.depends@).contains(b),
        names_view(p.depends@).contains(c),
        b != c,
        descriptor_of(repo.entries@, b) == Some(Descriptor::Read(pb)),
        descriptor_of(repo.entries@, c) == Some(Descriptor::Read(pc)),
        names_view(pb.depends@).contains(x),
        names_view(pc.depends@).contains(x),
    ensures
        exists|i: int, j: int|
            0 <= i < j < resolution(repo, root)->Ok_0.len() && resolution(repo, root)->Ok_0[i]
                == x && resolution(repo, root)->Ok_0[j] == x,
{
    let deps = names_view(p.depends@);
    let top = seq![root];
    assert(!Seq::<Seq<char>>::empty().contains(root));
    assert(Seq::<Seq<char>>::empty().push(root) =~= top);
    let s = resolution(repo, root)->Ok_0;
    assert(s == expand_from(repo, top, deps, 0)->Ok_0);
    let jb = choose|jb: int| 0 <= jb < deps.len() && deps[jb] == b;
    let jc = choose|jc: int| 0 <= jc < deps.len() && deps[jc] == c;
    let (j1, j2, desc_first, desc_second) = if jb < jc {
        (jb, jc, pb, pc)
    } else {
        (jc, jb, pc, pb)
    };
    let l1 = lemma_block(repo, top, deps, 0, j1);
    let sub1 = expand(repo, top, deps[j1])->Ok_0;
    let r1 = expand_from(repo, top, deps, j1 + 1)->Ok_0;
    let l2 = lemma_block(repo, top, deps, j1 + 1, j2);
    let sub2 = expand(repo, top, deps[j2])->Ok_0;
    let k1 = lemma_direct_dependency_listed(repo, top, deps[j1], desc_first, x);
    let k2 = lemma_direct_dependency_listed(repo, top, deps[j2], desc_second, x);
    let i = l1.len() + 1 + k1;
    let j = l1.len() + 1 + sub1.len() + l2.len() + 1 + k2;
    assert(s[i] == sub1[k1]);
    assert(r1[l2.len() + 1 + k2] == sub2[k2]);
    assert(s[j] == r1[l2.len() + 1 + k2]);
}

/// What an expansion below `path` lists never includes a package on `path`.
pub proof fn lemma_expansion_avoids_path(
    repo: Repository,
    path: Seq<Seq<char>>,
    deps: Seq<Seq<char>>,
    i: int,
)
    requires
        expand_from(repo, path, deps, i) is Ok,
    ensures
        forall|k: int|
            0 <= k < expand_from(repo, path, deps, i)->Ok_0.len() ==> !path.contains(
                #[trigger] expand_from(repo, path, deps, i)->Ok_0[k],
            ),
    decreases unvisited(repo, path), (if i < deps.len() { deps.len() - i } else { 0 }) + 1,
{
    if 0 <= i < deps.len() {
        let d = deps[i];
        let sub = expand(repo, path, d)->Ok_0;
        let rest = expand_from(repo, path, deps, i + 1)->Ok_0;
        let s = expand_from(repo, path, deps, i)->Ok_0;
        let p = descriptor_of(repo.entries@, d)->Some_0->Read_0;
        let inner = path.push(d);
        lemma_descent_shrinks(repo, path, d);
        lemma_expansion_avoids_path(repo, inner, names_view(p.depends@), 0);
        lemma_expansion_avoids_path(repo, path, deps, i + 1);
        assert(s =~= seq![d] + sub + rest);
        assert forall|k: int| 0 <= k < s.len() implies !path.contains(#[trigger] s[k]) by {
            if k == 0 {
            } else if k < 1 + sub.len() {
                assert(s[k] == sub[k - 1]);
                if path.contains(s[k]) {
                    let m = choose|m: int| 0 <= m < path.len() && path[m] == s[k];
                    assert(inner[m] == s[k]);
                }
            } else {
                assert(s[k] == rest[k - 1 - sub.len()]);
            }
        }
    }
}

/// Resolution never walks around a cycle: when it succeeds, the root is not
/// among its own dependencies.
pub proof fn lemma_root_not_in_own_set(repo: Repository, root: Seq<char>)
    requires
        resolution(repo, root) is Ok,
    ensures
        !resolution(repo, root)->Ok_0.contains(root),
{
    let p = descriptor_of(repo.entries@, root)->Some_0->Read_0;
    let top = seq![root];
    assert(!Seq::<Seq<char>>::empty().contains(root));
    assert(Seq::<Seq<char>>::empty().push(root) =~= top);
    lemma_expansion_avoids_path(repo, top, names_view(p.depends@), 0);
    assert(top.contains(root)) by {
        assert(top[0] == root);
    }
}

/// A two-package cycle, `a` first depending on `b` and `b` first depending
/// on `a` (or `a` on itself), ends resolution of `a` with a cycle failure
/// naming `a`.
pub proof fn lemma_cycle_detected(
    repo: Repository,
    a: Seq<char>,
    pa: JSONPackage,
    b: Seq<char>,
    pb: JSONPackage,
)
    requires
        listed(repo.index@, a),
        listed(repo.index@, b),
        descriptor_of(repo.entries@, a) == Some(Descriptor::Read(pa)),
        descriptor_of(repo.entries@, b) == Some(Descriptor::Read(pb)),
        pa.depends@.len() > 0,
        pa.depends@[0]@ == b,
        pb.depends@.len() > 0,
        pb.depends@[0]@ == a,
    ensures
        resolution(repo, a) == Err::<Seq<Seq<char>>, (Failure, Seq<char>)>((Failure::Cycle, a)),
{
    let da = names_view(pa.depends@);
    let db = names_view(pb.depends@);
    let top = seq![a];
    assert(!Seq::<Seq<char>>::empty().contains(a));
    assert(Seq::<Seq<char>>::empty().push(a) =~= top);
    assert(top.contains(a)) by {
        assert(top[0] == a);
    }
    assert(resolution(repo, a) == expand_from(repo, top, da, 0));
    assert(da[0] == b);
    if b == a {
        assert(expand(repo, top, b) == Err::<Seq<Seq<char>>, (Failure, Seq<char>)>(
            (Failure::Cycle, a),
        ));
    } else {
        let two = top.push(b);
        assert(!top.contains(b)) by {
            if top.contains(b) {
                let m = choose|m: int| 0 <= m < top.len() && top[m] == b;
                assert(top[m] == a);
            }
        }
        assert(two.contains(a)) by {
            assert(two[0] == a);
        }
        assert(db[0] == a);
        assert(expand(repo, two, a) == Err::<Seq<Seq<char>>, (Failure, Seq<char>)>(
            (Failure::Cycle, a),
        ));
        assert(expand_from(repo, two, db, 0) == Err::<Seq<Seq<char>>, (Failure, Seq<char>)>(
            (Failure::Cycle, a),
        ));
        assert(expand(repo, top, b) == expand_from(repo, two, db, 0));
    }
}

} // verus!
