//! The change bridge. The host's watcher hands over the filesystem events
//! queued since the last tick; one drain walks them, keeps only the
//! modify events, reports each changed path at most once, and yields the
//! paths relative to the watched root, in first-occurrence order. The
//! dedup lives and dies with one drain: a fresh drain reports a path
//! again.

use vstd::prelude::*;
use vstd::seq_lib::*;
use vstd::string::*;

verus! {

/// The kind of a filesystem change notification.
#[derive(Clone, Copy, PartialEq, Eq, Structural, Debug)]
pub enum WatchEventKind {
    /// Something was created.
    Created,
    /// Something was modified.
    Modified,
    /// Something was removed.
    Removed,
    /// Anything else the watcher reports.
    Other,
}

/// One filesystem change notification: its kind and the absolute local
/// paths it concerns.
#[derive(PartialEq, Eq, Debug)]
pub struct WatchEvent {
    /// What happened.
    pub kind: WatchEventKind,
    /// The absolute paths affected.
    pub paths: Vec<String>,
}

/// An absolute path lies under the watched root directory: the root is a
/// proper prefix and a separator follows it.
pub open spec fn under_root(p: Seq<char>, root: Seq<char>) -> bool {
    &&& p.len() > root.len()
    &&& p.take(root.len() as int) == root
    &&& p[root.len() as int] == '/'
}

/// The path relative to the watched root: what follows the root and its
/// separator.
pub open spec fn rel_path(p: Seq<char>, root: Seq<char>) -> Seq<char> {
    p.skip(root.len() as int + 1)
}

/// The absolute path a relative one came from.
pub open spec fn abs_of(root: Seq<char>, r: Seq<char>) -> Seq<char> {
    root.push('/') + r
}

/// Taking a path relative to the root loses nothing: the absolute path is
/// recovered by putting the root and its separator back.
pub proof fn lemma_rel_path_inverse(p: Seq<char>, root: Seq<char>)
    requires
        under_root(p, root),
    ensures
        abs_of(root, rel_path(p, root)) == p,
{
    let rl = root.len() as int;
    assert(forall|k: int| 0 <= k < rl ==> root[k] == #[trigger] p.take(rl)[k]);
    assert(abs_of(root, rel_path(p, root)) =~= p);
}

/// Every path of every modify event lies under the root.
pub open spec fn paths_under_root(evs: Seq<WatchEvent>, root: Seq<char>) -> bool {
    forall|i: int, j: int|
        0 <= i < evs.len() && evs[i].kind is Modified && 0 <= j < evs[i].paths@.len()
            ==> under_root(#[trigger] evs[i].paths@[j]@, root)
}

/// One drain's walk over the paths of a single modify event, from index
/// `j` on: a path not yet seen is reported relative to the root and marked
/// seen, a seen path is skipped. Yields the reports and the seen set left
/// behind.
pub open spec fn drain_paths_from(
    paths: Seq<String>,
    root: Seq<char>,
    seen: Set<Seq<char>>,
    j: int,
) -> (Seq<Seq<char>>, Set<Seq<char>>)
    decreases paths.len() - j,
{
    if j < 0 || j >= paths.len() {
        (Seq::empty(), seen)
    } else {
        let p = paths[j]@;
        if seen.contains(p) {
            drain_paths_from(paths, root, seen, j + 1)
        } else {
            let rest = drain_paths_from(paths, root, seen.insert(p), j + 1);
            (seq![rel_path(p, root)] + rest.0, rest.1)
        }
    }
}

/// One drain's walk over the queued events from index `i` on: modify
/// events have their paths walked, every other kind is ignored.
pub open spec fn drain_events_from(
    evs: Seq<WatchEvent>,
    root: Seq<char>,
    seen: Set<Seq<char>>,
    i: int,
) -> (Seq<Seq<char>>, Set<Seq<char>>)
    decreases evs.len() - i,
{
    if i < 0 || i >= evs.len() {
        (Seq::empty(), seen)
    } else if evs[i].kind is Modified {
        let step = drain_paths_from(evs[i].paths@, root, seen, 0);
        let rest = drain_events_from(evs, root, step.1, i + 1);
        (step.0 + rest.0, rest.1)
    } else {
        drain_events_from(evs, root, seen, i + 1)
    }
}

/// What one whole drain reports, in order: each drain starts with nothing
/// seen.
pub open spec fn drain_spec(evs: Seq<WatchEvent>, root: Seq<char>) -> Seq<Seq<char>> {
    drain_events_from(evs, root, Set::empty(), 0).0
}

proof fn lemma_drain_paths_props(
    paths: Seq<String>,
    root: Seq<char>,
    seen: Set<Seq<char>>,
    j: int,
)
    requires
        0 <= j,
        forall|k: int| 0 <= k < paths.len() ==> under_root(#[trigger] paths[k]@, root),
    ensures
        ({
            let r = drain_paths_from(paths, root, seen, j);
            &&& seen.subset_of(r.1)
            &&& r.0.no_duplicates()
            &&& forall|k: int|
                0 <= k < r.0.len() ==> !seen.contains(abs_of(root, #[trigger] r.0[k]))
                    && r.1.contains(abs_of(root, r.0[k]))
            &&& forall|k: int| j <= k < paths.len() ==> r.1.contains(#[trigger] paths[k]@)
            &&& forall|p: Seq<char>|
                #[trigger] r.1.contains(p) ==> seen.contains(p) || r.0.contains(
                    rel_path(p, root),
                )
            &&& forall|p: Seq<char>|
                #[trigger] r.1.contains(p) ==> seen.contains(p) || exists|k: int|
                    j <= k < paths.len() && #[trigger] paths[k]@ == p
        }),
    decreases paths.len() - j,
{
    if j < 0 || j >= paths.len() {
    } else {
        let p = paths[j]@;
        if seen.contains(p) {
            lemma_drain_paths_props(paths, root, seen, j + 1);
            let r = drain_paths_from(paths, root, seen, j);
            assert forall|k: int| j <= k < paths.len() implies r.1.contains(
                #[trigger] paths[k]@,
            ) by {
                if k == j {
                    assert(r.1.contains(p));
                }
            }
        } else {
            lemma_drain_paths_props(paths, root, seen.insert(p), j + 1);
            lemma_rel_path_inverse(p, root);
            let r = drain_paths_from(paths, root, seen, j);
            let rest = drain_paths_from(paths, root, seen.insert(p), j + 1);
            assert(r.0 == seq![rel_path(p, root)] + rest.0);
            assert(r.0[0] == rel_path(p, root));
            assert(forall|k: int| 0 <= k < rest.0.len() ==> rest.0[k] == #[trigger] r.0[k + 1]);
            assert(abs_of(root, r.0[0]) == p);
            assert forall|k: int|
                0 <= k < r.0.len() implies !seen.contains(abs_of(root, #[trigger] r.0[k]))
                && r.1.contains(abs_of(root, r.0[k])) by {
                if k == 0 {
                    assert(r.1.contains(p));
                } else {
                    assert(r.0[k] == rest.0[k - 1]);
                    assert(!seen.insert(p).contains(abs_of(root, rest.0[k - 1])));
                }
            }
            assert(r.0.no_duplicates()) by {
                assert forall|a: int, b: int|
                    0 <= a < r.0.len() && 0 <= b < r.0.len() && a != b implies r.0[a]
                    != r.0[b] by {
                    if a != 0 && b != 0 {
                        assert(rest.0[a - 1] != rest.0[b - 1]);
                    } else {
                        let nz = if a == 0 {
                            b
                        } else {
                            a
                        };
                        assert(!seen.insert(p).contains(abs_of(root, rest.0[nz - 1])));
                        if r.0[nz] == rel_path(p, root) {
                            assert(abs_of(root, rest.0[nz - 1]) == p);
                        }
                    }
                }
            }
            assert(seen.subset_of(r.1)) by {
                assert forall|x: Seq<char>| seen.contains(x) implies r.1.contains(x) by {
                    assert(seen.insert(p).contains(x));
                }
            }
            assert forall|k: int| j <= k < paths.len() implies r.1.contains(
                #[trigger] paths[k]@,
            ) by {
                if k == j {
                    assert(seen.insert(p).contains(p));
                    assert(rest.1.contains(p));
                }
            }
            assert forall|q: Seq<char>|
                #[trigger] r.1.contains(q) implies seen.contains(q) || r.0.contains(
                rel_path(q, root),
            ) by {
                if !seen.contains(q) {
                    if q == p {
                        assert(r.0[0] == rel_path(q, root));
                    } else {
                        assert(seen.insert(p).contains(q) ==> seen.contains(q) || q == p);
                        assert(rest.0.contains(rel_path(q, root)));
                        let w = choose|w: int|
                            0 <= w < rest.0.len() && rest.0[w] == rel_path(q, root);
                        assert(r.0[w + 1] == rel_path(q, root));
                    }
                }
            }
        }
    }
}

proof fn lemma_drain_events_props(
    evs: Seq<WatchEvent>,
    root: Seq<char>,
    seen: Set<Seq<char>>,
    i: int,
)
    requires
        0 <= i,
        paths_under_root(evs, root),
    ensures
        ({
            let r = drain_events_from(evs, root, seen, i);
            &&& seen.subset_of(r.1)
            &&& r.0.no_duplicates()
            &&& forall|k: int|
                0 <= k < r.0.len() ==> !seen.contains(abs_of(root, #[trigger] r.0[k]))
                    && r.1.contains(abs_of(root, r.0[k]))
            &&& forall|a: int, b: int|
                i <= a < evs.len() && evs[a].kind is Modified && 0 <= b < evs[a].paths@.len()
                    ==> r.1.contains(#[trigger] evs[a].paths@[b]@)
            &&& forall|p: Seq<char>|
                #[trigger] r.1.contains(p) ==> seen.contains(p) || r.0.contains(
                    rel_path(p, root),
                )
            &&& forall|p: Seq<char>|
                #[trigger] r.1.contains(p) ==> seen.contains(p) || exists|a: int, b: int|
                    i <= a < evs.len() && evs[a].kind is Modified && 0 <= b
                        < evs[a].paths@.len() && #[trigger] evs[a].paths@[b]@ == p
        }),
    decreases evs.len() - i,
{
    if i < 0 || i >= evs.len() {
    } else if evs[i].kind is Modified {
        let paths = evs[i].paths@;
        assert forall|k: int| 0 <= k < paths.len() implies under_root(
            #[trigger] paths[k]@,
            root,
        ) by {
            assert(under_root(evs[i].paths@[k]@, root));
        }
        lemma_drain_paths_props(paths, root, seen, 0);
        let step = drain_paths_from(paths, root, seen, 0);
        lemma_drain_events_props(evs, root, step.1, i + 1);
        let rest = drain_events_from(evs, root, step.1, i + 1);
        let r = drain_events_from(evs, root, seen, i);
        assert(r.0 == step.0 + rest.0);
        assert(forall|k: int| 0 <= k < step.0.len() ==> step.0[k] == #[trigger] r.0[k]);
        assert(forall|k: int|
            0 <= k < rest.0.len() ==> rest.0[k] == #[trigger] r.0[k + step.0.len()]);
        assert forall|k: int|
            0 <= k < r.0.len() implies !seen.contains(abs_of(root, #[trigger] r.0[k]))
            && r.1.contains(abs_of(root, r.0[k])) by {
            if k < step.0.len() {
                assert(step.1.contains(abs_of(root, step.0[k])));
            } else {
                assert(!step.1.contains(abs_of(root, rest.0[k - step.0.len()])));
            }
        }
        assert(r.0.no_duplicates()) by {
            assert forall|a: int, b: int|
                0 <= a < r.0.len() && 0 <= b < r.0.len() && a != b implies r.0[a] != r.0[b] by {
                let sl = step.0.len() as int;
                if a < sl && b < sl {
                    assert(step.0[a] != step.0[b]);
                } else if a >= sl && b >= sl {
                    assert(rest.0[a - sl] != rest.0[b - sl]);
                } else {
                    let lo = if a < sl {
                        a
                    } else {
                        b
                    };
                    let hi = if a < sl {
                        b
                    } else {
                        a
                    };
                    assert(step.1.contains(abs_of(root, step.0[lo])));
                    assert(!step.1.contains(abs_of(root, rest.0[hi - sl])));
                    if r.0[lo] == r.0[hi] {
                        assert(abs_of(root, step.0[lo]) == abs_of(root, rest.0[hi - sl]));
                    }
                }
            }
        }
        assert(seen.subset_of(r.1)) by {
            assert forall|x: Seq<char>| seen.contains(x) implies r.1.contains(x) by {
                assert(step.1.contains(x));
            }
        }
        assert forall|a: int, b: int|
            i <= a < evs.len() && evs[a].kind is Modified && 0 <= b
                < evs[a].paths@.len() implies r.1.contains(#[trigger] evs[a].paths@[b]@) by {
            if a == i {
                assert(step.1.contains(paths[b]@));
                assert(rest.1.contains(paths[b]@));
            } else {
                assert(rest.1.contains(evs[a].paths@[b]@));
            }
        }
        assert forall|p: Seq<char>|
            #[trigger] r.1.contains(p) implies seen.contains(p) || r.0.contains(
            rel_path(p, root),
        ) by {
            if !seen.contains(p) {
                if step.1.contains(p) {
                    if !step.0.contains(rel_path(p, root)) {
                        assert(false);
                    }
                    let w = choose|w: int|
                        0 <= w < step.0.len() && step.0[w] == rel_path(p, root);
                    assert(r.0[w] == rel_path(p, root));
                } else {
                    assert(rest.0.contains(rel_path(p, root)));
                    let w = choose|w: int|
                        0 <= w < rest.0.len() && rest.0[w] == rel_path(p, root);
                    assert(r.0[w + step.0.len()] == rel_path(p, root));
                }
            }
        }
    } else {
        lemma_drain_events_props(evs, root, seen, i + 1);
    }
}

/// Law: one drain reports each changed path at most once: two modify
/// events for the same path arriving before the drain yield a single
/// report, because the report list has no duplicates.
pub proof fn lemma_drain_reports_once(evs: Seq<WatchEvent>, root: Seq<char>)
    requires
        paths_under_root(evs, root),
    ensures
        drain_spec(evs, root).no_duplicates(),
{
    lemma_drain_events_props(evs, root, Set::empty(), 0);
}

/// Law: one drain misses nothing: every path of every modify event in the
/// batch is reported, relative to the root.
pub proof fn lemma_drain_reports_every_change(evs: Seq<WatchEvent>, root: Seq<char>)
    requires
        paths_under_root(evs, root),
    ensures
        forall|a: int, b: int|
            0 <= a < evs.len() && evs[a].kind is Modified && 0 <= b < evs[a].paths@.len()
                ==> drain_spec(evs, root).contains(
                rel_path(#[trigger] evs[a].paths@[b]@, root),
            ),
{
    lemma_drain_events_props(evs, root, Set::empty(), 0);
    let r = drain_events_from(evs, root, Set::empty(), 0);
    assert forall|a: int, b: int|
        0 <= a < evs.len() && evs[a].kind is Modified && 0 <= b
            < evs[a].paths@.len() implies drain_spec(evs, root).contains(
        rel_path(#[trigger] evs[a].paths@[b]@, root),
    ) by {
        assert(r.1.contains(evs[a].paths@[b]@));
    }
}

/// Some modify event in the batch concerns a path whose form relative to
/// the root is `rel`.
pub open spec fn change_with_rel(evs: Seq<WatchEvent>, root: Seq<char>, rel: Seq<char>) -> bool {
    exists|a: int, b: int|
        0 <= a < evs.len() && evs[a].kind is Modified && 0 <= b < evs[a].paths@.len()
            && rel_path(#[trigger] evs[a].paths@[b]@, root) == rel
}

/// Law: one drain invents nothing: every reported path is, relative to
/// the root, the path of some modify event in the batch.
pub proof fn lemma_drain_reports_only_changes(evs: Seq<WatchEvent>, root: Seq<char>)
    requires
        paths_under_root(evs, root),
    ensures
        forall|k: int|
            0 <= k < drain_spec(evs, root).len() ==> change_with_rel(
                evs,
                root,
                #[trigger] drain_spec(evs, root)[k],
            ),
{
    lemma_drain_events_props(evs, root, Set::empty(), 0);
    let r = drain_events_from(evs, root, Set::empty(), 0);
    assert forall|k: int| 0 <= k < drain_spec(evs, root).len() implies change_with_rel(
        evs,
        root,
        #[trigger] drain_spec(evs, root)[k],
    ) by {
        let p = abs_of(root, r.0[k]);
        assert(r.1.contains(p));
        let (a, b) = choose|a: int, b: int|
            0 <= a < evs.len() && evs[a].kind is Modified && 0 <= b < evs[a].paths@.len()
                && #[trigger] evs[a].paths@[b]@ == p;
        assert(rel_path(p, root) =~= r.0[k]);
        assert(rel_path(evs[a].paths@[b]@, root) == drain_spec(evs, root)[k]);
    }
}

/// Law: the dedup lives and dies with one drain. A fresh drain that sees
/// one modify event for a path reports that path again, whatever earlier
/// drains reported: each drain starts with nothing seen.
pub proof fn lemma_fresh_drain_reports_again(e: WatchEvent, root: Seq<char>)
    requires
        e.kind is Modified,
        e.paths@.len() == 1,
        under_root(e.paths@[0]@, root),
    ensures
        drain_spec(seq![e], root) == seq![rel_path(e.paths@[0]@, root)],
{
    let evs = seq![e];
    let p = e.paths@[0]@;
    assert(evs[0] == e);
    let dp1 = drain_paths_from(e.paths@, root, Set::empty().insert(p), 1);
    assert(dp1 == (Seq::<Seq<char>>::empty(), Set::empty().insert(p)));
    assert(drain_paths_from(e.paths@, root, Set::empty(), 0) == (seq![rel_path(p, root)] + dp1.0,
    dp1.1));
    let de1 = drain_events_from(evs, root, Set::empty().insert(p), 1);
    assert(de1 == (Seq::<Seq<char>>::empty(), Set::empty().insert(p)));
    assert(drain_spec(evs, root) =~= seq![rel_path(p, root)]);
}

/// Whether `v` holds a string whose characters are `s`.
fn contains_string(v: &Vec<String>, s: &String) -> (r: bool)
    ensures
        r == v.deep_view().contains(s@),
{
    let n = v.len();
    let mut i: usize = 0;
    while i < n
        invariant
            n == v@.len(),
            i <= n,
            forall|j: int| 0 <= j < i ==> v@[j]@ != s@,
        decreases n - i,
    {
        if v[i] == *s {
            assert(v.deep_view()[i as int] == s@);
            return true;
        }
        i += 1;
    }
    assert(forall|j: int| 0 <= j < n ==> v.deep_view()[j] != s@);
    false
}

/// Drains one batch of queued events: reports the path of every modify
/// event, relative to the watched root, each changed path at most once,
/// in first-occurrence order. Other event kinds are ignored.
pub fn drain_cycle(events: &Vec<WatchEvent>, root: &str) -> (r: Vec<String>)
    requires
        paths_under_root(events@, root@),
    ensures
        r.deep_view() == drain_spec(events@, root@),
{
    let ghost evs = events@;
    let ghost total = drain_events_from(evs, root@, Set::empty(), 0);
    let root_len = root.unicode_len();
    let mut out: Vec<String> = Vec::new();
    let mut seen: Vec<String> = Vec::new();
    let n = events.len();
    let mut i: usize = 0;
    proof {
        assert(out.deep_view() + total.0 =~= total.0);
        assert(seen.deep_view().to_set() =~= Set::<Seq<char>>::empty());
    }
    while i < n
        invariant
            paths_under_root(evs, root@),
            evs == events@,
            total == drain_events_from(evs, root@, Set::empty(), 0),
            root_len == root@.len(),
            n == evs.len(),
            i <= n,
            out.deep_view() + drain_events_from(
                evs,
                root@,
                seen.deep_view().to_set(),
                i as int,
            ).0 == total.0,
            drain_events_from(evs, root@, seen.deep_view().to_set(), i as int).1 == total.1,
        decreases n - i,
    {
        let is_modify = match events[i].kind {
            WatchEventKind::Modified => true,
            _ => false,
        };
        if is_modify {
            let ghost ps = evs[i as int].paths@;
            let ghost seen0 = seen.deep_view().to_set();
            let ghost out0 = out.deep_view();
            let m = events[i].paths.len();
            let mut j: usize = 0;
            proof {
                assert(out.deep_view() + drain_paths_from(ps, root@, seen0, 0).0 =~= out0
                    + drain_paths_from(ps, root@, seen0, 0).0);
            }
            while j < m
                invariant
                    paths_under_root(evs, root@),
                    evs == events@,
                    root_len == root@.len(),
                    i < evs.len(),
                    evs[i as int].kind is Modified,
                    ps == evs[i as int].paths@,
                    m == ps.len(),
                    j <= m,
                    out.deep_view() + drain_paths_from(
                        ps,
                        root@,
                        seen.deep_view().to_set(),
                        j as int,
                    ).0 == out0 + drain_paths_from(ps, root@, seen0, 0).0,
                    drain_paths_from(ps, root@, seen.deep_view().to_set(), j as int).1
                        == drain_paths_from(ps, root@, seen0, 0).1,
                decreases m - j,
            {
                let path: &String = &events[i].paths[j];
                let ghost pv = path@;
                let ghost cur = seen.deep_view().to_set();
                assert(under_root(pv, root@));
                if contains_string(&seen, path) {
                    proof {
                        assert(cur.contains(pv)) by {
                            assert(seen.deep_view().contains(pv));
                        }
                        assert(drain_paths_from(ps, root@, cur, j as int) == drain_paths_from(
                            ps,
                            root@,
                            cur,
                            j + 1,
                        ));
                    }
                } else {
                    let path_len = path.as_str().unicode_len();
                    let rel = path.as_str().substring_char(root_len + 1, path_len).to_owned();
                    proof {
                        assert(rel@ =~= rel_path(pv, root@));
                        assert(!cur.contains(pv)) by {
                            if seen.deep_view().contains(pv) {
                                assert(cur.contains(pv));
                            }
                        }
                    }
                    let ghost sdv0 = seen.deep_view();
                    let ghost odv0 = out.deep_view();
                    out.push(rel);
                    seen.push(path.clone());
                    proof {
                        assert(out.deep_view() =~= odv0.push(rel@));
                        assert(seen.deep_view() =~= sdv0.push(pv));
                        let s1 = sdv0.push(pv);
                        assert forall|x: Seq<char>|
                            s1.contains(x) implies sdv0.contains(x) || x == pv by {
                            let k = choose|k: int| 0 <= k < s1.len() && s1[k] == x;
                            if k < sdv0.len() {
                                assert(sdv0[k] == x);
                            } else {
                                assert(x == pv);
                            }
                        }
                        assert forall|x: Seq<char>| sdv0.contains(x) implies s1.contains(x) by {
                            let k = choose|k: int| 0 <= k < sdv0.len() && sdv0[k] == x;
                            assert(s1[k] == x);
                        }
                        assert(s1[sdv0.len() as int] == pv);
                        assert(s1.contains(pv));
                        assert(seen.deep_view().to_set() =~= cur.insert(pv));
                        let step = drain_paths_from(ps, root@, cur.insert(pv), j + 1);
                        assert(drain_paths_from(ps, root@, cur, j as int) == (seq![
                            rel_path(pv, root@),
                        ] + step.0, step.1));
                        assert(odv0.push(rel@) + step.0 =~= odv0 + (seq![
                            rel_path(pv, root@),
                        ] + step.0));
                    }
                }
                j += 1;
            }
            proof {
                let dp0 = drain_paths_from(ps, root@, seen0, 0);
                let cur = seen.deep_view().to_set();
                assert(drain_paths_from(ps, root@, cur, m as int) == (
                    Seq::<Seq<char>>::empty(),
                    cur,
                ));
                assert(out.deep_view() + Seq::<Seq<char>>::empty() =~= out.deep_view());
                assert(out.deep_view() == out0 + dp0.0);
                assert(cur == dp0.1);
                assert(drain_events_from(evs, root@, seen0, i as int) == (dp0.0
                    + drain_events_from(evs, root@, dp0.1, i + 1).0, drain_events_from(
                    evs,
                    root@,
                    dp0.1,
                    i + 1,
                ).1));
                assert(out.deep_view() + drain_events_from(evs, root@, cur, i + 1).0 =~= out0 + (
                dp0.0 + drain_events_from(evs, root@, dp0.1, i + 1).0));
            }
        } else {
            proof {
                let cur = seen.deep_view().to_set();
                assert(drain_events_from(evs, root@, cur, i as int) == drain_events_from(
                    evs,
                    root@,
                    cur,
                    i + 1,
                ));
            }
        }
        i += 1;
    }
    proof {
        let cur = seen.deep_view().to_set();
        assert(drain_events_from(evs, root@, cur, n as int) == (Seq::<Seq<char>>::empty(), cur));
        assert(out.deep_view() + Seq::<Seq<char>>::empty() =~= out.deep_view());
    }
    out
}

} // verus!
