//! A pure model of a directory tree, and the two traversal policies stated
//! and verified on it.
//!
//! A [`DirTree`] records what the walk of a real directory can observe: the
//! entry's name and its subdirectories.  The two policies are one spec
//! function, [`matches_under`], parameterized by a `prune` flag:
//!
//! - exhaustive (`prune == false`): every directory of the subtree is checked
//!   for an immediate `node_modules` child, and every directory is descended
//!   into, matched or not — so a `node_modules` nested inside another is
//!   reported as well;
//! - pruning (`prune == true`): a directory with an immediate `node_modules`
//!   child contributes that one match and none of its descendants are
//!   visited; only unmatched directories are descended into.
//!
//! [`locate_in_tree`] is the executable traversal, proved to return exactly
//! the matches of the chosen policy, in depth-first order.
use vstd::prelude::*;

verus! {

/// A directory as the walk sees it: its entry name and its subdirectories.
/// Non-directory entries play no part in either policy and are not modelled.
pub struct DirTree {
    pub name: String,
    pub children: Vec<DirTree>,
}

/// Whether `t` has an immediate child directory named `node_modules`.
pub open spec fn has_module_child(t: DirTree) -> bool {
    exists|i: int| 0 <= i < t.children@.len() && t.children@[i].name@ == "node_modules"@
}

/// The path of the `node_modules` child of the directory at `path`.
pub open spec fn module_path_of(path: Seq<char>) -> Seq<char> {
    path + "/node_modules"@
}

/// The path of the child named `name` of the directory at `path`.
pub open spec fn child_path_of(path: Seq<char>, name: Seq<char>) -> Seq<char> {
    path + "/"@ + name
}

/// The matches that a depth-first walk of `t`, rooted at `path`, reports
/// under the policy chosen by `prune`.
pub open spec fn matches_under(t: DirTree, path: Seq<char>, prune: bool) -> Seq<Seq<char>>
    decreases t, 1int, 0int,
{
    if has_module_child(t) {
        if prune {
            seq![module_path_of(path)]
        } else {
            seq![module_path_of(path)] + matches_under_from(t, path, prune, 0)
        }
    } else {
        matches_under_from(t, path, prune, 0)
    }
}

/// The matches contributed by the children of `t` from index `i` on.
pub open spec fn matches_under_from(t: DirTree, path: Seq<char>, prune: bool, i: int) -> Seq<
    Seq<char>,
>
    decreases t, 0int, t.children@.len() - i,
{
    if 0 <= i < t.children@.len() {
        matches_under(t.children@[i], child_path_of(path, t.children@[i].name@), prune)
            + matches_under_from(t, path, prune, i + 1)
    } else {
        Seq::empty()
    }
}

/// The pruning policy: a matched directory is reported once and not entered.
pub open spec fn pruned_matches(t: DirTree, path: Seq<char>) -> Seq<Seq<char>> {
    matches_under(t, path, true)
}

/// The exhaustive policy: every match site in the subtree is reported.
pub open spec fn exhaustive_matches(t: DirTree, path: Seq<char>) -> Seq<Seq<char>> {
    matches_under(t, path, false)
}

/// Whether any directory in the subtree of `t` (including `t` itself) has an
/// immediate `node_modules` child.
pub open spec fn subtree_has_module(t: DirTree) -> bool
    decreases t, 1int, 0int,
{
    has_module_child(t) || subtree_has_module_from(t, 0)
}

/// Whether any of the children of `t` from index `i` on roots a subtree with
/// a `node_modules` child somewhere in it.
pub open spec fn subtree_has_module_from(t: DirTree, i: int) -> bool
    decreases t, 0int, t.children@.len() - i,
{
    if 0 <= i < t.children@.len() {
        subtree_has_module(t.children@[i]) || subtree_has_module_from(t, i + 1)
    } else {
        false
    }
}

/// Compares a directory name against `node_modules`.
pub fn is_module_name(name: &String) -> (r: bool)
    ensures
        r == (name@ == "node_modules"@),
{
    let m: String = "node_modules".to_owned();
    *name == m
}

/// Checks whether `t` has an immediate child named `node_modules`: the
/// single-level lookup, on the model.
pub fn tree_has_module_child(t: &DirTree) -> (r: bool)
    ensures
        r == has_module_child(*t),
{
    let mut i: usize = 0;
    while i < t.children.len()
        invariant
            0 <= i <= t.children@.len(),
            forall|j: int| 0 <= j < i ==> t.children@[j].name@ != "node_modules"@,
        decreases t.children@.len() - i,
    {
        if is_module_name(&t.children[i].name) {
            return true;
        }
        i += 1;
    }
    false
}

/// Builds the path of the child `name` under `path`.
pub fn child_path(path: &String, name: &String) -> (r: String)
    ensures
        r@ == child_path_of(path@, name@),
{
    let mut r = path.clone();
    r.append("/");
    r.append(name.as_str());
    r
}

/// Builds the path of the `node_modules` candidate under `path`.
pub fn module_candidate(path: &String) -> (r: String)
    ensures
        r@ == module_path_of(path@),
{
    let mut r = path.clone();
    r.append("/node_modules");
    r
}

/// Walks the tree `t`, rooted at `path`, depth-first, and returns the
/// matches of the policy chosen by `prune`.
pub fn locate_in_tree(t: &DirTree, path: &String, prune: bool) -> (r: Vec<String>)
    ensures
        r.deep_view() == matches_under(*t, path@, prune),
    decreases *t,
{
    let mut r: Vec<String> = Vec::new();
    let found = tree_has_module_child(t);
    if found {
        r.push(module_candidate(path));
        proof {
            assert(r.deep_view() =~= seq![module_path_of(path@)]);
        }
    }
    if prune && found {
        return r;
    }
    let ghost own: Seq<Seq<char>> = r.deep_view();
    let mut i: usize = 0;
    proof {
        assert(own + matches_under_from(*t, path@, prune, 0) =~= matches_under(
            *t,
            path@,
            prune,
        ));
    }
    while i < t.children.len()
        invariant
            0 <= i <= t.children@.len(),
            r.deep_view() + matches_under_from(*t, path@, prune, i as int) == matches_under(
                *t,
                path@,
                prune,
            ),
        decreases t.children@.len() - i,
    {
        let cp = child_path(path, &t.children[i].name);
        let mut sub = locate_in_tree(&t.children[i], &cp, prune);
        let ghost r_before = r.deep_view();
        let ghost sub_dv = sub.deep_view();
        r.append(&mut sub);
        proof {
            assert(r.deep_view() =~= r_before + sub_dv);
            assert((r_before + sub_dv) + matches_under_from(*t, path@, prune, i + 1) =~= r_before
                + (sub_dv + matches_under_from(*t, path@, prune, i + 1)));
        }
        i += 1;
    }
    proof {
        assert(r.deep_view() + matches_under_from(*t, path@, prune, i as int) =~= r.deep_view());
    }
    r
}

/// A subtree without a `node_modules` directory anywhere yields no match
/// under either traversal policy, and fails the single-level check too.
pub proof fn lemma_no_module_no_matches(t: DirTree, path: Seq<char>, prune: bool)
    requires
        !subtree_has_module(t),
    ensures
        !has_module_child(t),
        matches_under(t, path, prune).len() == 0,
    decreases t, 1int, 0int,
{
    lemma_no_module_no_matches_from(t, path, prune, 0);
}

proof fn lemma_no_module_no_matches_from(t: DirTree, path: Seq<char>, prune: bool, i: int)
    requires
        !subtree_has_module_from(t, i),
    ensures
        matches_under_from(t, path, prune, i).len() == 0,
    decreases t, 0int, t.children@.len() - i,
{
    if 0 <= i < t.children@.len() {
        lemma_no_module_no_matches(
            t.children@[i],
            child_path_of(path, t.children@[i].name@),
            prune,
        );
        lemma_no_module_no_matches_from(t, path, prune, i + 1);
    }
}

/// A directory whose single immediate child is an empty `node_modules`
/// passes the single-level check, and under either traversal policy yields
/// exactly one match: that child's path.
pub proof fn lemma_single_module_child(t: DirTree, path: Seq<char>, prune: bool)
    requires
        t.children@.len() == 1,
        t.children@[0].name@ == "node_modules"@,
        t.children@[0].children@.len() == 0,
    ensures
        has_module_child(t),
        matches_under(t, path, prune) =~= seq![module_path_of(path)],
{
    assert(has_module_child(t));
    let c = t.children@[0];
    let cp = child_path_of(path, c.name@);
    assert(!has_module_child(c));
    assert(matches_under_from(c, cp, prune, 0).len() == 0);
    assert(matches_under(c, cp, prune).len() == 0);
    assert(matches_under_from(t, path, prune, 1).len() == 0);
    assert(matches_under_from(t, path, prune, 0).len() == 0);
}

/// Pruning stops at the first match on each branch: where the root itself
/// has no `node_modules` child and its single child does, the walk reports
/// exactly that child's `node_modules` path and never descends below it —
/// whatever stands under the matched directory (in particular, further
/// `node_modules` directories nested inside it) contributes nothing.
pub proof fn lemma_pruned_single_nested(t: DirTree, path: Seq<char>)
    requires
        !has_module_child(t),
        t.children@.len() == 1,
        has_module_child(t.children@[0]),
    ensures
        pruned_matches(t, path) =~= seq![
            module_path_of(child_path_of(path, t.children@[0].name@)),
        ],
{
    let c = t.children@[0];
    let cp = child_path_of(path, c.name@);
    assert(matches_under(c, cp, true) =~= seq![module_path_of(cp)]);
    assert(matches_under_from(t, path, true, 1).len() == 0);
    assert(matches_under_from(t, path, true, 0) =~= seq![module_path_of(cp)]);
}

/// The exhaustive policy misses no match site: whenever some child of a
/// visited directory has a `node_modules` child of its own, that match
/// appears in the exhaustive result.
pub proof fn lemma_exhaustive_reports_match(t: DirTree, path: Seq<char>, i: int)
    requires
        0 <= i < t.children@.len(),
        has_module_child(t.children@[i]),
    ensures
        exhaustive_matches(t, path).contains(
            module_path_of(child_path_of(path, t.children@[i].name@)),
        ),
{
    let target = module_path_of(child_path_of(path, t.children@[i].name@));
    lemma_exhaustive_from_contains(t, path, i, 0);
    let rest = matches_under_from(t, path, false, 0);
    let k = choose|k: int| 0 <= k < rest.len() && rest[k] == target;
    if has_module_child(t) {
        assert(matches_under(t, path, false)[1 + k] == target);
    } else {
        assert(matches_under(t, path, false)[k] == target);
    }
}

/// Whether the path `m` lies strictly below the directory at `path`: it
/// continues `path` with a separator and at least one more component.
pub open spec fn strictly_under(m: Seq<char>, path: Seq<char>) -> bool {
    m.len() > path.len() && m.take(path.len() as int) == path && m[path.len() as int] == '/'
}

/// Every match that either policy reports lies strictly below the walked
/// root: a walk never reports anything outside its subtree.
pub proof fn lemma_matches_are_descendants(t: DirTree, path: Seq<char>, prune: bool)
    ensures
        forall|k: int|
            0 <= k < matches_under(t, path, prune).len() ==> #[trigger] strictly_under(
                matches_under(t, path, prune)[k],
                path,
            ),
    decreases t, 1int, 0int,
{
    reveal_strlit("/node_modules");
    assert(strictly_under(module_path_of(path), path)) by {
        assert(module_path_of(path).take(path.len() as int) =~= path);
        assert(module_path_of(path)[path.len() as int] == "/node_modules"@[0]);
    }
    lemma_matches_are_descendants_from(t, path, prune, 0);
    let whole = matches_under(t, path, prune);
    let from = matches_under_from(t, path, prune, 0);
    assert forall|k: int| 0 <= k < whole.len() implies #[trigger] strictly_under(
        whole[k],
        path,
    ) by {
        if has_module_child(t) && !prune {
            if k == 0 {
                assert(whole[k] == module_path_of(path));
            } else {
                assert(whole[k] == from[k - 1]);
                assert(strictly_under(from[k - 1], path));
            }
        } else if has_module_child(t) {
            assert(whole[k] == module_path_of(path));
        } else {
            assert(whole[k] == from[k]);
            assert(strictly_under(from[k], path));
        }
    }
}

proof fn lemma_matches_are_descendants_from(t: DirTree, path: Seq<char>, prune: bool, i: int)
    ensures
        forall|k: int|
            0 <= k < matches_under_from(t, path, prune, i).len() ==> #[trigger] strictly_under(
                matches_under_from(t, path, prune, i)[k],
                path,
            ),
    decreases t, 0int, t.children@.len() - i,
{
    reveal_strlit("/");
    if 0 <= i < t.children@.len() {
        let cp = child_path_of(path, t.children@[i].name@);
        let own = matches_under(t.children@[i], cp, prune);
        let rest = matches_under_from(t, path, prune, i + 1);
        lemma_matches_are_descendants(t.children@[i], cp, prune);
        lemma_matches_are_descendants_from(t, path, prune, i + 1);
        assert(cp.take(path.len() as int) =~= path);
        assert(cp[path.len() as int] == "/"@[0]);
        assert forall|k: int| 0 <= k < own.len() + rest.len() implies #[trigger] strictly_under(
            (own + rest)[k],
            path,
        ) by {
            if k < own.len() {
                assert(strictly_under(own[k], cp));
                assert(own[k].take(path.len() as int) =~= path) by {
                    assert(own[k].take(cp.len() as int) == cp);
                    assert(own[k].take(cp.len() as int).take(path.len() as int) =~= own[k].take(
                        path.len() as int,
                    ));
                }
                assert(own[k][path.len() as int] == cp[path.len() as int]) by {
                    assert(own[k].take(cp.len() as int)[path.len() as int] == own[k][path.len()
                        as int]);
                }
            } else {
                assert(strictly_under(rest[k - own.len()], path));
            }
        }
    }
}

/// Whether `name` can be the name of a real directory entry: nonempty and
/// free of the path separator.
pub open spec fn valid_name(name: Seq<char>) -> bool {
    name.len() > 0 && forall|i: int| 0 <= i < name.len() ==> name[i] != '/'
}

/// Whether `t` looks like what enumerating real directories produces: every
/// child bears a valid name, sibling names are distinct, and the same holds
/// below.
pub open spec fn wf_tree(t: DirTree) -> bool
    decreases t, 1int, 0int,
{
    &&& forall|i: int| 0 <= i < t.children@.len() ==> valid_name(#[trigger] t.children@[i].name@)
    &&& forall|i: int, j: int|
        #![trigger t.children@[i], t.children@[j]]
        0 <= i < j < t.children@.len() ==> t.children@[i].name@ != t.children@[j].name@
    &&& wf_tree_from(t, 0)
}

/// Whether the subtrees rooted at the children of `t` from index `i` on are
/// all well formed.
pub open spec fn wf_tree_from(t: DirTree, i: int) -> bool
    decreases t, 0int, t.children@.len() - i,
{
    if 0 <= i < t.children@.len() {
        wf_tree(t.children@[i]) && wf_tree_from(t, i + 1)
    } else {
        true
    }
}

proof fn lemma_wf_child(t: DirTree, k: int)
    requires
        wf_tree(t),
        0 <= k < t.children@.len(),
    ensures
        wf_tree(t.children@[k]),
{
    lemma_wf_from_child(t, 0, k);
}

proof fn lemma_wf_from_child(t: DirTree, i: int, k: int)
    requires
        wf_tree_from(t, i),
        0 <= i <= k < t.children@.len(),
    ensures
        wf_tree(t.children@[k]),
    decreases t.children@.len() - i,
{
    if i < k {
        lemma_wf_from_child(t, i + 1, k);
    }
}

/// Two paths that lie strictly below sibling directories of distinct valid
/// names differ at some position that both of them have.
proof fn lemma_sibling_paths_differ_at(
    path: Seq<char>,
    n1: Seq<char>,
    n2: Seq<char>,
    m1: Seq<char>,
    m2: Seq<char>,
)
    requires
        valid_name(n1),
        valid_name(n2),
        n1 != n2,
        n1.len() <= n2.len(),
        strictly_under(m1, child_path_of(path, n1)),
        strictly_under(m2, child_path_of(path, n2)),
    ensures
        exists|q: int| 0 <= q < m1.len() && q < m2.len() && m1[q] != m2[q],
{
    reveal_strlit("/");
    let pl = path.len() as int;
    let l1 = n1.len() as int;
    let l2 = n2.len() as int;
    let cp1 = child_path_of(path, n1);
    let cp2 = child_path_of(path, n2);
    assert(cp1.len() == pl + 1 + l1);
    assert(cp2.len() == pl + 1 + l2);
    if forall|d: int| 0 <= d < l1 ==> n1[d] == n2[d] {
        if l1 == l2 {
            assert(n1 =~= n2);
        }
        let q = pl + 1 + l1;
        assert(m1[q] == '/');
        assert(m2[q] == cp2[q]) by {
            assert(m2.take(cp2.len() as int)[q] == m2[q]);
        }
        assert(cp2[q] == n2[l1]);
        assert(n2[l1] != '/');
        assert(0 <= q < m1.len() && q < m2.len() && m1[q] != m2[q]);
    } else {
        let d = choose|d: int| 0 <= d < l1 && n1[d] != n2[d];
        let q = pl + 1 + d;
        assert(m1[q] == cp1[q]) by {
            assert(m1.take(cp1.len() as int)[q] == m1[q]);
        }
        assert(m2[q] == cp2[q]) by {
            assert(m2.take(cp2.len() as int)[q] == m2[q]);
        }
        assert(cp1[q] == n1[d]);
        assert(cp2[q] == n2[d]);
        assert(0 <= q < m1.len() && q < m2.len() && m1[q] != m2[q]);
    }
}

/// Paths strictly below sibling directories of distinct valid names are
/// incomparable: neither equals the other nor lies below it.
proof fn lemma_sibling_paths_incomparable(
    path: Seq<char>,
    n1: Seq<char>,
    n2: Seq<char>,
    m1: Seq<char>,
    m2: Seq<char>,
)
    requires
        valid_name(n1),
        valid_name(n2),
        n1 != n2,
        strictly_under(m1, child_path_of(path, n1)),
        strictly_under(m2, child_path_of(path, n2)),
    ensures
        m1 != m2,
        !strictly_under(m1, m2),
        !strictly_under(m2, m1),
{
    if n1.len() <= n2.len() {
        lemma_sibling_paths_differ_at(path, n1, n2, m1, m2);
    } else {
        lemma_sibling_paths_differ_at(path, n2, n1, m2, m1);
    }
    let q = choose|q: int| 0 <= q < m1.len() && q < m2.len() && m1[q] != m2[q];
    if strictly_under(m1, m2) {
        assert(m1.take(m2.len() as int)[q] == m1[q]);
    }
    if strictly_under(m2, m1) {
        assert(m2.take(m1.len() as int)[q] == m2[q]);
    }
}

/// Whether no path of `s` repeats or lies strictly below another: the batch
/// denotes pairwise disjoint subtrees.
pub open spec fn pairwise_disjoint(s: Seq<Seq<char>>) -> bool {
    forall|k1: int, k2: int|
        #![trigger s[k1], s[k2]]
        0 <= k1 < s.len() && 0 <= k2 < s.len() && k1 != k2 ==> s[k1] != s[k2] && !strictly_under(
            s[k1],
            s[k2],
        )
}

/// The pruning policy hands deletion a batch of pairwise disjoint subtrees:
/// on a tree as real directory enumeration produces it, no reported path
/// repeats and none lies below another, so concurrent removals of the batch
/// never touch one another's subtree.
pub proof fn lemma_pruned_matches_disjoint(t: DirTree, path: Seq<char>)
    requires
        wf_tree(t),
    ensures
        pairwise_disjoint(pruned_matches(t, path)),
    decreases t, 1int, 0int,
{
    if !has_module_child(t) {
        lemma_pruned_disjoint_from(t, path, 0);
    }
}

proof fn lemma_pruned_disjoint_from(t: DirTree, path: Seq<char>, i: int)
    requires
        wf_tree(t),
        0 <= i,
    ensures
        pairwise_disjoint(matches_under_from(t, path, true, i)),
        forall|k: int|
            0 <= k < matches_under_from(t, path, true, i).len() ==> exists|j: int|
                i <= j < t.children@.len() && strictly_under(
                    #[trigger] matches_under_from(t, path, true, i)[k],
                    child_path_of(path, t.children@[j].name@),
                ),
    decreases t, 0int, t.children@.len() - i,
{
    let cs = t.children@;
    if i < cs.len() {
        let cp = child_path_of(path, cs[i].name@);
        let own = matches_under(cs[i], cp, true);
        let rest = matches_under_from(t, path, true, i + 1);
        let whole = matches_under_from(t, path, true, i);
        lemma_wf_child(t, i);
        lemma_pruned_matches_disjoint(cs[i], cp);
        lemma_matches_are_descendants(cs[i], cp, true);
        lemma_pruned_disjoint_from(t, path, i + 1);
        let ol = own.len() as int;
        assert forall|k: int| 0 <= k < whole.len() implies exists|j: int|
            i <= j < cs.len() && strictly_under(
                #[trigger] whole[k],
                child_path_of(path, cs[j].name@),
            ) by {
            if k < ol {
                assert(whole[k] == own[k]);
                assert(strictly_under(whole[k], child_path_of(path, cs[i].name@)));
            } else {
                assert(whole[k] == rest[k - ol]);
                let j = choose|j: int|
                    i + 1 <= j < cs.len() && strictly_under(
                        rest[k - ol],
                        child_path_of(path, cs[j].name@),
                    );
                assert(i <= j < cs.len() && strictly_under(
                    whole[k],
                    child_path_of(path, cs[j].name@),
                ));
            }
        }
        assert forall|k1: int, k2: int|
            #![trigger whole[k1], whole[k2]]
            0 <= k1 < whole.len() && 0 <= k2 < whole.len() && k1 != k2 implies whole[k1]
            != whole[k2] && !strictly_under(whole[k1], whole[k2]) by {
            if k1 < ol && k2 < ol {
                assert(whole[k1] == own[k1] && whole[k2] == own[k2]);
                assert(own[k1] != own[k2] && !strictly_under(own[k1], own[k2]));
            } else if k1 >= ol && k2 >= ol {
                assert(whole[k1] == rest[k1 - ol] && whole[k2] == rest[k2 - ol]);
                assert(rest[k1 - ol] != rest[k2 - ol] && !strictly_under(
                    rest[k1 - ol],
                    rest[k2 - ol],
                ));
            } else if k1 < ol {
                let j = choose|j: int|
                    i + 1 <= j < cs.len() && strictly_under(
                        rest[k2 - ol],
                        child_path_of(path, cs[j].name@),
                    );
                assert(cs[i].name@ != cs[j].name@);
                lemma_sibling_paths_incomparable(
                    path,
                    cs[i].name@,
                    cs[j].name@,
                    whole[k1],
                    whole[k2],
                );
            } else {
                let j = choose|j: int|
                    i + 1 <= j < cs.len() && strictly_under(
                        rest[k1 - ol],
                        child_path_of(path, cs[j].name@),
                    );
                assert(cs[i].name@ != cs[j].name@);
                lemma_sibling_paths_incomparable(
                    path,
                    cs[j].name@,
                    cs[i].name@,
                    whole[k1],
                    whole[k2],
                );
            }
        }
        assert(pairwise_disjoint(whole));
    } else {
        assert(matches_under_from(t, path, true, i) =~= Seq::<Seq<char>>::empty());
        assert(pairwise_disjoint(matches_under_from(t, path, true, i)));
    }
}

proof fn lemma_exhaustive_from_contains(t: DirTree, path: Seq<char>, i: int, j: int)
    requires
        0 <= j <= i < t.children@.len(),
        has_module_child(t.children@[i]),
    ensures
        matches_under_from(t, path, false, j).contains(
            module_path_of(child_path_of(path, t.children@[i].name@)),
        ),
    decreases i - j,
{
    let target = module_path_of(child_path_of(path, t.children@[i].name@));
    let own = matches_under(t.children@[j], child_path_of(path, t.children@[j].name@), false);
    let rest = matches_under_from(t, path, false, j + 1);
    if j == i {
        assert(own[0] == target);
        assert(matches_under_from(t, path, false, j)[0] == target);
    } else {
        lemma_exhaustive_from_contains(t, path, i, j + 1);
        let k = choose|k: int| 0 <= k < rest.len() && rest[k] == target;
        assert(matches_under_from(t, path, false, j)[own.len() + k] == target);
    }
}

} // verus!
