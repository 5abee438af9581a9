//! Finding the repository that holds each workspace member, and grouping the
//! members by repository so that each repository is acted on once.
use vstd::prelude::*;
use crate::order::{sorted_unique, strictly_sorted};

verus! {

/// The text of each string of a list.
pub open spec fn texts(v: Seq<String>) -> Seq<Seq<char>> {
    v.map_values(|s: String| s@)
}

/// The greatest depth `e <= d` at which `marked` holds, if there is one.
pub open spec fn deepest_marked(marked: Seq<bool>, d: int) -> Option<int>
    decreases d + 1,
{
    if d < 0 {
        None
    } else if marked[d] {
        Some(d)
    } else {
        deepest_marked(marked, d - 1)
    }
}

/// The repository root above a member directory.
///
/// `path` is the member's canonical path, one component per entry; its
/// ancestor at depth `e` keeps the first `e` components (depth 0 is the file
/// system root, depth `path.len()` the member itself). `has_marker[e]` tells
/// whether that ancestor holds a repository marker. The root is the deepest
/// marked ancestor, the member itself first; `None` where none is marked.
pub fn find_git_root(path: &Vec<String>, has_marker: &Vec<bool>) -> (r: Option<Vec<String>>)
    requires
        has_marker@.len() == path@.len() + 1,
    ensures
        match deepest_marked(has_marker@, path@.len() as int) {
            Some(e) => r matches Some(root) && texts(root@) == texts(path@).subrange(0, e),
            None => r is None,
        },
{
    let mut d: usize = path.len();
    loop
        invariant
            d <= path@.len(),
            has_marker@.len() == path@.len() + 1,
            deepest_marked(has_marker@, path@.len() as int) == deepest_marked(has_marker@, d as int),
        decreases d,
    {
        if has_marker[d] {
            let mut root: Vec<String> = Vec::new();
            let mut i: usize = 0;
            while i < d
                invariant
                    i <= d <= path@.len(),
                    root@.len() == i,
                    texts(root@) == texts(path@).subrange(0, i as int),
                decreases d - i,
            {
                let ghost before = root@;
                root.push(path[i].clone());
                assert forall|k: int| 0 <= k < i + 1 implies #[trigger] texts(root@)[k] == texts(path@).subrange(0, i + 1 as int)[k] by {
                    if k < i {
                        assert(texts(before)[k] == texts(path@).subrange(0, i as int)[k]);
                        assert(root@[k] == before[k]);
                    }
                }
                assert(texts(root@) =~= texts(path@).subrange(0, i + 1 as int));
                i = i + 1;
            }
            return Some(root);
        }
        if d == 0 {
            assert(deepest_marked(has_marker@, 0) == deepest_marked(has_marker@, -1));
            return None;
        }
        d = d - 1;
    }
}

/// The member path `file` made relative to `base`, where `base` is a prefix of
/// it; `None` where it is not.
pub fn strip_prefix(file: &Vec<String>, base: &Vec<String>) -> (r: Option<Vec<String>>)
    ensures
        match r {
            Some(rel) => base@.len() <= file@.len()
                && texts(file@).subrange(0, base@.len() as int) == texts(base@)
                && texts(rel@) == texts(file@).subrange(base@.len() as int, file@.len() as int),
            None => !(base@.len() <= file@.len()
                && texts(file@).subrange(0, base@.len() as int) == texts(base@)),
        },
{
    if base.len() > file.len() {
        return None;
    }
    let mut i: usize = 0;
    while i < base.len()
        invariant
            i <= base@.len() <= file@.len(),
            forall|j: int| 0 <= j < i ==> file@[j]@ == base@[j]@,
        decreases base@.len() - i,
    {
        if !file[i].eq(&base[i]) {
            assert(texts(file@).subrange(0, base@.len() as int)[i as int] != texts(base@)[i as int]);
            return None;
        }
        i = i + 1;
    }
    assert(texts(file@).subrange(0, base@.len() as int) =~= texts(base@));
    let mut rel: Vec<String> = Vec::new();
    let mut j: usize = base.len();
    while j < file.len()
        invariant
            base@.len() <= j <= file@.len(),
            rel@.len() == j - base@.len(),
            texts(rel@) == texts(file@).subrange(base@.len() as int, j as int),
        decreases file@.len() - j,
    {
        let ghost before = rel@;
        rel.push(file[j].clone());
        assert forall|k: int| 0 <= k < rel@.len() implies #[trigger] texts(rel@)[k] == texts(file@).subrange(base@.len() as int, j + 1 as int)[k] by {
            if k < before.len() {
                assert(texts(before)[k] == texts(file@).subrange(base@.len() as int, j as int)[k]);
                assert(rel@[k] == before[k]);
            }
        }
        assert(texts(rel@) =~= texts(file@).subrange(base@.len() as int, j + 1 as int));
        j = j + 1;
    }
    Some(rel)
}

/// The text of each optional string of a list.
pub open spec fn opt_texts(v: Seq<Option<String>>) -> Seq<Option<Seq<char>>> {
    v.map_values(|o: Option<String>| match o {
        Some(s) => Some(s@),
        None => None,
    })
}

/// The distinct roots of `rs`, in the order in which each first appears.
pub open spec fn first_roots(rs: Seq<Option<Seq<char>>>) -> Seq<Seq<char>>
    decreases rs.len(),
{
    if rs.len() == 0 {
        seq![]
    } else {
        let prev = first_roots(rs.drop_last());
        match rs.last() {
            Some(r) => if prev.contains(r) {
                prev
            } else {
                prev.push(r)
            },
            None => prev,
        }
    }
}

/// The members whose root is `r`, each once, in the order of first appearance.
pub open spec fn members_under(ms: Seq<Seq<char>>, rs: Seq<Option<Seq<char>>>, r: Seq<char>) -> Seq<Seq<char>>
    decreases ms.len(),
{
    if ms.len() == 0 || rs.len() == 0 {
        seq![]
    } else {
        let prev = members_under(ms.drop_last(), rs.drop_last(), r);
        if rs.last() == Some(r) && !prev.contains(ms.last()) {
            prev.push(ms.last())
        } else {
            prev
        }
    }
}

/// The members that have no root, in their order.
pub open spec fn members_without_root(ms: Seq<Seq<char>>, rs: Seq<Option<Seq<char>>>) -> Seq<Seq<char>>
    decreases ms.len(),
{
    if ms.len() == 0 || rs.len() == 0 {
        seq![]
    } else {
        let prev = members_without_root(ms.drop_last(), rs.drop_last());
        if rs.last() is None {
            prev.push(ms.last())
        } else {
            prev
        }
    }
}

/// One repository and the members that it holds.
pub struct RepoGroup {
    pub root: String,
    pub members: Vec<String>,
}

/// The members grouped by repository, and those found in none.
pub struct Grouping {
    pub groups: Vec<RepoGroup>,
    pub missing: Vec<String>,
}

proof fn lemma_no_members_under_unseen(ms: Seq<Seq<char>>, rs: Seq<Option<Seq<char>>>, r: Seq<char>)
    requires
        ms.len() == rs.len(),
        !first_roots(rs).contains(r),
    ensures
        members_under(ms, rs, r) == Seq::<Seq<char>>::empty(),
    decreases ms.len(),
{
    if ms.len() > 0 {
        let prev = first_roots(rs.drop_last());
        if prev.contains(r) {
            let x = choose|x: int| 0 <= x < prev.len() && prev[x] == r;
            if let Some(q) = rs.last() {
                if !prev.contains(q) {
                    assert(prev.push(q)[x] == r);
                }
            }
        }
        if rs.last() == Some(r) {
            if !prev.contains(r) {
                assert(prev.push(r)[prev.len() as int] == r);
            }
        }
        lemma_no_members_under_unseen(ms.drop_last(), rs.drop_last(), r);
    }
}

/// Whether `x` is among `items`.
fn contains_text(items: &Vec<String>, x: &String) -> (r: bool)
    ensures
        r == texts(items@).contains(x@),
{
    let mut i: usize = 0;
    while i < items.len()
        invariant
            i <= items@.len(),
            forall|j: int| 0 <= j < i ==> items@[j]@ != x@,
        decreases items@.len() - i,
    {
        if items[i].eq(x) {
            assert(texts(items@)[i as int] == x@);
            return true;
        }
        i = i + 1;
    }
    assert(!texts(items@).contains(x@)) by {
        if texts(items@).contains(x@) {
            let k = choose|k: int| 0 <= k < texts(items@).len() && texts(items@)[k] == x@;
            assert(items@[k]@ == x@);
        }
    }
    false
}

/// Groups members by their repository root.
///
/// `roots[i]` is the root found for `members[i]`, `None` where there was none.
/// Each root gives one group, in the order in which roots first appear; a
/// group holds its members each once, in the order of first appearance. Members without a root are kept
/// aside, in their order, and take no part in any group.
pub fn group_members_by_repo(members: &Vec<String>, roots: &Vec<Option<String>>) -> (r: Grouping)
    requires
        members@.len() == roots@.len(),
    ensures
        r.groups@.map_values(|g: RepoGroup| g.root@) == first_roots(opt_texts(roots@)),
        forall|g: int|
            0 <= g < r.groups@.len() ==> texts(#[trigger] r.groups@[g].members@)
                == members_under(texts(members@), opt_texts(roots@), r.groups@[g].root@),
        texts(r.missing@) == members_without_root(texts(members@), opt_texts(roots@)),
{
    let ghost ms = texts(members@);
    let ghost rs = opt_texts(roots@);
    let mut groups: Vec<RepoGroup> = Vec::new();
    let mut missing: Vec<String> = Vec::new();
    let mut i: usize = 0;
    while i < members.len()
        invariant
            i <= members@.len() == roots@.len(),
            ms == texts(members@),
            rs == opt_texts(roots@),
            groups@.map_values(|g: RepoGroup| g.root@) == first_roots(rs.subrange(0, i as int)),
            forall|g: int|
                0 <= g < groups@.len() ==> texts(#[trigger] groups@[g].members@)
                    == members_under(ms.subrange(0, i as int), rs.subrange(0, i as int), groups@[g].root@),
            texts(missing@) == members_without_root(ms.subrange(0, i as int), rs.subrange(0, i as int)),
            forall|a: int, b: int| 0 <= a < b < groups@.len() ==> groups@[a].root@ != groups@[b].root@,
        decreases members@.len() - i,
    {
        let ghost ms0 = ms.subrange(0, i as int);
        let ghost rs0 = rs.subrange(0, i as int);
        let ghost ms1 = ms.subrange(0, i + 1 as int);
        let ghost rs1 = rs.subrange(0, i + 1 as int);
        assert(ms1.drop_last() =~= ms0);
        assert(rs1.drop_last() =~= rs0);
        assert(rs1.last() == rs[i as int]);
        assert(ms1.last() == ms[i as int]);
        let ghost groups0 = groups@;
        let ghost prev_roots = first_roots(rs0);
        match &roots[i] {
            None => {
                let ghost before = missing@;
                missing.push(members[i].clone());
                assert(texts(missing@) =~= texts(before).push(ms[i as int]));
                assert(groups@.map_values(|g: RepoGroup| g.root@) =~= first_roots(rs1));
                assert forall|h: int| 0 <= h < groups@.len() implies texts(#[trigger] groups@[h].members@)
                    == members_under(ms1, rs1, groups@[h].root@) by {
                    assert(texts(groups0[h].members@) == members_under(ms0, rs0, groups0[h].root@));
                }
            },
            Some(root) => {
                let mut g: usize = 0;
                let mut found = false;
                while g < groups.len()
                    invariant_except_break
                        !found,
                    invariant
                        g <= groups@.len(),
                        groups@ == groups0,
                        forall|h: int| 0 <= h < g ==> groups@[h].root@ != root@,
                    ensures
                        found ==> g < groups@.len() && groups@[g as int].root@ == root@,
                        !found ==> g == groups@.len(),
                    decreases groups@.len() - g,
                {
                    if groups[g].root.eq(root) {
                        found = true;
                        break;
                    }
                    g = g + 1;
                }
                if found {
                    assert(prev_roots[g as int] == root@) by {
                        assert(groups0.map_values(|g: RepoGroup| g.root@)[g as int] == groups0[g as int].root@);
                    }
                    assert(prev_roots.contains(root@));
                    let ghost before = groups@[g as int].members@;
                    if !contains_text(&groups[g].members, &members[i]) {
                        groups[g].members.push(members[i].clone());
                        assert(texts(groups@[g as int].members@) =~= texts(before).push(ms[i as int]));
                    }
                    assert(groups@.map_values(|g: RepoGroup| g.root@) =~= groups0.map_values(|g: RepoGroup| g.root@));
                    assert forall|h: int| 0 <= h < groups@.len() implies texts(#[trigger] groups@[h].members@)
                        == members_under(ms1, rs1, groups@[h].root@) by {
                        assert(texts(groups0[h].members@) == members_under(ms0, rs0, groups0[h].root@));
                        if h != g {
                            assert(groups0[h].root@ != groups0[g as int].root@);
                        }
                    }
                } else {
                    assert(!prev_roots.contains(root@)) by {
                        if prev_roots.contains(root@) {
                            let x = choose|x: int| 0 <= x < prev_roots.len() && prev_roots[x] == root@;
                            assert(groups0.map_values(|g: RepoGroup| g.root@)[x] == groups0[x].root@);
                            assert(groups0[x].root@ != root@);
                        }
                    }
                    proof {
                        lemma_no_members_under_unseen(ms0, rs0, root@);
                    }
                    let mut first: Vec<String> = Vec::new();
                    first.push(members[i].clone());
                    assert(texts(first@) =~= seq![ms[i as int]]);
                    groups.push(RepoGroup { root: root.clone(), members: first });
                    assert(groups@.map_values(|g: RepoGroup| g.root@) =~= groups0.map_values(|g: RepoGroup| g.root@).push(root@));
                    assert forall|h: int| 0 <= h < groups@.len() implies texts(#[trigger] groups@[h].members@)
                        == members_under(ms1, rs1, groups@[h].root@) by {
                        if h < groups0.len() {
                            assert(texts(groups0[h].members@) == members_under(ms0, rs0, groups0[h].root@));
                            assert(groups0[h].root@ != root@);
                        }
                    }
                }
            },
        }
        i = i + 1;
    }
    assert(ms.subrange(0, members@.len() as int) =~= ms);
    assert(rs.subrange(0, members@.len() as int) =~= rs);
    Grouping { groups, missing }
}

/// A member found in no repository is reported among those without a root and,
/// where no other member has its name, stands in no group.
pub proof fn lemma_member_without_root(ms: Seq<Seq<char>>, rs: Seq<Option<Seq<char>>>, i: int, r: Seq<char>)
    requires
        ms.len() == rs.len(),
        0 <= i < ms.len(),
        rs[i] is None,
        forall|x: int| 0 <= x < ms.len() && ms[x] == ms[i] ==> x == i,
    ensures
        members_without_root(ms, rs).contains(ms[i]),
        !members_under(ms, rs, r).contains(ms[i]),
    decreases ms.len(),
{
    let n = ms.len() - 1;
    let prev_ms = ms.drop_last();
    let prev_rs = rs.drop_last();
    let w = members_without_root(prev_ms, prev_rs);
    let u = members_under(prev_ms, prev_rs, r);
    if i < n {
        assert forall|x: int| 0 <= x < prev_ms.len() && prev_ms[x] == prev_ms[i] implies x == i by {
            assert(ms[x] == ms[i]);
        }
        assert(prev_ms[i] == ms[i]);
        assert(prev_rs[i] == rs[i]);
        lemma_member_without_root(prev_ms, prev_rs, i, r);
        let x = choose|x: int| 0 <= x < w.len() && w[x] == ms[i];
        if rs.last() is None {
            assert(w.push(ms.last())[x] == ms[i]);
        }
        if rs.last() == Some(r) {
            assert(ms.last() != ms[i]);
            if members_under(ms, rs, r).contains(ms[i]) {
                let y = choose|y: int| 0 <= y < u.len() + 1 && u.push(ms.last())[y] == ms[i];
                assert(u[y] == ms[i]);
            }
        }
    } else {
        assert(w.push(ms.last())[w.len() as int] == ms[i]);
        assert(!u.contains(ms[i])) by {
            if u.contains(ms[i]) {
                let y = choose|y: int| 0 <= y < u.len() && u[y] == ms[i];
                lemma_members_under_from(prev_ms, prev_rs, r, y);
                let x = choose|x: int| 0 <= x < prev_ms.len() && prev_ms[x] == u[y];
                assert(ms[x] == ms[i]);
            }
        }
    }
}

/// A member that has a root stands in the group of that root, which is among
/// the groups: one member without a root does not keep the others out.
pub proof fn lemma_member_with_root(ms: Seq<Seq<char>>, rs: Seq<Option<Seq<char>>>, j: int, r: Seq<char>)
    requires
        ms.len() == rs.len(),
        0 <= j < ms.len(),
        rs[j] == Some(r),
    ensures
        members_under(ms, rs, r).contains(ms[j]),
        first_roots(rs).contains(r),
    decreases ms.len(),
{
    let n = ms.len() - 1;
    let prev_ms = ms.drop_last();
    let prev_rs = rs.drop_last();
    let u = members_under(prev_ms, prev_rs, r);
    let f = first_roots(prev_rs);
    if j < n {
        assert(prev_ms[j] == ms[j]);
        assert(prev_rs[j] == rs[j]);
        lemma_member_with_root(prev_ms, prev_rs, j, r);
        let y = choose|y: int| 0 <= y < u.len() && u[y] == ms[j];
        if rs.last() == Some(r) {
            assert(u.push(ms.last())[y] == ms[j]);
        }
        let z = choose|z: int| 0 <= z < f.len() && f[z] == r;
        if let Some(q) = rs.last() {
            if !f.contains(q) {
                assert(f.push(q)[z] == r);
            }
        }
    } else {
        assert(u.push(ms.last())[u.len() as int] == ms[j]);
        if !f.contains(r) {
            assert(f.push(r)[f.len() as int] == r);
        }
    }
}

/// A member found in no repository changes nothing in the grouping of the
/// others: the roots and every group are what they would be without it.
pub proof fn lemma_rootless_member_is_ignored(ms: Seq<Seq<char>>, rs: Seq<Option<Seq<char>>>, i: int, r: Seq<char>)
    requires
        ms.len() == rs.len(),
        0 <= i < ms.len(),
        rs[i] is None,
    ensures
        first_roots(rs) == first_roots(rs.remove(i)),
        members_under(ms, rs, r) == members_under(ms.remove(i), rs.remove(i), r),
    decreases ms.len(),
{
    let n = ms.len() - 1;
    if i == n {
        assert(ms.remove(i) =~= ms.drop_last());
        assert(rs.remove(i) =~= rs.drop_last());
    } else {
        lemma_rootless_member_is_ignored(ms.drop_last(), rs.drop_last(), i, r);
        assert(ms.remove(i).drop_last() =~= ms.drop_last().remove(i));
        assert(rs.remove(i).drop_last() =~= rs.drop_last().remove(i));
        assert(ms.remove(i).last() == ms.last());
        assert(rs.remove(i).last() == rs.last());
    }
}

/// Every member grouped under `r` is one of the members.
proof fn lemma_members_under_from(ms: Seq<Seq<char>>, rs: Seq<Option<Seq<char>>>, r: Seq<char>, y: int)
    requires
        0 <= y < members_under(ms, rs, r).len(),
    ensures
        exists|x: int| 0 <= x < ms.len() && ms[x] == members_under(ms, rs, r)[y],
    decreases ms.len(),
{
    let u = members_under(ms.drop_last(), rs.drop_last(), r);
    if y < u.len() {
        lemma_members_under_from(ms.drop_last(), rs.drop_last(), r, y);
        let x = choose|x: int| 0 <= x < ms.len() - 1 && ms.drop_last()[x] == u[y];
        assert(ms[x] == u[y]);
    } else {
        assert(ms[ms.len() - 1] == members_under(ms, rs, r)[y]);
    }
}

/// The distinct roots found, in lexicographic order: one entry per repository,
/// the same from run to run.
pub fn unique_roots(roots: &Vec<Option<String>>) -> (r: Vec<String>)
    ensures
        strictly_sorted(texts(r@)),
        forall|x: Seq<char>| texts(r@).contains(x) <==> opt_texts(roots@).contains(Some(x)),
{
    let mut found: Vec<String> = Vec::new();
    let mut i: usize = 0;
    while i < roots.len()
        invariant
            i <= roots@.len(),
            forall|x: Seq<char>| texts(found@).contains(x) <==> opt_texts(roots@).subrange(0, i as int).contains(Some(x)),
        decreases roots@.len() - i,
    {
        let ghost before = texts(found@);
        let ghost s0 = opt_texts(roots@).subrange(0, i as int);
        let ghost s1 = opt_texts(roots@).subrange(0, i + 1 as int);
        assert(s1 =~= s0.push(opt_texts(roots@)[i as int]));
        if let Some(root) = &roots[i] {
            found.push(root.clone());
            assert(texts(found@) =~= before.push(root@));
        } else {
            assert(texts(found@) =~= before);
        }
        assert forall|x: Seq<char>| texts(found@).contains(x) <==> s1.contains(Some(x)) by {
            assert(before.contains(x) == s0.contains(Some(x)));
            if before.contains(x) {
                let k = choose|k: int| 0 <= k < before.len() && before[k] == x;
                assert(texts(found@)[k] == x);
            }
            if s1.contains(Some(x)) {
                let k = choose|k: int| 0 <= k < s1.len() && s1[k] == Some(x);
                if k < i {
                    assert(s0[k] == Some(x));
                } else {
                    assert(texts(found@)[before.len() as int] == x);
                }
            }
            if s0.contains(Some(x)) {
                let k = choose|k: int| 0 <= k < s0.len() && s0[k] == Some(x);
                assert(s1[k] == Some(x));
            }
            if texts(found@).contains(x) {
                let k = choose|k: int| 0 <= k < texts(found@).len() && texts(found@)[k] == x;
                if k < before.len() {
                    assert(before[k] == x);
                } else {
                    assert(s1[i as int] == Some(x));
                }
            }
        }
        i = i + 1;
    }
    assert(opt_texts(roots@).subrange(0, roots@.len() as int) =~= opt_texts(roots@));
    sorted_unique(&found)
}

/// Path components joined by `/`.
pub open spec fn joined(parts: Seq<Seq<char>>) -> Seq<char>
    decreases parts.len(),
{
    if parts.len() == 0 {
        seq![]
    } else if parts.len() == 1 {
        parts[0]
    } else {
        joined(parts.drop_last()) + seq!['/'] + parts.last()
    }
}

/// Path components joined by `/`.
pub fn join_path(parts: &Vec<String>) -> (r: String)
    ensures
        r@ == joined(texts(parts@)),
{
    let mut r = String::new();
    let mut i: usize = 0;
    proof {
        reveal_strlit("/");
    }
    while i < parts.len()
        invariant
            i <= parts@.len(),
            r@ == joined(texts(parts@).subrange(0, i as int)),
        decreases parts@.len() - i,
    {
        let ghost prev = texts(parts@).subrange(0, i as int);
        assert(texts(parts@).subrange(0, i + 1 as int).drop_last() =~= prev);
        proof {
            reveal_strlit("/");
        }
        if i > 0 {
            r.append("/");
        } else {
            assert(r@ =~= seq![]);
        }
        r.append(parts[i].as_str());
        assert(texts(parts@).subrange(0, i + 1 as int).last() == parts@[i as int]@);
        assert(i == 0 ==> texts(parts@).subrange(0, i + 1 as int)[0] == parts@[i as int]@);
        assert(r@ =~= joined(texts(parts@).subrange(0, i + 1 as int)));
        i = i + 1;
    }
    assert(texts(parts@).subrange(0, parts@.len() as int) =~= texts(parts@));
    r
}

/// The path to stage for a file: relative to the repository root where the
/// file lies below it, else the path as it was given.
pub fn commit_path(file: &Vec<String>, repo: &Vec<String>, given: &String) -> (r: String)
    ensures
        r@ == if repo@.len() <= file@.len() && texts(file@).subrange(0, repo@.len() as int) == texts(repo@) {
            joined(texts(file@).subrange(repo@.len() as int, file@.len() as int))
        } else {
            given@
        },
{
    match strip_prefix(file, repo) {
        Some(rel) => join_path(&rel),
        None => given.clone(),
    }
}

} // verus!
