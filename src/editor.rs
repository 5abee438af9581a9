//! Editing one package manifest: its own version, and the declarations of
//! dependencies on the other packages of the workspace.
use vstd::prelude::*;
use crate::manifest::{
    attr_shape, doc_nodes, doc_text, entry_shape, entry_shape_root, is_toml, node_at, parse_document,
    remove_attr, remove_node, render_document, set_attr_text, set_entry_text, set_node, table_keys,
    table_like, toml_nodes, under, NodeView, Path, Shape,
};
use crate::version::Version;
use crate::repo::{texts, opt_texts};

verus! {

/// Why a manifest could not be read or changed.
#[derive(Debug)]
pub enum ManifestError {
    /// The text is not valid TOML; the parser's message.
    Parse(String),
    /// There is no `package` table to hold a version.
    NoPackage,
}

/// What a manifest found while scanning a directory declares.
pub enum ManifestKind {
    /// A workspace, with the string patterns of its `members` array.
    Workspace(Vec<String>),
    /// A single package.
    Package,
    /// Neither.
    Neither,
}

/// The strings among optional strings, in order.
pub open spec fn present_strings(items: Seq<Option<Seq<char>>>) -> Seq<Seq<char>>
    decreases items.len(),
{
    if items.len() == 0 {
        seq![]
    } else {
        let prev = present_strings(items.drop_last());
        match items.last() {
            Some(s) => prev.push(s),
            None => prev,
        }
    }
}

/// The member patterns of a workspace whose `members` item is `n`: its string
/// elements where it is an array, none otherwise.
pub open spec fn member_patterns(n: Option<NodeView>) -> Seq<Seq<char>> {
    match n {
        Some(NodeView::Array(items)) => present_strings(items),
        _ => seq![],
    }
}

/// One package manifest, held with its formatting.
pub struct CrateEditor {
    doc: toml_edit::DocumentMut,
}

/// The tables that hold dependency declarations.
pub open spec fn dep_tables() -> Seq<Seq<char>> {
    seq!["dependencies"@, "dev-dependencies"@, "build-dependencies"@]
}

/// The names held by a list of strings.
pub open spec fn names(s: Seq<String>) -> Set<Seq<char>> {
    Set::new(|n: Seq<char>| exists|i: int| 0 <= i < s.len() && s[i]@ == n)
}

/// The new tag of a declaration whose tag was `old_tag`: the `v` prefix is kept
/// where there was one, and not added where there was none.
pub open spec fn tag_for(old_tag: Seq<char>, v: Seq<char>) -> Seq<char> {
    if old_tag.len() > 0 && old_tag[0] == 'v' {
        seq!['v'] + v
    } else {
        v
    }
}

/// The declaration at `[t, k]` rewritten to version `v`.
///
/// A bare string becomes `v`. In an inline table, a `version` attribute becomes
/// `v`; a `branch` attribute is taken out and replaced by the tag `v` + `v`;
/// failing that, a string `tag` gets `tag_for`. Any other shape stays as it is.
pub open spec fn rewrite_decl(m: Map<Path, NodeView>, t: Seq<char>, k: Seq<char>, v: Seq<char>) -> Map<Path, NodeView> {
    let at = seq![t, k];
    match node_at(m, at) {
        Some(NodeView::Text(_)) => set_node(m, at, NodeView::Text(v)),
        Some(NodeView::Inline) => {
            let m1 = if m.contains_key(at.push("version"@)) {
                set_node(m, at.push("version"@), NodeView::Text(v))
            } else {
                m
            };
            if m.contains_key(at.push("branch"@)) {
                set_node(
                    remove_node(m1, at.push("branch"@)),
                    at.push("tag"@),
                    NodeView::Text(seq!['v'] + v),
                )
            } else {
                match node_at(m, at.push("tag"@)) {
                    Some(NodeView::Text(old_tag)) => set_node(m1, at.push("tag"@), NodeView::Text(tag_for(old_tag, v))),
                    _ => m1,
                }
            }
        },
        _ => m,
    }
}

/// `[t, k]` is a declaration that a rewrite for the names `known` touches.
pub open spec fn is_target(m: Map<Path, NodeView>, known: Set<Seq<char>>, t: Seq<char>, k: Seq<char>) -> bool {
    dep_tables().contains(t) && table_like(node_at(m, seq![t])) && known.contains(k)
}

/// The item at `p` once every declaration of a name in `known` is rewritten to `v`.
pub open spec fn updated_at(m: Map<Path, NodeView>, known: Set<Seq<char>>, v: Seq<char>, p: Path) -> Option<NodeView> {
    if p.len() >= 2 && is_target(m, known, p[0], p[1]) {
        node_at(rewrite_decl(m, p[0], p[1], v), p)
    } else {
        node_at(m, p)
    }
}

/// The document `m` once every declaration of a name in `known` is rewritten to `v`.
pub open spec fn updated_nodes(m: Map<Path, NodeView>, known: Set<Seq<char>>, v: Seq<char>) -> Map<Path, NodeView> {
    Map::new(|p: Path| updated_at(m, known, v, p) is Some, |p: Path| updated_at(m, known, v, p)->0)
}

pub open spec fn package_version_path() -> Path {
    seq!["package"@, "version"@]
}

pub open spec fn package_name_path() -> Path {
    seq!["package"@, "name"@]
}

proof fn lemma_set_node_at(m: Map<Path, NodeView>, at: Path, n: NodeView, p: Path)
    ensures
        node_at(set_node(m, at, n), p) == if p == at {
            Some(n)
        } else if under(p, at) {
            None
        } else {
            node_at(m, p)
        },
{
}

proof fn lemma_remove_node_at(m: Map<Path, NodeView>, at: Path, p: Path)
    ensures
        node_at(remove_node(m, at), p) == if under(p, at) {
            None
        } else {
            node_at(m, p)
        },
{
}

proof fn lemma_under_push(p: Path, at: Path, a: Seq<char>)
    ensures
        under(p, at.push(a)) ==> under(p, at),
        under(at.push(a), at),
        under(at, at),
{
    if under(p, at.push(a)) {
        assert(p.subrange(0, at.len() as int) =~= p.subrange(0, at.len() + 1 as int).subrange(0, at.len() as int));
        assert(at.push(a).subrange(0, at.len() as int) =~= at);
    }
    assert(at.push(a).subrange(0, at.len() as int) =~= at);
    assert(at.subrange(0, at.len() as int) =~= at);
}

/// Rewriting the declaration at `[t, k]` changes nothing outside it.
proof fn lemma_rewrite_outside(m: Map<Path, NodeView>, t: Seq<char>, k: Seq<char>, v: Seq<char>, p: Path)
    requires
        !under(p, seq![t, k]),
    ensures
        node_at(rewrite_decl(m, t, k, v), p) == node_at(m, p),
{
    let at = seq![t, k];
    lemma_under_push(p, at, "version"@);
    lemma_under_push(p, at, "branch"@);
    lemma_under_push(p, at, "tag"@);
    let m1 = if m.contains_key(at.push("version"@)) {
        set_node(m, at.push("version"@), NodeView::Text(v))
    } else {
        m
    };
    lemma_set_node_at(m, at, NodeView::Text(v), p);
    lemma_set_node_at(m, at.push("version"@), NodeView::Text(v), p);
    lemma_remove_node_at(m1, at.push("branch"@), p);
    lemma_set_node_at(remove_node(m1, at.push("branch"@)), at.push("tag"@), NodeView::Text(seq!['v'] + v), p);
    lemma_set_node_at(m1, at.push("tag"@), NodeView::Text(v), p);
    if let Some(NodeView::Text(old_tag)) = node_at(m, at.push("tag"@)) {
        lemma_set_node_at(m1, at.push("tag"@), NodeView::Text(tag_for(old_tag, v)), p);
    }
}

/// What the rewrite of `[t, k]` leaves below `[t, k]` depends only on what stood there.
proof fn lemma_rewrite_agree(m1: Map<Path, NodeView>, m2: Map<Path, NodeView>, t: Seq<char>, k: Seq<char>, v: Seq<char>, p: Path)
    requires
        forall|q: Path| under(q, seq![t, k]) ==> node_at(m1, q) == node_at(m2, q),
        under(p, seq![t, k]),
    ensures
        node_at(rewrite_decl(m1, t, k, v), p) == node_at(rewrite_decl(m2, t, k, v), p),
{
    let at = seq![t, k];
    lemma_under_push(p, at, "version"@);
    lemma_under_push(p, at, "branch"@);
    lemma_under_push(p, at, "tag"@);
    assert(node_at(m1, at) == node_at(m2, at));
    assert(node_at(m1, at.push("version"@)) == node_at(m2, at.push("version"@)));
    assert(node_at(m1, at.push("branch"@)) == node_at(m2, at.push("branch"@)));
    assert(node_at(m1, at.push("tag"@)) == node_at(m2, at.push("tag"@)));
    let a1 = if m1.contains_key(at.push("version"@)) {
        set_node(m1, at.push("version"@), NodeView::Text(v))
    } else {
        m1
    };
    let a2 = if m2.contains_key(at.push("version"@)) {
        set_node(m2, at.push("version"@), NodeView::Text(v))
    } else {
        m2
    };
    lemma_set_node_at(m1, at, NodeView::Text(v), p);
    lemma_set_node_at(m2, at, NodeView::Text(v), p);
    lemma_set_node_at(m1, at.push("version"@), NodeView::Text(v), p);
    lemma_set_node_at(m2, at.push("version"@), NodeView::Text(v), p);
    lemma_remove_node_at(a1, at.push("branch"@), p);
    lemma_remove_node_at(a2, at.push("branch"@), p);
    lemma_set_node_at(remove_node(a1, at.push("branch"@)), at.push("tag"@), NodeView::Text(seq!['v'] + v), p);
    lemma_set_node_at(remove_node(a2, at.push("branch"@)), at.push("tag"@), NodeView::Text(seq!['v'] + v), p);
    if let Some(NodeView::Text(old_tag)) = node_at(m1, at.push("tag"@)) {
        lemma_set_node_at(a1, at.push("tag"@), NodeView::Text(tag_for(old_tag, v)), p);
        lemma_set_node_at(a2, at.push("tag"@), NodeView::Text(tag_for(old_tag, v)), p);
    }
}

/// The name of the `i`th dependency table.
fn dep_table_name(i: usize) -> (r: &'static str)
    requires
        i < 3,
    ensures
        r@ == dep_tables()[i as int],
{
    if i == 0 {
        "dependencies"
    } else if i == 1 {
        "dev-dependencies"
    } else {
        "build-dependencies"
    }
}

/// Whether `k` is one of `members`.
fn names_contain(members: &[String], k: &String) -> (r: bool)
    ensures
        r == names(members@).contains(k@),
{
    let mut i: usize = 0;
    while i < members.len()
        invariant
            i <= members@.len(),
            forall|j: int| 0 <= j < i ==> members@[j]@ != k@,
        decreases members@.len() - i,
    {
        if members[i].eq(k) {
            return true;
        }
        i = i + 1;
    }
    false
}

/// Relies on `str::starts_with` with a `char` pattern.
#[verifier::external_body]
fn starts_with_char(s: &str, c: char) -> (r: bool)
    ensures
        r == (s@.len() > 0 && s@[0] == c),
{
    s.starts_with(c)
}

/// Rewrites the one declaration at `[t, k]` to the version text `v`.
fn rewrite_declaration(d: &mut toml_edit::DocumentMut, t: &str, k: &str, v: &str)
    requires
        table_like(node_at(doc_nodes(*old(d)), seq![t@])),
    ensures
        doc_nodes(*final(d)) == rewrite_decl(doc_nodes(*old(d)), t@, k@, v@),
{
    let ghost m = doc_nodes(*d);
    let ghost at = seq![t@, k@];
    proof {
        reveal_strlit("version");
        reveal_strlit("branch");
        reveal_strlit("tag");
    }
    match entry_shape(d, t, k) {
        Shape::Text(_) => {
            set_entry_text(d, t, k, v);
        },
        Shape::Inline => {
            assert("version"@.len() == 7 && "branch"@.len() == 6 && "tag"@.len() == 3);
            assert(!under(at.push("branch"@), at.push("version"@))) by {
                assert(at.push("branch"@).subrange(0, 3)[2] == "branch"@);
            }
            assert(!under(at.push("tag"@), at.push("version"@))) by {
                assert(at.push("tag"@).subrange(0, 3)[2] == "tag"@);
            }
            assert(!under(at.push("tag"@), at.push("branch"@))) by {
                assert(at.push("tag"@).subrange(0, 3)[2] == "tag"@);
            }
            assert(!under(at, at.push("version"@)));
            assert(!under(seq![t@], at.push("version"@)));
            assert(seq![t@, k@, "version"@] == at.push("version"@));
            assert(seq![t@, k@, "branch"@] == at.push("branch"@));
            assert(seq![t@, k@, "tag"@] == at.push("tag"@));
            let has_version = !matches!(attr_shape(d, t, k, "version"), Shape::Absent);
            if has_version {
                set_attr_text(d, t, k, "version", v);
                proof {
                    lemma_set_node_at(m, at.push("version"@), NodeView::Text(v@), at);
                    lemma_set_node_at(m, at.push("version"@), NodeView::Text(v@), seq![t@]);
                    lemma_set_node_at(m, at.push("version"@), NodeView::Text(v@), at.push("branch"@));
                    lemma_set_node_at(m, at.push("version"@), NodeView::Text(v@), at.push("tag"@));
                }
            }
            let ghost m1 = doc_nodes(*d);
            assert(has_version == m.contains_key(at.push("version"@)));
            assert(m1 == (if m.contains_key(at.push("version"@)) {
                set_node(m, at.push("version"@), NodeView::Text(v@))
            } else {
                m
            }));
            assert(node_at(m1, at.push("branch"@)) == node_at(m, at.push("branch"@)));
            assert(node_at(m1, at.push("tag"@)) == node_at(m, at.push("tag"@)));
            let branch = attr_shape(d, t, k, "branch");
            if !matches!(branch, Shape::Absent) {
                remove_attr(d, t, k, "branch");
                let mut tag = "v".to_owned();
                tag.append(v);
                proof {
                    reveal_strlit("v");
                    lemma_remove_node_at(m1, at.push("branch"@), seq![t@]);
                }
                set_attr_text(d, t, k, "tag", tag.as_str());
                assert(tag@ == seq!['v'] + v@);
            } else {
                match attr_shape(d, t, k, "tag") {
                    Shape::Text(old_tag) => {
                        let tag = if starts_with_char(old_tag.as_str(), 'v') {
                            let mut tag = "v".to_owned();
                            tag.append(v);
                            proof {
                                reveal_strlit("v");
                            }
                            tag
                        } else {
                            v.to_owned()
                        };
                        assert(tag@ == tag_for(old_tag@, v@));
                        set_attr_text(d, t, k, "tag", tag.as_str());
                    },
                    _ => {},
                }
            }
            assert(doc_nodes(*d) =~= rewrite_decl(m, t@, k@, v@));
        },
        _ => {},
    }
}

/// Rewrites, in the dependency table `t`, every declaration of a name in `members`.
fn update_table(d: &mut toml_edit::DocumentMut, t: &str, members: &[String], v: &str)
    ensures
        forall|p: Path|
            #![trigger node_at(doc_nodes(*final(d)), p)]
            node_at(doc_nodes(*final(d)), p) == if p.len() >= 2 && p[0] == t@
                && table_like(node_at(doc_nodes(*old(d)), seq![t@]))
                && names(members@).contains(p[1]) {
                node_at(rewrite_decl(doc_nodes(*old(d)), t@, p[1], v@), p)
            } else {
                node_at(doc_nodes(*old(d)), p)
            },
{
    let ghost m = doc_nodes(*d);
    let keys = match table_keys(d, t) {
        Some(keys) => keys,
        None => {
            return;
        },
    };
    let mut j: usize = 0;
    while j < keys.len()
        invariant
            j <= keys@.len(),
            table_like(node_at(m, seq![t@])),
            forall|a: int, b: int| 0 <= a < b < keys@.len() ==> keys@[a]@ != keys@[b]@,
            forall|k: Seq<char>|
                m.contains_key(seq![t@, k]) ==> exists|i: int| 0 <= i < keys@.len() && keys@[i]@ == k,
            forall|p: Path|
                #![trigger node_at(doc_nodes(*d), p)]
                node_at(doc_nodes(*d), p) == if p.len() >= 2 && p[0] == t@
                    && names(members@).contains(p[1])
                    && exists|i: int| 0 <= i < j && keys@[i]@ == p[1] {
                    node_at(rewrite_decl(m, t@, p[1], v@), p)
                } else {
                    node_at(m, p)
                },
        decreases keys@.len() - j,
    {
        let ghost c = doc_nodes(*d);
        let k = &keys[j];
        assert(table_like(node_at(c, seq![t@]))) by {
            assert(seq![t@].len() == 1);
        }
        if names_contain(members, k) {
            rewrite_declaration(d, t, k.as_str(), v);
            let ghost at = seq![t@, k@];
            assert forall|q: Path| under(q, at) implies node_at(c, q) == node_at(m, q) by {
                assert(q[0] == at[0] && q[1] == at[1]) by {
                    assert(q.subrange(0, 2)[0] == q[0] && q.subrange(0, 2)[1] == q[1]);
                }
                if exists|i: int| 0 <= i < j && keys@[i]@ == q[1] {
                    let i = choose|i: int| 0 <= i < j && keys@[i]@ == q[1];
                    assert(keys@[i]@ != keys@[j as int]@);
                }
            }
            assert forall|p: Path| #![trigger node_at(doc_nodes(*d), p)]
                node_at(doc_nodes(*d), p) == if p.len() >= 2 && p[0] == t@
                    && names(members@).contains(p[1])
                    && exists|i: int| 0 <= i < j + 1 && keys@[i]@ == p[1] {
                    node_at(rewrite_decl(m, t@, p[1], v@), p)
                } else {
                    node_at(m, p)
                } by {
                if under(p, at) {
                    assert(p[0] == at[0] && p[1] == at[1]) by {
                        assert(p.subrange(0, 2)[0] == p[0] && p.subrange(0, 2)[1] == p[1]);
                    }
                    lemma_rewrite_agree(c, m, t@, k@, v@, p);
                    assert(keys@[j as int]@ == p[1]);
                } else {
                    lemma_rewrite_outside(c, t@, k@, v@, p);
                    if p.len() >= 2 && p[0] == t@ {
                        assert(p[1] != k@) by {
                            if p[1] == k@ {
                                assert(p.subrange(0, 2) =~= at);
                            }
                        }
                        if exists|i: int| 0 <= i < j + 1 && keys@[i]@ == p[1] {
                            let i = choose|i: int| 0 <= i < j + 1 && keys@[i]@ == p[1];
                            assert(i < j);
                        }
                    }
                }
            }
        } else {
            assert forall|p: Path| #![trigger node_at(doc_nodes(*d), p)]
                node_at(doc_nodes(*d), p) == if p.len() >= 2 && p[0] == t@
                    && names(members@).contains(p[1])
                    && exists|i: int| 0 <= i < j + 1 && keys@[i]@ == p[1] {
                    node_at(rewrite_decl(m, t@, p[1], v@), p)
                } else {
                    node_at(m, p)
                } by {
                if p.len() >= 2 && p[0] == t@ && names(members@).contains(p[1]) {
                    if exists|i: int| 0 <= i < j + 1 && keys@[i]@ == p[1] {
                        let i = choose|i: int| 0 <= i < j + 1 && keys@[i]@ == p[1];
                        assert(i < j);
                    }
                }
            }
        }
        j = j + 1;
    }
    assert forall|p: Path| #![trigger node_at(doc_nodes(*d), p)]
        node_at(doc_nodes(*d), p) == if p.len() >= 2 && p[0] == t@
            && table_like(node_at(m, seq![t@]))
            && names(members@).contains(p[1]) {
            node_at(rewrite_decl(m, t@, p[1], v@), p)
        } else {
            node_at(m, p)
        } by {
        if p.len() >= 2 && p[0] == t@ && names(members@).contains(p[1]) {
            if !(exists|i: int| 0 <= i < keys@.len() && keys@[i]@ == p[1]) {
                assert(!m.contains_key(seq![t@, p[1]]));
                lemma_rewrite_absent(m, t@, p[1], v@);
            }
        }
    }
}

/// Where there is no declaration at `[t, k]`, rewriting it changes nothing.
proof fn lemma_rewrite_absent(m: Map<Path, NodeView>, t: Seq<char>, k: Seq<char>, v: Seq<char>)
    requires
        !m.contains_key(seq![t, k]),
    ensures
        rewrite_decl(m, t, k, v) == m,
{
}

proof fn lemma_under_own_decl(p: Path)
    requires
        p.len() >= 2,
    ensures
        under(p, seq![p[0], p[1]]),
{
    assert(p.subrange(0, 2) =~= seq![p[0], p[1]]);
}

/// Rewrites every declaration, in the three dependency tables, of a name in `members`.
fn update_document(d: &mut toml_edit::DocumentMut, members: &[String], v: &str)
    ensures
        doc_nodes(*final(d)) == updated_nodes(doc_nodes(*old(d)), names(members@), v@),
{
    let ghost m = doc_nodes(*d);
    let ghost known = names(members@);
    proof {
        reveal_strlit("dependencies");
        reveal_strlit("dev-dependencies");
        reveal_strlit("build-dependencies");
        assert(dep_tables()[0].len() == 12 && dep_tables()[1].len() == 16 && dep_tables()[2].len() == 18);
    }
    let mut i: usize = 0;
    while i < 3
        invariant
            i <= 3,
            known == names(members@),
            dep_tables()[0].len() == 12 && dep_tables()[1].len() == 16 && dep_tables()[2].len() == 18,
            forall|p: Path|
                #![trigger node_at(doc_nodes(*d), p)]
                node_at(doc_nodes(*d), p) == if p.len() >= 2 && is_target(m, known, p[0], p[1])
                    && dep_tables().subrange(0, i as int).contains(p[0]) {
                    node_at(rewrite_decl(m, p[0], p[1], v@), p)
                } else {
                    node_at(m, p)
                },
        decreases 3 - i,
    {
        let ghost c = doc_nodes(*d);
        let t = dep_table_name(i);
        assert(node_at(c, seq![t@]) == node_at(m, seq![t@])) by {
            assert(seq![t@].len() == 1);
        }
        update_table(d, t, members, v);
        assert forall|p: Path| #![trigger node_at(doc_nodes(*d), p)]
            node_at(doc_nodes(*d), p) == if p.len() >= 2 && is_target(m, known, p[0], p[1])
                && dep_tables().subrange(0, i + 1 as int).contains(p[0]) {
                node_at(rewrite_decl(m, p[0], p[1], v@), p)
            } else {
                node_at(m, p)
            } by {
            if p.len() >= 2 {
                let at = seq![p[0], p[1]];
                if p[0] == t@ {
                    assert(!dep_tables().subrange(0, i as int).contains(t@)) by {
                        if dep_tables().subrange(0, i as int).contains(t@) {
                            let x = choose|x: int| 0 <= x < i && #[trigger] dep_tables().subrange(0, i as int)[x] == t@;
                            assert(dep_tables()[x] == t@);
                        }
                    }
                    assert(dep_tables().subrange(0, i + 1 as int)[i as int] == t@);
                    assert(dep_tables().contains(t@)) by {
                        assert(dep_tables()[i as int] == t@);
                    }
                    if table_like(node_at(m, seq![t@])) && known.contains(p[1]) {
                        assert forall|q: Path| under(q, at) implies node_at(c, q) == node_at(m, q) by {
                            assert(q[0] == at[0]) by {
                                assert(q.subrange(0, 2)[0] == q[0]);
                            }
                        }
                        lemma_under_own_decl(p);
                        lemma_rewrite_agree(c, m, t@, p[1], v@, p);
                    }
                } else {
                    assert(dep_tables().subrange(0, i + 1 as int).contains(p[0]) ==
                        dep_tables().subrange(0, i as int).contains(p[0])) by {
                        if dep_tables().subrange(0, i + 1 as int).contains(p[0]) {
                            let x = choose|x: int| 0 <= x < i + 1 && #[trigger] dep_tables().subrange(0, i + 1 as int)[x] == p[0];
                            assert(x < i);
                            assert(dep_tables().subrange(0, i as int)[x] == p[0]);
                        }
                        if dep_tables().subrange(0, i as int).contains(p[0]) {
                            let x = choose|x: int| 0 <= x < i && #[trigger] dep_tables().subrange(0, i as int)[x] == p[0];
                            assert(dep_tables().subrange(0, i + 1 as int)[x] == p[0]);
                        }
                    }
                }
            }
        }
        i = i + 1;
    }
    assert(dep_tables().subrange(0, 3) =~= dep_tables());
    let ghost fin = doc_nodes(*d);
    let ghost upd = updated_nodes(m, known, v@);
    assert forall|p: Path| #[trigger] fin.contains_key(p) == upd.contains_key(p)
        && (fin.contains_key(p) ==> fin[p] == upd[p]) by {
        if p.len() >= 2 && is_target(m, known, p[0], p[1]) {
            assert(dep_tables().subrange(0, 3).contains(p[0]));
        }
        assert(updated_at(m, known, v@, p) == node_at(fin, p));
    }
    assert(fin =~= upd);
}

/// Relies on `TomlError`'s `Display`: the parser's message.
#[verifier::external_body]
fn toml_error_message(e: &toml_edit::TomlError) -> (r: String) {
    e.to_string()
}

impl CrateEditor {
    /// The items of the manifest, keyed by their path of keys.
    pub closed spec fn nodes(&self) -> Map<Path, NodeView> {
        doc_nodes(self.doc)
    }

    /// The TOML text that the manifest renders to.
    pub closed spec fn text(&self) -> Seq<char> {
        doc_text(self.doc)
    }

    /// Reads a manifest from its text; fails where the text is not valid TOML.
    pub fn new(content: &str) -> (r: Result<CrateEditor, ManifestError>)
        ensures
            r is Ok == is_toml(content@),
            r is Err ==> r matches Err(ManifestError::Parse(_)),
            r matches Ok(e) ==> e.nodes() == toml_nodes(content@),
    {
        match parse_document(content) {
            Ok(doc) => Ok(CrateEditor { doc }),
            Err(e) => Err(ManifestError::Parse(toml_error_message(&e))),
        }
    }

    /// The manifest's text, with every part that was not changed as it was read.
    pub fn save(&self) -> (r: String)
        ensures
            r@ == self.text(),
    {
        render_document(&self.doc)
    }

    /// Sets the package's own version to `new_version`. Fails, changing nothing,
    /// where the manifest has no `package` table.
    pub fn bump_version(&mut self, new_version: &Version) -> (r: Result<(), ManifestError>)
        ensures
            match node_at(old(self).nodes(), seq!["package"@]) {
                Some(NodeView::Table) | Some(NodeView::Inline) => {
                    &&& r is Ok
                    &&& final(self).nodes() == set_node(
                        old(self).nodes(),
                        package_version_path(),
                        NodeView::Text(new_version.text()),
                    )
                },
                _ => r matches Err(ManifestError::NoPackage) && final(self).nodes() == old(self).nodes(),
            },
    {
        let v = new_version.to_text();
        match entry_shape_root(&self.doc, "package") {
            Shape::Table | Shape::Inline => {
                set_entry_text(&mut self.doc, "package", "version", v.as_str());
                Ok(())
            },
            _ => Err(ManifestError::NoPackage),
        }
    }

    /// Rewrites every dependency declaration of a name in `members` to
    /// `new_version`, in the tables `dependencies`, `dev-dependencies` and
    /// `build-dependencies`, standard or inline. Declarations of other names
    /// are left as they are.
    pub fn update_dependencies(&mut self, members: &[String], new_version: &Version) -> (r: Result<(), ManifestError>)
        ensures
            r is Ok,
            final(self).nodes() == updated_nodes(old(self).nodes(), names(members@), new_version.text()),
    {
        let v = new_version.to_text();
        update_document(&mut self.doc, members, v.as_str());
        Ok(())
    }

    /// Whether the manifest has a `package` table that can take a version.
    pub fn has_package_table(&self) -> (r: bool)
        ensures
            r == (node_at(self.nodes(), seq!["package"@]) == Some(NodeView::Table)
                || node_at(self.nodes(), seq!["package"@]) == Some(NodeView::Inline)),
    {
        match entry_shape_root(&self.doc, "package") {
            Shape::Table | Shape::Inline => true,
            _ => false,
        }
    }

    /// The string at `package.name`, if there is one.
    pub fn get_package_name(&self) -> (r: Option<String>)
        ensures
            match node_at(self.nodes(), package_name_path()) {
                Some(NodeView::Text(s)) => r matches Some(n) && n@ == s,
                _ => r is None,
            },
    {
        match entry_shape(&self.doc, "package", "name") {
            Shape::Text(s) => Some(s),
            _ => None,
        }
    }

    /// The version at `package.version`, where there is one and it parses.
    pub fn get_version(&self) -> (r: Option<Version>)
        ensures
            r == match node_at(self.nodes(), package_version_path()) {
                Some(NodeView::Text(s)) => crate::version::parsed_version(s),
                _ => None,
            },
    {
        match entry_shape(&self.doc, "package", "version") {
            Shape::Text(s) => Version::parse(s.as_str()),
            _ => None,
        }
    }
}

impl CrateEditor {
    /// Whether the manifest declares a workspace (with its member patterns), a
    /// package, or neither. A workspace takes precedence.
    pub fn manifest_kind(&self) -> (r: ManifestKind)
        ensures
            match node_at(self.nodes(), seq!["workspace"@]) {
                Some(_) => r matches ManifestKind::Workspace(ps)
                    && texts(ps@) == member_patterns(node_at(self.nodes(), seq!["workspace"@, "members"@])),
                None => if node_at(self.nodes(), seq!["package"@]) is Some {
                    r is Package
                } else {
                    r is Neither
                },
            },
    {
        match entry_shape_root(&self.doc, "workspace") {
            Shape::Absent => {
                if matches!(entry_shape_root(&self.doc, "package"), Shape::Absent) {
                    ManifestKind::Neither
                } else {
                    ManifestKind::Package
                }
            },
            _ => {
                let items = match entry_shape(&self.doc, "workspace", "members") {
                    Shape::Array(items) => items,
                    _ => Vec::new(),
                };
                let mut patterns: Vec<String> = Vec::new();
                let mut i: usize = 0;
                while i < items.len()
                    invariant
                        i <= items@.len(),
                        texts(patterns@) == present_strings(opt_texts(items@).subrange(0, i as int)),
                    decreases items@.len() - i,
                {
                    let ghost before = texts(patterns@);
                    assert(opt_texts(items@).subrange(0, i as int) =~= opt_texts(items@).subrange(0, i + 1 as int).drop_last());
                    if let Some(p) = &items[i] {
                        patterns.push(p.clone());
                        assert(texts(patterns@) =~= before.push(p@));
                    } else {
                        assert(texts(patterns@) =~= before);
                    }
                    i = i + 1;
                }
                assert(opt_texts(items@).subrange(0, items@.len() as int) =~= opt_texts(items@));
                ManifestKind::Workspace(patterns)
            },
        }
    }
}

/// `at.push(a)` lies at or below `at.push(b)` only where `a` is `b`.
proof fn lemma_under_sibling(at: Path, a: Seq<char>, b: Seq<char>)
    ensures
        under(at.push(a), at.push(b)) == (a == b),
{
    if under(at.push(a), at.push(b)) {
        assert(at.push(a).subrange(0, at.len() + 1 as int) =~= at.push(a));
        assert(at.push(a)[at.len() as int] == at.push(b)[at.len() as int]);
    }
    if a == b {
        assert(at.push(a).subrange(0, at.len() + 1 as int) =~= at.push(a));
    }
}

/// A declaration that is a bare string of a known name becomes the new version.
pub proof fn lemma_bare_string_replaced(m: Map<Path, NodeView>, known: Set<Seq<char>>, v: Seq<char>, t: Seq<char>, k: Seq<char>)
    requires
        is_target(m, known, t, k),
        node_at(m, seq![t, k]) matches Some(NodeView::Text(_)),
    ensures
        node_at(updated_nodes(m, known, v), seq![t, k]) == Some(NodeView::Text(v)),
{
    lemma_set_node_at(m, seq![t, k], NodeView::Text(v), seq![t, k]);
}

/// An attribute-set declaration of a known name: it stays an attribute set; a
/// `version` becomes the new version; `branch` is gone; the tag is `v` + the
/// version where there was a branch, else a string tag keeps or omits its `v`
/// prefix; every other attribute is left as it was.
pub proof fn lemma_attribute_set_rewritten(
    m: Map<Path, NodeView>,
    known: Set<Seq<char>>,
    v: Seq<char>,
    t: Seq<char>,
    k: Seq<char>,
    a: Seq<char>,
)
    requires
        is_target(m, known, t, k),
        node_at(m, seq![t, k]) == Some(NodeView::Inline),
    ensures
        node_at(updated_nodes(m, known, v), seq![t, k]) == Some(NodeView::Inline),
        node_at(updated_nodes(m, known, v), seq![t, k, a]) == if a == "version"@ {
            if m.contains_key(seq![t, k, a]) {
                Some(NodeView::Text(v))
            } else {
                None
            }
        } else if a == "branch"@ {
            None
        } else if a == "tag"@ {
            if m.contains_key(seq![t, k, "branch"@]) {
                Some(NodeView::Text(seq!['v'] + v))
            } else {
                match node_at(m, seq![t, k, a]) {
                    Some(NodeView::Text(old_tag)) => Some(NodeView::Text(tag_for(old_tag, v))),
                    other => other,
                }
            }
        } else {
            node_at(m, seq![t, k, a])
        },
{
    let at = seq![t, k];
    let p = seq![t, k, a];
    reveal_strlit("version");
    reveal_strlit("branch");
    reveal_strlit("tag");
    assert("version"@.len() == 7 && "branch"@.len() == 6 && "tag"@.len() == 3);
    assert(p[0] == t && p[1] == k && p.len() == 3);
    assert(node_at(updated_nodes(m, known, v), p) == node_at(rewrite_decl(m, t, k, v), p));
    assert(node_at(updated_nodes(m, known, v), at) == node_at(rewrite_decl(m, t, k, v), at));
    assert(p == at.push(a));
    assert(seq![t, k, "branch"@] == at.push("branch"@));
    assert(seq![t, k, "version"@] == at.push("version"@));
    lemma_under_sibling(at, a, "version"@);
    lemma_under_sibling(at, a, "branch"@);
    lemma_under_sibling(at, a, "tag"@);
    lemma_under_push(at, at, "version"@);
    lemma_under_push(at, at, "branch"@);
    lemma_under_push(at, at, "tag"@);
    assert(!under(at, at.push("version"@)) && !under(at, at.push("branch"@)) && !under(at, at.push("tag"@)));
    let m1 = if m.contains_key(at.push("version"@)) {
        set_node(m, at.push("version"@), NodeView::Text(v))
    } else {
        m
    };
    lemma_set_node_at(m, at.push("version"@), NodeView::Text(v), p);
    lemma_set_node_at(m, at.push("version"@), NodeView::Text(v), at);
    lemma_set_node_at(m, at.push("version"@), NodeView::Text(v), at.push("tag"@));
    lemma_remove_node_at(m1, at.push("branch"@), p);
    lemma_remove_node_at(m1, at.push("branch"@), at);
    lemma_set_node_at(remove_node(m1, at.push("branch"@)), at.push("tag"@), NodeView::Text(seq!['v'] + v), p);
    lemma_set_node_at(remove_node(m1, at.push("branch"@)), at.push("tag"@), NodeView::Text(seq!['v'] + v), at);
    if let Some(NodeView::Text(old_tag)) = node_at(m, at.push("tag"@)) {
        lemma_set_node_at(m1, at.push("tag"@), NodeView::Text(tag_for(old_tag, v)), p);
        lemma_set_node_at(m1, at.push("tag"@), NodeView::Text(tag_for(old_tag, v)), at);
    }
}

/// A declaration of a name that is not among the known names is left as it was,
/// and so is everything below it.
pub proof fn lemma_unknown_untouched(m: Map<Path, NodeView>, known: Set<Seq<char>>, v: Seq<char>, p: Path)
    requires
        p.len() >= 2,
        !known.contains(p[1]),
    ensures
        node_at(updated_nodes(m, known, v), p) == node_at(m, p),
{
}

} // verus!
