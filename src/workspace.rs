//! Operations over all the packages of a workspace.
use vstd::prelude::*;
use crate::editor::{names, package_name_path, package_version_path, updated_nodes, CrateEditor};
use crate::manifest::{
    doc_nodes, doc_text, new_document, node_at, render_document, set_node, set_string_array, set_table,
    some_texts, NodeView, Path,
};
use crate::order::{sorted_unique, strictly_sorted};
use crate::repo::texts;
use crate::manifest::under;
use crate::version::Version;

verus! {

/// The package names declared by a list of manifests.
pub open spec fn package_names(eds: Seq<CrateEditor>) -> Set<Seq<char>> {
    Set::new(|n: Seq<char>| exists|i: int| 0 <= i < eds.len()
        && node_at(eds[i].nodes(), package_name_path()) == Some(NodeView::Text(n)))
}

/// The manifest has a `package` table that can take a version.
pub open spec fn has_package(e: CrateEditor) -> bool {
    node_at(e.nodes(), seq!["package"@]) == Some(NodeView::Table)
        || node_at(e.nodes(), seq!["package"@]) == Some(NodeView::Inline)
}

/// What a manifest becomes when the workspace is bumped to `v`, the packages
/// being named `known`: its own version set, then its declarations rewritten.
pub open spec fn bumped(e: CrateEditor, known: Set<Seq<char>>, v: Seq<char>) -> Map<Path, NodeView> {
    updated_nodes(set_node(e.nodes(), package_version_path(), NodeView::Text(v)), known, v)
}

/// Sets every manifest's own version to `new_version`, and rewrites in each
/// the declarations of dependencies on any of the packages to that version.
/// A manifest without a `package` table is skipped and left as it is; the
/// positions of those skipped are returned, in order, for the caller to report.
pub fn bump_all(editors: &mut Vec<CrateEditor>, new_version: &Version) -> (skipped: Vec<usize>)
    ensures
        final(editors)@.len() == old(editors)@.len(),
        forall|i: int| 0 <= i < old(editors)@.len() && has_package(old(editors)@[i])
            ==> #[trigger] final(editors)@[i].nodes()
                == bumped(old(editors)@[i], package_names(old(editors)@), new_version.text()),
        forall|i: int| 0 <= i < old(editors)@.len() && !has_package(old(editors)@[i])
            ==> #[trigger] final(editors)@[i] == old(editors)@[i],
        forall|k: int| 0 <= k < skipped@.len() ==> skipped@[k] < old(editors)@.len()
            && !has_package(old(editors)@[skipped@[k] as int]),
        forall|i: int| 0 <= i < old(editors)@.len() && !has_package(old(editors)@[i])
            ==> #[trigger] skipped@.contains(i as usize),
        forall|a: int, b: int| 0 <= a < b < skipped@.len() ==> skipped@[a] < skipped@[b],
{
    let ghost eds = editors@;
    let mut known: Vec<String> = Vec::new();
    let mut i: usize = 0;
    while i < editors.len()
        invariant
            i <= editors@.len(),
            editors@ == eds,
            forall|n: Seq<char>| names(known@).contains(n) <==> exists|j: int| 0 <= j < i
                && node_at(eds[j].nodes(), package_name_path()) == Some(NodeView::Text(n)),
        decreases editors@.len() - i,
    {
        let ghost before = known@;
        if let Some(name) = editors[i].get_package_name() {
            known.push(name);
        }
        assert forall|n: Seq<char>| names(known@).contains(n) <==> exists|j: int| 0 <= j < i + 1
            && node_at(eds[j].nodes(), package_name_path()) == Some(NodeView::Text(n)) by {
            if names(before).contains(n) {
                let k = choose|k: int| 0 <= k < before.len() && before[k]@ == n;
                assert(known@[k]@ == n);
            }
            if names(known@).contains(n) {
                let k = choose|k: int| 0 <= k < known@.len() && known@[k]@ == n;
                if k < before.len() {
                    assert(names(before).contains(n));
                } else {
                    assert(node_at(eds[i as int].nodes(), package_name_path()) == Some(NodeView::Text(n)));
                }
            }
            if exists|j: int| 0 <= j < i + 1 && node_at(eds[j].nodes(), package_name_path()) == Some(NodeView::Text(n)) {
                let j = choose|j: int| 0 <= j < i + 1 && node_at(eds[j].nodes(), package_name_path()) == Some(NodeView::Text(n));
                if j == i {
                    assert(known@[before.len() as int]@ == n);
                }
            }
        }
        i = i + 1;
    }
    assert(names(known@) =~= package_names(eds));
    let mut skipped: Vec<usize> = Vec::new();
    let mut i: usize = 0;
    while i < editors.len()
        invariant
            i <= editors@.len() == eds.len(),
            names(known@) == package_names(eds),
            forall|j: int| i <= j < eds.len() ==> #[trigger] editors@[j] == eds[j],
            forall|j: int| 0 <= j < i && has_package(eds[j])
                ==> #[trigger] editors@[j].nodes() == bumped(eds[j], package_names(eds), new_version.text()),
            forall|j: int| 0 <= j < i && !has_package(eds[j]) ==> #[trigger] editors@[j] == eds[j],
            forall|k: int| 0 <= k < skipped@.len() ==> skipped@[k] < i && !has_package(eds[skipped@[k] as int]),
            forall|j: int| 0 <= j < i && !has_package(eds[j]) ==> #[trigger] skipped@.contains(j as usize),
            forall|a: int, b: int| 0 <= a < b < skipped@.len() ==> skipped@[a] < skipped@[b],
        decreases editors@.len() - i,
    {
        if editors[i].has_package_table() {
            let _ = editors[i].bump_version(new_version);
            let _ = editors[i].update_dependencies(known.as_slice(), new_version);
        } else {
            let ghost before = skipped@;
            skipped.push(i);
            assert forall|j: int| 0 <= j < i && !has_package(eds[j]) implies #[trigger] skipped@.contains(j as usize) by {
                assert(before.contains(j as usize));
                let k = choose|k: int| 0 <= k < before.len() && before[k] == j as usize;
                assert(skipped@[k] == j as usize);
            }
            assert(skipped@[before.len() as int] == i);
        }
        i = i + 1;
    }
    skipped
}

/// The items of a workspace file listing `members`: a `workspace` table whose
/// `members` array holds them.
pub open spec fn meta_nodes(members: Seq<Seq<char>>) -> Map<Path, NodeView> {
    map![
        seq!["workspace"@] => NodeView::Table,
        seq!["workspace"@, "members"@] => NodeView::Array(members.map_values(|m: Seq<char>| Some(m))),
    ]
}

/// The text of a workspace file listing the members found, each once and in
/// lexicographic order; `None` where none was found.
pub fn meta_document(found: &Vec<String>) -> (r: Option<String>)
    ensures
        found@.len() == 0 <==> r is None,
        r matches Some(t) ==> exists|ms: Seq<Seq<char>>, d: toml_edit::DocumentMut| {
            &&& strictly_sorted(ms)
            &&& forall|x: Seq<char>| ms.contains(x) <==> texts(found@).contains(x)
            &&& doc_nodes(d) == meta_nodes(ms)
            &&& t@ == doc_text(d)
        },
{
    if found.len() == 0 {
        return None;
    }
    let members = sorted_unique(found);
    assert(texts(found@).contains(texts(found@)[0]));
    let mut doc = new_document();
    set_table(&mut doc, "workspace");
    let ghost after_table = doc_nodes(doc);
    assert(after_table =~= map![seq!["workspace"@] => NodeView::Table]);
    set_string_array(&mut doc, "workspace", "members", &members);
    proof {
        reveal_strlit("workspace");
        reveal_strlit("members");
        let ms = texts(members@);
        assert(some_texts(members@) =~= ms.map_values(|m: Seq<char>| Some(m)));
        let p1 = seq!["workspace"@];
        let p2 = seq!["workspace"@, "members"@];
        assert(!under(p1, p2));
        assert(doc_nodes(doc) =~= meta_nodes(ms));
    }
    let text = render_document(&doc);
    Some(text)
}

} // verus!
