//! A manifest document and the model through which contracts see it.
//!
//! A document is held as a `toml_edit::DocumentMut`, which keeps comments,
//! key order and whitespace. Contracts see it through `doc_nodes`: every item
//! of the document, keyed by its path of keys from the root.
use vstd::prelude::*;
use crate::repo::opt_texts;

verus! {

#[verifier::external_type_specification]
#[verifier::external_body]
pub struct ExDocumentMut(toml_edit::DocumentMut);

#[verifier::external_type_specification]
#[verifier::external_body]
pub struct ExTomlError(toml_edit::TomlError);

/// What the logic can see of one item of a document.
pub enum NodeView {
    /// A standard table, `[name]`.
    Table,
    /// An inline table value, `{ k = v, ... }`.
    Inline,
    /// A string value.
    Text(Seq<char>),
    /// An array: for each element, its text where it is a string.
    Array(Seq<Option<Seq<char>>>),
    /// Any other item: a number, a boolean, a date, an array of tables.
    Other,
}

/// The shape of one item, as read from a document.
pub enum Shape {
    Absent,
    Table,
    Inline,
    Text(String),
    Array(Vec<Option<String>>),
    Other,
}

impl Shape {
    pub open spec fn view(&self) -> Option<NodeView> {
        match self {
            Shape::Absent => None,
            Shape::Table => Some(NodeView::Table),
            Shape::Inline => Some(NodeView::Inline),
            Shape::Text(s) => Some(NodeView::Text(s@)),
            Shape::Array(items) => Some(NodeView::Array(opt_texts(items@))),
            Shape::Other => Some(NodeView::Other),
        }
    }
}

pub type Path = Seq<Seq<char>>;

/// The items of a document, keyed by their path of keys from the root.
pub uninterp spec fn doc_nodes(d: toml_edit::DocumentMut) -> Map<Seq<Seq<char>>, NodeView>;

/// `p` lies at or below `at`.
pub open spec fn under(p: Path, at: Path) -> bool {
    at.len() <= p.len() && p.subrange(0, at.len() as int) =~= at
}

/// `m` with everything at or below `at` taken out.
pub open spec fn remove_node(m: Map<Path, NodeView>, at: Path) -> Map<Path, NodeView> {
    Map::new(|p: Path| m.contains_key(p) && !under(p, at), |p: Path| m[p])
}

/// `m` with the item at `at` replaced by `n`, whatever stood below it gone.
pub open spec fn set_node(m: Map<Path, NodeView>, at: Path, n: NodeView) -> Map<Path, NodeView> {
    remove_node(m, at).insert(at, n)
}

/// The item is a standard table or an inline table: one that holds keys.
pub open spec fn table_like(n: Option<NodeView>) -> bool {
    n == Some(NodeView::Table) || n == Some(NodeView::Inline)
}

/// The kind of the item at `p`, `None` where there is none.
pub open spec fn node_at(m: Map<Path, NodeView>, p: Path) -> Option<NodeView> {
    if m.contains_key(p) {
        Some(m[p])
    } else {
        None
    }
}

/// Whether a text is a valid TOML document.
pub uninterp spec fn is_toml(s: Seq<char>) -> bool;

/// The items of the document that a valid TOML text parses to.
pub uninterp spec fn toml_nodes(s: Seq<char>) -> Map<Seq<Seq<char>>, NodeView>;

/// The TOML text that a document renders to.
pub uninterp spec fn doc_text(d: toml_edit::DocumentMut) -> Seq<char>;

/// Relies on `DocumentMut`'s `FromStr`: parses TOML text, keeping its formatting;
/// whether it succeeds, and the document it gives, depend on the text alone.
#[verifier::external_body]
pub(crate) fn parse_document(text: &str) -> (r: Result<toml_edit::DocumentMut, toml_edit::TomlError>)
    ensures
        r is Ok == is_toml(text@),
        r matches Ok(d) ==> doc_nodes(d) == toml_nodes(text@),
{
    text.parse::<toml_edit::DocumentMut>()
}

/// Relies on `DocumentMut`'s `Display`: renders the document as TOML text.
#[verifier::external_body]
pub(crate) fn render_document(d: &toml_edit::DocumentMut) -> (r: String)
    ensures
        r@ == doc_text(*d),
{
    d.to_string()
}

/// Relies on `DocumentMut::get` (through `Table::get`), on the variants of
/// `Item` and `Value`, and on `Table::iter` and `InlineTable::iter`: the keys of
/// the table or inline table `t`, each once, in document order.
#[verifier::external_body]
pub(crate) fn table_keys(d: &toml_edit::DocumentMut, t: &str) -> (r: Option<Vec<String>>)
    ensures
        (r is Some) == table_like(node_at(doc_nodes(*d), seq![t@])),
        r matches Some(ks) ==> {
            &&& forall|i: int, j: int|
                0 <= i < j < ks@.len() ==> ks@[i]@ != ks@[j]@
            &&& forall|i: int| 0 <= i < ks@.len() ==> doc_nodes(*d).contains_key(seq![t@, ks@[i]@])
            &&& forall|k: Seq<char>|
                doc_nodes(*d).contains_key(seq![t@, k]) ==> exists|i: int|
                    0 <= i < ks@.len() && ks@[i]@ == k
        },
{
    match d.get(t) {
        Some(toml_edit::Item::Table(tb)) => Some(tb.iter().map(|(k, _)| k.to_string()).collect()),
        Some(toml_edit::Item::Value(toml_edit::Value::InlineTable(tb))) => {
            Some(tb.iter().map(|(k, _)| k.to_string()).collect())
        },
        _ => None,
    }
}

/// Relies on `DocumentMut::get` (through `Table::get`) and on the variants of
/// `Item` and `Value`: the shape of the top-level item `t`.
#[verifier::external_body]
pub(crate) fn entry_shape_root(d: &toml_edit::DocumentMut, t: &str) -> (r: Shape)
    ensures
        r@ == node_at(doc_nodes(*d), seq![t@]),
{
    match d.get(t) {
        None => Shape::Absent,
        Some(toml_edit::Item::Table(_)) => Shape::Table,
        Some(toml_edit::Item::Value(toml_edit::Value::InlineTable(_))) => Shape::Inline,
        Some(toml_edit::Item::Value(toml_edit::Value::String(s))) => Shape::Text(s.value().clone()),
        Some(toml_edit::Item::Value(toml_edit::Value::Array(a))) => {
            Shape::Array(a.iter().map(|v| v.as_str().map(|s| s.to_string())).collect())
        },
        Some(_) => Shape::Other,
    }
}

/// Relies on `Item::get` (by key, through tables and inline tables) and on the
/// variants of `Item` and `Value`: the shape of the item at `[t, k]`.
#[verifier::external_body]
pub(crate) fn entry_shape(d: &toml_edit::DocumentMut, t: &str, k: &str) -> (r: Shape)
    ensures
        r@ == node_at(doc_nodes(*d), seq![t@, k@]),
{
    match d.get(t).and_then(|i| i.get(k)) {
        None => Shape::Absent,
        Some(toml_edit::Item::Table(_)) => Shape::Table,
        Some(toml_edit::Item::Value(toml_edit::Value::InlineTable(_))) => Shape::Inline,
        Some(toml_edit::Item::Value(toml_edit::Value::String(s))) => Shape::Text(s.value().clone()),
        Some(toml_edit::Item::Value(toml_edit::Value::Array(a))) => {
            Shape::Array(a.iter().map(|v| v.as_str().map(|s| s.to_string())).collect())
        },
        Some(_) => Shape::Other,
    }
}

/// Relies on `Item::get` (by key, through tables and inline tables) and on the
/// variants of `Item` and `Value`: the shape of the item at `[t, k, a]`.
#[verifier::external_body]
pub(crate) fn attr_shape(d: &toml_edit::DocumentMut, t: &str, k: &str, a: &str) -> (r: Shape)
    ensures
        r@ == node_at(doc_nodes(*d), seq![t@, k@, a@]),
{
    match d.get(t).and_then(|i| i.get(k)).and_then(|i| i.get(a)) {
        None => Shape::Absent,
        Some(toml_edit::Item::Table(_)) => Shape::Table,
        Some(toml_edit::Item::Value(toml_edit::Value::InlineTable(_))) => Shape::Inline,
        Some(toml_edit::Item::Value(toml_edit::Value::String(s))) => Shape::Text(s.value().clone()),
        Some(toml_edit::Item::Value(toml_edit::Value::Array(a))) => {
            Shape::Array(a.iter().map(|v| v.as_str().map(|s| s.to_string())).collect())
        },
        Some(_) => Shape::Other,
    }
}

/// Relies on `IndexMut<&str>` of `DocumentMut` and `Item` and on `toml_edit::value`:
/// `d[t][k] = s`, in place where the key exists, appended where it does not.
/// Indexing panics below an item that is neither a table nor an inline table.
#[verifier::external_body]
pub(crate) fn set_entry_text(d: &mut toml_edit::DocumentMut, t: &str, k: &str, s: &str)
    requires
        node_at(doc_nodes(*old(d)), seq![t@]) == Some(NodeView::Table)
            || node_at(doc_nodes(*old(d)), seq![t@]) == Some(NodeView::Inline),
    ensures
        doc_nodes(*final(d)) == set_node(doc_nodes(*old(d)), seq![t@, k@], NodeView::Text(s@)),
{
    d[t][k] = toml_edit::value(s);
}

/// Relies on `IndexMut<&str>` of `DocumentMut` and `Item` and on `toml_edit::value`:
/// `d[t][k][a] = s` inside the inline table at `[t, k]`.
#[verifier::external_body]
pub(crate) fn set_attr_text(d: &mut toml_edit::DocumentMut, t: &str, k: &str, a: &str, s: &str)
    requires
        table_like(node_at(doc_nodes(*old(d)), seq![t@])),
        node_at(doc_nodes(*old(d)), seq![t@, k@]) == Some(NodeView::Inline),
    ensures
        doc_nodes(*final(d)) == set_node(doc_nodes(*old(d)), seq![t@, k@, a@], NodeView::Text(s@)),
{
    d[t][k][a] = toml_edit::value(s);
}

/// Relies on `InlineTable::remove`: takes the key `a` out of the inline table at `[t, k]`.
#[verifier::external_body]
pub(crate) fn remove_attr(d: &mut toml_edit::DocumentMut, t: &str, k: &str, a: &str)
    requires
        table_like(node_at(doc_nodes(*old(d)), seq![t@])),
        node_at(doc_nodes(*old(d)), seq![t@, k@]) == Some(NodeView::Inline),
    ensures
        doc_nodes(*final(d)) == remove_node(doc_nodes(*old(d)), seq![t@, k@, a@]),
{
    d[t][k].as_inline_table_mut().map(|tb| tb.remove(a));
}

/// Each string of a list, as the element of an array.
pub open spec fn some_texts(v: Seq<String>) -> Seq<Option<Seq<char>>> {
    v.map_values(|s: String| Some(s@))
}

/// Relies on `DocumentMut::new`: a document with no items.
#[verifier::external_body]
pub(crate) fn new_document() -> (r: toml_edit::DocumentMut)
    ensures
        forall|p: Path| !#[trigger] doc_nodes(r).contains_key(p),
{
    toml_edit::DocumentMut::new()
}

/// Relies on `IndexMut<&str>` of `DocumentMut` and on `toml_edit::table`:
/// `d[t]` becomes an empty standard table.
#[verifier::external_body]
pub(crate) fn set_table(d: &mut toml_edit::DocumentMut, t: &str)
    ensures
        doc_nodes(*final(d)) == set_node(doc_nodes(*old(d)), seq![t@], NodeView::Table),
{
    d[t] = toml_edit::table();
}

/// Relies on `Array::new`, `Array::push`, `IndexMut<&str>` of `DocumentMut` and
/// `Item`, and `toml_edit::value`: `d[t][k]` becomes an array of the strings `items`.
#[verifier::external_body]
pub(crate) fn set_string_array(d: &mut toml_edit::DocumentMut, t: &str, k: &str, items: &Vec<String>)
    requires
        node_at(doc_nodes(*old(d)), seq![t@]) == Some(NodeView::Table)
            || node_at(doc_nodes(*old(d)), seq![t@]) == Some(NodeView::Inline),
    ensures
        doc_nodes(*final(d)) == set_node(doc_nodes(*old(d)), seq![t@, k@], NodeView::Array(some_texts(items@))),
{
    let mut array = toml_edit::Array::new();
    items.iter().for_each(|s| array.push(s.as_str()));
    d[t][k] = toml_edit::value(array);
}

} // verus!
