//! Path-based navigation and editing of a JSON document.
//!
//! A path is a sequence of indices; each index selects the nth key-value
//! pair of an object or the nth element of an array (or line of a JSON
//! Lines document).
use vstd::prelude::*;
use super::node::{
    JsonNode, JsonValue, NodeModel, ValueModel, with_child, marked, lemma_object_with_child,
    lemma_array_with_child, lemma_lines_with_child, lemma_object_view, lemma_array_view, entries_model, nodes_model,
};
use crate::text::{push_str, push_decimal, decimal};

verus! {

/// The node at `path` below `n`, if the path leads to one.
pub open spec fn node_at(n: NodeModel, path: Seq<usize>) -> Option<NodeModel>
    decreases path.len(),
{
    if path.len() == 0 {
        Some(n)
    } else {
        let i = path[0] as int;
        let cs = n.value.children();
        if 0 <= i < cs.len() {
            node_at(cs[i], path.drop_first())
        } else {
            None
        }
    }
}

/// Walks `path` from `n` the way mutable navigation does: every node it
/// passes through on the way down is marked as modified. When the path
/// leads to a node, that node is replaced by `f` of it; when it does not,
/// the walk stops where the path breaks off.
pub open spec fn apply_at(n: NodeModel, path: Seq<usize>, f: spec_fn(NodeModel) -> NodeModel) -> NodeModel
    decreases path.len(),
{
    if path.len() == 0 {
        f(n)
    } else {
        let i = path[0] as int;
        let cs = n.value.children();
        if 0 <= i < cs.len() {
            NodeModel {
                value: with_child(n.value, i, apply_at(cs[i], path.drop_first(), f)),
                modified: true,
                original_text: n.original_text,
            }
        } else {
            marked(n)
        }
    }
}

/// The effect of mutable navigation along `path` alone.
pub open spec fn touch(n: NodeModel, path: Seq<usize>) -> NodeModel {
    apply_at(n, path, |m: NodeModel| m)
}

/// Replaces the node at `path` by `new`, marking the nodes above it.
pub open spec fn replace_at(n: NodeModel, path: Seq<usize>, new: NodeModel) -> NodeModel {
    apply_at(n, path, |m: NodeModel| new)
}

/// Why an edit of the tree was refused.
#[derive(Debug, Clone, Copy, PartialEq, Eq, Structural)]
pub enum TreeError {
    /// The root itself cannot be deleted.
    CannotDeleteRoot,
    /// An insertion needs a path naming a position inside a container.
    EmptyPath,
    /// The parent path leads to no node.
    ParentNotFound,
    /// The index is past the end of the parent container.
    IndexOutOfBounds { index: usize, len: usize, in_object: bool },
    /// The parent is a scalar.
    NotAContainer,
    /// The parent is not an array.
    NotAnArray,
    /// The parent is not an object.
    NotAnObject,
}

/// The text of an error message for `e`.
pub open spec fn tree_error_text(e: TreeError) -> Seq<char> {
    match e {
        TreeError::CannotDeleteRoot => "Cannot delete root node"@,
        TreeError::EmptyPath => "Cannot insert at the root position"@,
        TreeError::ParentNotFound => "Parent node not found"@,
        TreeError::IndexOutOfBounds { index, len, in_object } => if in_object {
            "Index "@ + decimal(index as nat) + " out of bounds for object with "@ + decimal(
                len as nat,
            ) + " entries"@
        } else {
            "Index "@ + decimal(index as nat) + " out of bounds for array with "@ + decimal(
                len as nat,
            ) + " elements"@
        },
        TreeError::NotAContainer => "Parent is not a container type"@,
        TreeError::NotAnArray => "Parent is not an array"@,
        TreeError::NotAnObject => "Parent is not an object"@,
    }
}

impl TreeError {
    /// A human-readable description of the error.
    pub fn message(&self) -> (res: String)
        ensures
            res@ == tree_error_text(*self),
    {
        let mut s = String::new();
        match self {
            TreeError::CannotDeleteRoot => push_str(&mut s, "Cannot delete root node"),
            TreeError::EmptyPath => push_str(&mut s, "Cannot insert at the root position"),
            TreeError::ParentNotFound => push_str(&mut s, "Parent node not found"),
            TreeError::IndexOutOfBounds { index, len, in_object } => {
                push_str(&mut s, "Index ");
                push_decimal(&mut s, *index);
                if *in_object {
                    push_str(&mut s, " out of bounds for object with ");
                    push_decimal(&mut s, *len);
                    push_str(&mut s, " entries");
                } else {
                    push_str(&mut s, " out of bounds for array with ");
                    push_decimal(&mut s, *len);
                    push_str(&mut s, " elements");
                }
            },
            TreeError::NotAContainer => push_str(&mut s, "Parent is not a container type"),
            TreeError::NotAnArray => push_str(&mut s, "Parent is not an array"),
            TreeError::NotAnObject => push_str(&mut s, "Parent is not an object"),
        }
        proof {
            reveal_strlit("Cannot delete root node");
            reveal_strlit("Cannot insert at the root position");
            reveal_strlit("Parent node not found");
            reveal_strlit("Index ");
            reveal_strlit(" out of bounds for object with ");
            reveal_strlit(" entries");
            reveal_strlit(" out of bounds for array with ");
            reveal_strlit(" elements");
            reveal_strlit("Parent is not a container type");
            reveal_strlit("Parent is not an array");
            reveal_strlit("Parent is not an object");
        }
        assert(s@ =~= tree_error_text(*self));
        s
    }
}

/// `v` without its `i`th child.
pub open spec fn remove_child(v: ValueModel, i: int) -> ValueModel {
    match v {
        ValueModel::Object(es) => ValueModel::Object(es.remove(i)),
        ValueModel::Array(a) => ValueModel::Array(a.remove(i)),
        _ => v,
    }
}

/// What deleting the `i`th child of a node whose value is `v` answers.
pub open spec fn delete_outcome(v: ValueModel, i: int) -> Result<(), TreeError> {
    match v {
        ValueModel::Object(es) => if 0 <= i < es.len() {
            Ok(())
        } else {
            Err(TreeError::IndexOutOfBounds { index: i as usize, len: es.len() as usize, in_object: true })
        },
        ValueModel::Array(a) => if 0 <= i < a.len() {
            Ok(())
        } else {
            Err(TreeError::IndexOutOfBounds { index: i as usize, len: a.len() as usize, in_object: false })
        },
        _ => Err(TreeError::NotAContainer),
    }
}

/// The parent node after an attempt to delete its `i`th child: the child
/// is gone when the deletion succeeds, and the parent is marked modified
/// either way.
pub open spec fn after_delete(m: NodeModel, i: int) -> NodeModel {
    NodeModel {
        value: if delete_outcome(m.value, i) is Ok {
            remove_child(m.value, i)
        } else {
            m.value
        },
        modified: true,
        original_text: m.original_text,
    }
}

/// What inserting into an array node with value `v` at position `i` answers.
pub open spec fn array_insert_outcome(v: ValueModel, i: int) -> Result<(), TreeError> {
    match v {
        ValueModel::Array(a) => if 0 <= i <= a.len() {
            Ok(())
        } else {
            Err(TreeError::IndexOutOfBounds { index: i as usize, len: a.len() as usize, in_object: false })
        },
        _ => Err(TreeError::NotAnArray),
    }
}

/// What inserting into an object node with value `v` at position `i` answers.
pub open spec fn object_insert_outcome(v: ValueModel, i: int) -> Result<(), TreeError> {
    match v {
        ValueModel::Object(es) => if 0 <= i <= es.len() {
            Ok(())
        } else {
            Err(TreeError::IndexOutOfBounds { index: i as usize, len: es.len() as usize, in_object: true })
        },
        _ => Err(TreeError::NotAnObject),
    }
}

/// The array parent after an attempt to insert `c` at position `i`.
pub open spec fn after_array_insert(m: NodeModel, i: int, c: NodeModel) -> NodeModel {
    NodeModel {
        value: if array_insert_outcome(m.value, i) is Ok {
            ValueModel::Array(m.value->Array_0.insert(i, c))
        } else {
            m.value
        },
        modified: true,
        original_text: m.original_text,
    }
}

/// The object parent after an attempt to insert the entry `(k, c)` at position `i`.
pub open spec fn after_object_insert(m: NodeModel, i: int, k: Seq<char>, c: NodeModel) -> NodeModel {
    NodeModel {
        value: if object_insert_outcome(m.value, i) is Ok {
            ValueModel::Object(m.value->Object_0.insert(i, (k, c)))
        } else {
            m.value
        },
        modified: true,
        original_text: m.original_text,
    }
}

/// The document and the answer after deleting the node at `path`.
pub open spec fn deletion(doc: NodeModel, path: Seq<usize>) -> (NodeModel, Result<(), TreeError>) {
    if path.len() == 0 {
        (doc, Err(TreeError::CannotDeleteRoot))
    } else {
        match node_at(doc, path.drop_last()) {
            None => (touch(doc, path.drop_last()), Err(TreeError::ParentNotFound)),
            Some(p) => (
                apply_at(doc, path.drop_last(), |m: NodeModel| after_delete(m, path.last() as int)),
                delete_outcome(p.value, path.last() as int),
            ),
        }
    }
}

/// The document and the answer after inserting `c` into an array at `path`.
pub open spec fn array_insertion(doc: NodeModel, path: Seq<usize>, c: NodeModel) -> (NodeModel, Result<(), TreeError>) {
    if path.len() == 0 {
        (doc, Err(TreeError::EmptyPath))
    } else {
        match node_at(doc, path.drop_last()) {
            None => (touch(doc, path.drop_last()), Err(TreeError::ParentNotFound)),
            Some(p) => (
                apply_at(doc, path.drop_last(), |m: NodeModel| after_array_insert(m, path.last() as int, c)),
                array_insert_outcome(p.value, path.last() as int),
            ),
        }
    }
}

/// The document and the answer after inserting the entry `(k, c)` into an
/// object at `path`.
pub open spec fn object_insertion(doc: NodeModel, path: Seq<usize>, k: Seq<char>, c: NodeModel) -> (NodeModel, Result<(), TreeError>) {
    if path.len() == 0 {
        (doc, Err(TreeError::EmptyPath))
    } else {
        match node_at(doc, path.drop_last()) {
            None => (touch(doc, path.drop_last()), Err(TreeError::ParentNotFound)),
            Some(p) => (
                apply_at(doc, path.drop_last(), |m: NodeModel| after_object_insert(m, path.last() as int, k, c)),
                object_insert_outcome(p.value, path.last() as int),
            ),
        }
    }
}

/// Replacing the node at a path by `f` of it is applying `f` there.
pub proof fn lemma_replace_is_apply(n: NodeModel, path: Seq<usize>, f: spec_fn(NodeModel) -> NodeModel)
    requires
        node_at(n, path) is Some,
    ensures
        replace_at(n, path, f(node_at(n, path)->0)) == apply_at(n, path, f),
    decreases path.len(),
{
    if path.len() > 0 {
        let i = path[0] as int;
        let cs = n.value.children();
        lemma_replace_is_apply(cs[i], path.drop_first(), f);
    }
}

/// Reading a path after applying `f` there gives `f` of what was there.
pub proof fn lemma_node_at_apply(n: NodeModel, path: Seq<usize>, f: spec_fn(NodeModel) -> NodeModel)
    requires
        node_at(n, path) is Some,
    ensures
        node_at(apply_at(n, path, f), path) == Some(f(node_at(n, path)->0)),
    decreases path.len(),
{
    if path.len() > 0 {
        let i = path[0] as int;
        let cs = n.value.children();
        lemma_node_at_apply(cs[i], path.drop_first(), f);
        let r = apply_at(n, path, f);
        let inner = apply_at(cs[i], path.drop_first(), f);
        assert(r.value.children() =~= cs.update(i, inner));
    }
}

/// Applying `f` and then `g` at a path is applying their composition.
pub proof fn lemma_apply_twice(
    n: NodeModel,
    path: Seq<usize>,
    f: spec_fn(NodeModel) -> NodeModel,
    g: spec_fn(NodeModel) -> NodeModel,
)
    requires
        node_at(n, path) is Some,
    ensures
        apply_at(apply_at(n, path, f), path, g) == apply_at(n, path, |m: NodeModel| g(f(m))),
    decreases path.len(),
{
    if path.len() > 0 {
        let i = path[0] as int;
        let cs = n.value.children();
        lemma_apply_twice(cs[i], path.drop_first(), f, g);
        let r = apply_at(n, path, f);
        let inner = apply_at(cs[i], path.drop_first(), f);
        assert(r.value.children() =~= cs.update(i, inner));
        let a = apply_at(apply_at(n, path, f), path, g);
        let b = apply_at(n, path, |m: NodeModel| g(f(m)));
        match n.value {
            ValueModel::Object(es) => {
                assert(a.value->Object_0 =~= b.value->Object_0);
            },
            ValueModel::Array(es) => {
                assert(a.value->Array_0 =~= b.value->Array_0);
            },
            ValueModel::JsonlRoot(es) => {
                assert(a.value->JsonlRoot_0 =~= b.value->JsonlRoot_0);
            },
            _ => {},
        }
    }
}

/// A node's parent is there, and holds it at the path's last index.
pub proof fn lemma_node_at_parent(n: NodeModel, path: Seq<usize>)
    requires
        path.len() > 0,
        node_at(n, path) is Some,
    ensures
        node_at(n, path.drop_last()) is Some,
        (path.last() as int) < node_at(n, path.drop_last())->0.value.children().len(),
    decreases path.len(),
{
    let pp = path.drop_last();
    if path.len() == 1 {
        assert(pp =~= Seq::<usize>::empty());
    } else {
        let cs = n.value.children();
        let i = path[0] as int;
        lemma_node_at_parent(cs[i], path.drop_first());
        assert(path.drop_first().drop_last() =~= pp.drop_first());
        assert(pp[0] == path[0]);
    }
    lemma_node_at_extend(n, pp, path.last());
    assert(pp.push(path.last()) =~= path);
}

/// A deletion fails exactly when the path is empty, the parent is missing
/// or not an object or array, or the index is past its last child. On
/// failure nothing changes but modification marks on the way down; on
/// success the parent holds its old children without the one deleted, in
/// order.
pub proof fn law_deletion_characterised(doc: NodeModel, path: Seq<usize>)
    ensures
        deletion(doc, path).1 is Err <==> (path.len() == 0 || match node_at(doc, path.drop_last()) {
            None => true,
            Some(p) => !(p.value is Object || p.value is Array) || path.last() >= p.value.children().len(),
        }),
        path.len() == 0 ==> deletion(doc, path).0 == doc,
        path.len() > 0 && node_at(doc, path.drop_last()) is None ==> deletion(doc, path).0 == touch(doc, path.drop_last()),
        deletion(doc, path).1 is Err && path.len() > 0 ==> (node_at(doc, path.drop_last()) matches Some(p)
            ==> node_at(deletion(doc, path).0, path.drop_last()) == Some(marked(p))),
        deletion(doc, path).1 is Ok ==> ({
            let p = node_at(doc, path.drop_last())->0;
            node_at(deletion(doc, path).0, path.drop_last()) == Some(NodeModel {
                value: remove_child(p.value, path.last() as int),
                modified: true,
                original_text: p.original_text,
            })
        }),
{
    if path.len() > 0 {
        let pp = path.drop_last();
        if node_at(doc, pp) is Some {
            let f = |m: NodeModel| after_delete(m, path.last() as int);
            lemma_node_at_apply(doc, pp, f);
            let p = node_at(doc, pp)->0;
            if p.value is Object {
                assert(p.value.children().len() == p.value->Object_0.len());
            }
        }
    }
}

/// A successful insertion into an array puts the node at the path given.
pub proof fn law_array_insertion_then_get(doc: NodeModel, path: Seq<usize>, c: NodeModel)
    requires
        array_insertion(doc, path, c).1 is Ok,
    ensures
        node_at(array_insertion(doc, path, c).0, path) == Some(c),
{
    law_array_insert_then_get(doc, path, c);
}

/// After a successful insertion into an array, the path of the insertion
/// leads to the inserted node.
pub proof fn law_array_insert_then_get(doc: NodeModel, path: Seq<usize>, c: NodeModel)
    requires
        path.len() > 0,
        node_at(doc, path.drop_last()) is Some,
        array_insert_outcome(node_at(doc, path.drop_last())->0.value, path.last() as int) is Ok,
    ensures
        node_at(
            apply_at(doc, path.drop_last(), |m: NodeModel| after_array_insert(m, path.last() as int, c)),
            path,
        ) == Some(c),
{
    let pp = path.drop_last();
    let f = |m: NodeModel| after_array_insert(m, path.last() as int, c);
    lemma_node_at_apply(doc, pp, f);
    lemma_node_at_extend(apply_at(doc, pp, f), pp, path.last());
    assert(pp.push(path.last()) =~= path);
}

/// After a successful insertion into an object, the path of the insertion
/// leads to the inserted node.
pub proof fn law_object_insert_then_get(doc: NodeModel, path: Seq<usize>, k: Seq<char>, c: NodeModel)
    requires
        path.len() > 0,
        node_at(doc, path.drop_last()) is Some,
        object_insert_outcome(node_at(doc, path.drop_last())->0.value, path.last() as int) is Ok,
    ensures
        node_at(
            apply_at(doc, path.drop_last(), |m: NodeModel| after_object_insert(m, path.last() as int, k, c)),
            path,
        ) == Some(c),
{
    let pp = path.drop_last();
    let f = |m: NodeModel| after_object_insert(m, path.last() as int, k, c);
    lemma_node_at_apply(doc, pp, f);
    let r = apply_at(doc, pp, f);
    lemma_node_at_extend(r, pp, path.last());
    assert(pp.push(path.last()) =~= path);
    let es = node_at(r, pp)->0.value->Object_0;
    assert(node_at(r, pp)->0.value.children()[path.last() as int] == es[path.last() as int].1);
}

/// Reading one more index below a node found at `path`.
pub proof fn lemma_node_at_extend(n: NodeModel, path: Seq<usize>, i: usize)
    requires
        node_at(n, path) is Some,
    ensures
        node_at(n, path.push(i)) == (if (i as int) < node_at(n, path)->0.value.children().len() {
            Some(node_at(n, path)->0.value.children()[i as int])
        } else {
            None::<NodeModel>
        }),
    decreases path.len(),
{
    if path.len() == 0 {
        assert(path.push(i).drop_first() =~= Seq::<usize>::empty());
        assert(path.push(i)[0] == i);
        reveal_with_fuel(node_at, 2);
    } else {
        let cs = n.value.children();
        assert(path.push(i).drop_first() =~= path.drop_first().push(i));
        assert(path.push(i)[0] == path[0]);
        lemma_node_at_extend(cs[path[0] as int], path.drop_first(), i);
    }
}

/// Deleting the node that an insertion into an array has just placed
/// gives back the document as it was, but for the modification marks on
/// the path to the parent.
pub proof fn law_array_insert_then_delete(doc: NodeModel, path: Seq<usize>, c: NodeModel)
    requires
        path.len() > 0,
        node_at(doc, path.drop_last()) is Some,
        array_insert_outcome(node_at(doc, path.drop_last())->0.value, path.last() as int) is Ok,
    ensures
        apply_at(
            apply_at(doc, path.drop_last(), |m: NodeModel| after_array_insert(m, path.last() as int, c)),
            path.drop_last(),
            |m: NodeModel| after_delete(m, path.last() as int),
        ) == apply_at(doc, path.drop_last(), |m: NodeModel| marked(m)),
{
    let pp = path.drop_last();
    let i = path.last() as int;
    let f = |m: NodeModel| after_array_insert(m, i, c);
    let g = |m: NodeModel| after_delete(m, i);
    lemma_apply_twice(doc, pp, f, g);
    let h = |m: NodeModel| g(f(m));
    let p = node_at(doc, pp)->0;
    assert(p.value->Array_0.insert(i, c).remove(i) =~= p.value->Array_0);
    lemma_apply_congruent(doc, pp, h, |m: NodeModel| marked(m));
}

/// Two functions that agree on the node at `path` have the same effect there.
pub proof fn lemma_apply_congruent(
    n: NodeModel,
    path: Seq<usize>,
    f: spec_fn(NodeModel) -> NodeModel,
    g: spec_fn(NodeModel) -> NodeModel,
)
    requires
        node_at(n, path) is Some,
        f(node_at(n, path)->0) == g(node_at(n, path)->0),
    ensures
        apply_at(n, path, f) == apply_at(n, path, g),
    decreases path.len(),
{
    if path.len() > 0 {
        let cs = n.value.children();
        lemma_apply_congruent(cs[path[0] as int], path.drop_first(), f, g);
    }
}

/// A document: a root node navigated by paths.
#[derive(Debug)]
pub struct JsonTree {
    root: JsonNode,
}

impl View for JsonTree {
    type V = NodeModel;

    closed spec fn view(&self) -> NodeModel {
        self.root@
    }
}

/// Finds the node at `path[start..end]` below `node` for mutation.
fn node_mut_at<'a>(node: &'a mut JsonNode, path: &[usize], start: usize, end: usize) -> (res: Option<
    &'a mut JsonNode,
>)
    requires
        start <= end <= path@.len(),
    ensures
        res is Some <==> node_at(old(node)@, path@.subrange(start as int, end as int)) is Some,
        res matches Some(r) ==> (*r)@ == node_at(old(node)@, path@.subrange(start as int, end as int))->0
            && final(node)@ == replace_at(
            old(node)@,
            path@.subrange(start as int, end as int),
            (*final(r))@,
        ),
        res is None ==> final(node)@ == touch(old(node)@, path@.subrange(start as int, end as int)),
    decreases end - start,
{
    if start == end {
        return Some(node);
    }
    let idx = path[start];
    let ghost rest = path@.subrange(start as int, end as int);
    assert(rest.drop_first() =~= path@.subrange(start + 1, end as int));
    match node.value_mut() {
        JsonValue::Object(entries) => {
            if idx < entries.len() {
                proof {
                    lemma_object_with_child(*entries, idx as int);
                }
                node_mut_at(&mut entries[idx].1, path, start + 1, end)
            } else {
                None
            }
        },
        JsonValue::Array(elements) => {
            if idx < elements.len() {
                proof {
                    lemma_array_with_child(*elements, idx as int);
                }
                node_mut_at(&mut elements[idx], path, start + 1, end)
            } else {
                None
            }
        },
        JsonValue::JsonlRoot(elements) => {
            if idx < elements.len() {
                proof {
                    lemma_lines_with_child(*elements, idx as int);
                }
                node_mut_at(&mut elements[idx], path, start + 1, end)
            } else {
                None
            }
        },
        _ => None,
    }
}

/// Finds the node at `path[start..]` below `node`.
fn node_ref_at<'a>(node: &'a JsonNode, path: &[usize], start: usize) -> (res: Option<&'a JsonNode>)
    requires
        start <= path@.len(),
    ensures
        res is Some <==> node_at(node@, path@.skip(start as int)) is Some,
        res matches Some(r) ==> r@ == node_at(node@, path@.skip(start as int))->0,
    decreases path@.len() - start,
{
    if start == path.len() {
        return Some(node);
    }
    let idx = path[start];
    let ghost rest = path@.skip(start as int);
    assert(rest.drop_first() =~= path@.skip(start + 1));
    match node.value() {
        JsonValue::Object(entries) => {
            if idx < entries.len() {
                node_ref_at(&entries[idx].1, path, start + 1)
            } else {
                None
            }
        },
        JsonValue::Array(elements) => {
            if idx < elements.len() {
                node_ref_at(&elements[idx], path, start + 1)
            } else {
                None
            }
        },
        JsonValue::JsonlRoot(elements) => {
            if idx < elements.len() {
                node_ref_at(&elements[idx], path, start + 1)
            } else {
                None
            }
        },
        _ => None,
    }
}

impl JsonTree {
    /// Creates a new tree with the given root node.
    pub fn new(root: JsonNode) -> (res: Self)
        ensures
            res@ == root@,
    {
        Self { root }
    }

    /// The root node.
    pub fn root(&self) -> (res: &JsonNode)
        ensures
            res@ == self@,
    {
        &self.root
    }

    /// Mutable access to the root node.
    pub fn root_mut(&mut self) -> (res: &mut JsonNode)
        ensures
            (*res)@ == old(self)@,
            final(self)@ == (*final(res))@,
    {
        &mut self.root
    }

    /// The node at `path`, or `None` when the path is out of bounds at some
    /// level or passes through a scalar value.
    pub fn get_node(&self, path: &[usize]) -> (res: Option<&JsonNode>)
        ensures
            res is Some <==> node_at(self@, path@) is Some,
            res matches Some(r) ==> r@ == node_at(self@, path@)->0,
    {
        assert(path@.skip(0) =~= path@);
        node_ref_at(&self.root, path, 0)
    }

    /// Mutable access to the node at `path`. The node handed out is marked
    /// as modified, and so is every node the walk passes through on the way
    /// down, whether or not the path leads to a node.
    pub fn get_node_mut(&mut self, path: &[usize]) -> (res: Option<&mut JsonNode>)
        ensures
            res is Some <==> node_at(old(self)@, path@) is Some,
            res matches Some(r) ==> (*r)@ == marked(node_at(old(self)@, path@)->0),
            res matches Some(r) ==> final(self)@ == replace_at(old(self)@, path@, (*final(r))@),
            res is None ==> final(self)@ == touch(old(self)@, path@),
    {
        assert(path@.subrange(0, path@.len() as int) =~= path@);
        match node_mut_at(&mut self.root, path, 0, path.len()) {
            Some(r) => {
                r.mark_modified();
                Some(r)
            },
            None => None,
        }
    }

    /// Deletes the node at `path`. The root cannot be deleted; the parent
    /// must be an object or an array holding a child at the last index.
    pub fn delete_node(&mut self, path: &[usize]) -> (res: Result<(), TreeError>)
        ensures
            (final(self)@, res) == deletion(old(self)@, path@),
            path@.len() == 0 ==> res == Err::<(), TreeError>(TreeError::CannotDeleteRoot)
                && final(self)@ == old(self)@,
            path@.len() > 0 ==> match node_at(old(self)@, path@.drop_last()) {
                None => res == Err::<(), TreeError>(TreeError::ParentNotFound) && final(self)@
                    == touch(old(self)@, path@.drop_last()),
                Some(p) => res == delete_outcome(p.value, path@.last() as int) && final(self)@
                    == apply_at(
                    old(self)@,
                    path@.drop_last(),
                    |m: NodeModel| after_delete(m, path@.last() as int),
                ),
            },
    {
        if path.len() == 0 {
            return Err(TreeError::CannotDeleteRoot);
        }
        let n = path.len() - 1;
        let index = path[n];
        let ghost pp = path@.drop_last();
        let ghost f = |m: NodeModel| after_delete(m, index as int);
        assert(path@.subrange(0, n as int) =~= pp);
        assert(path@.last() == index);
        proof {
            if node_at(self@, pp) is Some {
                lemma_replace_is_apply(self@, pp, f);
            }
        }
        match node_mut_at(&mut self.root, path, 0, n) {
            None => Err(TreeError::ParentNotFound),
            Some(parent) => {
                let ghost pm = (*parent)@;
                let v = parent.value_mut();
                match v {
                    JsonValue::Object(entries) => {
                        proof { lemma_object_view(*entries); }
                        if index >= entries.len() {
                            return Err(
                                TreeError::IndexOutOfBounds {
                                    index,
                                    len: entries.len(),
                                    in_object: true,
                                },
                            );
                        }
                        let ghost before = entries@;
                        entries.remove(index);
                        proof {
                            lemma_object_view(*entries);
                            assert(entries_model(entries@) =~= entries_model(before).remove(
                                index as int,
                            ));
                        }
                        Ok(())
                    },
                    JsonValue::Array(elements) => {
                        proof { lemma_array_view(*elements); }
                        if index >= elements.len() {
                            return Err(
                                TreeError::IndexOutOfBounds {
                                    index,
                                    len: elements.len(),
                                    in_object: false,
                                },
                            );
                        }
                        let ghost before = elements@;
                        elements.remove(index);
                        proof {
                            lemma_array_view(*elements);
                            assert(nodes_model(elements@) =~= nodes_model(before).remove(
                                index as int,
                            ));
                        }
                        Ok(())
                    },
                    _ => Err(TreeError::NotAContainer),
                }
            },
        }
    }

    /// Inserts `node` into the array reached by `path` without its last
    /// index, at the position given by that last index (which may be the
    /// array's length, to append).
    pub fn insert_node_in_array(&mut self, path: &[usize], node: JsonNode) -> (res: Result<(), TreeError>)
        ensures
            (final(self)@, res) == array_insertion(old(self)@, path@, node@),
            path@.len() == 0 ==> res == Err::<(), TreeError>(TreeError::EmptyPath) && final(self)@
                == old(self)@,
            path@.len() > 0 ==> match node_at(old(self)@, path@.drop_last()) {
                None => res == Err::<(), TreeError>(TreeError::ParentNotFound) && final(self)@
                    == touch(old(self)@, path@.drop_last()),
                Some(p) => res == array_insert_outcome(p.value, path@.last() as int) && final(self)@ == apply_at(
                    old(self)@,
                    path@.drop_last(),
                    |m: NodeModel| after_array_insert(m, path@.last() as int, node@),
                ),
            },
    {
        if path.len() == 0 {
            return Err(TreeError::EmptyPath);
        }
        let n = path.len() - 1;
        let index = path[n];
        let ghost pp = path@.drop_last();
        let ghost c = node@;
        let ghost f = |m: NodeModel| after_array_insert(m, index as int, c);
        assert(path@.subrange(0, n as int) =~= pp);
        assert(path@.last() == index);
        proof {
            if node_at(self@, pp) is Some {
                lemma_replace_is_apply(self@, pp, f);
            }
        }
        match node_mut_at(&mut self.root, path, 0, n) {
            None => Err(TreeError::ParentNotFound),
            Some(parent) => {
                let v = parent.value_mut();
                match v {
                    JsonValue::Array(elements) => {
                        proof { lemma_array_view(*elements); }
                        if index > elements.len() {
                            return Err(
                                TreeError::IndexOutOfBounds {
                                    index,
                                    len: elements.len(),
                                    in_object: false,
                                },
                            );
                        }
                        let ghost before = elements@;
                        elements.insert(index, node);
                        proof {
                            lemma_array_view(*elements);
                            assert(nodes_model(elements@) =~= nodes_model(before).insert(
                                index as int,
                                c,
                            ));
                        }
                        Ok(())
                    },
                    _ => Err(TreeError::NotAnArray),
                }
            },
        }
    }

    /// Inserts the entry `(key, node)` into the object reached by `path`
    /// without its last index, at the position given by that last index
    /// (which may be the object's length, to append).
    pub fn insert_node_in_object(&mut self, path: &[usize], key: String, node: JsonNode) -> (res:
        Result<(), TreeError>)
        ensures
            (final(self)@, res) == object_insertion(old(self)@, path@, key@, node@),
            path@.len() == 0 ==> res == Err::<(), TreeError>(TreeError::EmptyPath) && final(self)@
                == old(self)@,
            path@.len() > 0 ==> match node_at(old(self)@, path@.drop_last()) {
                None => res == Err::<(), TreeError>(TreeError::ParentNotFound) && final(self)@
                    == touch(old(self)@, path@.drop_last()),
                Some(p) => res == object_insert_outcome(p.value, path@.last() as int) && final(self)@ == apply_at(
                    old(self)@,
                    path@.drop_last(),
                    |m: NodeModel| after_object_insert(m, path@.last() as int, key@, node@),
                ),
            },
    {
        if path.len() == 0 {
            return Err(TreeError::EmptyPath);
        }
        let n = path.len() - 1;
        let index = path[n];
        let ghost pp = path@.drop_last();
        let ghost c = node@;
        let ghost k = key@;
        let ghost f = |m: NodeModel| after_object_insert(m, index as int, k, c);
        assert(path@.subrange(0, n as int) =~= pp);
        assert(path@.last() == index);
        proof {
            if node_at(self@, pp) is Some {
                lemma_replace_is_apply(self@, pp, f);
            }
        }
        match node_mut_at(&mut self.root, path, 0, n) {
            None => Err(TreeError::ParentNotFound),
            Some(parent) => {
                let v = parent.value_mut();
                match v {
                    JsonValue::Object(entries) => {
                        proof { lemma_object_view(*entries); }
                        if index > entries.len() {
                            return Err(
                                TreeError::IndexOutOfBounds {
                                    index,
                                    len: entries.len(),
                                    in_object: true,
                                },
                            );
                        }
                        let ghost before = entries@;
                        entries.insert(index, (key, node));
                        proof {
                            lemma_object_view(*entries);
                            assert(entries_model(entries@) =~= entries_model(before).insert(
                                index as int,
                                (k, c),
                            ));
                        }
                        Ok(())
                    },
                    _ => Err(TreeError::NotAnObject),
                }
            },
        }
    }
}

impl Clone for JsonTree {
    fn clone(&self) -> (res: Self)
        ensures
            res@ == self@,
    {
        JsonTree { root: self.root.deep_copy() }
    }
}

} // verus!
