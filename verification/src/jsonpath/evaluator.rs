//! Evaluation of JSONPath segments against a document.
use vstd::prelude::*;
use super::ast::{PathSegment, SegmentModel, segments_model, strings_model};
use crate::document::node::{JsonNode, JsonValue, NodeModel, ValueModel, entries_model, nodes_model};
use crate::document::tree::node_at;
use crate::ui::tree_view::{rooted, counts_fit, member_count};

verus! {

/// The models of a sequence of node references.
pub open spec fn refs_model(v: Seq<&JsonNode>) -> Seq<NodeModel> {
    v.map_values(|r: &JsonNode| r@)
}

/// The member with key `name` among the entries `es` (the first one, if
/// several share it), as a sequence of zero or one node.
pub open spec fn child_named(es: Seq<(Seq<char>, NodeModel)>, name: Seq<char>) -> Seq<NodeModel>
    decreases es.len(),
{
    if es.len() == 0 {
        Seq::empty()
    } else if es[0].0 == name {
        seq![es[0].1]
    } else {
        child_named(es.drop_first(), name)
    }
}

/// The object member of `n` with key `name`, if `n` is an object that has one.
pub open spec fn find_child(n: NodeModel, name: Seq<char>) -> Seq<NodeModel> {
    match n.value {
        ValueModel::Object(es) => child_named(es, name),
        _ => Seq::empty(),
    }
}

/// The element of the array `n` at index `idx`, counted from the end when negative.
pub open spec fn array_element(n: NodeModel, idx: int) -> Seq<NodeModel> {
    match n.value {
        ValueModel::Array(a) => {
            let k = if idx < 0 {
                a.len() + idx
            } else {
                idx
            };
            if 0 <= k < a.len() {
                seq![a[k]]
            } else {
                Seq::empty()
            }
        },
        _ => Seq::empty(),
    }
}

/// A slice bound made into a position in `0..=len`: negative bounds count
/// from the end, and bounds past either end are clamped.
pub open spec fn slice_bound(b: Option<int>, len: int, default: int) -> int {
    match b {
        Some(x) => if x < 0 {
            if len + x < 0 {
                0
            } else {
                len + x
            }
        } else if x < len {
            x
        } else {
            len
        },
        None => default,
    }
}

/// The elements of the array `n` from `start` up to `end`.
pub open spec fn array_slice(n: NodeModel, start: Option<int>, end: Option<int>) -> Seq<NodeModel> {
    match n.value {
        ValueModel::Array(a) => {
            let s = slice_bound(start, a.len() as int, 0);
            let e = slice_bound(end, a.len() as int, a.len() as int);
            if s <= e {
                a.subrange(s, e)
            } else {
                Seq::empty()
            }
        },
        _ => Seq::empty(),
    }
}

/// The members with the keys `names`, in the order of `names`.
pub open spec fn children_named(n: NodeModel, names: Seq<Seq<char>>) -> Seq<NodeModel>
    decreases names.len(),
{
    if names.len() == 0 {
        Seq::empty()
    } else {
        children_named(n, names.drop_last()) + find_child(n, names.last())
    }
}

/// The descendants of a node with value `v` that a recursive descent
/// collects, in document order: with a name, the object members with that
/// key (found in objects and arrays, at any depth); without one, every
/// member of every object and array, each before its own descendants.
pub open spec fn descendants(v: ValueModel, prop: Option<Seq<char>>) -> Seq<NodeModel>
    decreases v, 2nat,
{
    descent_parts(v, prop, descent_width(v, prop)).flatten()
}

/// What a recursive descent collects below each of the first `k` members of `v`.
pub open spec fn descent_parts(v: ValueModel, prop: Option<Seq<char>>, k: nat) -> Seq<Seq<NodeModel>>
    decreases v, 1nat,
{
    Seq::new(k, |i: int| descendants_of_member(v, i, prop))
}

/// The number of members a recursive descent looks into below `v`.
pub open spec fn descent_width(v: ValueModel, prop: Option<Seq<char>>) -> nat {
    match v {
        ValueModel::Object(es) => es.len(),
        ValueModel::Array(a) => a.len(),
        _ => 0,
    }
}

/// What a recursive descent collects at and below the `i`th member of `v`.
pub open spec fn descendants_of_member(v: ValueModel, i: int, prop: Option<Seq<char>>) -> Seq<NodeModel>
    decreases v, 0nat,
{
    match v {
        ValueModel::Object(es) => if 0 <= i < es.len() {
            proof {
                assert(decreases_to!(v => es));
                assert(decreases_to!(es => es[i]));
            }
            let here = match prop {
                Some(name) => if es[i].0 == name {
                    seq![es[i].1]
                } else {
                    Seq::empty()
                },
                None => seq![es[i].1],
            };
            here + descendants(es[i].1.value, prop)
        } else {
            Seq::empty()
        },
        ValueModel::Array(a) => if 0 <= i < a.len() {
            proof {
                assert(decreases_to!(v => a));
                assert(decreases_to!(a => a[i]));
            }
            let here = match prop {
                Some(name) => Seq::empty(),
                None => seq![a[i]],
            };
            here + descendants(a[i].value, prop)
        } else {
            Seq::empty()
        },
        _ => Seq::empty(),
    }
}

/// What one segment selects when applied to the node `n` of the document `root`.
pub open spec fn eval_segment(root: NodeModel, n: NodeModel, seg: SegmentModel) -> Seq<NodeModel> {
    match seg {
        SegmentModel::Root => seq![root],
        SegmentModel::Current => seq![n],
        SegmentModel::Child(name) => find_child(n, name),
        SegmentModel::Index(i) => array_element(n, i),
        SegmentModel::Wildcard => n.value.children(),
        SegmentModel::RecursiveDescent(prop) => descendants(n.value, prop),
        SegmentModel::Slice(s, e) => array_slice(n, s, e),
        SegmentModel::MultiProperty(names) => children_named(n, names),
    }
}

/// What one segment selects from each node of `current`, one after the other.
pub open spec fn eval_step(root: NodeModel, current: Seq<NodeModel>, seg: SegmentModel) -> Seq<NodeModel>
    decreases current.len(),
{
    if current.len() == 0 {
        Seq::empty()
    } else {
        eval_step(root, current.drop_last(), seg) + eval_segment(root, current.last(), seg)
    }
}

/// What the segments select, starting from the root: nothing for no
/// segments; otherwise each segment in turn is applied to every node the
/// previous ones selected.
pub open spec fn eval_path(root: NodeModel, segs: Seq<SegmentModel>) -> Seq<NodeModel> {
    if segs.len() == 0 {
        Seq::empty()
    } else {
        eval_from(root, seq![root], segs)
    }
}

/// Applying `segs` in turn to the selection `current`.
pub open spec fn eval_from(root: NodeModel, current: Seq<NodeModel>, segs: Seq<SegmentModel>) -> Seq<NodeModel>
    decreases segs.len(),
{
    if segs.len() == 0 {
        current
    } else {
        eval_from(root, eval_step(root, current, segs[0]), segs.drop_first())
    }
}

/// Evaluates JSONPath segments against a document.
pub struct Evaluator<'a> {
    root: &'a JsonNode,
}

impl<'a> Evaluator<'a> {
    /// The model of the document this evaluator queries.
    pub closed spec fn root_model(&self) -> NodeModel {
        self.root@
    }

    /// An evaluator over the document rooted at `root`.
    pub fn new(root: &'a JsonNode) -> (res: Self)
        ensures
            res.root_model() == root@,
    {
        Evaluator { root }
    }

    /// The object member of `node` with key `name`.
    fn find_child(&self, node: &'a JsonNode, name: &String) -> (res: Vec<&'a JsonNode>)
        ensures
            refs_model(res@) == find_child(node@, name@),
    {
        proof {
            crate::document::node::lemma_node_value(*node);
        }
        let mut res: Vec<&'a JsonNode> = Vec::new();
        if let JsonValue::Object(props) = &node.value {
            let ghost es = entries_model(props@);
            proof {
                crate::document::node::lemma_object_view(*props);
            }
            let n = props.len();
            assert(es.subrange(0, n as int) =~= es);
            for i in 0..n
                invariant
                    n == props@.len(),
                    es == entries_model(props@),
                    node@.value == ValueModel::Object(es),
                    res@.len() == 0,
                    child_named(es, name@) == child_named(es.subrange(i as int, n as int), name@),
            {
                let ghost rest = es.subrange(i as int, n as int);
                assert(rest[0] == es[i as int]);
                assert(rest.drop_first() =~= es.subrange(i + 1, n as int));
                if props[i].0 == *name {
                    res.push(&props[i].1);
                    assert(refs_model(res@) =~= seq![es[i as int].1]);
                    return res;
                }
            }
            assert(es.subrange(n as int, n as int) =~= Seq::<(Seq<char>, NodeModel)>::empty());
        }
        assert(refs_model(res@) =~= Seq::<NodeModel>::empty());
        res
    }

    /// The element of the array `node` at `idx`; a negative index counts
    /// from the end.
    fn get_array_element(&self, node: &'a JsonNode, idx: isize) -> (res: Vec<&'a JsonNode>)
        ensures
            refs_model(res@) == array_element(node@, idx as int),
    {
        proof {
            crate::document::node::lemma_node_value(*node);
        }
        let mut res: Vec<&'a JsonNode> = Vec::new();
        if let JsonValue::Array(items) = &node.value {
            proof {
                crate::document::node::lemma_array_view(*items);
            }
            let len = items.len() as i128;
            let k: i128 = if idx < 0 {
                len + idx as i128
            } else {
                idx as i128
            };
            if 0 <= k && k < len {
                res.push(&items[k as usize]);
                assert(refs_model(res@) =~= array_element(node@, idx as int));
                return res;
            }
        }
        assert(refs_model(res@) =~= array_element(node@, idx as int));
        res
    }

    /// Every child of `node`.
    fn get_all_children(&self, node: &'a JsonNode) -> (res: Vec<&'a JsonNode>)
        ensures
            refs_model(res@) == node@.value.children(),
    {
        proof {
            crate::document::node::lemma_node_value(*node);
        }
        let mut res: Vec<&'a JsonNode> = Vec::new();
        match &node.value {
            JsonValue::Object(props) => {
                let ghost es = entries_model(props@);
                proof {
                    crate::document::node::lemma_object_view(*props);
                }
                let n = props.len();
                for i in 0..n
                    invariant
                        n == props@.len(),
                        es == entries_model(props@),
                        refs_model(res@) =~= node@.value.children().subrange(0, i as int),
                        node@.value == ValueModel::Object(es),
                {
                    let ghost before = refs_model(res@);
                    res.push(&props[i].1);
                    assert(refs_model(res@) =~= before.push(props@[i as int].1@));
                    assert(es[i as int].1 == props@[i as int].1@);
                    assert(refs_model(res@) =~= node@.value.children().subrange(0, i + 1));
                }
            },
            JsonValue::Array(items) | JsonValue::JsonlRoot(items) => {
                proof {
                    crate::document::node::lemma_array_view(*items);
                    crate::document::node::lemma_lines_view(*items);
                }
                let n = items.len();
                for i in 0..n
                    invariant
                        n == items@.len(),
                        node@.value.children() == nodes_model(items@),
                        refs_model(res@) =~= node@.value.children().subrange(0, i as int),
                {
                    let ghost before = refs_model(res@);
                    res.push(&items[i]);
                    assert(refs_model(res@) =~= before.push(items@[i as int]@));
                    assert(refs_model(res@) =~= node@.value.children().subrange(0, i + 1));
                }
            },
            _ => {},
        }
        assert(node@.value.children().subrange(0, node@.value.children().len() as int) =~= node@.value.children());
        res
    }

    /// The elements of the array `node` from `start` up to `end`.
    fn get_slice(&self, node: &'a JsonNode, start: Option<isize>, end: Option<isize>) -> (res: Vec<
        &'a JsonNode,
    >)
        ensures
            refs_model(res@) == array_slice(
                node@,
                match start {
                    Some(x) => Some(x as int),
                    None => None,
                },
                match end {
                    Some(x) => Some(x as int),
                    None => None,
                },
            ),
    {
        proof {
            crate::document::node::lemma_node_value(*node);
        }
        let mut res: Vec<&'a JsonNode> = Vec::new();
        if let JsonValue::Array(items) = &node.value {
            proof {
                crate::document::node::lemma_array_view(*items);
            }
            let len = items.len() as i128;
            let s: i128 = match start {
                Some(x) => if x < 0 {
                    if len + (x as i128) < 0 {
                        0
                    } else {
                        len + x as i128
                    }
                } else if (x as i128) < len {
                    x as i128
                } else {
                    len
                },
                None => 0,
            };
            let e: i128 = match end {
                Some(x) => if x < 0 {
                    if len + (x as i128) < 0 {
                        0
                    } else {
                        len + x as i128
                    }
                } else if (x as i128) < len {
                    x as i128
                } else {
                    len
                },
                None => len,
            };
            if s <= e {
                let su = s as usize;
                let eu = e as usize;
                let mut i = su;
                while i < eu
                    invariant
                        su <= i <= eu,
                        eu <= items@.len(),
                        refs_model(res@) =~= nodes_model(items@).subrange(su as int, i as int),
                    decreases eu - i,
                {
                    let ghost before = refs_model(res@);
                    res.push(&items[i]);
                    assert(refs_model(res@) =~= before.push(items@[i as int]@));
                    assert(refs_model(res@) =~= nodes_model(items@).subrange(su as int, i + 1));
                    i = i + 1;
                }
                return res;
            }
        }
        assert(refs_model(res@) =~= Seq::<NodeModel>::empty());
        res
    }

    /// The members with the keys `names`, in the order of `names`.
    fn find_children(&self, node: &'a JsonNode, names: &Vec<String>) -> (res: Vec<&'a JsonNode>)
        ensures
            refs_model(res@) == children_named(node@, strings_model(names@)),
    {
        let mut res: Vec<&'a JsonNode> = Vec::new();
        let n = names.len();
        for i in 0..n
            invariant
                n == names@.len(),
                refs_model(res@) == children_named(node@, strings_model(names@).subrange(0, i as int)),
        {
            let mut found = self.find_child(node, &names[i]);
            let ghost before = refs_model(res@);
            let ghost more = refs_model(found@);
            res.append(&mut found);
            proof {
                let sub = strings_model(names@).subrange(0, i + 1);
                assert(sub.drop_last() =~= strings_model(names@).subrange(0, i as int));
                assert(sub.last() == names@[i as int]@);
                assert(refs_model(res@) =~= before + more);
            }
        }
        assert(strings_model(names@).subrange(0, n as int) =~= strings_model(names@));
        res
    }

    /// What a recursive descent collects below `node` (see `descendants`).
    fn recursive_descent(&self, node: &'a JsonNode, prop: &Option<String>) -> (res: Vec<&'a JsonNode>)
        ensures
            refs_model(res@) == descendants(node@.value, opt_model(*prop)),
    {
        let mut results: Vec<&'a JsonNode> = Vec::new();
        walk(node, prop, &mut results);
        assert(refs_model(results@) =~= Seq::<NodeModel>::empty() + descendants(node@.value, opt_model(*prop)));
        results
    }

    /// What `segment` selects when applied to `node`.
    pub fn evaluate_segment(&self, node: &'a JsonNode, segment: &PathSegment) -> (res: Vec<&'a JsonNode>)
        ensures
            refs_model(res@) == eval_segment(self.root_model(), node@, segment@),
    {
        match segment {
            PathSegment::Root => {
                let mut v = Vec::new();
                v.push(self.root);
                assert(refs_model(v@) =~= seq![self.root@]);
                v
            },
            PathSegment::Current => {
                let mut v = Vec::new();
                v.push(node);
                assert(refs_model(v@) =~= seq![node@]);
                v
            },
            PathSegment::Child(name) => self.find_child(node, name),
            PathSegment::Index(idx) => self.get_array_element(node, *idx),
            PathSegment::Wildcard => self.get_all_children(node),
            PathSegment::RecursiveDescent(prop) => self.recursive_descent(node, prop),
            PathSegment::Slice(start, end) => self.get_slice(node, *start, *end),
            PathSegment::MultiProperty(props) => self.find_children(node, props),
        }
    }

    /// The nodes the segments select, starting from the root (see `eval_path`).
    pub fn evaluate(&self, segments: &[PathSegment]) -> (res: Vec<&'a JsonNode>)
        ensures
            refs_model(res@) == eval_path(self.root_model(), segments_model(segments@)),
    {
        let ghost segs = segments_model(segments@);
        let ghost root = self.root_model();
        if segments.len() == 0 {
            let v: Vec<&'a JsonNode> = Vec::new();
            assert(refs_model(v@) =~= Seq::<NodeModel>::empty());
            return v;
        }
        let mut current: Vec<&'a JsonNode> = Vec::new();
        current.push(self.root);
        assert(refs_model(current@) =~= seq![root]);
        assert(segs.skip(0) =~= segs);
        let n = segments.len();
        for k in 0..n
            invariant
                n == segments@.len(),
                segs == segments_model(segments@),
                root == self.root_model(),
                segs.len() > 0,
                eval_path(root, segs) == eval_from(root, refs_model(current@), segs.skip(k as int)),
        {
            let mut next: Vec<&'a JsonNode> = Vec::new();
            let m = current.len();
            assert(refs_model(current@).subrange(0, 0) =~= Seq::<NodeModel>::empty());
            for j in 0..m
                invariant
                    m == current@.len(),
                    k < n,
                    n == segments@.len(),
                    refs_model(next@) == eval_step(root, refs_model(current@).subrange(0, j as int), segments@[k as int]@),
                    root == self.root_model(),
            {
                let mut found = self.evaluate_segment(current[j], &segments[k]);
                let ghost before = refs_model(next@);
                let ghost more = refs_model(found@);
                next.append(&mut found);
                proof {
                    let sub = refs_model(current@).subrange(0, j + 1);
                    assert(sub.drop_last() =~= refs_model(current@).subrange(0, j as int));
                    assert(sub.last() == current@[j as int]@);
                    assert(refs_model(next@) =~= before + more);
                }
            }
            proof {
                assert(refs_model(current@).subrange(0, m as int) =~= refs_model(current@));
                let rest = segs.skip(k as int);
                assert(rest[0] == segments@[k as int]@);
                assert(rest.drop_first() =~= segs.skip(k + 1));
            }
            current = next;
        }
        proof {
            assert(segs.skip(n as int) =~= Seq::<SegmentModel>::empty());
        }
        current
    }
}

/// The model of an optional name.
pub open spec fn opt_model(o: Option<String>) -> Option<Seq<char>> {
    match o {
        Some(s) => Some(s@),
        None => None,
    }
}

/// Appends what a recursive descent collects below `node`.
fn walk<'a>(node: &'a JsonNode, prop: &Option<String>, results: &mut Vec<&'a JsonNode>)
    ensures
        refs_model(final(results)@) == refs_model(old(results)@) + descendants(node@.value, opt_model(*prop)),
    decreases node, 1nat,
{
    proof {
        crate::document::node::lemma_node_value(*node);
    }
    match &node.value {
        JsonValue::Object(_) => walk_object(node, prop, results),
        JsonValue::Array(_) => walk_array(node, prop, results),
        _ => {
            let ghost v = node@.value;
            let ghost p = opt_model(*prop);
            assert(descent_parts(v, p, 0) =~= Seq::<Seq<NodeModel>>::empty());
            assert(refs_model(results@) =~= refs_model(old(results)@) + descendants(v, p));
        },
    }
}

/// Appends what a recursive descent collects below the object `node`.
#[verifier::loop_isolation(false)]
#[verifier::rlimit(60)]
fn walk_object<'a>(node: &'a JsonNode, prop: &Option<String>, results: &mut Vec<&'a JsonNode>)
    requires
        node@.value is Object,
    ensures
        refs_model(final(results)@) == refs_model(old(results)@) + descendants(node@.value, opt_model(*prop)),
    decreases node, 0nat,
{
    let ghost start = refs_model(results@);
    let ghost v = node@.value;
    let ghost p = opt_model(*prop);
    proof {
        crate::document::node::lemma_node_value(*node);
    }
    if let JsonValue::Object(props) = &node.value {
        let ghost es = entries_model(props@);
        proof {
            crate::document::node::lemma_object_view(*props);
        }
        let n = props.len();
        assert(descent_parts(v, p, 0) =~= Seq::<Seq<NodeModel>>::empty());
        assert(start + Seq::<NodeModel>::empty() =~= start);
        for i in 0..n
            invariant
                n == props@.len(),
                es == entries_model(props@),
                v == ValueModel::Object(es),
                refs_model(results@) == start + descent_parts(v, p, i as nat).flatten(),
        {
            let ghost before = refs_model(results@);
            proof {
                assert(decreases_to!(props => props[i as int]));
                assert(es[i as int] == (props@[i as int].0@, props@[i as int].1@));
            }
            let matches = match prop {
                Some(name) => props[i].0 == *name,
                None => true,
            };
            if matches {
                results.push(&props[i].1);
            }
            let ghost mid = refs_model(results@);
            walk(&props[i].1, prop, results);
            proof {
                let part = descendants_of_member(v, i as int, p);
                let here: Seq<NodeModel> = if matches { seq![es[i as int].1] } else { Seq::empty() };
                assert(mid =~= before + here);
                assert(part == here + descendants(es[i as int].1.value, p));
                assert(refs_model(results@) =~= before + part);
                let parts = descent_parts(v, p, i as nat);
                assert(descent_parts(v, p, (i + 1) as nat) =~= parts.push(part));
                parts.lemma_flatten_push(part);
            }
        }
    }
}

/// Appends what a recursive descent collects below the array `node`.
#[verifier::loop_isolation(false)]
#[verifier::rlimit(60)]
fn walk_array<'a>(node: &'a JsonNode, prop: &Option<String>, results: &mut Vec<&'a JsonNode>)
    requires
        node@.value is Array,
    ensures
        refs_model(final(results)@) == refs_model(old(results)@) + descendants(node@.value, opt_model(*prop)),
    decreases node, 0nat,
{
    let ghost start = refs_model(results@);
    let ghost v = node@.value;
    let ghost p = opt_model(*prop);
    proof {
        crate::document::node::lemma_node_value(*node);
    }
    if let JsonValue::Array(items) = &node.value {
        let ghost a = nodes_model(items@);
        proof {
            crate::document::node::lemma_array_view(*items);
        }
        let n = items.len();
        assert(descent_parts(v, p, 0) =~= Seq::<Seq<NodeModel>>::empty());
        assert(start + Seq::<NodeModel>::empty() =~= start);
        for i in 0..n
            invariant
                n == items@.len(),
                a == nodes_model(items@),
                v == ValueModel::Array(a),
                refs_model(results@) == start + descent_parts(v, p, i as nat).flatten(),
        {
            let ghost before = refs_model(results@);
            proof {
                assert(decreases_to!(items => items[i as int]));
                assert(a[i as int] == items@[i as int]@);
            }
            if prop.is_none() {
                results.push(&items[i]);
            }
            let ghost mid = refs_model(results@);
            walk(&items[i], prop, results);
            proof {
                let part = descendants_of_member(v, i as int, p);
                let here: Seq<NodeModel> = if p is None { seq![a[i as int]] } else { Seq::empty() };
                assert(mid =~= before + here);
                assert(part == here + descendants(a[i as int].value, p));
                assert(refs_model(results@) =~= before + part);
                let parts = descent_parts(v, p, i as nat);
                assert(descent_parts(v, p, (i + 1) as nat) =~= parts.push(part));
                parts.lemma_flatten_push(part);
            }
        }
    }
}

/// Whether the walk along `q` from a node with value `v` passes through
/// no JSON Lines root (the node it ends on may be one).
pub open spec fn avoids_lines(v: ValueModel, q: Seq<usize>) -> bool
    decreases q.len(),
{
    if q.len() == 0 {
        true
    } else {
        !(v is JsonlRoot) && (0 <= q[0] < v.children().len() ==> avoids_lines(v.children()[q[0] as int].value, q.drop_first()))
    }
}

/// The key under which the node that `q` leads to from a node with value
/// `v` sits, when its parent is an object.
pub open spec fn key_along(v: ValueModel, q: Seq<usize>) -> Option<Seq<char>>
    decreases q.len(),
{
    if q.len() == 0 {
        None
    } else if q.len() == 1 {
        match v {
            ValueModel::Object(es) => if 0 <= q[0] < es.len() {
                Some(es[q[0] as int].0)
            } else {
                None
            },
            _ => None,
        }
    } else if 0 <= q[0] < v.children().len() {
        key_along(v.children()[q[0] as int].value, q.drop_first())
    } else {
        None
    }
}

/// An item of one part is an item of the whole.
proof fn lemma_flatten_contains<A>(ss: Seq<Seq<A>>, i: int, x: A)
    requires
        0 <= i < ss.len(),
        ss[i].contains(x),
    ensures
        ss.flatten().contains(x),
    decreases ss.len(),
{
    let rest = ss.drop_first();
    assert(ss.flatten() == ss.first() + rest.flatten());
    if i == 0 {
        let k = choose|k: int| 0 <= k < ss[0].len() && ss[0][k] == x;
        assert(ss.flatten()[k] == x);
    } else {
        assert(rest[i - 1] == ss[i]);
        lemma_flatten_contains(rest, i - 1, x);
        let k = choose|k: int| 0 <= k < rest.flatten().len() && rest.flatten()[k] == x;
        assert(ss.flatten()[ss.first().len() + k] == x);
    }
}

/// Walking a non-empty path from a node or from a fresh root with the same
/// value leads to the same node.
proof fn lemma_walk_same_value(c: NodeModel, x: Seq<usize>)
    ensures
        x.len() > 0 ==> node_at(c, x) == node_at(rooted(c.value), x),
        x.len() == 0 ==> node_at(c, x) == Some(c) && node_at(rooted(c.value), x) == Some(rooted(c.value)),
{
}

/// A recursive descent selects every node below where it starts (without
/// a name), or every object member below it whose key is the name, however
/// deep, through objects and arrays alike (JSON Lines roots are not
/// entered).
pub proof fn law_descent_selects_every_match(v: ValueModel, q: Seq<usize>, prop: Option<Seq<char>>)
    requires
        q.len() > 0,
        node_at(rooted(v), q) is Some,
        avoids_lines(v, q),
        prop matches Some(name) ==> key_along(v, q) == Some(name),
    ensures
        descendants(v, prop).contains(node_at(rooted(v), q)->0),
    decreases q.len(),
{
    let i = q[0] as int;
    let cs = v.children();
    assert(rooted(v).value.children() == cs);
    let c = cs[i];
    let r = q.drop_first();
    assert(node_at(rooted(v), q) == node_at(c, r));
    let ss = descent_parts(v, prop, descent_width(v, prop));
    assert(v is Object || v is Array);
    let c2 = match v {
        ValueModel::Object(es) => {
            assert(decreases_to!(v => es));
            assert(decreases_to!(es => es[i]));
            es[i].1
        },
        ValueModel::Array(a) => {
            assert(decreases_to!(v => a));
            assert(decreases_to!(a => a[i]));
            a[i]
        },
        _ => c,
    };
    assert(c2 == c);
    assert(descent_width(v, prop) == cs.len());
    let part = descendants_of_member(v, i, prop);
    assert(ss[i] == part);
    let target = node_at(rooted(v), q)->0;
    if q.len() == 1 {
        assert(r.len() == 0);
        assert(target == c);
        assert(part[0] == c);
    } else {
        lemma_walk_same_value(c, r);
        law_descent_selects_every_match(c.value, r, prop);
        let d = descendants(c.value, prop);
        let k = choose|k: int| 0 <= k < d.len() && d[k] == target;
        let here_len = part.len() - d.len();
        assert(part == part.subrange(0, here_len) + d);
        assert(part[here_len + k] == target);
    }
    lemma_flatten_contains(ss, i, target);
}

/// A slice with a negative start `-k` (`k` at most the length) selects the
/// last `k` elements, in order; one with a negative end `-k` all but the
/// last `k`; and bounds inside the array select the elements between them.
pub proof fn law_slice_bounds(n: NodeModel, s: int, e: int, k: int)
    requires
        n.value is Array,
    ensures
        ({
            let a = n.value->Array_0;
            &&& (1 <= k <= a.len() ==> array_slice(n, Some(-k), None) == a.subrange(a.len() - k, a.len() as int))
            &&& (1 <= k <= a.len() ==> array_slice(n, None, Some(-k)) == a.subrange(0, a.len() - k))
            &&& (0 <= s <= e <= a.len() ==> array_slice(n, Some(s), Some(e)) == a.subrange(s, e))
            &&& (0 <= s <= a.len() ==> array_slice(n, Some(s), None) == a.subrange(s, a.len() as int))
            &&& array_slice(n, None, None) == a
        }),
{
    let a = n.value->Array_0;
    assert(a.subrange(0, a.len() as int) =~= a);
    if 0 <= s <= e <= a.len() && e == a.len() {
        assert(array_slice(n, Some(s), Some(e)) == a.subrange(s, e));
    }
}

/// An index picks the element at that position, a negative index `-k`
/// the `k`th from the end; outside the array it picks nothing.
pub proof fn law_index_picks_element(n: NodeModel, i: int)
    requires
        n.value is Array,
    ensures
        ({
            let a = n.value->Array_0;
            &&& (0 <= i < a.len() ==> array_element(n, i) == seq![a[i]])
            &&& (1 <= -i <= a.len() ==> array_element(n, i) == seq![a[a.len() + i]])
            &&& ((i >= a.len() || -i > a.len()) ==> array_element(n, i).len() == 0)
        }),
{
}

/// A child segment picks the first member with that key, if the object has
/// one, and nothing otherwise.
pub proof fn law_child_picks_first_match(es: Seq<(Seq<char>, NodeModel)>, name: Seq<char>, j: int)
    requires
        0 <= j < es.len(),
        es[j].0 == name,
        forall|k: int| 0 <= k < j ==> es[k].0 != name,
    ensures
        child_named(es, name) == seq![es[j].1],
    decreases j,
{
    if j > 0 {
        assert forall|k: int| 0 <= k < j - 1 implies es.drop_first()[k].0 != name by {
            assert(es.drop_first()[k] == es[k + 1]);
        }
        law_child_picks_first_match(es.drop_first(), name, j - 1);
    }
}

/// A child segment picks nothing from an object without that key.
pub proof fn law_child_missing(es: Seq<(Seq<char>, NodeModel)>, name: Seq<char>)
    requires
        forall|k: int| 0 <= k < es.len() ==> es[k].0 != name,
    ensures
        child_named(es, name).len() == 0,
    decreases es.len(),
{
    if es.len() > 0 {
        assert forall|k: int| 0 <= k < es.len() - 1 implies es.drop_first()[k].0 != name by {
            assert(es.drop_first()[k] == es[k + 1]);
        }
        law_child_missing(es.drop_first(), name);
    }
}

/// Every item of the whole is an item of some part.
proof fn lemma_flatten_index<A>(ss: Seq<Seq<A>>, j: int)
    requires
        0 <= j < ss.flatten().len(),
    ensures
        exists|i: int, k: int| 0 <= i < ss.len() && 0 <= k < ss[i].len() && #[trigger] ss[i][k] == ss.flatten()[j],
    decreases ss.len(),
{
    let rest = ss.drop_first();
    assert(ss.flatten() == ss.first() + rest.flatten());
    if j < ss.first().len() {
        assert(ss[0][j] == ss.flatten()[j]);
    } else {
        let j2 = j - ss.first().len();
        assert(ss.flatten()[j] == rest.flatten()[j2]);
        lemma_flatten_index(rest, j2);
        let (i, k) = choose|i: int, k: int| 0 <= i < rest.len() && 0 <= k < rest[i].len() && #[trigger] rest[i][k] == rest.flatten()[j2];
        assert(rest[i] == ss[i + 1]);
        assert(ss[i + 1][k] == ss.flatten()[j]);
    }
}

/// A recursive descent selects nothing but nodes below where it starts,
/// and with a name only object members under that key.
pub proof fn law_descent_selects_only_matches(v: ValueModel, prop: Option<Seq<char>>, j: int)
    requires
        0 <= j < descendants(v, prop).len(),
        counts_fit(v),
    ensures
        exists|q: Seq<usize>| q.len() > 0 && #[trigger] node_at(rooted(v), q) == Some(descendants(v, prop)[j])
            && (prop matches Some(name) ==> key_along(v, q) == Some(name)),
    decreases v,
{
    let ss = descent_parts(v, prop, descent_width(v, prop));
    let x = descendants(v, prop)[j];
    lemma_flatten_index(ss, j);
    let (i, k) = choose|i: int, k: int| 0 <= i < ss.len() && 0 <= k < ss[i].len() && #[trigger] ss[i][k] == ss.flatten()[j];
    let part = descendants_of_member(v, i, prop);
    assert(ss[i] == part);
    let cs = v.children();
    assert(rooted(v).value.children() == cs);
    let c = match v {
        ValueModel::Object(es) => {
            assert(decreases_to!(v => es));
            assert(decreases_to!(es => es[i]));
            es[i].1
        },
        ValueModel::Array(a) => {
            assert(decreases_to!(v => a));
            assert(decreases_to!(a => a[i]));
            a[i]
        },
        _ => cs[i],
    };
    assert(v is Object || v is Array);
    assert(c == cs[i]);
    assert(node_at(rooted(v), Seq::<usize>::empty()) is Some);
    assert(member_count(v) == cs.len());
    assert((i as usize) as int == i);
    let d = descendants(c.value, prop);
    let here_len = part.len() - d.len();
    assert(part == part.subrange(0, here_len) + d);
    let iq = seq![i as usize];
    assert(iq.drop_first() =~= Seq::<usize>::empty());
    assert(iq.len() == 1 && iq[0] as int == i);
    assert(node_at(c, iq.drop_first()) == Some(c));
    assert(node_at(rooted(v), iq) == Some(c));
    if k < here_len {
        assert(part[k] == c);
        assert(node_at(rooted(v), iq) == Some(x));
    } else {
        assert forall|q: Seq<usize>| #[trigger] node_at(rooted(c.value), q) is Some
            implies member_count(node_at(rooted(c.value), q)->0.value) <= usize::MAX by {
            let q1 = iq + q;
            assert(q1[0] == i as usize);
            assert(q1.drop_first() =~= q);
            lemma_walk_same_value(c, q);
            if q.len() == 0 {
                assert(node_at(rooted(v), q1) == Some(c));
            } else {
                assert(node_at(rooted(v), q1) == node_at(c, q));
            }
        }
        law_descent_selects_only_matches(c.value, prop, k - here_len);
        assert(d[k - here_len] == x);
        let q2 = choose|q: Seq<usize>| q.len() > 0 && #[trigger] node_at(rooted(c.value), q) == Some(d[k - here_len])
            && (prop matches Some(name) ==> key_along(c.value, q) == Some(name));
        let q = iq + q2;
        assert(q[0] == i as usize);
        assert(q.drop_first() =~= q2);
        lemma_walk_same_value(c, q2);
        assert(node_at(rooted(v), q) == Some(x));
        assert(key_along(v, q) == key_along(c.value, q2));
    }
}

/// A wildcard selects every member of an object or array, in order, and
/// nothing of a scalar.
pub proof fn law_wildcard_selects_members(root: NodeModel, n: NodeModel)
    ensures
        n.value matches ValueModel::Array(a) ==> eval_segment(root, n, SegmentModel::Wildcard) == a,
        n.value matches ValueModel::Object(es) ==> (eval_segment(root, n, SegmentModel::Wildcard).len() == es.len()
            && forall|j: int| 0 <= j < es.len() ==> #[trigger] eval_segment(root, n, SegmentModel::Wildcard)[j] == es[j].1),
        !n.value.is_container() ==> eval_segment(root, n, SegmentModel::Wildcard).len() == 0,
{
}

/// Segments apply one after the other: the nodes a path followed by one
/// more segment selects are those the segment selects from each node the
/// path selects, in order; a path that starts at the root with `$` selects
/// the root.
pub proof fn law_segments_compose(root: NodeModel, segs: Seq<SegmentModel>, seg: SegmentModel)
    requires
        segs.len() > 0,
    ensures
        eval_path(root, segs.push(seg)) == eval_step(root, eval_path(root, segs), seg),
        eval_path(root, seq![SegmentModel::Root]) == seq![root],
{
    lemma_eval_from_push(root, seq![root], segs, seg);
    assert(seq![root].drop_last() =~= Seq::<NodeModel>::empty());
    assert(seq![root].last() == root);
    assert(Seq::<NodeModel>::empty() + seq![root] =~= seq![root]);
    assert(eval_step(root, Seq::<NodeModel>::empty(), SegmentModel::Root) == Seq::<NodeModel>::empty());
    assert(eval_segment(root, root, SegmentModel::Root) == seq![root]);
    assert(eval_step(root, seq![root], SegmentModel::Root) == eval_step(root, seq![root].drop_last(), SegmentModel::Root) + eval_segment(root, seq![root].last(), SegmentModel::Root));
    assert(eval_step(root, seq![root], SegmentModel::Root) == seq![root]);
    assert(seq![SegmentModel::Root].drop_first() =~= Seq::<SegmentModel>::empty());
    assert(seq![SegmentModel::Root][0] == SegmentModel::Root);
    assert(eval_from(root, seq![root], seq![SegmentModel::Root]) == eval_from(root, eval_step(root, seq![root], SegmentModel::Root), Seq::<SegmentModel>::empty()));
    assert(seq![SegmentModel::Root].drop_first() =~= Seq::<SegmentModel>::empty());
}

/// Applying segments then one more is applying the one more to the result.
proof fn lemma_eval_from_push(root: NodeModel, current: Seq<NodeModel>, segs: Seq<SegmentModel>, seg: SegmentModel)
    ensures
        eval_from(root, current, segs.push(seg)) == eval_step(root, eval_from(root, current, segs), seg),
    decreases segs.len(),
{
    let all = segs.push(seg);
    if segs.len() == 0 {
        assert(all.drop_first() =~= Seq::<SegmentModel>::empty());
        assert(all[0] == seg);
        assert(eval_from(root, current, all) == eval_from(root, eval_step(root, current, seg), all.drop_first()));
        assert(eval_from(root, current, segs) == current);
    } else {
        assert(all.drop_first() =~= segs.drop_first().push(seg));
        assert(all[0] == segs[0]);
        lemma_eval_from_push(root, eval_step(root, current, segs[0]), segs.drop_first(), seg);
        assert(eval_from(root, current, all) == eval_from(root, eval_step(root, current, segs[0]), all.drop_first()));
    }
}

} // verus!
