//! The tree view: the document as a list of lines, one per visible node,
//! with expand/collapse state kept per path.
use vstd::prelude::*;
use crate::document::node::{JsonNode, JsonValue, NodeModel, ValueModel, entries_model, nodes_model};
use crate::document::tree::{JsonTree, node_at};
use crate::text::{decimal, push_str, push_decimal};

verus! {

/// Classification of JSON values for display.
#[derive(Debug, Clone, Copy, PartialEq, Eq, Structural)]
pub enum ValueType {
    Object,
    Array,
    String,
    Number,
    Boolean,
    Null,
}

/// The display type of a value (a JSON Lines root shows as an array).
pub open spec fn type_of(v: ValueModel) -> ValueType {
    match v {
        ValueModel::Object(_) => ValueType::Object,
        ValueModel::Array(_) => ValueType::Array,
        ValueModel::JsonlRoot(_) => ValueType::Array,
        ValueModel::Str(_) => ValueType::String,
        ValueModel::Number(_) => ValueType::Number,
        ValueModel::Boolean(_) => ValueType::Boolean,
        ValueModel::Null => ValueType::Null,
    }
}

impl ValueType {
    /// The display type of `value`.
    pub fn from_json_value(value: &JsonValue) -> (res: Self)
        ensures
            res == type_of(value@),
    {
        match value {
            JsonValue::Object(_) => ValueType::Object,
            JsonValue::Array(_) => ValueType::Array,
            JsonValue::JsonlRoot(_) => ValueType::Array,
            JsonValue::String(_) => ValueType::String,
            JsonValue::Number(_) => ValueType::Number,
            JsonValue::Boolean(_) => ValueType::Boolean,
            JsonValue::Null => ValueType::Null,
        }
    }
}

/// The short preview of a value shown on its line: `{ n fields }`,
/// `[ n items ]`, a string in double quotes (unescaped), the number's
/// text, `true`, `false` or `null`.
pub open spec fn preview(v: ValueModel) -> Seq<char> {
    match v {
        ValueModel::Object(es) => "{ "@ + decimal(es.len()) + " fields }"@,
        ValueModel::Array(a) => "[ "@ + decimal(a.len()) + " items ]"@,
        ValueModel::JsonlRoot(a) => "[ "@ + decimal(a.len()) + " items ]"@,
        ValueModel::Str(s) => seq!['"'] + s + seq!['"'],
        ValueModel::Number(t) => t,
        ValueModel::Boolean(b) => if b {
            "true"@
        } else {
            "false"@
        },
        ValueModel::Null => "null"@,
    }
}

/// One line of the tree view.
#[derive(Debug)]
pub struct TreeViewLine {
    /// Path to this node in the document.
    pub path: Vec<usize>,
    /// Indentation depth (0 for the top level).
    pub depth: usize,
    /// Object key (None for array elements).
    pub key: Option<String>,
    /// Type of the value.
    pub value_type: ValueType,
    /// Short preview of the value.
    pub value_preview: String,
    /// Whether the value can be expanded (object or array).
    pub expandable: bool,
    /// Whether the value is expanded.
    pub expanded: bool,
}

/// The model of a tree view line.
pub struct LineModel {
    pub path: Seq<usize>,
    pub depth: nat,
    pub key: Option<Seq<char>>,
    pub value_type: ValueType,
    pub preview: Seq<char>,
    pub expandable: bool,
    pub expanded: bool,
}

impl View for TreeViewLine {
    type V = LineModel;

    open spec fn view(&self) -> LineModel {
        LineModel {
            path: self.path@,
            depth: self.depth as nat,
            key: match self.key {
                Some(k) => Some(k@),
                None => None,
            },
            value_type: self.value_type,
            preview: self.value_preview@,
            expandable: self.expandable,
            expanded: self.expanded,
        }
    }
}

/// The models of a sequence of lines.
pub open spec fn lines_model(v: Seq<TreeViewLine>) -> Seq<LineModel> {
    v.map_values(|l: TreeViewLine| l@)
}

/// The number of members a container shows (zero for scalars).
pub open spec fn member_count(v: ValueModel) -> nat {
    v.children().len()
}

/// The paths the walk from the root to `p` passes through, the root and
/// `p` itself excepted.
pub open spec fn ancestors(p: Seq<usize>) -> Set<Seq<usize>> {
    Set::new(|q: Seq<usize>| 0 < q.len() < p.len() && q == p.subrange(0, q.len() as int))
}

/// The paths of `ancestors(p)` shorter than `m`.
pub open spec fn ancestors_below(p: Seq<usize>, m: nat) -> Set<Seq<usize>> {
    Set::new(|q: Seq<usize>| 0 < q.len() < m && q.len() < p.len() && q == p.subrange(0, q.len() as int))
}

/// The expanded paths `e`, or every path with `all`.
pub open spec fn shown(e: Set<Seq<usize>>, all: bool) -> Set<Seq<usize>> {
    if all { Set::full() } else { e }
}

/// The visible lines below a node with value `v` at `path`: each member
/// on a line of its own at depth `depth`, followed, when its path is in
/// `expanded` and it is a container, by its own visible lines one level
/// deeper.
pub open spec fn view_lines(v: ValueModel, path: Seq<usize>, depth: nat, expanded: Set<Seq<usize>>) -> Seq<LineModel>
    decreases v, 2nat,
{
    view_parts(v, path, depth, expanded, member_count(v)).flatten()
}

/// The visible lines for each of the first `k` members of `v`.
pub open spec fn view_parts(v: ValueModel, path: Seq<usize>, depth: nat, expanded: Set<Seq<usize>>, k: nat) -> Seq<Seq<LineModel>>
    decreases v, 1nat,
{
    Seq::new(k, |i: int| member_view(v, i, path, depth, expanded))
}

/// The visible lines for the `i`th member of `v`.
pub open spec fn member_view(v: ValueModel, i: int, path: Seq<usize>, depth: nat, expanded: Set<Seq<usize>>) -> Seq<LineModel>
    decreases v, 0nat,
{
    let p = path.push(i as usize);
    let key = match v {
        ValueModel::Object(es) => Some(es[i].0),
        _ => None,
    };
    if 0 <= i < member_count(v) {
        let c = match v {
            ValueModel::Object(es) => {
                proof {
                    assert(decreases_to!(v => es));
                    assert(decreases_to!(es => es[i]));
                }
                es[i].1
            },
            ValueModel::Array(a) => {
                proof {
                    assert(decreases_to!(v => a));
                    assert(decreases_to!(a => a[i]));
                }
                a[i]
            },
            ValueModel::JsonlRoot(a) => {
                proof {
                    assert(decreases_to!(v => a));
                    assert(decreases_to!(a => a[i]));
                }
                a[i]
            },
            _ => NodeModel { value: ValueModel::Null, modified: false, original_text: None },
        };
        let open = expanded.contains(p) && c.value.is_container();
        seq![
            LineModel {
                path: p,
                depth,
                key,
                value_type: type_of(c.value),
                preview: preview(c.value),
                expandable: c.value.is_container(),
                expanded: expanded.contains(p),
            },
        ] + if open {
            view_lines(c.value, p, depth + 1, expanded)
        } else {
            Seq::empty()
        }
    } else {
        Seq::empty()
    }
}

/// The paths of the containers below a node with value `v` at `path`,
/// each before the paths below it (JSON Lines roots excepted, whose lines
/// start collapsed).
pub open spec fn container_paths(v: ValueModel, path: Seq<usize>) -> Seq<Seq<usize>>
    decreases v, 2nat,
{
    container_parts(v, path, expansion_width(v)).flatten()
}

/// The number of members `expand_all` looks into below `v`.
pub open spec fn expansion_width(v: ValueModel) -> nat {
    match v {
        ValueModel::Object(es) => es.len(),
        ValueModel::Array(a) => a.len(),
        _ => 0,
    }
}

/// The container paths at and below each of the first `k` members of `v`.
pub open spec fn container_parts(v: ValueModel, path: Seq<usize>, k: nat) -> Seq<Seq<Seq<usize>>>
    decreases v, 1nat,
{
    Seq::new(k, |i: int| member_container_paths(v, i, path))
}

/// The container paths at and below the `i`th member of `v`.
pub open spec fn member_container_paths(v: ValueModel, i: int, path: Seq<usize>) -> Seq<Seq<usize>>
    decreases v, 0nat,
{
    let p = path.push(i as usize);
    match v {
        ValueModel::Object(es) => if 0 <= i < es.len() {
            proof {
                assert(decreases_to!(v => es));
                assert(decreases_to!(es => es[i]));
            }
            if es[i].1.value.is_container() {
                seq![p] + container_paths(es[i].1.value, p)
            } else {
                Seq::empty()
            }
        } else {
            Seq::empty()
        },
        ValueModel::Array(a) => if 0 <= i < a.len() {
            proof {
                assert(decreases_to!(v => a));
                assert(decreases_to!(a => a[i]));
            }
            if a[i].value.is_container() {
                seq![p] + container_paths(a[i].value, p)
            } else {
                Seq::empty()
            }
        } else {
            Seq::empty()
        },
        _ => Seq::empty(),
    }
}

/// `p` after an insertion at `ins`: when `p` passes through the container
/// the insertion was made in, at or after the inserted position, that
/// index moves up by one.
pub open spec fn shifted(p: Seq<usize>, ins: Seq<usize>) -> Seq<usize> {
    let n = ins.len();
    if n > 0 && p.len() >= n && p.subrange(0, n - 1) == ins.subrange(0, n - 1) && p[n - 1] >= ins[n - 1] && p[n - 1] < usize::MAX {
        p.update(n - 1, (p[n - 1] + 1) as usize)
    } else {
        p
    }
}

/// What a sequence concatenation contains.
pub proof fn lemma_contains_concat<A>(a: Seq<A>, b: Seq<A>, q: A)
    ensures
        (a + b).contains(q) <==> (a.contains(q) || b.contains(q)),
{
    if a.contains(q) {
        let j = choose|j: int| 0 <= j < a.len() && a[j] == q;
        assert((a + b)[j] == q);
    }
    if b.contains(q) {
        let j = choose|j: int| 0 <= j < b.len() && b[j] == q;
        assert((a + b)[a.len() + j] == q);
    }
    if (a + b).contains(q) {
        let j = choose|j: int| 0 <= j < (a + b).len() && (a + b)[j] == q;
        if j < a.len() {
            assert(a[j] == q);
        } else {
            assert(b[j - a.len()] == q);
        }
    }
}

/// A value's preview text.
pub fn value_preview(value: &JsonValue) -> (res: String)
    ensures
        res@ == preview(value@),
{
    let mut s = String::new();
    proof {
        reveal_strlit("{ ");
        reveal_strlit(" fields }");
        reveal_strlit("[ ");
        reveal_strlit(" items ]");
        reveal_strlit("true");
        reveal_strlit("false");
        reveal_strlit("null");
    }
    match value {
        JsonValue::Object(es) => {
            push_str(&mut s, "{ ");
            push_decimal(&mut s, es.len());
            push_str(&mut s, " fields }");
            proof {
                crate::document::node::lemma_object_view(*es);
            }
        },
        JsonValue::Array(a) => {
            push_str(&mut s, "[ ");
            push_decimal(&mut s, a.len());
            push_str(&mut s, " items ]");
            proof {
                crate::document::node::lemma_array_view(*a);
            }
        },
        JsonValue::JsonlRoot(a) => {
            push_str(&mut s, "[ ");
            push_decimal(&mut s, a.len());
            push_str(&mut s, " items ]");
            proof {
                crate::document::node::lemma_lines_view(*a);
            }
        },
        JsonValue::String(t) => {
            s.push('"');
            push_str(&mut s, t.as_str());
            s.push('"');
        },
        JsonValue::Number(t) => {
            push_str(&mut s, t.as_str());
        },
        JsonValue::Boolean(b) => {
            if *b {
                push_str(&mut s, "true");
            } else {
                push_str(&mut s, "false");
            }
        },
        JsonValue::Null => {
            push_str(&mut s, "null");
        },
    }
    assert(s@ =~= preview(value@));
    s
}

/// A copy of a path.
pub fn copy_path(p: &[usize]) -> (res: Vec<usize>)
    ensures
        res@ == p@,
{
    let mut v: Vec<usize> = Vec::new();
    let n = p.len();
    for i in 0..n
        invariant
            n == p@.len(),
            v@ == p@.subrange(0, i as int),
    {
        v.push(p[i]);
        assert(v@ =~= p@.subrange(0, i + 1));
    }
    assert(p@.subrange(0, n as int) =~= p@);
    v
}

/// Whether two paths are equal.
pub fn paths_equal(a: &[usize], b: &[usize]) -> (res: bool)
    ensures
        res == (a@ == b@),
{
    if a.len() != b.len() {
        return false;
    }
    let n = a.len();
    for i in 0..n
        invariant
            n == a@.len(),
            n == b@.len(),
            forall|j: int| 0 <= j < i ==> a@[j] == b@[j],
    {
        if a[i] != b[i] {
            return false;
        }
    }
    assert(a@ =~= b@);
    true
}

/// The models of a sequence of paths.
pub open spec fn paths_model(v: Seq<Vec<usize>>) -> Seq<Seq<usize>> {
    v.map_values(|p: Vec<usize>| p@)
}

/// `s` with `p` flipped: removed when present, added when absent.
pub open spec fn toggled(s: Set<Seq<usize>>, p: Seq<usize>) -> Set<Seq<usize>> {
    if s.contains(p) {
        s.remove(p)
    } else {
        s.insert(p)
    }
}

/// Pushing onto a sequence adds exactly the pushed element to what it contains.
pub proof fn lemma_contains_push<A>(s: Seq<A>, x: A, q: A)
    ensures
        s.push(x).contains(q) <==> (s.contains(q) || x == q),
{
    if s.contains(q) {
        let j = choose|j: int| 0 <= j < s.len() && s[j] == q;
        assert(s.push(x)[j] == q);
    }
    if x == q {
        assert(s.push(x)[s.len() as int] == q);
    }
    if s.push(x).contains(q) {
        let j = choose|j: int| 0 <= j < s.push(x).len() && s.push(x)[j] == q;
        if j < s.len() {
            assert(s[j] == q);
        }
    }
}

/// The tree view: its lines and the set of expanded paths.
pub struct TreeViewState {
    lines: Vec<TreeViewLine>,
    expanded_paths: Vec<Vec<usize>>,
}

impl TreeViewState {
    /// The models of the visible lines.
    pub closed spec fn lines_view(&self) -> Seq<LineModel> {
        lines_model(self.lines@)
    }

    /// The paths of the expanded nodes.
    pub closed spec fn expanded(&self) -> Set<Seq<usize>> {
        Set::new(|p: Seq<usize>| paths_model(self.expanded_paths@).contains(p))
    }

    /// An empty view: no lines, nothing expanded.
    pub fn new() -> (res: Self)
        ensures
            res.lines_view() == Seq::<LineModel>::empty(),
            res.expanded() == Set::<Seq<usize>>::empty(),
    {
        let res = Self { lines: Vec::new(), expanded_paths: Vec::new() };
        assert(res.lines_view() =~= Seq::<LineModel>::empty());
        assert(res.expanded() =~= Set::<Seq<usize>>::empty());
        res
    }

    /// The preview shown for `value` (see `preview`).
    pub fn get_value_preview(&self, value: &JsonValue) -> (res: String)
        ensures
            res@ == preview(value@),
    {
        value_preview(value)
    }

    /// The visible lines.
    pub fn lines(&self) -> (res: &[TreeViewLine])
        ensures
            lines_model(res@) == self.lines_view(),
    {
        self.lines.as_slice()
    }

    /// Whether the node at `path` is expanded.
    pub fn is_expanded(&self, path: &[usize]) -> (res: bool)
        ensures
            res == self.expanded().contains(path@),
    {
        let n = self.expanded_paths.len();
        for i in 0..n
            invariant
                n == self.expanded_paths@.len(),
                forall|j: int| 0 <= j < i ==> paths_model(self.expanded_paths@)[j] != path@,
        {
            if paths_equal(self.expanded_paths[i].as_slice(), path) {
                assert(paths_model(self.expanded_paths@)[i as int] == path@);
                return true;
            }
        }
        assert(!paths_model(self.expanded_paths@).contains(path@));
        false
    }

    /// Flips the expanded state of the node at `path`. The lines are not
    /// rebuilt (see `rebuild`).
    pub fn toggle_expand(&mut self, path: &[usize])
        ensures
            final(self).expanded() == toggled(old(self).expanded(), path@),
            final(self).lines_view() == old(self).lines_view(),
    {
        if self.is_expanded(path) {
            self.remove_expanded(path);
        } else {
            self.add_expanded(path);
        }
    }

    /// Marks the node at `path` as expanded.
    fn add_expanded(&mut self, path: &[usize])
        ensures
            final(self).expanded() == old(self).expanded().insert(path@),
            final(self).lines_view() == old(self).lines_view(),
    {
        let ghost before = paths_model(self.expanded_paths@);
        self.expanded_paths.push(copy_path(path));
        proof {
            assert(paths_model(self.expanded_paths@) =~= before.push(path@));
            assert forall|q: Seq<usize>| #[trigger] self.expanded().contains(q) == old(self).expanded().insert(path@).contains(q) by {
                lemma_contains_push(before, path@, q);
            }
            assert(self.expanded() =~= old(self).expanded().insert(path@));
        }
    }

    /// Marks the node at `path` as collapsed.
    fn remove_expanded(&mut self, path: &[usize])
        ensures
            final(self).expanded() == old(self).expanded().remove(path@),
            final(self).lines_view() == old(self).lines_view(),
    {
        let ghost old_paths = paths_model(self.expanded_paths@);
        let mut kept: Vec<Vec<usize>> = Vec::new();
        let n = self.expanded_paths.len();
        for i in 0..n
            invariant
                n == self.expanded_paths@.len(),
                old_paths == paths_model(self.expanded_paths@),
                forall|q: Seq<usize>| #[trigger] paths_model(kept@).contains(q) <==> (old_paths.subrange(0, i as int).contains(q) && q != path@),
        {
            let ghost before = paths_model(kept@);
            let ghost pre = old_paths.subrange(0, i as int);
            assert(old_paths.subrange(0, i + 1) =~= pre.push(old_paths[i as int]));
            if !paths_equal(self.expanded_paths[i].as_slice(), path) {
                kept.push(copy_path(self.expanded_paths[i].as_slice()));
                assert(paths_model(kept@) =~= before.push(old_paths[i as int]));
                assert forall|q: Seq<usize>| #[trigger] paths_model(kept@).contains(q) <==> (old_paths.subrange(0, i + 1).contains(q) && q != path@) by {
                    lemma_contains_push(before, old_paths[i as int], q);
                    lemma_contains_push(pre, old_paths[i as int], q);
                }
            } else {
                assert forall|q: Seq<usize>| #[trigger] paths_model(kept@).contains(q) <==> (old_paths.subrange(0, i + 1).contains(q) && q != path@) by {
                    lemma_contains_push(pre, old_paths[i as int], q);
                }
            }
        }
        assert(old_paths.subrange(0, n as int) =~= old_paths);
        self.expanded_paths = kept;
        assert(self.expanded() =~= old(self).expanded().remove(path@));
    }

    /// Rebuilds the visible lines from the document and the expanded paths.
    pub fn rebuild(&mut self, tree: &JsonTree)
        ensures
            final(self).lines_view() == view_lines(tree@.value, Seq::empty(), 0, old(self).expanded()),
            final(self).expanded() == old(self).expanded(),
    {
        self.lines = Vec::new();
        let path: Vec<usize> = Vec::new();
        self.build_lines(tree.root(), &path, 0, false);
        assert(lines_model(self.lines@) =~= view_lines(tree@.value, Seq::empty(), 0, old(self).expanded()));
    }

    /// The lines of every node of the document, in document order, as they
    /// would show with every container expanded.
    pub fn all_lines(tree: &JsonTree) -> (res: Vec<TreeViewLine>)
        ensures
            lines_model(res@) == view_lines(tree@.value, Seq::empty(), 0, Set::full()),
    {
        let mut view = TreeViewState::new();
        let path: Vec<usize> = Vec::new();
        view.build_lines(tree.root(), &path, 0, true);
        assert(lines_model(view.lines@) =~= view_lines(tree@.value, Seq::empty(), 0, Set::full()));
        view.lines
    }

    /// Expands every node on the way down to `path` (but the root and the
    /// node itself), so that the node shows once the lines are rebuilt.
    /// The lines are not rebuilt.
    pub fn show_path(&mut self, path: &[usize])
        ensures
            final(self).expanded() == old(self).expanded().union(ancestors(path@)),
            final(self).lines_view() == old(self).lines_view(),
    {
        let n = path.len();
        if n == 0 {
            assert(old(self).expanded().union(ancestors(path@)) =~= old(self).expanded());
            return;
        }
        for m in 1..n
            invariant
                n == path@.len(),
                self.expanded() == old(self).expanded().union(ancestors_below(path@, m as nat)),
                self.lines_view() == old(self).lines_view(),
        {
            let prefix = path_prefix(path, m);
            self.add_expanded(prefix.as_slice());
            assert(ancestors_below(path@, (m + 1) as nat) =~= ancestors_below(path@, m as nat).insert(path@.subrange(0, m as int)));
            assert(self.expanded() =~= old(self).expanded().union(ancestors_below(path@, (m + 1) as nat)));
        }
        assert(ancestors_below(path@, n as nat) =~= ancestors(path@));
    }

    /// Appends the visible lines below `node` at `path`; with `all`, as if
    /// every node were expanded.
    fn build_lines(&mut self, node: &JsonNode, path: &Vec<usize>, depth: usize, all: bool)
        requires
            depth == path@.len(),
        ensures
            final(self).lines_view() == old(self).lines_view() + view_lines(node@.value, path@, depth as nat, shown(old(self).expanded(), all)),
            final(self).expanded_paths == old(self).expanded_paths,
        decreases node, 1nat,
    {
        proof {
            crate::document::node::lemma_node_value(*node);
        }
        match &node.value {
            JsonValue::Object(_) => self.build_member_lines(node, path, depth, all),
            JsonValue::Array(_) => self.build_member_lines(node, path, depth, all),
            JsonValue::JsonlRoot(_) => self.build_member_lines(node, path, depth, all),
            _ => {
                let ghost v = node@.value;
                let ghost exp = shown(self.expanded(), all);
                assert(view_parts(v, path@, depth as nat, exp, 0) =~= Seq::<Seq<LineModel>>::empty());
                assert(self.lines_view() =~= old(self).lines_view() + view_lines(v, path@, depth as nat, exp));
            },
        }
    }

    /// Appends the visible lines for the members of the container `node`.
    #[verifier::loop_isolation(false)]
    #[verifier::rlimit(60)]
    fn build_member_lines(&mut self, node: &JsonNode, path: &Vec<usize>, depth: usize, all: bool)
        requires
            depth == path@.len(),
            node@.value.is_container(),
        ensures
            final(self).lines_view() == old(self).lines_view() + view_lines(node@.value, path@, depth as nat, shown(old(self).expanded(), all)),
            final(self).expanded_paths == old(self).expanded_paths,
        decreases node, 0nat,
    {
        let ghost start = self.lines_view();
        let ghost exp = shown(self.expanded(), all);
        let ghost v = node@.value;
        proof {
            crate::document::node::lemma_node_value(*node);
        }
        let n = match &node.value {
            JsonValue::Object(es) => es.len(),
            JsonValue::Array(a) => a.len(),
            JsonValue::JsonlRoot(a) => a.len(),
            _ => 0,
        };
        proof {
            match &node.value {
                JsonValue::Object(es) => crate::document::node::lemma_object_view(*es),
                JsonValue::Array(a) => crate::document::node::lemma_array_view(*a),
                JsonValue::JsonlRoot(a) => crate::document::node::lemma_lines_view(*a),
                _ => {},
            }
        }
        assert(n == member_count(v));
        assert(view_parts(v, path@, depth as nat, exp, 0) =~= Seq::<Seq<LineModel>>::empty());
        assert(start + Seq::<LineModel>::empty() =~= start);
        for i in 0..n
            invariant
                n == member_count(v),
                self.expanded_paths == old(self).expanded_paths,
                exp == shown(self.expanded(), all),
                self.lines_view() == start + view_parts(v, path@, depth as nat, exp, i as nat).flatten(),
        {
            let ghost before = self.lines_view();
            let child_path = child_path_of(path, i);
            let child_depth = child_path.len();
            let expanded = all || self.is_expanded(child_path.as_slice());
            let (key, child): (Option<String>, &JsonNode) = match &node.value {
                JsonValue::Object(es) => {
                    proof {
                        assert(decreases_to!(es => es[i as int]));
                    }
                    (Some(es[i].0.clone()), &es[i].1)
                },
                JsonValue::Array(a) => {
                    proof {
                        assert(decreases_to!(a => a[i as int]));
                    }
                    (None, &a[i])
                },
                JsonValue::JsonlRoot(a) => {
                    proof {
                        assert(decreases_to!(a => a[i as int]));
                    }
                    (None, &a[i])
                },
                _ => {
                    return;
                },
            };
            proof {
                crate::document::node::lemma_node_value(*child);
            }
            let container = child.value.is_container();
            let line = TreeViewLine {
                path: copy_path(child_path.as_slice()),
                depth,
                key,
                value_type: ValueType::from_json_value(&child.value),
                value_preview: value_preview(&child.value),
                expandable: container,
                expanded,
            };
            let ghost line_model = line@;
            self.lines.push(line);
            let ghost mid = self.lines_view();
            assert(mid =~= before.push(line_model));
            let ghost child_path_model = path@.push(i);
            if expanded && container {
                self.build_lines(child, &child_path, child_depth, all);
            }
            proof {
                let part = member_view(v, i as int, path@, depth as nat, exp);
                assert(part =~= seq![line_model] + if expanded && container {
                    view_lines(child@.value, child_path_model, (depth + 1) as nat, exp)
                } else {
                    Seq::<LineModel>::empty()
                });
                assert(self.lines_view() =~= before + part);
                let parts = view_parts(v, path@, depth as nat, exp, i as nat);
                assert(view_parts(v, path@, depth as nat, exp, (i + 1) as nat) =~= parts.push(part));
                parts.lemma_flatten_push(part);
            }
        }
    }

    /// Expands every container in the document (but a JSON Lines root's
    /// lines). The lines are not rebuilt.
    pub fn expand_all(&mut self, tree: &JsonTree)
        ensures
            final(self).expanded() == old(self).expanded().union(container_paths(tree@.value, Seq::empty()).to_set()),
            final(self).lines_view() == old(self).lines_view(),
    {
        let path: Vec<usize> = Vec::new();
        self.expand_all_recursive(tree.root(), &path);
        assert(path@ =~= Seq::<usize>::empty());
    }

    /// Expands the node at `path`, when it is a container, and every
    /// container below it. The lines are not rebuilt.
    pub fn expand_node_and_descendants(&mut self, tree: &JsonTree, path: &[usize])
        ensures
            final(self).expanded() == match crate::document::tree::node_at(tree@, path@) {
                Some(n) => if n.value.is_container() {
                    old(self).expanded().insert(path@).union(container_paths(n.value, path@).to_set())
                } else {
                    old(self).expanded()
                },
                None => old(self).expanded(),
            },
            final(self).lines_view() == old(self).lines_view(),
    {
        match tree.get_node(path) {
            Some(node) => {
                if node.value().is_container() {
                    if !self.is_expanded(path) {
                        self.add_expanded(path);
                    }
                    assert(self.expanded() =~= old(self).expanded().insert(path@));
                    let p = copy_path(path);
                    self.expand_all_recursive(node, &p);
                }
            },
            None => {},
        }
    }

    /// Adds the paths of the containers below `node` at `path`.
    #[verifier::loop_isolation(false)]
    #[verifier::rlimit(60)]
    fn expand_all_recursive(&mut self, node: &JsonNode, path: &Vec<usize>)
        ensures
            final(self).expanded() == old(self).expanded().union(container_paths(node@.value, path@).to_set()),
            final(self).lines_view() == old(self).lines_view(),
        decreases node,
    {
        let ghost start = self.expanded();
        let ghost v = node@.value;
        proof {
            crate::document::node::lemma_node_value(*node);
        }
        let n = match &node.value {
            JsonValue::Object(es) => es.len(),
            JsonValue::Array(a) => a.len(),
            _ => 0,
        };
        proof {
            match &node.value {
                JsonValue::Object(es) => crate::document::node::lemma_object_view(*es),
                JsonValue::Array(a) => crate::document::node::lemma_array_view(*a),
                _ => {},
            }
        }
        assert(n == expansion_width(v));
        assert(container_parts(v, path@, 0) =~= Seq::<Seq<Seq<usize>>>::empty());
        assert(start =~= start.union(Seq::<Seq<usize>>::empty().to_set()));
        for i in 0..n
            invariant
                n == expansion_width(v),
                self.lines_view() == old(self).lines_view(),
                self.expanded() == start.union(container_parts(v, path@, i as nat).flatten().to_set()),
        {
            let ghost before = self.expanded();
            let child: &JsonNode = match &node.value {
                JsonValue::Object(es) => {
                    proof {
                        assert(decreases_to!(es => es[i as int]));
                    }
                    &es[i].1
                },
                JsonValue::Array(a) => {
                    proof {
                        assert(decreases_to!(a => a[i as int]));
                    }
                    &a[i]
                },
                _ => {
                    return;
                },
            };
            proof {
                crate::document::node::lemma_node_value(*child);
            }
            let ghost part = member_container_paths(v, i as int, path@);
            if child.value.is_container() {
                let child_path = child_path_of(path, i);
                if !self.is_expanded(child_path.as_slice()) {
                    self.add_expanded(child_path.as_slice());
                }
                assert(self.expanded() =~= before.insert(path@.push(i)));
                self.expand_all_recursive(child, &child_path);
                assert(part == seq![path@.push(i)] + container_paths(child@.value, path@.push(i)));
            } else {
                assert(part == Seq::<Seq<usize>>::empty());
            }
            proof {
                let parts = container_parts(v, path@, i as nat);
                assert(container_parts(v, path@, (i + 1) as nat) =~= parts.push(part));
                parts.lemma_flatten_push(part);
                assert forall|q: Seq<usize>| #[trigger] self.expanded().contains(q) == start.union((parts.flatten() + part).to_set()).contains(q) by {
                    lemma_contains_concat(parts.flatten(), part, q);
                    if child@.value.is_container() {
                        lemma_contains_concat(seq![path@.push(i)], container_paths(child@.value, path@.push(i)), q);
                        assert(seq![path@.push(i)][0] == path@.push(i));
                        if seq![path@.push(i)].contains(q) {
                            let j = choose|j: int| 0 <= j < 1 && seq![path@.push(i)][j] == q;
                            assert(q == path@.push(i));
                        }
                    }
                }
                assert(self.expanded() =~= start.union(container_parts(v, path@, (i + 1) as nat).flatten().to_set()));
            }
        }
    }

    /// Moves the expanded paths that an insertion at `insertion_path`
    /// shifts (see `shifted`), so that the same nodes stay expanded.
    pub fn update_paths_after_insertion(&mut self, insertion_path: &[usize])
        ensures
            final(self).expanded() == old(self).expanded().map(|p: Seq<usize>| shifted(p, insertion_path@)),
            final(self).lines_view() == old(self).lines_view(),
    {
        let ghost ins = insertion_path@;
        let ghost old_paths = paths_model(self.expanded_paths@);
        let mut moved: Vec<Vec<usize>> = Vec::new();
        let n = self.expanded_paths.len();
        let k = insertion_path.len();
        for i in 0..n
            invariant
                n == self.expanded_paths@.len(),
                k == ins.len(),
                ins == insertion_path@,
                old_paths == paths_model(self.expanded_paths@),
                paths_model(moved@) == old_paths.subrange(0, i as int).map_values(|p: Seq<usize>| shifted(p, ins)),
        {
            let mut p = copy_path(self.expanded_paths[i].as_slice());
            let ghost pm = p@;
            if k > 0 && p.len() >= k && p[k - 1] >= insertion_path[k - 1] && p[k - 1] < usize::MAX
                && prefix_equal(p.as_slice(), insertion_path, k - 1) {
                let bumped = p[k - 1] + 1;
                p.set(k - 1, bumped);
            }
            assert(p@ == shifted(pm, ins));
            let ghost before = paths_model(moved@);
            moved.push(p);
            assert(paths_model(moved@) =~= before.push(shifted(pm, ins)));
            assert(old_paths.subrange(0, i + 1).map_values(|p: Seq<usize>| shifted(p, ins)) =~= old_paths.subrange(0, i as int).map_values(|p: Seq<usize>| shifted(p, ins)).push(shifted(pm, ins)));
        }
        assert(old_paths.subrange(0, n as int) =~= old_paths);
        self.expanded_paths = moved;
        proof {
            let f = |p: Seq<usize>| shifted(p, ins);
            let m = old_paths.map_values(f);
            assert forall|q: Seq<usize>| #[trigger] self.expanded().contains(q) == old(self).expanded().map(f).contains(q) by {
                if m.contains(q) {
                    let j = choose|j: int| 0 <= j < m.len() && m[j] == q;
                    assert(old_paths.contains(old_paths[j]));
                    assert(old(self).expanded().contains(old_paths[j]));
                }
                if old(self).expanded().map(f).contains(q) {
                    let a = choose|a: Seq<usize>| old(self).expanded().contains(a) && f(a) == q;
                    let j = choose|j: int| 0 <= j < old_paths.len() && old_paths[j] == a;
                    assert(m[j] == q);
                }
            }
            assert(self.expanded() =~= old(self).expanded().map(f));
        }
    }
}

impl Default for TreeViewState {
    fn default() -> (res: Self)
        ensures
            res.lines_view() == Seq::<LineModel>::empty(),
            res.expanded() == Set::<Seq<usize>>::empty(),
    {
        TreeViewState::new()
    }
}

/// Whether the first `k` indices of two paths agree.
fn prefix_equal(a: &[usize], b: &[usize], k: usize) -> (res: bool)
    requires
        k <= a@.len(),
        k <= b@.len(),
    ensures
        res == (a@.subrange(0, k as int) == b@.subrange(0, k as int)),
{
    for i in 0..k
        invariant
            k <= a@.len(),
            k <= b@.len(),
            forall|j: int| 0 <= j < i ==> a@[j] == b@[j],
    {
        if a[i] != b[i] {
            assert(a@.subrange(0, k as int)[i as int] != b@.subrange(0, k as int)[i as int]);
            return false;
        }
    }
    assert(a@.subrange(0, k as int) =~= b@.subrange(0, k as int));
    true
}

/// The first `m` indices of `p`.
fn path_prefix(p: &[usize], m: usize) -> (res: Vec<usize>)
    requires
        m <= p@.len(),
    ensures
        res@ == p@.subrange(0, m as int),
{
    let mut res: Vec<usize> = Vec::new();
    for i in 0..m
        invariant
            m <= p@.len(),
            res@ == p@.subrange(0, i as int),
    {
        res.push(p[i]);
        assert(res@ =~= p@.subrange(0, i + 1));
    }
    res
}

/// The path `path` extended by `i`.
fn child_path_of(path: &Vec<usize>, i: usize) -> (res: Vec<usize>)
    ensures
        res@ == path@.push(i),
{
    let mut p = copy_path(path.as_slice());
    p.push(i);
    p
}


/// Flipping the expanded state of the same path twice restores the set of
/// expanded paths.
pub proof fn law_toggle_twice(s: Set<Seq<usize>>, p: Seq<usize>)
    ensures
        toggled(toggled(s, p), p) == s,
{
    if s.contains(p) {
        assert(s.remove(p).insert(p) =~= s);
    } else {
        assert(s.insert(p).remove(p) =~= s);
    }
}

/// The expanded paths after toggling each path of `ps` in turn, from `s`.
pub open spec fn toggled_all(s: Set<Seq<usize>>, ps: Seq<Seq<usize>>) -> Set<Seq<usize>>
    decreases ps.len(),
{
    if ps.len() == 0 {
        s
    } else {
        toggled(toggled_all(s, ps.drop_last()), ps.last())
    }
}

/// How often `p` occurs in `ps`.
pub open spec fn occurrences(ps: Seq<Seq<usize>>, p: Seq<usize>) -> nat
    decreases ps.len(),
{
    if ps.len() == 0 {
        0
    } else {
        occurrences(ps.drop_last(), p) + if ps.last() == p { 1nat } else { 0nat }
    }
}

/// Starting with nothing expanded, a node is expanded after a series of
/// toggles exactly when it was toggled an odd number of times.
pub proof fn law_toggle_parity(ps: Seq<Seq<usize>>, p: Seq<usize>)
    ensures
        toggled_all(Set::empty(), ps).contains(p) <==> occurrences(ps, p) % 2 == 1,
    decreases ps.len(),
{
    if ps.len() > 0 {
        law_toggle_parity(ps.drop_last(), p);
    }
}

/// A node with value `v`, as a root to walk paths from.
pub open spec fn rooted(v: ValueModel) -> NodeModel {
    NodeModel { value: v, modified: false, original_text: None }
}

/// Whether the parent of the node that `rel` leads to from a node with
/// value `v` is an object.
pub open spec fn parent_is_object(v: ValueModel, rel: Seq<usize>) -> bool {
    match node_at(rooted(v), rel.drop_last()) {
        Some(n) => n.value is Object,
        None => false,
    }
}

/// What every visible line below a node with value `v` at `path` (shown
/// from `depth`) satisfies: its path extends `path`, its depth grows by one
/// per level below the first, every path between `path` and its own is
/// expanded, it shows whether its path is expanded, it has a key exactly
/// when its parent is an object, and it describes the node its path leads
/// to.
pub open spec fn line_fits(v: ValueModel, path: Seq<usize>, depth: nat, expanded: Set<Seq<usize>>, l: LineModel) -> bool {
    &&& path.len() < l.path.len()
    &&& l.path.subrange(0, path.len() as int) == path
    &&& l.depth == depth + (l.path.len() - path.len() - 1)
    &&& forall|m: int| path.len() < m < l.path.len() ==> expanded.contains(#[trigger] l.path.subrange(0, m))
    &&& l.expanded == expanded.contains(l.path)
    &&& (l.key is Some <==> parent_is_object(v, l.path.subrange(path.len() as int, l.path.len() as int)))
    &&& node_at(rooted(v), l.path.subrange(path.len() as int, l.path.len() as int)) matches Some(n)
        && l.expandable == n.value.is_container() && l.value_type == type_of(n.value)
}

/// What holds of every item of every part holds of every item of the whole.
proof fn lemma_flatten_all(ss: Seq<Seq<LineModel>>, pred: spec_fn(LineModel) -> bool)
    requires
        forall|i: int, k: int| 0 <= i < ss.len() && 0 <= k < ss[i].len() ==> pred(#[trigger] ss[i][k]),
    ensures
        forall|j: int| 0 <= j < ss.flatten().len() ==> pred(#[trigger] ss.flatten()[j]),
    decreases ss.len(),
{
    if ss.len() > 0 {
        let rest = ss.drop_first();
        assert forall|i: int, k: int| 0 <= i < rest.len() && 0 <= k < rest[i].len() implies pred(#[trigger] rest[i][k]) by {
            assert(rest[i] == ss[i + 1]);
        }
        lemma_flatten_all(rest, pred);
        let f = ss.flatten();
        assert(f == ss.first() + rest.flatten());
        assert forall|j: int| 0 <= j < f.len() implies pred(#[trigger] f[j]) by {
            if j < ss.first().len() {
                assert(f[j] == ss[0][j]);
            } else {
                assert(f[j] == rest.flatten()[j - ss.first().len()]);
            }
        }
    }
}

/// Whether no container below a node with value `v` has more members than
/// a `usize` can count (true of every document held in memory).
pub open spec fn counts_fit(v: ValueModel) -> bool {
    forall|q: Seq<usize>| #[trigger] node_at(rooted(v), q) is Some ==> member_count(node_at(rooted(v), q)->0.value) <= usize::MAX
}

/// Every visible line below a node fits it (see `line_fits`).
pub proof fn law_view_lines_fit(v: ValueModel, path: Seq<usize>, depth: nat, expanded: Set<Seq<usize>>)
    requires
        counts_fit(v),
    ensures
        forall|j: int| 0 <= j < view_lines(v, path, depth, expanded).len()
            ==> line_fits(v, path, depth, expanded, #[trigger] view_lines(v, path, depth, expanded)[j]),
    decreases v, 2nat,
{
    let ss = view_parts(v, path, depth, expanded, member_count(v));
    assert forall|i: int, k: int| 0 <= i < ss.len() && 0 <= k < ss[i].len()
        implies #[trigger] line_fits(v, path, depth, expanded, ss[i][k]) by {
        assert(ss[i] == member_view(v, i, path, depth, expanded));
        lemma_member_view_fits(v, i, path, depth, expanded);
    }
    lemma_flatten_all(ss, |l: LineModel| line_fits(v, path, depth, expanded, l));
}

/// The lines of one member fit the node it belongs to.
proof fn lemma_member_view_fits(v: ValueModel, i: int, path: Seq<usize>, depth: nat, expanded: Set<Seq<usize>>)
    requires
        0 <= i < member_count(v),
        counts_fit(v),
    ensures
        forall|k: int| 0 <= k < member_view(v, i, path, depth, expanded).len()
            ==> line_fits(v, path, depth, expanded, #[trigger] member_view(v, i, path, depth, expanded)[k]),
    decreases v, 0nat,
{
    let p = path.push(i as usize);
    let cs = v.children();
    let c = cs[i];
    let c2 = match v {
        ValueModel::Object(es) => {
            assert(decreases_to!(v => es));
            assert(decreases_to!(es => es[i]));
            es[i].1
        },
        ValueModel::Array(a) => {
            assert(decreases_to!(v => a));
            assert(decreases_to!(a => a[i]));
            a[i]
        },
        ValueModel::JsonlRoot(a) => {
            assert(decreases_to!(v => a));
            assert(decreases_to!(a => a[i]));
            a[i]
        },
        _ => c,
    };
    assert(c2 == c);
    assert(node_at(rooted(v), Seq::<usize>::empty()) is Some);
    assert((i as usize) as int == i);
    let mv = member_view(v, i, path, depth, expanded);
    assert(p.subrange(0, path.len() as int) =~= path);
    assert(p.subrange(path.len() as int, p.len() as int) =~= seq![i as usize]);
    let s1 = seq![i as usize];
    assert(s1.drop_first() =~= Seq::<usize>::empty());
    assert(s1.len() == 1 && s1[0] as int == i);
    assert(rooted(v).value.children() == cs);
    assert(node_at(c, s1.drop_first()) == Some(c));
    assert(node_at(rooted(v), s1) == Some(c));
    if mv.len() > 0 {
        assert(s1.drop_last() =~= Seq::<usize>::empty());
        assert(mv[0].path == p);
        assert(line_fits(v, path, depth, expanded, mv[0]));
    }
    let open = expanded.contains(p) && c.value.is_container();
    if open {
        assert forall|q: Seq<usize>| #[trigger] node_at(rooted(c.value), q) is Some
            implies member_count(node_at(rooted(c.value), q)->0.value) <= usize::MAX by {
            let iq = seq![i as usize] + q;
            assert(iq[0] == i as usize);
            assert(iq.drop_first() =~= q);
            if q.len() == 0 {
                assert(node_at(rooted(v), iq) == Some(c));
            } else {
                assert(node_at(c, q) == node_at(rooted(c.value), q));
                assert(node_at(rooted(v), iq) == node_at(c, q));
            }
        }
        law_view_lines_fit(c.value, p, depth + 1, expanded);
        let sub = view_lines(c.value, p, depth + 1, expanded);
        assert forall|k: int| 0 <= k < mv.len() implies line_fits(v, path, depth, expanded, #[trigger] mv[k]) by {
            if k > 0 {
                let l = sub[k - 1];
                assert(mv[k] == l);
                assert(line_fits(c.value, p, depth + 1, expanded, l));
                let rel = l.path.subrange(path.len() as int, l.path.len() as int);
                let rel2 = l.path.subrange(p.len() as int, l.path.len() as int);
                assert(l.path.subrange(0, p.len() as int)[path.len() as int] == i as usize);
                assert(rel[0] == i as usize);
                assert(rel.drop_first() =~= rel2);
                assert(l.path.subrange(0, path.len() as int) =~= l.path.subrange(0, p.len() as int).subrange(0, path.len() as int));
                assert(rel2.len() > 0);
                assert(node_at(c, rel2) == node_at(rooted(c.value), rel2));
                assert forall|m: int| path.len() < m < l.path.len()
                    implies expanded.contains(#[trigger] l.path.subrange(0, m)) by {
                    if m == p.len() {
                        assert(l.path.subrange(0, m) == p);
                    }
                }
                let d = rel.drop_last();
                let d2 = rel2.drop_last();
                assert(d[0] == i as usize);
                assert(d.drop_first() =~= d2);
                assert(node_at(rooted(v), d) == node_at(c, d2));
                if d2.len() == 0 {
                    assert(node_at(c, d2) == Some(c));
                } else {
                    assert(node_at(c, d2) == node_at(rooted(c.value), d2));
                }
                assert(parent_is_object(v, rel) == parent_is_object(c.value, rel2));
            }
        }
    }
}

/// An item of one part is an item of the whole.
proof fn lemma_flatten_has(ss: Seq<Seq<LineModel>>, i: int, k: int)
    requires
        0 <= i < ss.len(),
        0 <= k < ss[i].len(),
    ensures
        exists|j: int| 0 <= j < ss.flatten().len() && ss.flatten()[j] == ss[i][k],
    decreases ss.len(),
{
    let rest = ss.drop_first();
    let f = ss.flatten();
    assert(f == ss.first() + rest.flatten());
    if i == 0 {
        assert(f[k] == ss[0][k]);
    } else {
        assert(rest[i - 1] == ss[i]);
        lemma_flatten_has(rest, i - 1, k);
        let j = choose|j: int| 0 <= j < rest.flatten().len() && rest.flatten()[j] == rest[i - 1][k];
        assert(f[ss.first().len() + j] == rest.flatten()[j]);
    }
}

/// A node below a node with value `v` at `path` has a visible line
/// whenever every node between them is expanded.
pub proof fn law_view_lines_complete(v: ValueModel, path: Seq<usize>, depth: nat, expanded: Set<Seq<usize>>, q: Seq<usize>)
    requires
        q.len() > 0,
        node_at(rooted(v), q) is Some,
        forall|m: int| 0 < m < q.len() ==> expanded.contains(#[trigger] (path + q.subrange(0, m))),
    ensures
        exists|j: int| 0 <= j < view_lines(v, path, depth, expanded).len()
            && #[trigger] view_lines(v, path, depth, expanded)[j].path == path + q,
    decreases q.len(),
{
    let i = q[0] as int;
    let cs = v.children();
    let c = cs[i];
    assert(rooted(v).value.children() == cs);
    assert(0 <= i < member_count(v));
    let ss = view_parts(v, path, depth, expanded, member_count(v));
    let mv = member_view(v, i, path, depth, expanded);
    assert(ss[i] == mv);
    let p = path.push(i as usize);
    let c2 = match v {
        ValueModel::Object(es) => {
            assert(decreases_to!(v => es));
            assert(decreases_to!(es => es[i]));
            es[i].1
        },
        ValueModel::Array(a) => a[i],
        ValueModel::JsonlRoot(a) => a[i],
        _ => c,
    };
    assert(c2 == c);
    assert(p == path + q.subrange(0, 1));
    if q.len() == 1 {
        assert(mv[0].path == p);
        assert(path + q == p);
        lemma_flatten_has(ss, i, 0);
        let j0 = choose|j: int| 0 <= j < ss.flatten().len() && ss.flatten()[j] == ss[i][0];
        assert(view_lines(v, path, depth, expanded)[j0].path == path + q);
    } else {
        let r = q.drop_first();
        assert(node_at(rooted(v), q) == node_at(c, r));
        assert(node_at(c, r) == node_at(rooted(c.value), r));
        assert(c.value.is_container());
        assert(expanded.contains(path + q.subrange(0, 1)));
        assert forall|m: int| 0 < m < r.len() implies expanded.contains(#[trigger] (p + r.subrange(0, m))) by {
            assert(p + r.subrange(0, m) =~= path + q.subrange(0, m + 1));
        }
        law_view_lines_complete(c.value, p, depth + 1, expanded, r);
        let sub = view_lines(c.value, p, depth + 1, expanded);
        let j = choose|j: int| 0 <= j < sub.len() && #[trigger] sub[j].path == p + r;
        assert(p + r =~= path + q);
        assert(mv[j + 1] == sub[j]);
        lemma_flatten_has(ss, i, j + 1);
        let j0 = choose|j0: int| 0 <= j0 < ss.flatten().len() && ss.flatten()[j0] == ss[i][j + 1];
        assert(view_lines(v, path, depth, expanded)[j0].path == path + q);
    }
}

/// Whether path `a` comes before path `b` in document order: `a` leads to
/// an ancestor of the node `b` leads to, or at the first index where they
/// differ, `a`'s is the smaller.
pub open spec fn path_before(a: Seq<usize>, b: Seq<usize>) -> bool
    decreases a.len(),
{
    if b.len() == 0 {
        false
    } else if a.len() == 0 {
        true
    } else if a[0] != b[0] {
        a[0] < b[0]
    } else {
        path_before(a.drop_first(), b.drop_first())
    }
}

/// Paths that agree on their first `n` indices and differ at index `n`
/// are ordered by that index; a proper prefix comes first.
proof fn lemma_path_before(a: Seq<usize>, b: Seq<usize>, n: int)
    requires
        0 <= n <= a.len(),
        n < b.len(),
        a.subrange(0, n) == b.subrange(0, n),
        n == a.len() || a[n] < b[n],
    ensures
        path_before(a, b),
    decreases n,
{
    if n > 0 {
        assert(a[0] == a.subrange(0, n)[0]);
        assert(b[0] == b.subrange(0, n)[0]);
        assert(a.drop_first().subrange(0, n - 1) =~= a.subrange(0, n).drop_first());
        assert(b.drop_first().subrange(0, n - 1) =~= b.subrange(0, n).drop_first());
        lemma_path_before(a.drop_first(), b.drop_first(), n - 1);
    }
}

/// Whether the paths of `ls` come in strictly increasing document order.
pub open spec fn in_document_order(ls: Seq<LineModel>) -> bool {
    forall|j1: int, j2: int| 0 <= j1 < j2 < ls.len() ==> path_before(#[trigger] ls[j1].path, #[trigger] ls[j2].path)
}

/// Parts each in order, every item of an earlier part before every item
/// of a later one, make a whole in order.
proof fn lemma_flatten_in_order(ss: Seq<Seq<LineModel>>)
    requires
        forall|i: int| 0 <= i < ss.len() ==> in_document_order(#[trigger] ss[i]),
        forall|i1: int, i2: int, k1: int, k2: int| 0 <= i1 < i2 < ss.len() && 0 <= k1 < ss[i1].len() && 0 <= k2 < ss[i2].len()
            ==> path_before(#[trigger] ss[i1][k1].path, #[trigger] ss[i2][k2].path),
    ensures
        in_document_order(ss.flatten()),
    decreases ss.len(),
{
    if ss.len() > 0 {
        let first = ss[0];
        let rest = ss.drop_first();
        assert forall|i: int| 0 <= i < rest.len() implies in_document_order(#[trigger] rest[i]) by {
            assert(rest[i] == ss[i + 1]);
        }
        assert forall|i1: int, i2: int, k1: int, k2: int| 0 <= i1 < i2 < rest.len() && 0 <= k1 < rest[i1].len() && 0 <= k2 < rest[i2].len()
            implies path_before(#[trigger] rest[i1][k1].path, #[trigger] rest[i2][k2].path) by {
            assert(rest[i1] == ss[i1 + 1]);
            assert(rest[i2] == ss[i2 + 1]);
        }
        lemma_flatten_in_order(rest);
        let rf = rest.flatten();
        let f = ss.flatten();
        assert(f == first + rf);
        let pred = |l: LineModel| forall|k: int| 0 <= k < first.len() ==> path_before(first[k].path, l.path);
        assert forall|i: int, k: int| 0 <= i < rest.len() && 0 <= k < rest[i].len() implies pred(#[trigger] rest[i][k]) by {
            assert(rest[i] == ss[i + 1]);
            assert forall|k1: int| 0 <= k1 < first.len() implies path_before(first[k1].path, rest[i][k].path) by {
                assert(ss[0][k1] == first[k1]);
                assert(ss[i + 1][k] == rest[i][k]);
            }
        }
        lemma_flatten_all(rest, pred);
        assert forall|j1: int, j2: int| 0 <= j1 < j2 < f.len() implies path_before(#[trigger] f[j1].path, #[trigger] f[j2].path) by {
            let n = first.len() as int;
            if j2 < n {
                assert(f[j1] == first[j1] && f[j2] == first[j2]);
            } else if j1 < n {
                assert(f[j1] == first[j1] && f[j2] == rf[j2 - n]);
                assert(pred(rf[j2 - n]));
            } else {
                assert(f[j1] == rf[j1 - n] && f[j2] == rf[j2 - n]);
            }
        }
    }
}

/// The visible lines come in document order: each node after its
/// ancestors and after the nodes of every earlier member.
pub proof fn law_view_lines_in_order(v: ValueModel, path: Seq<usize>, depth: nat, expanded: Set<Seq<usize>>)
    requires
        counts_fit(v),
    ensures
        in_document_order(view_lines(v, path, depth, expanded)),
    decreases v, 2nat,
{
    let ss = view_parts(v, path, depth, expanded, member_count(v));
    assert(node_at(rooted(v), Seq::<usize>::empty()) is Some);
    assert forall|i: int| 0 <= i < ss.len() implies in_document_order(#[trigger] ss[i]) by {
        assert(ss[i] == member_view(v, i, path, depth, expanded));
        lemma_member_view_in_order(v, i, path, depth, expanded);
    }
    assert forall|i1: int, i2: int, k1: int, k2: int| 0 <= i1 < i2 < ss.len() && 0 <= k1 < ss[i1].len() && 0 <= k2 < ss[i2].len()
        implies path_before(#[trigger] ss[i1][k1].path, #[trigger] ss[i2][k2].path) by {
        assert(ss[i1] == member_view(v, i1, path, depth, expanded));
        assert(ss[i2] == member_view(v, i2, path, depth, expanded));
        lemma_member_view_in_order(v, i1, path, depth, expanded);
        lemma_member_view_in_order(v, i2, path, depth, expanded);
        let a = ss[i1][k1].path;
        let b = ss[i2][k2].path;
        let n = path.len() as int;
        assert(a.subrange(0, n + 1) == path.push(i1 as usize));
        assert(b.subrange(0, n + 1) == path.push(i2 as usize));
        assert(a.subrange(0, n) =~= a.subrange(0, n + 1).subrange(0, n));
        assert(b.subrange(0, n) =~= b.subrange(0, n + 1).subrange(0, n));
        assert(a[n] == a.subrange(0, n + 1)[n]);
        assert(b[n] == b.subrange(0, n + 1)[n]);
        assert(path.push(i1 as usize).subrange(0, n) =~= path);
        assert(path.push(i2 as usize).subrange(0, n) =~= path);
        assert(member_count(v) <= usize::MAX);
        lemma_path_before(a, b, n);
    }
    lemma_flatten_in_order(ss);
}

/// The lines of one member come in document order, and each path starts
/// with the member's own.
proof fn lemma_member_view_in_order(v: ValueModel, i: int, path: Seq<usize>, depth: nat, expanded: Set<Seq<usize>>)
    requires
        0 <= i < member_count(v),
        counts_fit(v),
    ensures
        in_document_order(member_view(v, i, path, depth, expanded)),
        forall|k: int| 0 <= k < member_view(v, i, path, depth, expanded).len()
            ==> (#[trigger] member_view(v, i, path, depth, expanded)[k]).path.len() > path.len()
            && member_view(v, i, path, depth, expanded)[k].path.subrange(0, path.len() as int + 1) == path.push(i as usize),
    decreases v, 0nat,
{
    let p = path.push(i as usize);
    let cs = v.children();
    let c = cs[i];
    let c2 = match v {
        ValueModel::Object(es) => {
            assert(decreases_to!(v => es));
            assert(decreases_to!(es => es[i]));
            es[i].1
        },
        ValueModel::Array(a) => {
            assert(decreases_to!(v => a));
            assert(decreases_to!(a => a[i]));
            a[i]
        },
        ValueModel::JsonlRoot(a) => {
            assert(decreases_to!(v => a));
            assert(decreases_to!(a => a[i]));
            a[i]
        },
        _ => c,
    };
    assert(c2 == c);
    let mv = member_view(v, i, path, depth, expanded);
    assert(p.subrange(0, path.len() as int + 1) =~= p);
    let open = expanded.contains(p) && c.value.is_container();
    if open {
        let s1 = seq![i as usize];
        assert(node_at(rooted(v), Seq::<usize>::empty()) is Some);
        assert((i as usize) as int == i);
        assert(s1.drop_first() =~= Seq::<usize>::empty());
        assert(s1.len() == 1 && s1[0] as int == i);
        assert(rooted(v).value.children() == cs);
        assert(node_at(c, s1.drop_first()) == Some(c));
        assert(node_at(rooted(v), s1) == Some(c));
        assert forall|q: Seq<usize>| #[trigger] node_at(rooted(c.value), q) is Some
            implies member_count(node_at(rooted(c.value), q)->0.value) <= usize::MAX by {
            let iq = seq![i as usize] + q;
            assert(iq[0] == i as usize);
            assert(iq.drop_first() =~= q);
            if q.len() == 0 {
                assert(node_at(rooted(v), iq) == Some(c));
            } else {
                assert(node_at(c, q) == node_at(rooted(c.value), q));
                assert(node_at(rooted(v), iq) == node_at(c, q));
            }
        }
        law_view_lines_in_order(c.value, p, depth + 1, expanded);
        law_view_lines_fit(c.value, p, depth + 1, expanded);
        let sub = view_lines(c.value, p, depth + 1, expanded);
        assert forall|k: int| 0 < k < mv.len() implies mv[k] == sub[k - 1] && sub[k - 1].path.subrange(0, p.len() as int) == p
            && p.len() < sub[k - 1].path.len() by {
            assert(line_fits(c.value, p, depth + 1, expanded, sub[k - 1]));
        }
        assert forall|j1: int, j2: int| 0 <= j1 < j2 < mv.len() implies path_before(#[trigger] mv[j1].path, #[trigger] mv[j2].path) by {
            if j1 == 0 {
                assert(mv[0].path == p);
                assert(sub[j2 - 1].path.subrange(0, p.len() as int) == p);
                assert(p.subrange(0, p.len() as int) =~= p);
                lemma_path_before(p, sub[j2 - 1].path, p.len() as int);
            } else {
                assert(mv[j1] == sub[j1 - 1] && mv[j2] == sub[j2 - 1]);
            }
        }
        assert forall|k: int| 0 <= k < mv.len() implies (#[trigger] mv[k]).path.len() > path.len()
            && mv[k].path.subrange(0, path.len() as int + 1) == p by {
            if k > 0 {
                let l = sub[k - 1];
                assert(l.path.subrange(0, path.len() as int + 1) =~= l.path.subrange(0, p.len() as int));
            }
        }
    } else {
        assert(mv.len() == 1);
        assert(mv[0].path == p);
    }
}

} // verus!
