//! JSON values and nodes with modification metadata.
use vstd::prelude::*;

verus! {

/// A JSON value. Numbers are held as the decimal text of the number
/// (the way the number is displayed and written back).
#[derive(Debug)]
pub enum JsonValue {
    Object(Vec<(String, JsonNode)>),
    Array(Vec<JsonNode>),
    String(String),
    Number(String),
    Boolean(bool),
    Null,
    /// The root of a JSON Lines document: one value per line.
    JsonlRoot(Vec<JsonNode>),
}

/// A node of the document: a value together with its metadata.
#[derive(Debug)]
pub struct JsonNode {
    pub(crate) value: JsonValue,
    pub(crate) metadata: NodeMetadata,
}

/// Metadata kept with every node.
#[derive(Debug, Clone)]
pub struct NodeMetadata {
    /// Original formatting (whitespace, indentation)
    pub original_text: Option<String>,
    /// Whether this node has been modified
    pub modified: bool,
}

/// The mathematical model of a JSON value.
#[verifier::ext_equal]
pub enum ValueModel {
    Object(Seq<(Seq<char>, NodeModel)>),
    Array(Seq<NodeModel>),
    Str(Seq<char>),
    Number(Seq<char>),
    Boolean(bool),
    Null,
    JsonlRoot(Seq<NodeModel>),
}

/// The mathematical model of a node.
#[verifier::ext_equal]
pub struct NodeModel {
    pub value: ValueModel,
    pub modified: bool,
    pub original_text: Option<Seq<char>>,
}

pub open spec fn default_node_model() -> NodeModel {
    NodeModel { value: ValueModel::Null, modified: false, original_text: None }
}

pub open spec fn opt_string_view(o: Option<String>) -> Option<Seq<char>> {
    match o {
        Some(s) => Some(s@),
        None => None,
    }
}

/// The model of a value, defined structurally.
pub open spec fn value_view(v: JsonValue) -> ValueModel
    decreases v,
{
    match v {
        JsonValue::Object(v) => ValueModel::Object(
            Seq::new(
                v@.len(),
                |i: int|
                    if 0 <= i < v@.len() {
                        proof {
                            assert(decreases_to!(v => v[i]));
                        }
                        (v@[i].0@, node_view(v@[i].1))
                    } else {
                        (Seq::empty(), default_node_model())
                    },
            ),
        ),
        JsonValue::Array(v) => ValueModel::Array(
            Seq::new(
                v@.len(),
                |i: int|
                    if 0 <= i < v@.len() {
                        proof {
                            assert(decreases_to!(v => v[i]));
                        }
                        node_view(v@[i])
                    } else {
                        default_node_model()
                    },
            ),
        ),
        JsonValue::JsonlRoot(v) => ValueModel::JsonlRoot(
            Seq::new(
                v@.len(),
                |i: int|
                    if 0 <= i < v@.len() {
                        proof {
                            assert(decreases_to!(v => v[i]));
                        }
                        node_view(v@[i])
                    } else {
                        default_node_model()
                    },
            ),
        ),
        JsonValue::String(s) => ValueModel::Str(s@),
        JsonValue::Number(s) => ValueModel::Number(s@),
        JsonValue::Boolean(b) => ValueModel::Boolean(b),
        JsonValue::Null => ValueModel::Null,
    }
}

/// The model of a node, defined structurally.
pub closed spec fn node_view(n: JsonNode) -> NodeModel
    decreases n,
{
    NodeModel {
        value: value_view(n.value),
        modified: n.metadata.modified,
        original_text: opt_string_view(n.metadata.original_text),
    }
}

/// The value part of a node's model is the model of its value.
pub(crate) proof fn lemma_node_value(n: JsonNode)
    ensures
        node_view(n).value == value_view(n.value),
{
}

/// `v` with its `i`th child replaced by `c` (keys are kept).
pub open spec fn with_child(v: ValueModel, i: int, c: NodeModel) -> ValueModel {
    match v {
        ValueModel::Object(es) => ValueModel::Object(es.update(i, (es[i].0, c))),
        ValueModel::Array(a) => ValueModel::Array(a.update(i, c)),
        ValueModel::JsonlRoot(a) => ValueModel::JsonlRoot(a.update(i, c)),
        _ => v,
    }
}

/// `n` marked as modified.
pub open spec fn marked(n: NodeModel) -> NodeModel {
    NodeModel { modified: true, ..n }
}


/// Updating the `i`th entry's node of an object updates its model the same way.
pub proof fn lemma_object_with_child(v: Vec<(String, JsonNode)>, i: int)
    requires
        0 <= i < v@.len(),
    ensures
        forall|w: Vec<(String, JsonNode)>|
            w@.len() == v@.len() && w@[i].0 == v@[i].0 && (forall|j: int|
                0 <= j < v@.len() && j != i ==> w@[j] == v@[j]) ==> #[trigger] value_view(
                JsonValue::Object(w),
            ) == with_child(value_view(JsonValue::Object(v)), i, node_view(w@[i].1)),
{
    assert forall|w: Vec<(String, JsonNode)>|
        w@.len() == v@.len() && w@[i].0 == v@[i].0 && (forall|j: int|
            0 <= j < v@.len() && j != i ==> w@[j] == v@[j]) implies #[trigger] value_view(
        JsonValue::Object(w),
    ) == with_child(value_view(JsonValue::Object(v)), i, node_view(w@[i].1)) by {
        let a = value_view(JsonValue::Object(w));
        let b = with_child(value_view(JsonValue::Object(v)), i, node_view(w@[i].1));
        assert(a->Object_0 =~= b->Object_0);
    }
}

/// Updating the `i`th element of an array updates its model the same way.
pub proof fn lemma_array_with_child(v: Vec<JsonNode>, i: int)
    requires
        0 <= i < v@.len(),
    ensures
        forall|w: Vec<JsonNode>|
            w@.len() == v@.len() && (forall|j: int| 0 <= j < v@.len() && j != i ==> w@[j] == v@[j])
                ==> #[trigger] value_view(JsonValue::Array(w)) == with_child(
                value_view(JsonValue::Array(v)),
                i,
                node_view(w@[i]),
            ),
{
    assert forall|w: Vec<JsonNode>|
        w@.len() == v@.len() && (forall|j: int| 0 <= j < v@.len() && j != i ==> w@[j] == v@[j])
            implies #[trigger] value_view(JsonValue::Array(w)) == with_child(
        value_view(JsonValue::Array(v)),
        i,
        node_view(w@[i]),
    ) by {
        let a = value_view(JsonValue::Array(w));
        let b = with_child(value_view(JsonValue::Array(v)), i, node_view(w@[i]));
        assert(a->Array_0 =~= b->Array_0);
    }
}

/// Updating the `i`th line of a JSON Lines root updates its model the same way.
pub proof fn lemma_lines_with_child(v: Vec<JsonNode>, i: int)
    requires
        0 <= i < v@.len(),
    ensures
        forall|w: Vec<JsonNode>|
            w@.len() == v@.len() && (forall|j: int| 0 <= j < v@.len() && j != i ==> w@[j] == v@[j])
                ==> #[trigger] value_view(JsonValue::JsonlRoot(w)) == with_child(
                value_view(JsonValue::JsonlRoot(v)),
                i,
                node_view(w@[i]),
            ),
{
    assert forall|w: Vec<JsonNode>|
        w@.len() == v@.len() && (forall|j: int| 0 <= j < v@.len() && j != i ==> w@[j] == v@[j])
            implies #[trigger] value_view(JsonValue::JsonlRoot(w)) == with_child(
        value_view(JsonValue::JsonlRoot(v)),
        i,
        node_view(w@[i]),
    ) by {
        let a = value_view(JsonValue::JsonlRoot(w));
        let b = with_child(value_view(JsonValue::JsonlRoot(v)), i, node_view(w@[i]));
        assert(a->JsonlRoot_0 =~= b->JsonlRoot_0);
    }
}

/// The models of a sequence of object entries.
pub open spec fn entries_model(s: Seq<(String, JsonNode)>) -> Seq<(Seq<char>, NodeModel)> {
    s.map_values(|e: (String, JsonNode)| (e.0@, node_view(e.1)))
}

/// The models of a sequence of nodes.
pub open spec fn nodes_model(s: Seq<JsonNode>) -> Seq<NodeModel> {
    s.map_values(|e: JsonNode| node_view(e))
}

/// The model of an object is the sequence of the models of its entries.
pub proof fn lemma_object_view(w: Vec<(String, JsonNode)>)
    ensures
        value_view(JsonValue::Object(w)) == ValueModel::Object(entries_model(w@)),
{
    let a = value_view(JsonValue::Object(w));
    let b = entries_model(w@);
    assert(a->Object_0 =~= b);
}

/// The model of an array is the sequence of the models of its elements.
pub proof fn lemma_array_view(w: Vec<JsonNode>)
    ensures
        value_view(JsonValue::Array(w)) == ValueModel::Array(nodes_model(w@)),
{
    let a = value_view(JsonValue::Array(w));
    let b = nodes_model(w@);
    assert(a->Array_0 =~= b);
}

/// The model of a JSON Lines root is the sequence of the models of its lines.
pub proof fn lemma_lines_view(w: Vec<JsonNode>)
    ensures
        value_view(JsonValue::JsonlRoot(w)) == ValueModel::JsonlRoot(nodes_model(w@)),
{
    let a = value_view(JsonValue::JsonlRoot(w));
    let b = nodes_model(w@);
    assert(a->JsonlRoot_0 =~= b);
}

impl View for JsonValue {
    type V = ValueModel;

    open spec fn view(&self) -> ValueModel {
        value_view(*self)
    }
}

impl View for JsonNode {
    type V = NodeModel;

    open spec fn view(&self) -> NodeModel {
        node_view(*self)
    }
}

impl ValueModel {
    pub open spec fn is_container(self) -> bool {
        self is Object || self is Array || self is JsonlRoot
    }

    /// The children of a container, in order (empty for scalars).
    pub open spec fn children(self) -> Seq<NodeModel> {
        match self {
            ValueModel::Object(es) => es.map_values(|e: (Seq<char>, NodeModel)| e.1),
            ValueModel::Array(a) => a,
            ValueModel::JsonlRoot(a) => a,
            _ => Seq::empty(),
        }
    }
}

impl JsonValue {
    /// A copy of this value, equal to it in every part.
    #[verifier::loop_isolation(false)]
    pub fn deep_copy(&self) -> (res: JsonValue)
        ensures
            res@ == self@,
        decreases self,
    {
        match self {
            JsonValue::Object(es) => {
                let mut out: Vec<(String, JsonNode)> = Vec::new();
                let n = es.len();
                for i in 0..n
                    invariant
                        n == es@.len(),
                        out@.len() == i,
                        forall|j: int| 0 <= j < i ==> (#[trigger] out@[j]).0@ == es@[j].0@
                            && node_view(out@[j].1) == node_view(es@[j].1),
                {
                    proof {
                        assert(decreases_to!(es => es[i as int]));
                    }
                    let k = es[i].0.clone();
                    let c = es[i].1.deep_copy();
                    out.push((k, c));
                }
                let res = JsonValue::Object(out);
                let ghost a = value_view(res);
                let ghost b = value_view(*self);
                assert(forall|j: int| 0 <= j < n ==> a->Object_0[j] == b->Object_0[j]);
                assert(a->Object_0 =~= b->Object_0);
                res
            },
            JsonValue::Array(es) => {
                let mut out: Vec<JsonNode> = Vec::new();
                let n = es.len();
                for i in 0..n
                    invariant
                        n == es@.len(),
                        out@.len() == i,
                        forall|j: int| 0 <= j < i ==> node_view(#[trigger] out@[j]) == node_view(es@[j]),
                {
                    proof {
                        assert(decreases_to!(es => es[i as int]));
                    }
                    let c = es[i].deep_copy();
                    out.push(c);
                }
                let res = JsonValue::Array(out);
                let ghost a = value_view(res);
                let ghost b = value_view(*self);
                assert(forall|j: int| 0 <= j < n ==> a->Array_0[j] == b->Array_0[j]);
                assert(a->Array_0 =~= b->Array_0);
                res
            },
            JsonValue::JsonlRoot(es) => {
                let mut out: Vec<JsonNode> = Vec::new();
                let n = es.len();
                for i in 0..n
                    invariant
                        n == es@.len(),
                        out@.len() == i,
                        forall|j: int| 0 <= j < i ==> node_view(#[trigger] out@[j]) == node_view(es@[j]),
                {
                    proof {
                        assert(decreases_to!(es => es[i as int]));
                    }
                    let c = es[i].deep_copy();
                    out.push(c);
                }
                let res = JsonValue::JsonlRoot(out);
                let ghost a = value_view(res);
                let ghost b = value_view(*self);
                assert(forall|j: int| 0 <= j < n ==> a->JsonlRoot_0[j] == b->JsonlRoot_0[j]);
                assert(a->JsonlRoot_0 =~= b->JsonlRoot_0);
                res
            },
            JsonValue::String(s) => JsonValue::String(s.clone()),
            JsonValue::Number(s) => JsonValue::Number(s.clone()),
            JsonValue::Boolean(b) => JsonValue::Boolean(*b),
            JsonValue::Null => JsonValue::Null,
        }
    }
}

impl JsonNode {
    /// A copy of this node, equal to it in every part.
    pub fn deep_copy(&self) -> (res: JsonNode)
        ensures
            res@ == self@,
        decreases self,
    {
        let value = self.value.deep_copy();
        let original_text = match &self.metadata.original_text {
            Some(t) => Some(t.clone()),
            None => None,
        };
        JsonNode { value, metadata: NodeMetadata { original_text, modified: self.metadata.modified } }
    }

    /// Creates a node holding `value`, marked as modified.
    pub fn new(value: JsonValue) -> (res: Self)
        ensures
            res@ == (NodeModel { value: value@, modified: true, original_text: None }),
    {
        Self { value, metadata: NodeMetadata { original_text: None, modified: true } }
    }

    /// Creates a node holding `value` that is not marked as modified
    /// (the way a freshly loaded document is built).
    pub fn unmodified(value: JsonValue) -> (res: Self)
        ensures
            res@ == (NodeModel { value: value@, modified: false, original_text: None }),
    {
        Self { value, metadata: NodeMetadata { original_text: None, modified: false } }
    }

    /// The value of this node.
    pub fn value(&self) -> (res: &JsonValue)
        ensures
            res@ == self@.value,
    {
        &self.value
    }

    /// Mutable access to the value; marks the node as modified.
    pub fn value_mut(&mut self) -> (res: &mut JsonValue)
        ensures
            res@ == old(self)@.value,
            final(self)@ == (NodeModel {
                value: final(res)@,
                modified: true,
                original_text: old(self)@.original_text,
            }),
    {
        self.metadata.modified = true;
        &mut self.value
    }

    /// Whether this node has been modified.
    pub fn is_modified(&self) -> (res: bool)
        ensures
            res == self@.modified,
    {
        self.metadata.modified
    }

    /// Marks this node as modified.
    pub fn mark_modified(&mut self)
        ensures
            final(self)@ == marked(old(self)@),
    {
        self.metadata.modified = true;
    }
}

impl JsonValue {
    /// Whether this value is an object.
    pub fn is_object(&self) -> (res: bool)
        ensures
            res == (self@ is Object),
    {
        matches!(self, JsonValue::Object(_))
    }

    /// Whether this value is a container (object, array or JSON Lines root).
    pub fn is_container(&self) -> (res: bool)
        ensures
            res == self@.is_container(),
    {
        match self {
            JsonValue::Object(_) | JsonValue::Array(_) | JsonValue::JsonlRoot(_) => true,
            _ => false,
        }
    }

    /// Structural equality of two values.
    #[verifier::loop_isolation(false)]
    pub fn equals(&self, other: &JsonValue) -> (res: bool)
        ensures
            res == (self@ == other@),
        decreases self,
    {
        match (self, other) {
            (JsonValue::Object(a), JsonValue::Object(b)) => {
                if a.len() != b.len() {
                    let ghost x = value_view(*self);
                    let ghost y = value_view(*other);
                    assert(x->Object_0.len() != y->Object_0.len());
                    return false;
                }
                let n = a.len();
                for i in 0..n
                    invariant
                        forall|j: int|
                            0 <= j < i ==> (#[trigger] a@[j]).0@ == b@[j].0@ && node_view(a@[j].1)
                                == node_view(b@[j].1),
                {
                    proof {
                        assert(decreases_to!(a => a[i as int]));
                    }
                    if a[i].0 != b[i].0 || !a[i].1.equals(&b[i].1) {
                        let ghost x = value_view(*self);
                        let ghost y = value_view(*other);
                        assert(x->Object_0[i as int] != y->Object_0[i as int]);
                        return false;
                    }
                }
                let ghost x = value_view(*self);
                let ghost y = value_view(*other);
                assert(x->Object_0 =~= y->Object_0);
                true
            },
            (JsonValue::Array(a), JsonValue::Array(b)) => {
                if a.len() != b.len() {
                    let ghost x = value_view(*self);
                    let ghost y = value_view(*other);
                    assert(x->Array_0.len() != y->Array_0.len());
                    return false;
                }
                let n = a.len();
                for i in 0..n
                    invariant
                        forall|j: int| 0 <= j < i ==> node_view(#[trigger] a@[j]) == node_view(b@[j]),
                {
                    proof {
                        assert(decreases_to!(a => a[i as int]));
                    }
                    if !a[i].equals(&b[i]) {
                        let ghost x = value_view(*self);
                        let ghost y = value_view(*other);
                        assert(x->Array_0[i as int] != y->Array_0[i as int]);
                        return false;
                    }
                }
                let ghost x = value_view(*self);
                let ghost y = value_view(*other);
                assert(x->Array_0 =~= y->Array_0);
                true
            },
            (JsonValue::JsonlRoot(a), JsonValue::JsonlRoot(b)) => {
                if a.len() != b.len() {
                    let ghost x = value_view(*self);
                    let ghost y = value_view(*other);
                    assert(x->JsonlRoot_0.len() != y->JsonlRoot_0.len());
                    return false;
                }
                let n = a.len();
                for i in 0..n
                    invariant
                        forall|j: int| 0 <= j < i ==> node_view(#[trigger] a@[j]) == node_view(b@[j]),
                {
                    proof {
                        assert(decreases_to!(a => a[i as int]));
                    }
                    if !a[i].equals(&b[i]) {
                        let ghost x = value_view(*self);
                        let ghost y = value_view(*other);
                        assert(x->JsonlRoot_0[i as int] != y->JsonlRoot_0[i as int]);
                        return false;
                    }
                }
                let ghost x = value_view(*self);
                let ghost y = value_view(*other);
                assert(x->JsonlRoot_0 =~= y->JsonlRoot_0);
                true
            },
            (JsonValue::String(a), JsonValue::String(b)) => *a == *b,
            (JsonValue::Number(a), JsonValue::Number(b)) => *a == *b,
            (JsonValue::Boolean(a), JsonValue::Boolean(b)) => *a == *b,
            (JsonValue::Null, JsonValue::Null) => true,
            _ => false,
        }
    }
}

impl JsonNode {
    /// Structural equality of two nodes, metadata included.
    pub fn equals(&self, other: &JsonNode) -> (res: bool)
        ensures
            res == (self@ == other@),
        decreases self,
    {
        let same_text = match (&self.metadata.original_text, &other.metadata.original_text) {
            (Some(a), Some(b)) => *a == *b,
            (None, None) => true,
            _ => false,
        };
        assert(same_text == (opt_string_view(self.metadata.original_text) == opt_string_view(
            other.metadata.original_text,
        )));
        let same_value = self.value.equals(&other.value);
        let res = self.metadata.modified == other.metadata.modified && same_text && same_value;
        assert(node_view(*self) == NodeModel {
            value: value_view(self.value),
            modified: self.metadata.modified,
            original_text: opt_string_view(self.metadata.original_text),
        });
        res
    }
}

impl PartialEq for JsonValue {
    fn eq(&self, other: &Self) -> (res: bool) {
        self.equals(other)
    }
}

impl vstd::std_specs::cmp::PartialEqSpecImpl for JsonValue {
    open spec fn obeys_eq_spec() -> bool {
        true
    }

    open spec fn eq_spec(&self, other: &Self) -> bool {
        self@ == other@
    }
}

impl PartialEq for JsonNode {
    fn eq(&self, other: &Self) -> (res: bool) {
        self.equals(other)
    }
}

impl vstd::std_specs::cmp::PartialEqSpecImpl for JsonNode {
    open spec fn obeys_eq_spec() -> bool {
        true
    }

    open spec fn eq_spec(&self, other: &Self) -> bool {
        self@ == other@
    }
}

impl Clone for JsonValue {
    fn clone(&self) -> (res: Self)
        ensures
            res@ == self@,
    {
        self.deep_copy()
    }
}

impl Clone for JsonNode {
    fn clone(&self) -> (res: Self)
        ensures
            res@ == self@,
    {
        self.deep_copy()
    }
}

} // verus!
