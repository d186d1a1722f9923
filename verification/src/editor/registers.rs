//! Registers holding yanked nodes: an unnamed one, named ones (`a`–`z`,
//! letters compared without case) and ten numbered ones.
use vstd::prelude::*;
use std::collections::HashMap;
use crate::document::node::{JsonNode, NodeModel, nodes_model, opt_string_view};

verus! {

/// `c` with an ASCII upper-case letter made lower case
/// (`char::to_ascii_lowercase`).
pub open spec fn ascii_lower(c: char) -> char {
    if 'A' <= c <= 'Z' {
        ((c as u32) + 32) as char
    } else {
        c
    }
}

/// Exec form of `ascii_lower`.
pub fn to_ascii_lower(c: char) -> (res: char)
    ensures
        res == ascii_lower(c),
{
    if 'A' <= c && c <= 'Z' {
        let code = (c as u8) + 32;
        code as char
    } else {
        c
    }
}

/// The nodes held by a register, with the object key each came from.
#[derive(Debug)]
pub struct RegisterContent {
    pub nodes: Vec<JsonNode>,
    pub keys: Vec<Option<String>>,
}

/// The model of a register's content.
pub struct ContentModel {
    pub nodes: Seq<NodeModel>,
    pub keys: Seq<Option<Seq<char>>>,
}

/// The models of a sequence of optional keys.
pub open spec fn keys_model(v: Seq<Option<String>>) -> Seq<Option<Seq<char>>> {
    v.map_values(|k: Option<String>| opt_string_view(k))
}

impl View for RegisterContent {
    type V = ContentModel;

    open spec fn view(&self) -> ContentModel {
        ContentModel { nodes: nodes_model(self.nodes@), keys: keys_model(self.keys@) }
    }
}

fn copy_keys(keys: &Vec<Option<String>>) -> (res: Vec<Option<String>>)
    ensures
        keys_model(res@) == keys_model(keys@),
{
    let mut out: Vec<Option<String>> = Vec::new();
    let n = keys.len();
    for i in 0..n
        invariant
            n == keys@.len(),
            keys_model(out@) =~= keys_model(keys@).subrange(0, i as int),
    {
        let k = match &keys[i] {
            Some(s) => Some(s.clone()),
            None => None,
        };
        let ghost before = keys_model(out@);
        out.push(k);
        assert(keys_model(out@) =~= before.push(opt_string_view(keys@[i as int])));
        assert(keys_model(out@) =~= keys_model(keys@).subrange(0, i + 1));
    }
    assert(keys_model(keys@).subrange(0, n as int) =~= keys_model(keys@));
    out
}

fn copy_nodes(nodes: &Vec<JsonNode>) -> (res: Vec<JsonNode>)
    ensures
        nodes_model(res@) == nodes_model(nodes@),
{
    let mut out: Vec<JsonNode> = Vec::new();
    let n = nodes.len();
    for i in 0..n
        invariant
            n == nodes@.len(),
            nodes_model(out@) =~= nodes_model(nodes@).subrange(0, i as int),
    {
        let ghost before = nodes_model(out@);
        out.push(nodes[i].deep_copy());
        assert(nodes_model(out@) =~= before.push(nodes@[i as int]@));
        assert(nodes_model(out@) =~= nodes_model(nodes@).subrange(0, i + 1));
    }
    assert(nodes_model(nodes@).subrange(0, n as int) =~= nodes_model(nodes@));
    out
}

impl RegisterContent {
    /// Content holding `nodes`, with the keys `keys`.
    pub fn new(nodes: Vec<JsonNode>, keys: Vec<Option<String>>) -> (res: Self)
        ensures
            res@ == (ContentModel { nodes: nodes_model(nodes@), keys: keys_model(keys@) }),
    {
        Self { nodes, keys }
    }

    /// Whether the register holds no node.
    pub fn is_empty(&self) -> (res: bool)
        ensures
            res == (self@.nodes.len() == 0),
    {
        self.nodes.len() == 0
    }

    /// Structural equality of two contents.
    pub fn equals(&self, other: &RegisterContent) -> (res: bool)
        ensures
            res == (self@ == other@),
    {
        if self.nodes.len() != other.nodes.len() || self.keys.len() != other.keys.len() {
            assert(self@.nodes.len() != other@.nodes.len() || self@.keys.len() != other@.keys.len());
            return false;
        }
        let n = self.nodes.len();
        for i in 0..n
            invariant
                n == self.nodes@.len(),
                n == other.nodes@.len(),
                forall|j: int| 0 <= j < i ==> (#[trigger] self.nodes@[j])@ == other.nodes@[j]@,
        {
            if !self.nodes[i].equals(&other.nodes[i]) {
                assert(self@.nodes[i as int] != other@.nodes[i as int]);
                return false;
            }
        }
        let m = self.keys.len();
        for i in 0..m
            invariant
                m == self.keys@.len(),
                m == other.keys@.len(),
                forall|j: int| 0 <= j < i ==> opt_string_view(#[trigger] self.keys@[j]) == opt_string_view(other.keys@[j]),
        {
            let same = match (&self.keys[i], &other.keys[i]) {
                (Some(a), Some(b)) => *a == *b,
                (None, None) => true,
                _ => false,
            };
            if !same {
                assert(self@.keys[i as int] != other@.keys[i as int]);
                return false;
            }
        }
        assert(self@.nodes =~= other@.nodes);
        assert(self@.keys =~= other@.keys);
        true
    }
}

impl Clone for RegisterContent {
    fn clone(&self) -> (res: Self)
        ensures
            res@ == self@,
    {
        RegisterContent { nodes: copy_nodes(&self.nodes), keys: copy_keys(&self.keys) }
    }
}

impl PartialEq for RegisterContent {
    fn eq(&self, other: &Self) -> (res: bool) {
        self.equals(other)
    }
}

impl vstd::std_specs::cmp::PartialEqSpecImpl for RegisterContent {
    open spec fn obeys_eq_spec() -> bool {
        true
    }

    open spec fn eq_spec(&self, other: &Self) -> bool {
        self@ == other@
    }
}

/// The key under which the named register `r` is kept: the code of its
/// lower-case form.
pub open spec fn register_key(r: char) -> u32 {
    ascii_lower(r) as u32
}

/// The unnamed, named and numbered registers.
#[derive(Debug)]
pub struct RegisterSet {
    unnamed: RegisterContent,
    named: HashMap<u32, RegisterContent>,
    numbered: Vec<RegisterContent>,
}

impl RegisterSet {
    /// There are ten numbered registers.
    pub closed spec fn wf(&self) -> bool {
        self.numbered@.len() == 10
    }

    /// The unnamed register.
    pub closed spec fn unnamed_model(&self) -> ContentModel {
        self.unnamed@
    }

    /// The named registers, by key (see `register_key`).
    pub closed spec fn named_model(&self) -> Map<u32, ContentModel> {
        self.named@.map_values(|v: RegisterContent| v@)
    }

    /// The numbered register `i`.
    pub closed spec fn numbered_model(&self, i: int) -> ContentModel {
        self.numbered@[i]@
    }

    /// Every register empty.
    pub fn new() -> (res: Self)
        ensures
            res.wf(),
            res.unnamed_model().nodes.len() == 0,
            res.unnamed_model().keys.len() == 0,
            res.named_model() == Map::<u32, ContentModel>::empty(),
            forall|i: int| 0 <= i < 10 ==> #[trigger] res.numbered_model(i).nodes.len() == 0
                && res.numbered_model(i).keys.len() == 0,
    {
        let mut numbered: Vec<RegisterContent> = Vec::new();
        for i in 0..10usize
            invariant
                numbered@.len() == i,
                forall|j: int| 0 <= j < i ==> (#[trigger] numbered@[j])@.nodes.len() == 0
                    && numbered@[j]@.keys.len() == 0,
        {
            numbered.push(RegisterContent::new(Vec::new(), Vec::new()));
        }
        let res = Self { unnamed: RegisterContent::new(Vec::new(), Vec::new()), named: HashMap::new(), numbered };
        assert(res.named_model() =~= Map::<u32, ContentModel>::empty());
        res
    }

    /// The unnamed register.
    pub fn get_unnamed(&self) -> (res: &RegisterContent)
        ensures
            res@ == self.unnamed_model(),
    {
        &self.unnamed
    }

    /// Replaces the unnamed register.
    pub fn set_unnamed(&mut self, content: RegisterContent)
        ensures
            final(self).wf() == old(self).wf(),
            final(self).unnamed_model() == content@,
            final(self).named_model() == old(self).named_model(),
            forall|i: int| 0 <= i < 10 ==> #[trigger] final(self).numbered_model(i) == old(self).numbered_model(i),
    {
        self.unnamed = content;
    }

    /// The named register `register` (letters compared without case).
    pub fn get_named(&self, register: char) -> (res: Option<&RegisterContent>)
        ensures
            res is Some <==> self.named_model().contains_key(register_key(register)),
            res matches Some(r) ==> r@ == self.named_model()[register_key(register)],
    {
        let key = to_ascii_lower(register) as u32;
        self.named.get(&key)
    }

    /// Stores `content` in the named register `register` (letters compared
    /// without case).
    pub fn set_named(&mut self, register: char, content: RegisterContent)
        ensures
            final(self).wf() == old(self).wf(),
            final(self).named_model() == old(self).named_model().insert(register_key(register), content@),
            final(self).unnamed_model() == old(self).unnamed_model(),
            forall|i: int| 0 <= i < 10 ==> #[trigger] final(self).numbered_model(i) == old(self).numbered_model(i),
    {
        let key = to_ascii_lower(register) as u32;
        let ghost c = content@;
        self.named.insert(key, content);
        assert(self.named_model() =~= old(self).named_model().insert(register_key(register), c));
    }

    /// The numbered register `index` (0 to 9).
    pub fn get_numbered(&self, index: usize) -> (res: &RegisterContent)
        requires
            self.wf(),
            index < 10,
        ensures
            res@ == self.numbered_model(index as int),
    {
        &self.numbered[index]
    }

    /// Stores `content` in the numbered register `index` (0 to 9).
    pub fn set_numbered(&mut self, index: usize, content: RegisterContent)
        requires
            old(self).wf(),
            index < 10,
        ensures
            final(self).wf(),
            final(self).numbered_model(index as int) == content@,
            forall|i: int| 0 <= i < 10 && i != index ==> #[trigger] final(self).numbered_model(i) == old(self).numbered_model(i),
            final(self).unnamed_model() == old(self).unnamed_model(),
            final(self).named_model() == old(self).named_model(),
    {
        self.numbered.set(index, content);
    }
}

impl Default for RegisterSet {
    fn default() -> (res: Self)
        ensures
            res.wf(),
            res.unnamed_model().nodes.len() == 0,
            res.named_model() == Map::<u32, ContentModel>::empty(),
    {
        Self::new()
    }
}

/// A register read right after it was written gives back what was
/// written, whichever case its letter was written in; the other registers
/// keep what they held.
pub proof fn law_named_register_read_after_write(
    before: Map<u32, ContentModel>,
    after: Map<u32, ContentModel>,
    register: char,
    c: ContentModel,
)
    requires
        after == before.insert(register_key(register), c),
    ensures
        after.contains_key(register_key(register)) && after[register_key(register)] == c,
        'A' <= register <= 'Z' ==> after[register_key(((register as u32) + 32) as char)] == c,
        forall|k: u32| k != register_key(register) ==> #[trigger] after.contains_key(k) == before.contains_key(k)
            && (before.contains_key(k) ==> after[k] == before[k]),
{
}

} // verus!
