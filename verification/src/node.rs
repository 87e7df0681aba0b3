//! The tagged binary tree unit of protocol communication: a description, a
//! map of attributes, and optional content.

use vstd::prelude::*;
use crate::error::Error;
use crate::jid::{ContactJid, JidV};
use crate::text::{spec_parse_u32, spec_all_digits, spec_digits_value, parse_u32};

verus! {

/// Mathematical form of a `Node`.
#[verifier::ext_equal]
pub struct NodeV {
    pub description: Seq<char>,
    pub attributes: Seq<(Seq<char>, ValueV)>,
    pub content: ValueV,
}

/// Mathematical form of a `Value`.
#[verifier::ext_equal]
pub enum ValueV {
    Null,
    Bool(bool),
    Text(Seq<char>),
    Bytes(Seq<u8>),
    List(Seq<NodeV>),
    Jid(JidV),
}

/// A tagged value: the shape attributes and content may take.
#[derive(Debug, PartialEq)]
pub enum Value {
    Null,
    Bool(bool),
    Text(String),
    Bytes(Vec<u8>),
    List(Vec<Node>),
    Jid(ContactJid),
}

#[derive(Debug, PartialEq)]
pub struct Node {
    pub description: String,
    pub attributes: Vec<(String, Value)>,
    pub content: Value,
}

pub open spec fn spec_value_view(v: Value) -> ValueV
    decreases v, 0int,
{
    match v {
        Value::Null => ValueV::Null,
        Value::Bool(b) => ValueV::Bool(b),
        Value::Text(s) => ValueV::Text(s@),
        Value::Bytes(b) => ValueV::Bytes(b@),
        Value::List(nodes) => ValueV::List(spec_nodes_view(nodes@)),
        Value::Jid(j) => ValueV::Jid(j@),
    }
}

pub open spec fn spec_nodes_view(ns: Seq<Node>) -> Seq<NodeV>
    decreases ns, ns.len(),
{
    if ns.len() == 0 {
        Seq::empty()
    } else {
        seq![spec_node_view(ns[0])] + spec_nodes_view(ns.drop_first())
    }
}

pub open spec fn spec_attrs_view(ats: Seq<(String, Value)>) -> Seq<(Seq<char>, ValueV)>
    decreases ats, ats.len(),
{
    if ats.len() == 0 {
        Seq::empty()
    } else {
        seq![(ats[0].0@, spec_value_view(ats[0].1))] + spec_attrs_view(ats.drop_first())
    }
}

pub open spec fn spec_node_view(n: Node) -> NodeV
    decreases n, 0int,
{
    NodeV {
        description: n.description@,
        attributes: spec_attrs_view(n.attributes@),
        content: spec_value_view(n.content),
    }
}

/// Indexing form of `spec_nodes_view`.
pub proof fn lemma_nodes_view(ns: Seq<Node>)
    ensures
        spec_nodes_view(ns).len() == ns.len(),
        forall|i: int| 0 <= i < ns.len() ==> spec_nodes_view(ns)[i] == spec_node_view(ns[i]),
    decreases ns.len(),
{
    if ns.len() > 0 {
        lemma_nodes_view(ns.drop_first());
    }
}

/// Indexing form of `spec_attrs_view`.
pub proof fn lemma_attrs_view(ats: Seq<(String, Value)>)
    ensures
        spec_attrs_view(ats).len() == ats.len(),
        forall|i: int| 0 <= i < ats.len() ==> spec_attrs_view(ats)[i] == (
            ats[i].0@,
            spec_value_view(ats[i].1),
        ),
    decreases ats.len(),
{
    if ats.len() > 0 {
        lemma_attrs_view(ats.drop_first());
    }
}

impl View for Value {
    type V = ValueV;

    open spec fn view(&self) -> ValueV {
        spec_value_view(*self)
    }
}

impl View for Node {
    type V = NodeV;

    open spec fn view(&self) -> NodeV {
        spec_node_view(*self)
    }
}

/// The size field a node carries on the wire: two slots for each attribute,
/// one for the content when present, one for the description.
pub open spec fn spec_node_size(n: NodeV) -> int {
    2 * n.attributes.len() + (if n.content is Null { 0int } else { 1int }) + 1
}

/// The value of the first attribute with the given key, if any.
pub open spec fn spec_attribute(attrs: Seq<(Seq<char>, ValueV)>, key: Seq<char>) -> Option<ValueV>
    decreases attrs.len(),
{
    if attrs.len() == 0 {
        None
    } else if attrs[0].0 == key {
        Some(attrs[0].1)
    } else {
        spec_attribute(attrs.drop_first(), key)
    }
}

/// The first node of the content list with the given description, if the
/// content is a list and such a node exists.
pub open spec fn spec_find_description(n: NodeV, d: Seq<char>) -> Option<NodeV> {
    match n.content {
        ValueV::List(nodes) => match spec_find_in(nodes, d) {
            Some(i) => Some(nodes[i]),
            None => None,
        },
        _ => None,
    }
}

pub open spec fn spec_find_in(nodes: Seq<NodeV>, d: Seq<char>) -> Option<int>
    decreases nodes.len(),
{
    if nodes.len() == 0 {
        None
    } else if nodes[0].description == d {
        Some(0int)
    } else {
        match spec_find_in(nodes.drop_first(), d) {
            Some(i) => Some(i + 1),
            None => None,
        }
    }
}

impl Node {
    /// A node with attributes and content.
    pub fn new(description: String, attributes: Vec<(String, Value)>, content: Value) -> (r: Node)
        ensures
            r@.description == description@,
            r@ == spec_node_view(Node { description, attributes, content }),
    {
        Node { description, attributes, content }
    }

    /// A node with attributes and no content.
    pub fn from_attributes(description: String, attributes: Vec<(String, Value)>) -> (r: Node)
        ensures
            r@ == spec_node_view(
                Node { description, attributes, content: Value::Null },
            ),
    {
        Node { description, attributes, content: Value::Null }
    }

    pub fn description(&self) -> (r: &str)
        ensures
            r@ == self@.description,
    {
        self.description.as_str()
    }

    /// The wire size field of this node.
    pub fn size(&self) -> (r: usize)
        requires
            2 * self.attributes@.len() + 2 <= usize::MAX,
        ensures
            r == spec_node_size(self@),
    {
        proof {
            lemma_attrs_view(self.attributes@);
        }
        let has: usize = if self.has_content() {
            1
        } else {
            0
        };
        2 * self.attributes.len() + has + 1
    }

    pub fn has_content(&self) -> (r: bool)
        ensures
            r == !(self@.content is Null),
    {
        !(matches!(self.content, Value::Null))
    }

    pub fn content_as_value(&self) -> (r: &Value)
        ensures
            r@ == self@.content,
    {
        &self.content
    }

    /// The nodes below this one, when the content is a list.
    pub fn children(&self) -> (r: Option<&Vec<Node>>)
        ensures
            match r {
                Some(nodes) => self@.content == ValueV::List(spec_nodes_view(nodes@)),
                None => !(self@.content is List),
            },
    {
        match &self.content {
            Value::List(nodes) => Some(nodes),
            _ => None,
        }
    }

    /// The raw bytes of the content, when the content is a byte blob.
    pub fn content_bytes(&self) -> (r: Option<&Vec<u8>>)
        ensures
            match r {
                Some(b) => self@.content == ValueV::Bytes(b@),
                None => !(self@.content is Bytes),
            },
    {
        match &self.content {
            Value::Bytes(b) => Some(b),
            _ => None,
        }
    }

    /// The text of the content, when the content is text.
    pub fn content_text(&self) -> (r: Option<&String>)
        ensures
            match r {
                Some(s) => self@.content == ValueV::Text(s@),
                None => !(self@.content is Text),
            },
    {
        match &self.content {
            Value::Text(s) => Some(s),
            _ => None,
        }
    }

    /// The value of the first attribute with the given key.
    pub fn attribute(&self, key: &str) -> (r: Option<&Value>)
        ensures
            match r {
                Some(v) => spec_attribute(self@.attributes, key@) == Some(v@),
                None => spec_attribute(self@.attributes, key@) is None,
            },
    {
        let n = self.attributes.len();
        let mut i: usize = 0;
        proof {
            lemma_attrs_view(self.attributes@);
            assert(self@.attributes.skip(0) =~= self@.attributes);
        }
        while i < n
            invariant
                i <= n,
                n == self.attributes@.len(),
                n == self@.attributes.len(),
                spec_attribute(self@.attributes, key@) == spec_attribute(
                    self@.attributes.skip(i as int),
                    key@,
                ),
            decreases n - i,
        {
            proof {
                lemma_attrs_view(self.attributes@);
                assert(self@.attributes.skip(i as int)[0] == self@.attributes[i as int]);
                assert(self@.attributes.skip(i as int).drop_first() =~= self@.attributes.skip(
                    i + 1,
                ));
            }
            if crate::text::str_eq(self.attributes[i].0.as_str(), key) {
                proof {
                    assert(self@.attributes[i as int].0 == key@);
                    assert(spec_attribute(self@.attributes.skip(i as int), key@) == Some(
                        self@.attributes[i as int].1,
                    ));
                }
                return Some(&self.attributes[i].1);
            }
            i += 1;
        }
        proof {
            assert(self@.attributes.skip(n as int).len() == 0);
        }
        None
    }

    /// The first node of the content list with the given description.
    pub fn find_description(&self, description: &str) -> (r: Option<&Node>)
        ensures
            match r {
                Some(node) => spec_find_description(self@, description@) == Some(node@),
                None => spec_find_description(self@, description@) is None,
            },
    {
        match &self.content {
            Value::List(nodes) => {
                let ghost nsv = spec_nodes_view(nodes@);
                proof {
                    lemma_nodes_view(nodes@);
                    assert(self@.content == ValueV::List(nsv));
                }
                let n = nodes.len();
                let mut i: usize = 0;
                while i < n
                    invariant
                        i <= n,
                        n == nodes@.len(),
                        nsv == spec_nodes_view(nodes@),
                        nsv.len() == n,
                        self@.content == ValueV::List(nsv),
                        forall|j: int| 0 <= j < i ==> nsv[j].description != description@,
                    decreases n - i,
                {
                    proof {
                        lemma_nodes_view(nodes@);
                    }
                    if crate::text::str_eq(nodes[i].description.as_str(), description) {
                        proof {
                            assert(nsv[i as int] == spec_node_view(nodes@[i as int]));
                            assert(nsv[i as int].description == description@);
                            lemma_find_in_at(nsv, description@, i as int);
                            assert(self@.content == ValueV::List(nsv));
                            assert(spec_find_description(self@, description@) == Some(
                                nsv[i as int],
                            ));
                        }
                        return Some(&nodes[i]);
                    }
                    i += 1;
                }
                proof {
                    lemma_find_in_none(nsv, description@);
                }
                None
            },
            _ => None,
        }
    }

    /// The numeric `code` attribute of a stream error node.
    pub fn error_code(&self) -> (r: Option<u32>)
        ensures
            match r {
                Some(code) => self@.description == "stream:error"@ && (spec_attribute(
                    self@.attributes,
                    "code"@,
                ) matches Some(ValueV::Text(t)) && spec_parse_u32(t) == Some(code)),
                None => !(self@.description == "stream:error"@ && (spec_attribute(
                    self@.attributes,
                    "code"@,
                ) matches Some(ValueV::Text(t)) && spec_parse_u32(t) is Some)),
            },
    {
        if !crate::text::str_eq(self.description.as_str(), "stream:error") {
            return None;
        }
        match self.attribute("code") {
            Some(Value::Text(t)) => match parse_u32(t.as_str()) {
                Ok(code) => Some(code),
                Err(_) => None,
            },
            _ => None,
        }
    }

    /// The companion identity held by a JID attribute value.
    pub fn parse_jid(jid: &Value) -> (r: Result<ContactJid, Error>)
        ensures
            match r {
                Ok(j) => jid@ == ValueV::Jid(j@),
                Err(e) => !(jid@ is Jid) && e == Error::IntoError,
            },
    {
        match jid {
            Value::Jid(j) => Ok(j.duplicate()),
            _ => Err(Error::IntoError),
        }
    }
}

proof fn lemma_find_in_at(nodes: Seq<NodeV>, d: Seq<char>, i: int)
    requires
        0 <= i < nodes.len(),
        nodes[i].description == d,
        forall|j: int| 0 <= j < i ==> nodes[j].description != d,
    ensures
        spec_find_in(nodes, d) == Some(i),
    decreases i,
{
    if i > 0 {
        assert(forall|j: int| 0 <= j < i - 1 ==> nodes.drop_first()[j] == nodes[j + 1]);
        lemma_find_in_at(nodes.drop_first(), d, i - 1);
    }
}

proof fn lemma_find_in_none(nodes: Seq<NodeV>, d: Seq<char>)
    requires
        forall|j: int| 0 <= j < nodes.len() ==> nodes[j].description != d,
    ensures
        spec_find_in(nodes, d) is None,
    decreases nodes.len(),
{
    if nodes.len() > 0 {
        assert(forall|j: int| 0 <= j < nodes.len() - 1 ==> nodes.drop_first()[j] == nodes[j + 1]);
        lemma_find_in_none(nodes.drop_first(), d);
    }
}

impl ContactJid {
    /// An identical copy of this identity.
    pub fn duplicate(&self) -> (r: ContactJid)
        ensures
            r@ == self@,
    {
        ContactJid {
            user: self.user.clone(),
            server: self.server,
            device: self.device,
            agent: self.agent,
        }
    }
}

} // verus!
