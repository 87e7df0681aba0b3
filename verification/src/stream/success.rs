//! The post-handshake activation step: answering `success` with a passive
//! activation request.

use vstd::prelude::*;
use crate::error::Error;
use crate::node::{Node, Value, ValueV};

verus! {

/// The shape of the activation reply: a `set`/`passive` request addressed
/// to the server, carrying an `active` marker and no id.
pub open spec fn spec_activation_reply(v: crate::node::NodeV) -> bool {
    &&& v.description == "iq"@
    &&& v.attributes.len() == 4
    &&& v.attributes[0] == ("id"@, ValueV::Null)
    &&& v.attributes[1] == ("type"@, ValueV::Text("set"@))
    &&& v.attributes[2] == ("to"@, ValueV::Text("s.whatsapp.net"@))
    &&& v.attributes[3] == ("xmlns"@, ValueV::Text("passive"@))
    &&& v.content matches ValueV::List(ns) && ns.len() == 1 && ns[0].description == "active"@
        && ns[0].attributes.len() == 0 && ns[0].content is Null
}

/// The activation reply to a `success` node.
pub fn handle_success() -> (r: Result<Node, Error>)
    ensures
        match r {
            Ok(reply) => spec_activation_reply(reply@),
            Err(_) => false,
        },
{
    let active = Node::from_attributes(String::from_str("active"), Vec::new());
    let mut children: Vec<Node> = Vec::new();
    children.push(active);
    let ghost cv = children@;
    let mut attributes: Vec<(String, Value)> = Vec::new();
    attributes.push((String::from_str("id"), Value::Null));
    attributes.push((String::from_str("type"), Value::Text(String::from_str("set"))));
    attributes.push(
        (String::from_str("to"), Value::Text(crate::jid::Server::Whatsapp.address().to_owned())),
    );
    attributes.push((String::from_str("xmlns"), Value::Text(String::from_str("passive"))));
    let ghost av = attributes@;
    let reply = Node::new(String::from_str("iq"), attributes, Value::List(children));
    proof {
        crate::node::lemma_attrs_view(av);
        crate::node::lemma_nodes_view(cv);
        assert(crate::node::spec_attrs_view(Seq::<(String, Value)>::empty())
            =~= Seq::<(Seq<char>, crate::node::ValueV)>::empty());
        assert(reply@.attributes == crate::node::spec_attrs_view(av));
        assert(reply@.content == ValueV::List(crate::node::spec_nodes_view(cv)));
        assert(reply@.attributes[0].0 == "id"@);
        assert(reply@.attributes[1].0 == "type"@);
        assert(reply@.attributes[2].0 == "to"@);
        assert(reply@.attributes[3].0 == "xmlns"@);
    }
    Ok(reply)
}

} // verus!
