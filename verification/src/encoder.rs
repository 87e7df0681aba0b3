//! Tree encoder: turns a `Node` into the tagged binary form, choosing for
//! each literal string the shortest wire shape available — a single-byte
//! token, a dictionary word, a packed decimal or hex string, or raw UTF-8
//! behind a length tag.

use vstd::prelude::*;
use vstd::utf8::encode_utf8;
use crate::error::Error;
use crate::jid::{ContactJid, JidV, spec_server_addr};
use crate::node::{Node, NodeV, Value, ValueV, spec_node_size, lemma_attrs_view, lemma_nodes_view};
use crate::tokens::{TokenTables, spec_first_index};

verus! {

/// Wire code of a character in the packed decimal alphabet; 16 marks a
/// character outside it.
pub open spec fn spec_nibble_code(c: char) -> int {
    if '0' <= c <= '9' {
        c as int - 48
    } else if c == '-' {
        10
    } else if c == '.' {
        11
    } else {
        16
    }
}

/// Wire code of a character in the packed hex alphabet; 16 marks a character
/// outside it.
pub open spec fn spec_hex_code(c: char) -> int {
    if '0' <= c <= '9' {
        c as int - 48
    } else if 'A' <= c <= 'F' {
        c as int - 55
    } else {
        16
    }
}

pub open spec fn spec_pack_code(c: char, hex: bool) -> int {
    if hex {
        spec_hex_code(c)
    } else {
        spec_nibble_code(c)
    }
}

/// Whether every character of `s` lies in the packed alphabet.
pub open spec fn spec_all_packable(s: Seq<char>, hex: bool) -> bool {
    forall|i: int| 0 <= i < s.len() ==> spec_pack_code(#[trigger] s[i], hex) < 16
}

/// The packed body: two characters to a byte, high nibble first; an odd last
/// character keeps the low nibble at 15.
pub open spec fn spec_packed_body(s: Seq<char>, hex: bool) -> Seq<u8>
    decreases s.len(),
{
    if s.len() == 0 {
        Seq::empty()
    } else if s.len() == 1 {
        seq![(spec_pack_code(s[0], hex) * 16 + 15) as u8]
    } else {
        seq![(spec_pack_code(s[0], hex) * 16 + spec_pack_code(s[1], hex)) as u8]
            + spec_packed_body(s.skip(2), hex)
    }
}

/// A packed string: a length byte — the byte count, with the high bit set
/// when the character count is odd — then the packed body.
pub open spec fn spec_packed(s: Seq<char>, hex: bool) -> Seq<u8> {
    let half = (s.len() + 1) as int / 2;
    let lead: int = if s.len() % 2 == 1 {
        half + 128
    } else {
        half
    };
    seq![lead as u8] + spec_packed_body(s, hex)
}

/// The length field of a raw binary blob: one byte behind the 8-bit tag, or
/// a 20-bit big-endian field behind the 20-bit tag.
pub open spec fn spec_write_len(n: int) -> Seq<u8> {
    if n < 256 {
        seq![crate::tag::BINARY_EIGHT, n as u8]
    } else {
        seq![
            crate::tag::BINARY_TWENTY,
            (n / 0x10000) as u8,
            ((n / 0x100) % 0x100) as u8,
            (n % 0x100) as u8,
        ]
    }
}

/// The size field of a node or list: one byte behind the 8-bit list tag, or
/// two big-endian bytes behind the 16-bit list tag.
pub open spec fn spec_write_size(n: int) -> Seq<u8> {
    if n < 256 {
        seq![crate::tag::LIST_EIGHT, n as u8]
    } else {
        seq![crate::tag::LIST_SIXTEEN, (n / 0x100) as u8, (n % 0x100) as u8]
    }
}

/// The wire form of a literal string: the empty marker, a token byte, a
/// dictionary pair, a packed decimal or hex string, or a length-tagged raw
/// UTF-8 blob.
pub open spec fn spec_write_string(
    single: Seq<Seq<char>>,
    double: Seq<Seq<char>>,
    s: Seq<char>,
) -> Seq<u8> {
    if s.len() == 0 {
        seq![crate::tag::BINARY_EIGHT, 0u8]
    } else {
        match spec_first_index(single, s) {
            Some(i) => seq![(i + 1) as u8],
            None => match spec_first_index(double, s) {
                Some(i) => seq![(236 + i / 64) as u8, (i % 64) as u8],
                None => if s.len() < 128 && spec_all_packable(s, false) {
                    seq![crate::tag::NIBBLE_EIGHT] + spec_packed(s, false)
                } else if s.len() < 128 && spec_all_packable(s, true) {
                    seq![crate::tag::HEX_EIGHT] + spec_packed(s, true)
                } else {
                    spec_write_len(encode_utf8(s).len() as int) + encode_utf8(s)
                },
            },
        }
    }
}

/// Whether the encoder can write `s` at all: known token, or raw bytes that
/// fit the 20-bit length field.
pub open spec fn spec_string_writable(
    single: Seq<Seq<char>>,
    double: Seq<Seq<char>>,
    s: Seq<char>,
) -> bool {
    s.len() == 0 || spec_first_index(single, s) is Some || spec_first_index(double, s) is Some
        || encode_utf8(s).len() < 0x100000
}

/// The wire form of a JID: the companion triple, or a user/server pair.
pub open spec fn spec_write_jid(
    single: Seq<Seq<char>>,
    double: Seq<Seq<char>>,
    j: JidV,
) -> Seq<u8> {
    if j.device != 0 {
        seq![crate::tag::COMPANION_JID, j.agent as u8, j.device as u8] + spec_write_string(
            single,
            double,
            j.user,
        )
    } else {
        seq![crate::tag::JID_PAIR] + (if j.user.len() == 0 {
            seq![crate::tag::LIST_EMPTY]
        } else {
            spec_write_string(single, double, j.user)
        }) + spec_write_string(single, double, spec_server_addr(j.server))
    }
}

pub open spec fn spec_jid_writable(
    single: Seq<Seq<char>>,
    double: Seq<Seq<char>>,
    j: JidV,
) -> bool {
    &&& spec_string_writable(single, double, j.user)
    &&& (j.device != 0 ==> j.device < 256 && j.agent < 256)
}

/// The wire form of a node, or of the empty-node marker when its
/// description is the reserved `0`.
pub open spec fn spec_write_node_or_empty(
    single: Seq<Seq<char>>,
    double: Seq<Seq<char>>,
    n: NodeV,
) -> Seq<u8>
    decreases n, 0int, 2int,
{
    if n.description == "0"@ {
        seq![crate::tag::LIST_EIGHT, crate::tag::LIST_EMPTY]
    } else {
        spec_write_node(single, double, n)
    }
}

pub open spec fn spec_node_writable_or_empty(
    single: Seq<Seq<char>>,
    double: Seq<Seq<char>>,
    n: NodeV,
) -> bool
    decreases n, 0int, 2int,
{
    n.description == "0"@ || spec_node_writable(single, double, n)
}

/// The wire form of a value in attribute or content position.
pub open spec fn spec_write_value(
    single: Seq<Seq<char>>,
    double: Seq<Seq<char>>,
    v: ValueV,
) -> Seq<u8>
    decreases v, 0int, 0int,
{
    match v {
        ValueV::Null => seq![crate::tag::LIST_EMPTY],
        ValueV::Bool(b) => spec_write_string(
            single,
            double,
            if b {
                "true"@
            } else {
                "false"@
            },
        ),
        ValueV::Text(s) => spec_write_string(single, double, s),
        ValueV::Bytes(b) => spec_write_len(b.len() as int) + b,
        ValueV::List(ns) => spec_write_size(ns.len() as int) + spec_write_nodes(single, double, ns),
        ValueV::Jid(j) => spec_write_jid(single, double, j),
    }
}

pub open spec fn spec_write_nodes(
    single: Seq<Seq<char>>,
    double: Seq<Seq<char>>,
    ns: Seq<NodeV>,
) -> Seq<u8>
    decreases ns, ns.len(), 0int,
{
    if ns.len() == 0 {
        Seq::empty()
    } else {
        spec_write_node_or_empty(single, double, ns[0]) + spec_write_nodes(
            single,
            double,
            ns.drop_first(),
        )
    }
}

pub open spec fn spec_write_attrs(
    single: Seq<Seq<char>>,
    double: Seq<Seq<char>>,
    ats: Seq<(Seq<char>, ValueV)>,
) -> Seq<u8>
    decreases ats, ats.len(), 0int,
{
    if ats.len() == 0 {
        Seq::empty()
    } else {
        spec_write_string(single, double, ats[0].0) + spec_write_value(single, double, ats[0].1)
            + spec_write_attrs(single, double, ats.drop_first())
    }
}

/// The wire form of a whole node: size field, description, attribute pairs,
/// then the content when there is one.
pub open spec fn spec_write_node(single: Seq<Seq<char>>, double: Seq<Seq<char>>, n: NodeV) -> Seq<
    u8,
>
    decreases n, 0int, 1int,
{
    spec_write_size(spec_node_size(n)) + spec_write_string(single, double, n.description)
        + spec_write_attrs(single, double, n.attributes) + (if n.content is Null {
        Seq::<u8>::empty()
    } else {
        spec_write_value(single, double, n.content)
    })
}

/// Whether the encoder accepts a value.
pub open spec fn spec_value_writable(
    single: Seq<Seq<char>>,
    double: Seq<Seq<char>>,
    v: ValueV,
) -> bool
    decreases v, 0int, 0int,
{
    match v {
        ValueV::Null => true,
        ValueV::Bool(b) => true,
        ValueV::Text(s) => spec_string_writable(single, double, s),
        ValueV::Bytes(b) => b.len() < 0x100000,
        ValueV::List(ns) => ns.len() < 0x10000 && spec_nodes_writable(single, double, ns),
        ValueV::Jid(j) => spec_jid_writable(single, double, j),
    }
}

pub open spec fn spec_nodes_writable(
    single: Seq<Seq<char>>,
    double: Seq<Seq<char>>,
    ns: Seq<NodeV>,
) -> bool
    decreases ns, ns.len(), 0int,
{
    if ns.len() == 0 {
        true
    } else {
        spec_node_writable_or_empty(single, double, ns[0]) && spec_nodes_writable(
            single,
            double,
            ns.drop_first(),
        )
    }
}

pub open spec fn spec_attrs_writable(
    single: Seq<Seq<char>>,
    double: Seq<Seq<char>>,
    ats: Seq<(Seq<char>, ValueV)>,
) -> bool
    decreases ats, ats.len(), 0int,
{
    if ats.len() == 0 {
        true
    } else {
        spec_string_writable(single, double, ats[0].0) && spec_value_writable(
            single,
            double,
            ats[0].1,
        ) && spec_attrs_writable(single, double, ats.drop_first())
    }
}

/// Whether the encoder accepts a node: its size field and every string and
/// value in it fit their wire fields.
pub open spec fn spec_node_writable(
    single: Seq<Seq<char>>,
    double: Seq<Seq<char>>,
    n: NodeV,
) -> bool
    decreases n, 0int, 1int,
{
    &&& spec_node_size(n) < 0x10000
    &&& spec_string_writable(single, double, n.description)
    &&& spec_attrs_writable(single, double, n.attributes)
    &&& (n.content is Null || spec_value_writable(single, double, n.content))
}


pub struct NodeEncoder {
    pub buffer: Vec<u8>,
    pub tables: TokenTables,
}

impl NodeEncoder {
    /// An encoder with an empty buffer and the built-in token tables.
    pub fn new() -> (r: NodeEncoder)
        ensures
            r.buffer@ == Seq::<u8>::empty(),
            r.tables.wf(),
            r.tables.single.deep_view() == crate::tokens::spec_standard_single(),
            r.tables.double.deep_view() == crate::tokens::spec_standard_double(),
    {
        NodeEncoder { buffer: Vec::new(), tables: TokenTables::standard() }
    }

    /// Encodes one node against the built-in tables, prefixed with the
    /// reserved flag byte, which is zero for every outbound message: no
    /// dictionary switch, no compression. Succeeds exactly when every size,
    /// string and JID in the node fits its wire field.
    pub fn encode(node: &Node) -> (r: Result<Vec<u8>, Error>)
        ensures
            ({
                let sv = crate::tokens::spec_standard_single();
                let dv = crate::tokens::spec_standard_double();
                match r {
                    Ok(out) => spec_node_writable_or_empty(sv, dv, node@) && out@ == seq![0u8]
                        + spec_write_node_or_empty(sv, dv, node@),
                    Err(e) => !spec_node_writable_or_empty(sv, dv, node@),
                }
            }),
    {
        NodeEncoder::encode_with(TokenTables::standard(), node)
    }

    /// Encodes one node against the given token tables; a deployment
    /// carrying the full dictionaries supplies them here.
    pub fn encode_with(tables: TokenTables, node: &Node) -> (r: Result<Vec<u8>, Error>)
        requires
            tables.wf(),
        ensures
            ({
                let sv = tables.single.deep_view();
                let dv = tables.double.deep_view();
                match r {
                    Ok(out) => spec_node_writable_or_empty(sv, dv, node@) && out@ == seq![0u8]
                        + spec_write_node_or_empty(sv, dv, node@),
                    Err(e) => !spec_node_writable_or_empty(sv, dv, node@),
                }
            }),
    {
        let mut enc = NodeEncoder { buffer: Vec::new(), tables };
        enc.write_node(node)?;
        let mut out: Vec<u8> = Vec::new();
        out.push(0);
        push_all(&mut out, enc.buffer.as_slice());
        proof {
            assert(out@ =~= seq![0u8] + enc.buffer@);
        }
        Ok(out)
    }

    fn write_node(&mut self, node: &Node) -> (r: Result<(), Error>)
        requires
            old(self).tables.wf(),
        ensures
            final(self).tables == old(self).tables,
            match r {
                Ok(_) => spec_node_writable_or_empty(
                    old(self).tables.single.deep_view(),
                    old(self).tables.double.deep_view(),
                    node@,
                ) && final(self).buffer@ == old(self).buffer@ + spec_write_node_or_empty(
                    old(self).tables.single.deep_view(),
                    old(self).tables.double.deep_view(),
                    node@,
                ),
                Err(_) => !spec_node_writable_or_empty(
                    old(self).tables.single.deep_view(),
                    old(self).tables.double.deep_view(),
                    node@,
                ),
            },
        decreases node, 0int,
    {
        let ghost sv = self.tables.single.deep_view();
        let ghost dv = self.tables.double.deep_view();
        if crate::text::str_eq(node.description.as_str(), "0") {
            self.buffer.push(crate::tag::LIST_EIGHT);
            self.buffer.push(crate::tag::LIST_EMPTY);
            proof {
                assert(self.buffer@ =~= old(self).buffer@ + spec_write_node_or_empty(
                    sv,
                    dv,
                    node@,
                ));
            }
            return Ok(());
        }
        if node.attributes.len() >= 0x8000 {
            proof {
                crate::node::lemma_attrs_view(node.attributes@);
            }
            return Err(Error::NodeTooLarge);
        }
        let size = node.size();
        self.write_size(size)?;
        let ghost b1 = self.buffer@;
        self.write_string(node.description.as_str())?;
        let ghost b2 = self.buffer@;
        self.write_attributes(&node.attributes)?;
        let ghost b3 = self.buffer@;
        if node.has_content() {
            self.write_value(&node.content)?;
        }
        proof {
            assert(self.buffer@ =~= old(self).buffer@ + spec_write_node(sv, dv, node@));
        }
        Ok(())
    }

    fn write_value(&mut self, v: &Value) -> (r: Result<(), Error>)
        requires
            old(self).tables.wf(),
        ensures
            final(self).tables == old(self).tables,
            match r {
                Ok(_) => spec_value_writable(
                    old(self).tables.single.deep_view(),
                    old(self).tables.double.deep_view(),
                    v@,
                ) && final(self).buffer@ == old(self).buffer@ + spec_write_value(
                    old(self).tables.single.deep_view(),
                    old(self).tables.double.deep_view(),
                    v@,
                ),
                Err(_) => !spec_value_writable(
                    old(self).tables.single.deep_view(),
                    old(self).tables.double.deep_view(),
                    v@,
                ),
            },
        decreases v, 0int,
    {
        let ghost sv = self.tables.single.deep_view();
        let ghost dv = self.tables.double.deep_view();
        match v {
            Value::Null => {
                self.buffer.push(crate::tag::LIST_EMPTY);
                proof {
                    assert(self.buffer@ =~= old(self).buffer@ + spec_write_value(sv, dv, v@));
                }
                Ok(())
            },
            Value::Bool(b) => {
                proof {
                    lemma_bool_literal_writable(sv, dv);
                }
                if *b {
                    self.write_string("true")?;
                } else {
                    self.write_string("false")?;
                }
                Ok(())
            },
            Value::Text(s) => {
                self.write_string(s.as_str())?;
                Ok(())
            },
            Value::Bytes(b) => {
                self.write_len(b.len())?;
                let ghost mid = self.buffer@;
                push_all(&mut self.buffer, b.as_slice());
                proof {
                    assert(self.buffer@ =~= old(self).buffer@ + spec_write_value(sv, dv, v@));
                }
                Ok(())
            },
            Value::List(ns) => {
                proof {
                    lemma_nodes_view(ns@);
                }
                self.write_size(ns.len())?;
                self.write_list(ns)?;
                proof {
                    assert(self.buffer@ =~= old(self).buffer@ + spec_write_value(sv, dv, v@));
                }
                Ok(())
            },
            Value::Jid(j) => {
                self.write_jid(j)?;
                Ok(())
            },
        }
    }

    fn write_list(&mut self, ns: &Vec<Node>) -> (r: Result<(), Error>)
        requires
            old(self).tables.wf(),
        ensures
            final(self).tables == old(self).tables,
            match r {
                Ok(_) => spec_nodes_writable(
                    old(self).tables.single.deep_view(),
                    old(self).tables.double.deep_view(),
                    crate::node::spec_nodes_view(ns@),
                ) && final(self).buffer@ == old(self).buffer@ + spec_write_nodes(
                    old(self).tables.single.deep_view(),
                    old(self).tables.double.deep_view(),
                    crate::node::spec_nodes_view(ns@),
                ),
                Err(_) => !spec_nodes_writable(
                    old(self).tables.single.deep_view(),
                    old(self).tables.double.deep_view(),
                    crate::node::spec_nodes_view(ns@),
                ),
            },
        decreases ns, 0int,
    {
        let ghost sv = self.tables.single.deep_view();
        let ghost dv = self.tables.double.deep_view();
        let ghost nsv = crate::node::spec_nodes_view(ns@);
        proof {
            lemma_nodes_view(ns@);
            lemma_nodes_writable_index(sv, dv, nsv);
        }
        let n = ns.len();
        let mut i: usize = 0;
        while i < n
            invariant
                i <= n,
                n == ns@.len(),
                self.tables == old(self).tables,
                self.tables.wf(),
                sv == self.tables.single.deep_view(),
                dv == self.tables.double.deep_view(),
                nsv == crate::node::spec_nodes_view(ns@),
                nsv.len() == n,
                forall|k: int| 0 <= k < nsv.len() ==> nsv[k] == crate::node::spec_node_view(
                    ns@[k],
                ),
                spec_nodes_writable(sv, dv, nsv) <==> (forall|k: int|
                    0 <= k < nsv.len() ==> spec_node_writable_or_empty(sv, dv, #[trigger] nsv[k])),
                forall|k: int|
                    0 <= k < i ==> spec_node_writable_or_empty(sv, dv, #[trigger] nsv[k]),
                self.buffer@ == old(self).buffer@ + spec_write_nodes(sv, dv, nsv.take(i as int)),
            decreases n - i,
        {
            let ghost before = self.buffer@;
            let res = self.write_node(&ns[i]);
            if res.is_err() {
                let e = res.unwrap_err();
                proof {
                    assert(!spec_node_writable_or_empty(sv, dv, nsv[i as int]));
                }
                return Err(e);
            }
            proof {
                lemma_write_nodes_take_step(sv, dv, nsv, i as int);
            }
            i += 1;
        }
        proof {
            assert(nsv.take(n as int) =~= nsv);
        }
        Ok(())
    }

    fn write_attributes(&mut self, ats: &Vec<(String, Value)>) -> (r: Result<(), Error>)
        requires
            old(self).tables.wf(),
        ensures
            final(self).tables == old(self).tables,
            match r {
                Ok(_) => spec_attrs_writable(
                    old(self).tables.single.deep_view(),
                    old(self).tables.double.deep_view(),
                    crate::node::spec_attrs_view(ats@),
                ) && final(self).buffer@ == old(self).buffer@ + spec_write_attrs(
                    old(self).tables.single.deep_view(),
                    old(self).tables.double.deep_view(),
                    crate::node::spec_attrs_view(ats@),
                ),
                Err(_) => !spec_attrs_writable(
                    old(self).tables.single.deep_view(),
                    old(self).tables.double.deep_view(),
                    crate::node::spec_attrs_view(ats@),
                ),
            },
        decreases ats, 0int,
    {
        let ghost sv = self.tables.single.deep_view();
        let ghost dv = self.tables.double.deep_view();
        let ghost atv = crate::node::spec_attrs_view(ats@);
        proof {
            lemma_attrs_view(ats@);
            lemma_attrs_writable_index(sv, dv, atv);
        }
        let n = ats.len();
        let mut i: usize = 0;
        while i < n
            invariant
                i <= n,
                n == ats@.len(),
                self.tables == old(self).tables,
                self.tables.wf(),
                sv == self.tables.single.deep_view(),
                dv == self.tables.double.deep_view(),
                atv == crate::node::spec_attrs_view(ats@),
                atv.len() == n,
                forall|k: int| 0 <= k < atv.len() ==> atv[k] == (
                    ats@[k].0@,
                    crate::node::spec_value_view(ats@[k].1),
                ),
                spec_attrs_writable(sv, dv, atv) <==> (forall|k: int|
                    0 <= k < atv.len() ==> spec_string_writable(sv, dv, (#[trigger] atv[k]).0)
                        && spec_value_writable(sv, dv, atv[k].1)),
                forall|k: int|
                    0 <= k < i ==> spec_string_writable(sv, dv, (#[trigger] atv[k]).0)
                        && spec_value_writable(sv, dv, atv[k].1),
                self.buffer@ == old(self).buffer@ + spec_write_attrs(sv, dv, atv.take(i as int)),
            decreases n - i,
        {
            let res = self.write_string(ats[i].0.as_str());
            if res.is_err() {
                let e = res.unwrap_err();
                return Err(e);
            }
            let res2 = self.write_value(&ats[i].1);
            if res2.is_err() {
                let e = res2.unwrap_err();
                return Err(e);
            }
            proof {
                lemma_write_attrs_take_step(sv, dv, atv, i as int);
            }
            i += 1;
        }
        proof {
            assert(atv.take(n as int) =~= atv);
        }
        Ok(())
    }

    fn write_jid(&mut self, j: &ContactJid) -> (r: Result<(), Error>)
        requires
            old(self).tables.wf(),
        ensures
            final(self).tables == old(self).tables,
            match r {
                Ok(_) => spec_jid_writable(
                    old(self).tables.single.deep_view(),
                    old(self).tables.double.deep_view(),
                    j@,
                ) && final(self).buffer@ == old(self).buffer@ + spec_write_jid(
                    old(self).tables.single.deep_view(),
                    old(self).tables.double.deep_view(),
                    j@,
                ),
                Err(_) => !spec_jid_writable(
                    old(self).tables.single.deep_view(),
                    old(self).tables.double.deep_view(),
                    j@,
                ),
            },
    {
        let ghost sv = self.tables.single.deep_view();
        let ghost dv = self.tables.double.deep_view();
        if j.is_companion() {
            if j.agent > 255 || j.device > 255 {
                return Err(Error::JidOutOfRange);
            }
            self.buffer.push(crate::tag::COMPANION_JID);
            self.buffer.push(j.agent as u8);
            self.buffer.push(j.device as u8);
            self.write_string(j.user.as_str())?;
            proof {
                assert(self.buffer@ =~= old(self).buffer@ + spec_write_jid(sv, dv, j@));
            }
            Ok(())
        } else {
            self.buffer.push(crate::tag::JID_PAIR);
            if j.user.as_str().unicode_len() == 0 {
                self.buffer.push(crate::tag::LIST_EMPTY);
            } else {
                self.write_string(j.user.as_str())?;
            }
            let addr = j.server.address();
            proof {
                lemma_server_addr_writable(sv, dv, j.server);
            }
            self.write_string(addr)?;
            proof {
                assert(self.buffer@ =~= old(self).buffer@ + spec_write_jid(sv, dv, j@));
            }
            Ok(())
        }
    }

    fn write_string(&mut self, s: &str) -> (r: Result<(), Error>)
        requires
            old(self).tables.wf(),
        ensures
            final(self).tables == old(self).tables,
            match r {
                Ok(_) => spec_string_writable(
                    old(self).tables.single.deep_view(),
                    old(self).tables.double.deep_view(),
                    s@,
                ) && final(self).buffer@ == old(self).buffer@ + spec_write_string(
                    old(self).tables.single.deep_view(),
                    old(self).tables.double.deep_view(),
                    s@,
                ),
                Err(e) => !spec_string_writable(
                    old(self).tables.single.deep_view(),
                    old(self).tables.double.deep_view(),
                    s@,
                ) && e == Error::StringTooLong && final(self).buffer@ == old(self).buffer@,
            },
    {
        let ghost sv = self.tables.single.deep_view();
        let ghost dv = self.tables.double.deep_view();
        let len = s.unicode_len();
        if len == 0 {
            self.buffer.push(crate::tag::BINARY_EIGHT);
            self.buffer.push(0);
            proof {
                assert(self.buffer@ =~= old(self).buffer@ + spec_write_string(sv, dv, s@));
            }
            return Ok(());
        }
        if let Some(i) = self.tables.find_single(s) {
            proof {
                crate::tokens::lemma_first_index(sv, s@);
            }
            self.buffer.push((i + 1) as u8);
            proof {
                assert(self.buffer@ =~= old(self).buffer@ + spec_write_string(sv, dv, s@));
            }
            return Ok(());
        }
        if let Some(i) = self.tables.find_double(s) {
            proof {
                crate::tokens::lemma_first_index(dv, s@);
            }
            self.buffer.push((236 + i / 64) as u8);
            self.buffer.push((i % 64) as u8);
            proof {
                assert(self.buffer@ =~= old(self).buffer@ + spec_write_string(sv, dv, s@));
            }
            return Ok(());
        }
        if len < 128 {
            if check_packable(s, false) {
                self.buffer.push(crate::tag::NIBBLE_EIGHT);
                self.write_packed(s, false);
                proof {
                    lemma_packable_short(s@, false);
                    assert(self.buffer@ =~= old(self).buffer@ + spec_write_string(sv, dv, s@));
                }
                return Ok(());
            }
            if check_packable(s, true) {
                self.buffer.push(crate::tag::HEX_EIGHT);
                self.write_packed(s, true);
                proof {
                    lemma_packable_short(s@, true);
                    assert(self.buffer@ =~= old(self).buffer@ + spec_write_string(sv, dv, s@));
                }
                return Ok(());
            }
        }
        let bytes = s.as_bytes_vec();
        if bytes.len() >= 0x100000 {
            return Err(Error::StringTooLong);
        }
        self.write_len(bytes.len())?;
        push_all(&mut self.buffer, bytes.as_slice());
        proof {
            assert(self.buffer@ =~= old(self).buffer@ + spec_write_string(sv, dv, s@));
        }
        Ok(())
    }

    /// Writes the packed form of a short string whose characters all lie in
    /// the chosen packed alphabet.
    fn write_packed(&mut self, s: &str, hex: bool)
        requires
            1 <= s@.len() < 128,
            spec_all_packable(s@, hex),
        ensures
            final(self).tables == old(self).tables,
            final(self).buffer@ == old(self).buffer@ + spec_packed(s@, hex),
    {
        let len = s.unicode_len();
        let half = (len + 1) / 2;
        let lead: u8 = if len % 2 == 1 {
            (half + 128) as u8
        } else {
            half as u8
        };
        self.buffer.push(lead);
        let ghost start = self.buffer@;
        let mut i: usize = 0;
        while i + 1 < len
            invariant
                i <= len,
                i % 2 == 0,
                len == s@.len(),
                spec_all_packable(s@, hex),
                self.tables == old(self).tables,
                self.buffer@ == start + spec_packed_body(s@.take(i as int), hex),
            decreases len - i,
        {
            let c0 = pack_code(s.get_char(i), hex);
            let c1 = pack_code(s.get_char(i + 1), hex);
            self.buffer.push(c0 * 16 + c1);
            proof {
                let pre = s@.take(i as int);
                let nxt = s@.take(i + 2);
                assert(pre =~= nxt.take(pre.len() as int));
                lemma_packed_body_append(pre, nxt, hex);
                let pair = nxt.skip(i as int);
                assert(pair.len() == 2);
                assert(pair[0] == s@[i as int]);
                assert(pair[1] == s@[i as int + 1]);
                assert(pair.skip(2) =~= Seq::<char>::empty());
                assert(spec_packed_body(pair, hex) == seq![
                    (spec_pack_code(pair[0], hex) * 16 + spec_pack_code(pair[1], hex)) as u8,
                ] + spec_packed_body(pair.skip(2), hex));
                assert(spec_packed_body(Seq::<char>::empty(), hex) == Seq::<u8>::empty());
                assert(spec_packed_body(pair, hex) =~= seq![
                    (spec_pack_code(s@[i as int], hex) * 16 + spec_pack_code(
                        s@[i as int + 1],
                        hex,
                    )) as u8,
                ]);
                assert(self.buffer@ =~= start + spec_packed_body(nxt, hex));
            }
            i += 2;
        }
        if i < len {
            let c0 = pack_code(s.get_char(i), hex);
            self.buffer.push(c0 * 16 + 15);
            proof {
                let pre = s@.take(i as int);
                assert(pre =~= s@.take(len as int).take(pre.len() as int));
                lemma_packed_body_append(pre, s@.take(len as int), hex);
                let pair = s@.take(len as int).skip(i as int);
                assert(pair.len() == 1);
                assert(pair[0] == s@[i as int]);
                assert(spec_packed_body(pair, hex) =~= seq![
                    (spec_pack_code(s@[i as int], hex) * 16 + 15) as u8,
                ]);
                assert(s@.take(len as int) =~= s@);
                assert(self.buffer@ =~= old(self).buffer@ + spec_packed(s@, hex));
            }
        } else {
            proof {
                assert(s@.take(len as int) =~= s@);
            }
        }
    }

    fn write_size(&mut self, n: usize) -> (r: Result<(), Error>)
        ensures
            final(self).tables == old(self).tables,
            match r {
                Ok(_) => n < 0x10000 && final(self).buffer@ == old(self).buffer@ + spec_write_size(
                    n as int,
                ),
                Err(e) => n >= 0x10000 && e == Error::NodeTooLarge && final(self).buffer@ == old(self).buffer@,
            },
    {
        if n < 256 {
            self.buffer.push(crate::tag::LIST_EIGHT);
            self.buffer.push(n as u8);
            proof {
                assert(self.buffer@ =~= old(self).buffer@ + spec_write_size(n as int));
            }
            Ok(())
        } else if n < 0x10000 {
            self.buffer.push(crate::tag::LIST_SIXTEEN);
            self.buffer.push((n / 0x100) as u8);
            self.buffer.push((n % 0x100) as u8);
            proof {
                assert(self.buffer@ =~= old(self).buffer@ + spec_write_size(n as int));
            }
            Ok(())
        } else {
            Err(Error::NodeTooLarge)
        }
    }

    fn write_len(&mut self, n: usize) -> (r: Result<(), Error>)
        ensures
            final(self).tables == old(self).tables,
            match r {
                Ok(_) => n < 0x100000 && final(self).buffer@ == old(self).buffer@ + spec_write_len(
                    n as int,
                ),
                Err(e) => n >= 0x100000 && e == Error::StringTooLong && final(self).buffer@ == old(self).buffer@,
            },
    {
        if n < 256 {
            self.buffer.push(crate::tag::BINARY_EIGHT);
            self.buffer.push(n as u8);
            proof {
                assert(self.buffer@ =~= old(self).buffer@ + spec_write_len(n as int));
            }
            Ok(())
        } else if n < 0x100000 {
            self.buffer.push(crate::tag::BINARY_TWENTY);
            self.buffer.push((n / 0x10000) as u8);
            self.buffer.push(((n / 0x100) % 0x100) as u8);
            self.buffer.push((n % 0x100) as u8);
            proof {
                assert(self.buffer@ =~= old(self).buffer@ + spec_write_len(n as int));
            }
            Ok(())
        } else {
            Err(Error::StringTooLong)
        }
    }
}

/// Wire code of a character in a packed alphabet; 16 for one outside it.
pub fn pack_code(c: char, hex: bool) -> (r: u8)
    ensures
        r as int == spec_pack_code(c, hex),
{
    if c >= '0' && c <= '9' {
        ((c as u32) - 48) as u8
    } else if hex && c >= 'A' && c <= 'F' {
        ((c as u32) - 55) as u8
    } else if !hex && c == '-' {
        10
    } else if !hex && c == '.' {
        11
    } else {
        16
    }
}

/// Whether every character of `s` lies in the packed alphabet.
pub fn check_packable(s: &str, hex: bool) -> (r: bool)
    ensures
        r == spec_all_packable(s@, hex),
{
    let len = s.unicode_len();
    let mut i: usize = 0;
    while i < len
        invariant
            i <= len,
            len == s@.len(),
            forall|j: int| 0 <= j < i ==> spec_pack_code(#[trigger] s@[j], hex) < 16,
        decreases len - i,
    {
        if pack_code(s.get_char(i), hex) >= 16 {
            return false;
        }
        i += 1;
    }
    true
}

/// Splitting a packed body at an even boundary splits its bytes.
pub proof fn lemma_packed_body_append(a: Seq<char>, ab: Seq<char>, hex: bool)
    requires
        a.len() % 2 == 0,
        a.len() <= ab.len(),
        a == ab.take(a.len() as int),
    ensures
        spec_packed_body(ab, hex) == spec_packed_body(a, hex) + spec_packed_body(
            ab.skip(a.len() as int),
            hex,
        ),
    decreases a.len(),
{
    if a.len() == 0 {
        assert(ab.skip(0) =~= ab);
        assert(spec_packed_body(a, hex) + spec_packed_body(ab, hex) =~= spec_packed_body(
            ab,
            hex,
        ));
    } else {
        assert(a[0] == ab[0]);
        assert(a[1] == ab[1]);
        let a2 = a.skip(2);
        let ab2 = ab.skip(2);
        assert(a2 =~= ab2.take(a2.len() as int));
        assert(a2.len() % 2 == 0);
        lemma_packed_body_append(a2, ab2, hex);
        assert(ab2.skip(a2.len() as int) =~= ab.skip(a.len() as int));
        assert(spec_packed_body(ab, hex) =~= spec_packed_body(a, hex) + spec_packed_body(
            ab.skip(a.len() as int),
            hex,
        ));
    }
}

/// Element-wise reading of `spec_nodes_writable`.
pub proof fn lemma_nodes_writable_index(
    single: Seq<Seq<char>>,
    double: Seq<Seq<char>>,
    ns: Seq<NodeV>,
)
    ensures
        spec_nodes_writable(single, double, ns) <==> (forall|k: int|
            0 <= k < ns.len() ==> spec_node_writable_or_empty(single, double, #[trigger] ns[k])),
    decreases ns.len(),
{
    if ns.len() > 0 {
        lemma_nodes_writable_index(single, double, ns.drop_first());
        assert(forall|k: int| 1 <= k < ns.len() ==> ns.drop_first()[k - 1] == ns[k]);
    }
}

/// Element-wise reading of `spec_attrs_writable`.
pub proof fn lemma_attrs_writable_index(
    single: Seq<Seq<char>>,
    double: Seq<Seq<char>>,
    ats: Seq<(Seq<char>, ValueV)>,
)
    ensures
        spec_attrs_writable(single, double, ats) <==> (forall|k: int|
            0 <= k < ats.len() ==> spec_string_writable(single, double, (#[trigger] ats[k]).0)
                && spec_value_writable(single, double, ats[k].1)),
    decreases ats.len(),
{
    if ats.len() > 0 {
        lemma_attrs_writable_index(single, double, ats.drop_first());
        assert(forall|k: int| 1 <= k < ats.len() ==> ats.drop_first()[k - 1] == ats[k]);
    }
}

/// One more node extends the written prefix by that node's bytes.
pub proof fn lemma_write_nodes_take_step(
    single: Seq<Seq<char>>,
    double: Seq<Seq<char>>,
    ns: Seq<NodeV>,
    i: int,
)
    requires
        0 <= i < ns.len(),
    ensures
        spec_write_nodes(single, double, ns.take(i + 1)) == spec_write_nodes(
            single,
            double,
            ns.take(i),
        ) + spec_write_node_or_empty(single, double, ns[i]),
    decreases i,
{
    if i == 0 {
        assert(ns.take(1)[0] == ns[0]);
        assert(ns.take(1).drop_first() =~= ns.take(0));
        assert(spec_write_nodes(single, double, ns.take(0)) =~= Seq::<u8>::empty());
        assert(spec_write_nodes(single, double, ns.take(1)) =~= spec_write_node_or_empty(
            single,
            double,
            ns[0],
        ));
        assert(spec_write_nodes(single, double, ns.take(0)) + spec_write_node_or_empty(
            single,
            double,
            ns[0],
        ) =~= spec_write_node_or_empty(single, double, ns[0]));
    } else {
        lemma_write_nodes_take_step(single, double, ns.drop_first(), i - 1);
        assert(ns.take(i + 1)[0] == ns[0]);
        assert(ns.take(i + 1).drop_first() =~= ns.drop_first().take(i));
        assert(ns.take(i).drop_first() =~= ns.drop_first().take(i - 1));
        assert(ns.take(i)[0] == ns[0]);
        assert(ns.drop_first()[i - 1] == ns[i]);
        assert(spec_write_nodes(single, double, ns.take(i + 1)) =~= spec_write_nodes(
            single,
            double,
            ns.take(i),
        ) + spec_write_node_or_empty(single, double, ns[i]));
    }
}

/// One more attribute pair extends the written prefix by its bytes.
pub proof fn lemma_write_attrs_take_step(
    single: Seq<Seq<char>>,
    double: Seq<Seq<char>>,
    ats: Seq<(Seq<char>, ValueV)>,
    i: int,
)
    requires
        0 <= i < ats.len(),
    ensures
        spec_write_attrs(single, double, ats.take(i + 1)) == spec_write_attrs(
            single,
            double,
            ats.take(i),
        ) + spec_write_string(single, double, ats[i].0) + spec_write_value(
            single,
            double,
            ats[i].1,
        ),
    decreases i,
{
    if i == 0 {
        assert(ats.take(1)[0] == ats[0]);
        assert(ats.take(1).drop_first() =~= ats.take(0));
        assert(spec_write_attrs(single, double, ats.take(0)) =~= Seq::<u8>::empty());
        assert(spec_write_attrs(single, double, ats.take(1)) =~= spec_write_string(
            single,
            double,
            ats[0].0,
        ) + spec_write_value(single, double, ats[0].1));
        assert(spec_write_attrs(single, double, ats.take(0)) + spec_write_string(
            single,
            double,
            ats[0].0,
        ) + spec_write_value(single, double, ats[0].1) =~= spec_write_string(
            single,
            double,
            ats[0].0,
        ) + spec_write_value(single, double, ats[0].1));
    } else {
        lemma_write_attrs_take_step(single, double, ats.drop_first(), i - 1);
        assert(ats.take(i + 1)[0] == ats[0]);
        assert(ats.take(i + 1).drop_first() =~= ats.drop_first().take(i));
        assert(ats.take(i).drop_first() =~= ats.drop_first().take(i - 1));
        assert(ats.take(i)[0] == ats[0]);
        assert(ats.drop_first()[i - 1] == ats[i]);
        assert(spec_write_attrs(single, double, ats.take(i + 1)) =~= spec_write_attrs(
            single,
            double,
            ats.take(i),
        ) + spec_write_string(single, double, ats[i].0) + spec_write_value(
            single,
            double,
            ats[i].1,
        ));
    }
}

/// The textual server addresses are short ASCII strings, so the encoder
/// always accepts them.
pub proof fn lemma_server_addr_writable(
    single: Seq<Seq<char>>,
    double: Seq<Seq<char>>,
    srv: crate::jid::Server,
)
    ensures
        spec_string_writable(single, double, spec_server_addr(srv)),
{
    reveal_strlit("c.us");
    reveal_strlit("g.us");
    reveal_strlit("broadcast");
    reveal_strlit("call");
    reveal_strlit("s.whatsapp.net");
    reveal_strlit("");
    lemma_short_ascii_writable(single, double, spec_server_addr(srv));
}

/// The boolean literals are short ASCII strings, so the encoder always
/// accepts them.
pub proof fn lemma_bool_literal_writable(single: Seq<Seq<char>>, double: Seq<Seq<char>>)
    ensures
        spec_string_writable(single, double, "true"@),
        spec_string_writable(single, double, "false"@),
{
    reveal_strlit("true");
    reveal_strlit("false");
    lemma_short_ascii_writable(single, double, "true"@);
    lemma_short_ascii_writable(single, double, "false"@);
}

/// A packable string is ASCII, so its UTF-8 form is one byte per character.
pub proof fn lemma_packable_short(s: Seq<char>, hex: bool)
    requires
        s.len() < 128,
        spec_all_packable(s, hex),
    ensures
        encode_utf8(s).len() == s.len(),
        encode_utf8(s).len() < 0x100000,
{
    assert(forall|i: int| 0 <= i < s.len() ==> (#[trigger] s[i]) as int <= 127) by {
        assert(forall|i: int|
            0 <= i < s.len() ==> spec_pack_code(#[trigger] s[i], hex) < 16);
    }
    assert(vstd::utf8::is_ascii_chars(s));
    vstd::utf8::is_ascii_chars_encode_utf8(s);
}

/// A short ASCII string encodes to as many bytes as it has characters, which
/// fits the 20-bit length field.
pub proof fn lemma_short_ascii_writable(
    single: Seq<Seq<char>>,
    double: Seq<Seq<char>>,
    s: Seq<char>,
)
    requires
        s.len() < 0x100000,
        vstd::utf8::is_ascii_chars(s),
    ensures
        spec_string_writable(single, double, s),
{
    vstd::utf8::is_ascii_chars_encode_utf8(s);
}

/// Appends all of `data` to `buf`.
pub fn push_all(buf: &mut Vec<u8>, data: &[u8])
    ensures
        final(buf)@ == old(buf)@ + data@,
{
    let n = data.len();
    let mut i: usize = 0;
    while i < n
        invariant
            i <= n,
            n == data@.len(),
            buf@ == old(buf)@ + data@.subrange(0, i as int),
        decreases n - i,
    {
        buf.push(data[i]);
        proof {
            assert(buf@ =~= old(buf)@ + data@.subrange(0, i + 1));
        }
        i += 1;
    }
    proof {
        assert(buf@ =~= old(buf)@ + data@);
    }
}

} // verus!
