//! The connection's working state: credentials plus the symmetric session,
//! and the pipeline that turns nodes into encrypted frames and back.

use vstd::prelude::*;
use crate::codec::{decode_frame, encode_frame, spec_decode_frames, spec_encode_frame, MAX_FRAME_LEN};
use crate::credentials::Credentials;
use crate::decoder::NodeDecoder;
use crate::encoder::{spec_node_writable_or_empty, spec_write_node_or_empty, NodeEncoder};
use crate::error::Error;
use crate::node::Node;
use crate::security::spec_nonce;
use crate::security::aes::spec_aes_encrypt;
use crate::session_store::SessionStore;
use crate::tokens::{spec_standard_double, spec_standard_single};

verus! {

pub struct Session {
    pub store: SessionStore,
    pub credentials: Credentials,
}

pub struct NodeCodec;

pub enum CodecInput<'a> {
    Encode(Node),
    Decode(&'a [u8]),
}

pub enum TransposeOutput {
    Encoded(Vec<u8>),
    Decoded(Node),
}

/// The encrypted wire form of one node under a session key and counter.
pub open spec fn spec_encrypted_node(key: Seq<u8>, counter: u64, n: crate::node::NodeV) -> Seq<
    u8,
> {
    spec_aes_encrypt(
        key,
        spec_nonce(counter),
        Seq::empty(),
        seq![0u8] + spec_write_node_or_empty(spec_standard_single(), spec_standard_double(), n),
    )
}

/// The wire form of one outbound node before encryption: the flag byte and
/// the tree bytes.
pub open spec fn spec_node_wire(n: crate::node::NodeV) -> Seq<u8> {
    seq![0u8] + spec_write_node_or_empty(spec_standard_single(), spec_standard_double(), n)
}

/// What decoding one encrypted frame pins down: the frame decrypts under
/// the given key and counter, and whenever the plaintext is the wire form
/// of a node in the decodable set, the decoded node is that node.
pub open spec fn spec_frame_to_node(
    key: Seq<u8>,
    counter: u64,
    frame: Seq<u8>,
    node: crate::node::NodeV,
) -> bool {
    crate::security::aes::spec_aes_decrypt(key, spec_nonce(counter), Seq::empty(), frame)
        matches Some(pt) && (forall|v: crate::node::NodeV|
        #![trigger crate::encoder::spec_write_node(
            spec_standard_single(),
            spec_standard_double(),
            v,
        )]
        (crate::decoder::spec_node_decodable(spec_standard_single(), spec_standard_double(), v)
            && pt == seq![0u8] + crate::encoder::spec_write_node(
            spec_standard_single(),
            spec_standard_double(),
            v,
        )) ==> node == v)
}

impl NodeCodec {
    /// Turns a node into its encrypted wire bytes, or encrypted wire bytes
    /// back into a node, stepping the matching counter of the store.
    pub fn transpose(store: &mut SessionStore, codec: CodecInput<'_>) -> (r: Result<
        TransposeOutput,
        Error,
    >)
        requires
            old(store).wf(),
            old(store).write_cnt < u64::MAX,
            old(store).read_cnt < u64::MAX,
        ensures
            final(store).wf(),
            final(store).encode_key == old(store).encode_key,
            final(store).decode_key == old(store).decode_key,
            final(store).companion == old(store).companion,
            final(store).companion_identity == old(store).companion_identity,
            match codec {
                CodecInput::Encode(node) => final(store).read_cnt == old(store).read_cnt && (
                match r {
                    Ok(out) => ({
                        &&& out matches TransposeOutput::Encoded(ct)
                        &&& spec_node_writable_or_empty(
                            spec_standard_single(),
                            spec_standard_double(),
                            node@,
                        )
                        &&& ct@ == spec_encrypted_node(
                            old(store).encode_key@,
                            old(store).write_cnt,
                            node@,
                        )
                        &&& ct@.len() == spec_node_wire(node@).len() + 16
                        &&& spec_node_wire(node@).len() <= crate::security::aes::AEAD_P_MAX
                        &&& final(store).write_cnt == old(store).write_cnt + 1
                    }),
                    Err(e) => !spec_node_writable_or_empty(
                        spec_standard_single(),
                        spec_standard_double(),
                        node@,
                    ) || spec_node_wire(node@).len() > crate::security::aes::AEAD_P_MAX,
                }),
                CodecInput::Decode(binary) => final(store).write_cnt == old(store).write_cnt
                    && final(store).read_cnt == old(store).read_cnt + 1 && (r matches Ok(out)
                    ==> (out matches TransposeOutput::Decoded(node) && spec_frame_to_node(
                    old(store).decode_key@,
                    old(store).read_cnt,
                    binary@,
                    node@,
                ))) && (r matches Err(e) ==> crate::error::spec_frame_error(e) && (e
                    == Error::AesCipherFail <==> crate::security::aes::spec_aes_decrypt(
                    old(store).decode_key@,
                    spec_nonce(old(store).read_cnt),
                    Seq::empty(),
                    binary@,
                ) is None)),
            },
    {
        match codec {
            CodecInput::Encode(node) => {
                let encoded = NodeEncoder::encode(&node)?;
                let ct = store.encrypt(encoded.as_slice())?;
                proof {
                    assert(encoded@ == spec_node_wire(node@));
                }
                Ok(TransposeOutput::Encoded(ct))
            },
            CodecInput::Decode(binary) => {
                let decrypted = store.decrypt(binary)?;
                let node = NodeDecoder::decode(decrypted.as_slice())?;
                Ok(TransposeOutput::Decoded(node))
            },
        }
    }
}

impl Session {
    /// A session with fresh credentials and a zeroed store.
    pub fn new() -> (r: Session)
        ensures
            r.store.wf(),
            r.credentials.wf(),
            r.store.read_cnt == 0,
            r.store.write_cnt == 0,
            r.store.companion is None,
            r.store.companion_identity is None,
    {
        Session { store: SessionStore::new(), credentials: Credentials::default() }
    }

    /// Encodes, encrypts and frames one outbound node.
    pub fn encode(&mut self, intro: bool, node: &Node) -> (r: Result<Vec<u8>, Error>)
        requires
            old(self).store.wf(),
            old(self).store.write_cnt < u64::MAX,
            old(self).store.read_cnt < u64::MAX,
        ensures
            final(self).store.wf(),
            final(self).credentials == old(self).credentials,
            final(self).store.encode_key == old(self).store.encode_key,
            final(self).store.decode_key == old(self).store.decode_key,
            final(self).store.read_cnt == old(self).store.read_cnt,
            final(self).store.companion == old(self).store.companion,
            final(self).store.companion_identity == old(self).store.companion_identity,
            match r {
                Ok(out) => ({
                    let ct = spec_encrypted_node(
                        old(self).store.encode_key@,
                        old(self).store.write_cnt,
                        node@,
                    );
                    &&& spec_node_writable_or_empty(
                        spec_standard_single(),
                        spec_standard_double(),
                        node@,
                    )
                    &&& ct.len() <= MAX_FRAME_LEN
                    &&& out@ == spec_encode_frame(intro, ct)
                    &&& final(self).store.write_cnt == old(self).store.write_cnt + 1
                }),
                Err(e) => {
                    ||| !spec_node_writable_or_empty(
                        spec_standard_single(),
                        spec_standard_double(),
                        node@,
                    )
                    ||| spec_node_wire(node@).len() > crate::security::aes::AEAD_P_MAX
                    ||| spec_node_wire(node@).len() + 16 > MAX_FRAME_LEN
                },
            },
    {
        let ct = match NodeCodec::transpose(&mut self.store, CodecInput::Encode(duplicate_node_in(node))) {
            Ok(TransposeOutput::Encoded(ct)) => ct,
            Ok(TransposeOutput::Decoded(_)) => {
                return Err(Error::EncodeNodeError);
            },
            Err(e) => {
                return Err(e);
            },
        };
        match encode_frame(intro, ct.as_slice()) {
            Ok(out) => Ok(out),
            Err(_) => Err(Error::EncodeNodeError),
        }
    }

    /// Frames one outbound binary payload.
    pub fn encode_binary(&self, intro: bool, input: &[u8]) -> (r: Result<Vec<u8>, Error>)
        ensures
            match r {
                Ok(out) => input@.len() <= MAX_FRAME_LEN && out@ == spec_encode_frame(
                    intro,
                    input@,
                ),
                Err(e) => input@.len() > MAX_FRAME_LEN && e == Error::EncodeBinaryError,
            },
    {
        match encode_frame(intro, input) {
            Ok(out) => Ok(out),
            Err(_) => Err(Error::EncodeBinaryError),
        }
    }

    /// Splits a received buffer into its framed payloads.
    pub fn decode_binary(&self, input: &[u8]) -> (r: Vec<Vec<u8>>)
        ensures
            r.deep_view() == spec_decode_frames(input@),
    {
        decode_frame(input)
    }

    /// Decrypts and decodes every node framed in a received buffer; the
    /// receive counter steps once per frame.
    pub fn decode(&mut self, payload: &[u8]) -> (r: Result<Vec<Node>, Error>)
        requires
            old(self).store.wf(),
            old(self).store.read_cnt + spec_decode_frames(payload@).len() < u64::MAX,
            old(self).store.write_cnt < u64::MAX,
        ensures
            final(self).store.wf(),
            final(self).credentials == old(self).credentials,
            final(self).store.encode_key == old(self).store.encode_key,
            final(self).store.decode_key == old(self).store.decode_key,
            final(self).store.write_cnt == old(self).store.write_cnt,
            final(self).store.companion == old(self).store.companion,
            final(self).store.companion_identity == old(self).store.companion_identity,
            match r {
                Ok(nodes) => nodes@.len() == spec_decode_frames(payload@).len() && final(self).store.read_cnt == old(self).store.read_cnt + spec_decode_frames(payload@).len()
                    && (forall|i: int|
                    #![trigger nodes@[i]]
                    0 <= i < nodes@.len() ==> spec_frame_to_node(
                        old(self).store.decode_key@,
                        (old(self).store.read_cnt + i) as u64,
                        spec_decode_frames(payload@)[i],
                        nodes@[i]@,
                    )),
                Err(e) => crate::error::spec_frame_error(e),
            },
    {
        let decoded = decode_frame(payload);
        let ghost frames = spec_decode_frames(payload@);
        let mut nodes: Vec<Node> = Vec::new();
        let count = decoded.len();
        let mut i: usize = 0;
        while i < count
            invariant
                i <= count,
                count == frames.len(),
                frames == spec_decode_frames(payload@),
                decoded.deep_view() == frames,
                decoded@.len() == count,
                self.store.wf(),
                self.credentials == old(self).credentials,
                self.store.encode_key == old(self).store.encode_key,
                self.store.decode_key == old(self).store.decode_key,
                self.store.write_cnt == old(self).store.write_cnt,
                self.store.companion == old(self).store.companion,
                self.store.companion_identity == old(self).store.companion_identity,
                self.store.read_cnt == old(self).store.read_cnt + i,
                old(self).store.read_cnt + frames.len() < u64::MAX,
                old(self).store.write_cnt < u64::MAX,
                nodes@.len() == i,
                forall|k: int|
                    #![trigger nodes@[k]]
                    0 <= k < i ==> spec_frame_to_node(
                        old(self).store.decode_key@,
                        (old(self).store.read_cnt + k) as u64,
                        frames[k],
                        nodes@[k]@,
                    ),
            decreases count - i,
        {
            let segment = &decoded[i];
            proof {
                assert(decoded.deep_view()[i as int] == decoded@[i as int].deep_view());
                assert(segment@ =~= frames[i as int]);
            }
            match NodeCodec::transpose(&mut self.store, CodecInput::Decode(segment.as_slice())) {
                Ok(TransposeOutput::Decoded(node)) => {
                    let ghost nodes_before = nodes@;
                    nodes.push(node);
                    proof {
                        assert(forall|k: int| 0 <= k < i ==> nodes@[k] == nodes_before[k]);
                        assert(nodes@[i as int] == node);
                    }
                },
                Ok(TransposeOutput::Encoded(_)) => {
                    return Err(Error::UnknownNode);
                },
                Err(e) => {
                    return Err(e);
                },
            }
            i += 1;
        }
        Ok(nodes)
    }
}

/// An identical copy of a node, by structural recursion.
pub fn duplicate_node_in(node: &Node) -> (r: Node)
    ensures
        r@ == node@,
    decreases node,
{
    Node {
        description: node.description.clone(),
        attributes: duplicate_attrs(&node.attributes),
        content: duplicate_value(&node.content),
    }
}

/// An identical copy of a value.
pub fn duplicate_value(v: &crate::node::Value) -> (r: crate::node::Value)
    ensures
        r@ == v@,
    decreases v,
{
    match v {
        crate::node::Value::Null => crate::node::Value::Null,
        crate::node::Value::Bool(b) => crate::node::Value::Bool(*b),
        crate::node::Value::Text(s) => crate::node::Value::Text(s.clone()),
        crate::node::Value::Bytes(b) => crate::node::Value::Bytes(crate::clone_bytes(b)),
        crate::node::Value::List(ns) => crate::node::Value::List(duplicate_nodes(ns)),
        crate::node::Value::Jid(j) => crate::node::Value::Jid(j.duplicate()),
    }
}

/// An identical copy of a node list.
pub fn duplicate_nodes(ns: &Vec<Node>) -> (r: Vec<Node>)
    ensures
        crate::node::spec_nodes_view(r@) == crate::node::spec_nodes_view(ns@),
        r@.len() == ns@.len(),
    decreases ns,
{
    let mut out: Vec<Node> = Vec::new();
    let n = ns.len();
    let mut i: usize = 0;
    while i < n
        invariant
            i <= n,
            n == ns@.len(),
            out@.len() == i,
            forall|k: int|
                0 <= k < i ==> crate::node::spec_node_view(#[trigger] out@[k])
                    == crate::node::spec_node_view(ns@[k]),
        decreases n - i,
    {
        out.push(duplicate_node_in(&ns[i]));
        i += 1;
    }
    proof {
        crate::node::lemma_nodes_view(out@);
        crate::node::lemma_nodes_view(ns@);
        assert(crate::node::spec_nodes_view(out@) =~= crate::node::spec_nodes_view(ns@));
    }
    out
}

/// An identical copy of an attribute list.
pub fn duplicate_attrs(ats: &Vec<(String, crate::node::Value)>) -> (r: Vec<
    (String, crate::node::Value),
>)
    ensures
        crate::node::spec_attrs_view(r@) == crate::node::spec_attrs_view(ats@),
        r@.len() == ats@.len(),
    decreases ats,
{
    let mut out: Vec<(String, crate::node::Value)> = Vec::new();
    let n = ats.len();
    let mut i: usize = 0;
    while i < n
        invariant
            i <= n,
            n == ats@.len(),
            out@.len() == i,
            forall|k: int|
                0 <= k < i ==> (#[trigger] out@[k]).0@ == ats@[k].0@ && crate::node::spec_value_view(
                    out@[k].1,
                ) == crate::node::spec_value_view(ats@[k].1),
        decreases n - i,
    {
        out.push((ats[i].0.clone(), duplicate_value(&ats[i].1)));
        i += 1;
    }
    proof {
        crate::node::lemma_attrs_view(out@);
        crate::node::lemma_attrs_view(ats@);
        assert(crate::node::spec_attrs_view(out@) =~= crate::node::spec_attrs_view(ats@));
    }
    out
}

} // verus!
