//! The pairing flow: composing the pairing string, confirming requests, and
//! checking the HMAC and signatures of the companion identity records.

use vstd::prelude::*;
use crate::adv::{spec_account_message, AdvIdentity, SignedDeviceIdentity};
use crate::credentials::Credentials;
use crate::error::Error;
use crate::jid::Server;
use crate::node::{spec_attribute, spec_find_description, Node, Value, ValueV};
use crate::security::{base64_encode, spec_base64};
use crate::security::hash::{mac_sha256, spec_hmac_sha256};
use crate::security::keypair::{spec_sig_valid, verify_signature};
use crate::session::Session;
use crate::session_store::SessionStore;
use crate::text::{spec_parse_u32, u32_to_string};

verus! {

/// Whether the pairing container carries a textual `ref` node.
pub open spec fn spec_has_ref_text(container: crate::node::NodeV) -> bool {
    spec_find_description(container, "ref"@) matches Some(rn) && rn.content is Text
}

/// The pairing string a container and the local public keys determine: the
/// reference text, then the three keys base64-encoded, comma-separated.
pub open spec fn spec_pairing_code_of(
    container: crate::node::NodeV,
    noise: Seq<u8>,
    identity: Seq<u8>,
    signing: Seq<u8>,
    code: Seq<char>,
) -> bool {
    spec_find_description(container, "ref"@) matches Some(rn) && rn.content matches ValueV::Text(
        t,
    ) && code == t + ","@ + spec_base64(noise) + ","@ + spec_base64(identity) + ","@
        + spec_base64(signing)
}

/// Whether a request carries a textual id attribute.
pub open spec fn spec_has_text_id(request: crate::node::NodeV) -> bool {
    spec_attribute(request.attributes, "id"@) matches Some(v) && v is Text
}

/// The shape of a confirmation: an `iq` of type `result` with the request's
/// id, addressed to the server, carrying the given content.
pub open spec fn spec_confirm_reply(
    request: crate::node::NodeV,
    content: ValueV,
    reply: crate::node::NodeV,
) -> bool {
    spec_attribute(request.attributes, "id"@) matches Some(ValueV::Text(id)) && ({
        &&& reply.description == "iq"@
        &&& reply.attributes.len() == 3
        &&& reply.attributes[0] == ("id"@, ValueV::Text(id))
        &&& reply.attributes[1] == ("type"@, ValueV::Text("result"@))
        &&& reply.attributes[2] == ("to"@, ValueV::Text("s.whatsapp.net"@))
        &&& reply.content == content
    })
}

pub struct Iq;

impl Iq {
    /// Composes the pairing string a QR code carries: the pairing reference
    /// from the request, then the noise, identity and signing public keys,
    /// each base64-encoded, all comma-separated.
    pub fn print(container: &Node, session: &Session) -> (r: Result<String, Error>)
        ensures
            match r {
                Ok(code) => spec_pairing_code_of(
                    container@,
                    session.credentials.noise_keypair.public@,
                    session.credentials.identity_keypair.public@,
                    session.credentials.signed_keypair.key_pair.public@,
                    code@,
                ),
                Err(e) => e == Error::IntoError && !spec_has_ref_text(container@),
            },
    {
        let reference = match container.find_description("ref") {
            Some(rn) => match rn.content_text() {
                Some(t) => t.clone(),
                None => {
                    return Err(Error::IntoError);
                },
            },
            None => {
                return Err(Error::IntoError);
            },
        };
        let noise = base64_encode(session.credentials.noise_keypair.public.as_slice());
        let identity = base64_encode(session.credentials.identity_keypair.public.as_slice());
        let companion = base64_encode(
            session.credentials.signed_keypair.key_pair.public.as_slice(),
        );
        let mut code = reference;
        code.append(",");
        code.append(noise.as_str());
        code.append(",");
        code.append(identity.as_str());
        code.append(",");
        code.append(companion.as_str());
        Ok(code)
    }

    /// The confirmation for a request: an `iq` of type `result` with the
    /// same id, addressed to the server, carrying the given content.
    pub fn send_confirm(node: &Node, content: Value) -> (r: Result<Node, Error>)
        ensures
            match r {
                Ok(reply) => spec_confirm_reply(node@, content@, reply@),
                Err(e) => e == Error::IntoError && !spec_has_text_id(node@),
            },
    {
        let id: String = match node.attribute("id") {
            Some(Value::Text(t)) => t.clone(),
            _ => {
                return Err(Error::IntoError);
            },
        };
        let mut attributes: Vec<(String, Value)> = Vec::new();
        attributes.push((String::from_str("id"), Value::Text(id)));
        attributes.push((String::from_str("type"), Value::Text(String::from_str("result"))));
        attributes.push(
            (String::from_str("to"), Value::Text(Server::Whatsapp.address().to_owned())),
        );
        let ghost av = attributes@;
        let ghost idv = match attributes[0].1 {
            Value::Text(ref t) => t@,
            _ => Seq::empty(),
        };
        let reply = Node::new(String::from_str("iq"), attributes, content);
        proof {
            crate::node::lemma_attrs_view(av);
            assert(reply@.attributes == crate::node::spec_attrs_view(av));
            assert(reply@.attributes[0].0 == "id"@);
            assert(reply@.attributes[1].0 == "type"@);
            assert(reply@.attributes[2].0 == "to"@);
        }
        Ok(reply)
    }

    /// Stores the companion address from the `device` node of a pairing
    /// success.
    pub fn save_companion(container: &Node, store: &mut SessionStore) -> (r: Result<(), Error>)
        ensures
            final(store).encode_key == old(store).encode_key,
            final(store).decode_key == old(store).decode_key,
            final(store).read_cnt == old(store).read_cnt,
            final(store).write_cnt == old(store).write_cnt,
            final(store).companion_identity == old(store).companion_identity,
            match r {
                Ok(_) => (spec_find_description(container@, "device"@) matches Some(dn)
                    && spec_attribute(dn.attributes, "jid"@) matches Some(ValueV::Jid(j)) && final(store).companion matches Some(c) && c@ == j),
                Err(e) => final(store).companion == old(store).companion && ({
                    ||| (e == Error::IqMissingDevice && spec_find_description(
                        container@,
                        "device"@,
                    ) is None)
                    ||| e == Error::IntoError
                }),
            },
    {
        let device = match container.find_description("device") {
            Some(d) => d,
            None => {
                return Err(Error::IqMissingDevice);
            },
        };
        let jid_value = match device.attribute("jid") {
            Some(v) => v,
            None => {
                return Err(Error::IntoError);
            },
        };
        let jid = Node::parse_jid(jid_value)?;
        store.companion = Some(jid);
        Ok(())
    }

    /// Checks the HMAC wrapped around a signed identity record against the
    /// local signing public key; a mismatch is a fatal signature error.
    pub fn check_hmac(signing_public: &[u8], details: &[u8], hmac: &[u8]) -> (r: Result<
        (),
        Error,
    >)
        ensures
            match r {
                Ok(_) => spec_hmac_sha256(signing_public@, details@) == hmac@,
                Err(e) => spec_hmac_sha256(signing_public@, details@) != hmac@ && e
                    == Error::IqInvalidSignature,
            },
    {
        let mac = mac_sha256(signing_public, details);
        if crate::text::bytes_eq(mac.as_slice(), hmac) {
            Ok(())
        } else {
            Err(Error::IqInvalidSignature)
        }
    }

    /// Verifies a pairing-success identity: the HMAC over the wrapped
    /// details under the local signing key, then the embedded account
    /// signature over the account message under the claimed signing key.
    /// Exactly one of: both checks pass; the HMAC mismatches; the claimed
    /// key or signature does not parse; or the signature does not verify.
    pub fn verify_companion(credentials: &Credentials, adv: &AdvIdentity) -> (r: Result<
        (),
        Error,
    >)
        ensures
            ({
                let hmac_ok = spec_hmac_sha256(
                    credentials.signed_keypair.key_pair.public@,
                    adv.hmac_details@,
                ) == adv.hmac@;
                let lens_ok = adv.account.account_signature_key@.len() == 32
                    && adv.account.account_signature@.len() == 64;
                let sig_ok = spec_sig_valid(
                    adv.account.account_signature_key@,
                    spec_account_message(
                        adv.account.details@,
                        credentials.identity_keypair.public@,
                    ),
                    adv.account.account_signature@,
                );
                match r {
                    Ok(_) => hmac_ok && lens_ok && sig_ok,
                    Err(e) => {
                        ||| (e == Error::IqInvalidSignature && !hmac_ok)
                        ||| (e == Error::IntoError && hmac_ok)
                        ||| (e == Error::IqInvalidMessageSignature && hmac_ok && lens_ok
                            && !sig_ok)
                    },
                }
            }),
    {
        Iq::check_hmac(
            credentials.signed_keypair.key_pair.public.as_slice(),
            adv.hmac_details.as_slice(),
            adv.hmac.as_slice(),
        )?;
        let message = adv.account.form_message(credentials);
        let valid = verify_signature(
            adv.account.account_signature_key.as_slice(),
            message.as_slice(),
            adv.account.account_signature.as_slice(),
        )?;
        if !valid {
            return Err(Error::IqInvalidMessageSignature);
        }
        Ok(())
    }

    /// The reply to a verified pairing success: a `pair-device-sign` node
    /// carrying the re-signed identity record with its account key
    /// stripped, under the request's id; the verified identity is
    /// persisted.
    pub fn pair_device_reply(
        node: &Node,
        key_index: u32,
        account: SignedDeviceIdentity,
        account_serialized: Vec<u8>,
        store: &mut SessionStore,
    ) -> (r: Result<Node, Error>)
        ensures
            final(store).encode_key == old(store).encode_key,
            final(store).decode_key == old(store).decode_key,
            final(store).read_cnt == old(store).read_cnt,
            final(store).write_cnt == old(store).write_cnt,
            final(store).companion == old(store).companion,
            match r {
                Ok(reply) => (final(store).companion_identity matches Some(ci) && ci.details@
                    == account.details@ && ci.device_signature@ == account.device_signature@) && (
                spec_attribute(node@.attributes, "id"@) matches Some(ValueV::Text(id)) && ({
                    &&& reply@.description == "iq"@
                    &&& reply@.attributes[0] == ("id"@, ValueV::Text(id))
                    &&& reply@.attributes[1] == ("type"@, ValueV::Text("result"@))
                    &&& reply@.content matches ValueV::List(outer) && outer.len() == 1 && ({
                        let sign_node = outer[0];
                        &&& sign_node.description == "pair-device-sign"@
                        &&& sign_node.attributes.len() == 0
                        &&& sign_node.content matches ValueV::List(inner) && inner.len() == 1 && ({
                            let identity_node = inner[0];
                            &&& identity_node.description == "device-identity"@
                            &&& identity_node.attributes.len() == 1
                            &&& identity_node.attributes[0].0 == "key-index"@
                            &&& (identity_node.attributes[0].1 matches ValueV::Text(t)
                                && spec_parse_u32(t) == Some(key_index))
                            &&& identity_node.content == ValueV::Bytes(account_serialized@)
                        })
                    })
                })),
                Err(e) => final(store).companion_identity == old(store).companion_identity && e
                    == Error::IntoError && !(spec_attribute(node@.attributes, "id"@) matches Some(
                    v,
                ) && v is Text),
            },
    {
        let mut identity_attrs: Vec<(String, Value)> = Vec::new();
        identity_attrs.push(
            (String::from_str("key-index"), Value::Text(u32_to_string(key_index))),
        );
        let ghost iav = identity_attrs@;
        let ghost serv = account_serialized@;
        let identity_node = Node::new(
            String::from_str("device-identity"),
            identity_attrs,
            Value::Bytes(account_serialized),
        );
        let ghost inv = identity_node@;
        proof {
            crate::node::lemma_attrs_view(iav);
            assert(inv.attributes.len() == 1);
            assert(inv.attributes[0].0 == "key-index"@);
            assert(inv.content == ValueV::Bytes(serv));
        }
        let mut inner: Vec<Node> = Vec::new();
        inner.push(identity_node);
        let ghost innerv = inner@;
        let sign_node = Node::new(
            String::from_str("pair-device-sign"),
            Vec::new(),
            Value::List(inner),
        );
        let ghost signv = sign_node@;
        proof {
            crate::node::lemma_nodes_view(innerv);
            crate::node::lemma_attrs_view(Seq::<(String, Value)>::empty());
            assert(signv.attributes.len() == 0);
            assert(signv.content matches ValueV::List(ns) && ns.len() == 1 && ns[0] == inv);
        }
        let mut outer: Vec<Node> = Vec::new();
        outer.push(sign_node);
        let ghost outerv = outer@;
        proof {
            crate::node::lemma_nodes_view(outerv);
        }
        let reply = Iq::send_confirm(node, Value::List(outer));
        match reply {
            Ok(reply) => {
                proof {
                    assert(reply@.content matches ValueV::List(os) && os.len() == 1 && os[0]
                        == signv);
                }
                store.companion_identity = Some(account);
                Ok(reply)
            },
            Err(e) => Err(e),
        }
    }
}

} // verus!
