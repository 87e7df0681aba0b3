//! The media connection record a `media_conn` node carries.

use vstd::prelude::*;
use crate::error::Error;
use crate::node::{spec_attribute, spec_find_description, Node, Value, ValueV};
use crate::text::{parse_u32, spec_parse_u32};

verus! {

/// Whether a node carries a well-formed `media_conn` child: a textual
/// `auth` and parseable `ttl` and `max_buckets` numbers.
pub open spec fn spec_media_conn_ok(n: crate::node::NodeV) -> bool {
    spec_find_description(n, "media_conn"@) matches Some(conn) && ({
        &&& spec_attribute(conn.attributes, "auth"@) matches Some(v) && v is Text
        &&& (spec_attribute(conn.attributes, "ttl"@) matches Some(ValueV::Text(t))
            && spec_parse_u32(t) is Some)
        &&& (spec_attribute(conn.attributes, "max_buckets"@) matches Some(ValueV::Text(b))
            && spec_parse_u32(b) is Some)
    })
}

pub struct MediaConnection {
    pub auth: String,
    pub ttl: i64,
    pub max_buckets: u64,
    pub timestamp: u128,
    pub hosts: Vec<String>,
}

impl MediaConnection {
    pub fn new(auth: String, ttl: i64, max_buckets: u64, timestamp: u128, hosts: Vec<String>) -> (r:
        MediaConnection)
        ensures
            r.auth == auth,
            r.ttl == ttl,
            r.max_buckets == max_buckets,
            r.timestamp == timestamp,
            r.hosts == hosts,
    {
        MediaConnection { auth, ttl, max_buckets, timestamp, hosts }
    }

    /// Reads the record out of a node holding a `media_conn` child; the
    /// caller supplies the clock reading, which is not the node's to give.
    /// Fails exactly when the child or one of its numeric attributes is
    /// missing or malformed.
    pub fn from_node(node: &Node, timestamp: u128) -> (r: Result<MediaConnection, Error>)
        ensures
            match r {
                Ok(mc) => spec_media_conn_ok(node@) && (spec_find_description(
                    node@,
                    "media_conn"@,
                ) matches Some(conn) && ({
                    &&& spec_attribute(conn.attributes, "auth"@) == Some(ValueV::Text(mc.auth@))
                    &&& (spec_attribute(conn.attributes, "ttl"@) matches Some(ValueV::Text(t))
                        && spec_parse_u32(t) == Some(mc.ttl as u32))
                    &&& (spec_attribute(conn.attributes, "max_buckets"@) matches Some(
                        ValueV::Text(b),
                    ) && spec_parse_u32(b) == Some(mc.max_buckets as u32))
                    &&& mc.timestamp == timestamp
                })),
                Err(e) => e == Error::IntoError && !spec_media_conn_ok(node@),
            },
    {
        let conn = match node.find_description("media_conn") {
            Some(c) => c,
            None => {
                return Err(Error::IntoError);
            },
        };
        let auth: String = match conn.attribute("auth") {
            Some(Value::Text(t)) => t.clone(),
            _ => {
                return Err(Error::IntoError);
            },
        };
        let ttl: u32 = match conn.attribute("ttl") {
            Some(Value::Text(t)) => match parse_u32(t.as_str()) {
                Ok(v) => v,
                Err(_) => {
                    return Err(Error::IntoError);
                },
            },
            _ => {
                return Err(Error::IntoError);
            },
        };
        let max_buckets: u32 = match conn.attribute("max_buckets") {
            Some(Value::Text(t)) => match parse_u32(t.as_str()) {
                Ok(v) => v,
                Err(_) => {
                    return Err(Error::IntoError);
                },
            },
            _ => {
                return Err(Error::IntoError);
            },
        };
        let mut hosts: Vec<String> = Vec::new();
        match conn.children() {
            Some(children) => {
                let n = children.len();
                let mut i: usize = 0;
                while i < n
                    invariant
                        i <= n,
                        n == children@.len(),
                    decreases n - i,
                {
                    match children[i].attribute("hostname") {
                        Some(Value::Text(t)) => {
                            hosts.push(t.clone());
                        },
                        _ => {
                        },
                    }
                    i += 1;
                }
            },
            None => {
            },
        }
        Ok(MediaConnection {
            auth,
            ttl: ttl as i64,
            max_buckets: max_buckets as u64,
            timestamp,
            hosts,
        })
    }
}

} // verus!
