//! Addressing identifiers: a participant's user name, server domain, and
//! optional device and agent numbers, parsed from the compound textual form
//! `user[_agent][:device]@server-suffix`.

use vstd::prelude::*;
use crate::error::Error;
use crate::text::{
    find_char, parse_u32, spec_contains_char, spec_ends_with, spec_find_char, spec_parse_u32,
    str_ends_with,
};

verus! {

#[derive(Clone, Copy, Debug, PartialEq, Eq, Structural)]
pub enum Server {
    User,
    Group,
    Broadcast,
    Call,
    Whatsapp,
    Companion,
    Business,
    Server,
    Announcement,
    Status,
    Unknown,
}

/// Mathematical form of a `ContactJid`.
#[verifier::ext_equal]
pub struct JidV {
    pub user: Seq<char>,
    pub server: Server,
    pub device: u32,
    pub agent: u32,
}

#[derive(Debug, PartialEq)]
pub struct ContactJid {
    pub user: String,
    pub server: Server,
    pub device: u32,
    pub agent: u32,
}

impl View for ContactJid {
    type V = JidV;

    open spec fn view(&self) -> JidV {
        JidV { user: self.user@, server: self.server, device: self.device, agent: self.agent }
    }
}

/// The textual address of each server domain; empty for the domains that
/// never stand in a wire JID pair.
pub open spec fn spec_server_addr(s: Server) -> Seq<char> {
    match s {
        Server::User => "c.us"@,
        Server::Group => "g.us"@,
        Server::Broadcast => "broadcast"@,
        Server::Call => "call"@,
        Server::Whatsapp => "s.whatsapp.net"@,
        _ => ""@,
    }
}

/// The server whose address is a suffix of `input`, first match in
/// declaration order; the empty companion address matches everything.
pub open spec fn spec_server_of(input: Seq<char>) -> Server {
    if spec_ends_with(input, "c.us"@) {
        Server::User
    } else if spec_ends_with(input, "g.us"@) {
        Server::Group
    } else if spec_ends_with(input, "broadcast"@) {
        Server::Broadcast
    } else if spec_ends_with(input, "call"@) {
        Server::Call
    } else if spec_ends_with(input, "s.whatsapp.net"@) {
        Server::Whatsapp
    } else {
        Server::Companion
    }
}

impl Server {
    pub fn address(&self) -> (r: &'static str)
        ensures
            r@ == spec_server_addr(*self),
    {
        match self {
            Server::User => "c.us",
            Server::Group => "g.us",
            Server::Broadcast => "broadcast",
            Server::Call => "call",
            Server::Whatsapp => "s.whatsapp.net",
            _ => "",
        }
    }

    /// The domain whose address ends the given textual form.
    pub fn of(input: &str) -> (r: Server)
        ensures
            r == spec_server_of(input@),
    {
        if str_ends_with(input, "c.us") {
            Server::User
        } else if str_ends_with(input, "g.us") {
            Server::Group
        } else if str_ends_with(input, "broadcast") {
            Server::Broadcast
        } else if str_ends_with(input, "call") {
            Server::Call
        } else if str_ends_with(input, "s.whatsapp.net") {
            Server::Whatsapp
        } else {
            Server::Companion
        }
    }
}

/// The user part of a compound form: everything before the first `@`, or the
/// whole string when no `@` occurs.
pub open spec fn spec_without_server(jid: Seq<char>) -> Seq<char> {
    match spec_find_char(jid, '@') {
        Some(i) => jid.subrange(0, i),
        None => jid,
    }
}

/// What parsing the user part `u` against a known server yields.
pub open spec fn spec_from_complex(u: Seq<char>, server: Server) -> Option<JidV> {
    if u.len() == 0 {
        Some(JidV { user: Seq::empty(), server, device: 0, agent: 0 })
    } else {
        match spec_find_char(u, ':') {
            Some(ci) => {
                let head = u.subrange(0, ci);
                let dev = u.subrange(ci + 1, u.len() as int);
                match spec_find_char(head, '_') {
                    Some(ui) => {
                        let usr = head.subrange(0, ui);
                        let ag = head.subrange(ui + 1, head.len() as int);
                        match (spec_parse_u32(dev), spec_parse_u32(ag)) {
                            (Some(d), Some(a)) => Some(
                                JidV { user: usr, server, device: d, agent: a },
                            ),
                            _ => None,
                        }
                    },
                    None => match spec_parse_u32(dev) {
                        Some(d) => Some(JidV { user: head, server, device: d, agent: 0 }),
                        None => None,
                    },
                }
            },
            None => match spec_find_char(u, '_') {
                Some(ui) => {
                    let usr = u.subrange(0, ui);
                    let ag = u.subrange(ui + 1, u.len() as int);
                    match spec_parse_u32(ag) {
                        Some(a) => Some(JidV { user: usr, server, device: 0, agent: a }),
                        None => None,
                    }
                },
                None => Some(JidV { user: u, server, device: 0, agent: 0 }),
            },
        }
    }
}

impl ContactJid {
    /// Builds the identity of a linked companion device; the server is always
    /// the primary messaging domain.
    pub fn from_companion(jid: String, device: u32, agent: u32) -> (r: ContactJid)
        ensures
            r@.user == spec_without_server(jid@),
            r@.server == Server::Whatsapp,
            r@.device == device,
            r@.agent == agent,
    {
        ContactJid {
            user: without_server_str(&jid),
            server: Server::Whatsapp,
            device,
            agent,
        }
    }

    /// Parses the compound textual form against a known server domain.
    pub fn from_complex(jid: String, server: Server) -> (r: Result<ContactJid, Error>)
        ensures
            match r {
                Ok(j) => spec_from_complex(spec_without_server(jid@), server) == Some(j@),
                Err(e) => spec_from_complex(spec_without_server(jid@), server) is None && e
                    == Error::InvalidJid,
            },
    {
        let complex_user = without_server_str(&jid);
        let u = complex_user.as_str();
        if u.unicode_len() == 0 {
            return Ok(ContactJid { user: String::new(), server, device: 0, agent: 0 });
        }
        let ulen = u.unicode_len();
        match find_char(u, ':') {
            Some(ci) => {
                proof {
                    crate::text::lemma_find_char(u@, ':');
                }
                let head = u.substring_char(0, ci);
                let dev = u.substring_char(ci + 1, ulen);
                match find_char(head, '_') {
                    Some(ui) => {
                        proof {
                            crate::text::lemma_find_char(head@, '_');
                        }
                        let hlen = head.unicode_len();
                        let usr = head.substring_char(0, ui);
                        let ag = head.substring_char(ui + 1, hlen);
                        let d = parse_u32(dev)?;
                        let a = parse_u32(ag)?;
                        Ok(ContactJid { user: usr.to_owned(), server, device: d, agent: a })
                    },
                    None => {
                        let d = parse_u32(dev)?;
                        Ok(ContactJid { user: head.to_owned(), server, device: d, agent: 0 })
                    },
                }
            },
            None => match find_char(u, '_') {
                Some(ui) => {
                    proof {
                        crate::text::lemma_find_char(u@, '_');
                    }
                    let usr = u.substring_char(0, ui);
                    let ag = u.substring_char(ui + 1, ulen);
                    let a = parse_u32(ag)?;
                    Ok(ContactJid { user: usr.to_owned(), server, device: 0, agent: a })
                },
                None => Ok(ContactJid { user: complex_user, server, device: 0, agent: 0 }),
            },
        }
    }

    /// A companion identity is one with a non-zero device number.
    pub fn is_companion(&self) -> (r: bool)
        ensures
            r == (self.device != 0),
    {
        self.device != 0
    }

    /// Strips the server suffix from a compound form.
    pub fn without_server(jid: String) -> (r: String)
        ensures
            r@ == spec_without_server(jid@),
    {
        without_server_str(&jid)
    }
}

fn without_server_str(jid: &String) -> (r: String)
    ensures
        r@ == spec_without_server(jid@),
{
    let s = jid.as_str();
    match find_char(s, '@') {
        Some(i) => {
            proof {
                crate::text::lemma_find_char(s@, '@');
            }
            s.substring_char(0, i).to_owned()
        },
        None => {
            proof {
                crate::text::lemma_find_char(s@, '@');
            }
            s.to_owned()
        },
    }
}

} // verus!
