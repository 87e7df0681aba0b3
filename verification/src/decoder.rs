//! Tree decoder: reads the tagged binary form back into a `Node`, resolving
//! token and dictionary bytes, unpacking packed decimal and hex strings, and
//! inflating a compressed buffer when the leading flag byte asks for it.

use vstd::prelude::*;
use vstd::utf8::{decode_utf8, encode_utf8, valid_utf8};
use crate::encoder::{
    spec_all_packable, spec_pack_code, spec_packed, spec_packed_body, spec_string_writable,
    spec_write_attrs, spec_write_jid, spec_write_len, spec_write_node, spec_write_node_or_empty,
    spec_write_nodes, spec_write_size, spec_write_string, spec_write_value,
};
use crate::error::Error;
use crate::jid::{spec_server_addr, ContactJid, JidV, Server};
use crate::node::{Node, NodeV, Value, ValueV};
use crate::text::spec_contains_char;
use crate::tokens::TokenTables;

verus! {

/// Whether the bytes `bs` stand in `buf` at position `pos`.
pub open spec fn at(buf: Seq<u8>, pos: int, bs: Seq<u8>) -> bool {
    0 <= pos && pos + bs.len() <= buf.len() && buf.subrange(pos, pos + bs.len()) == bs
}

/// What inflating a DEFLATE-compressed buffer yields; the result depends on
/// the bytes alone.
pub uninterp spec fn spec_inflate(data: Seq<u8>) -> Option<Seq<u8>>;

/// Relies on miniz_oxide::inflate::decompress_to_vec for DEFLATE inflation.
#[verifier::external_body]
fn inflate(data: &[u8]) -> (r: Option<Vec<u8>>)
    ensures
        match r {
            Some(out) => spec_inflate(data@) == Some(out@),
            None => spec_inflate(data@) is None,
        },
{
    miniz_oxide::inflate::decompress_to_vec(data).ok()
}

/// Relies on String::from_utf8: succeeds exactly on valid UTF-8 and decodes
/// the bytes to their character sequence.
#[verifier::external_body]
fn utf8_to_string(v: Vec<u8>) -> (r: Option<String>)
    ensures
        match r {
            Some(s) => vstd::utf8::valid_utf8(v@) && s@ == vstd::utf8::decode_utf8(v@),
            None => !vstd::utf8::valid_utf8(v@),
        },
{
    String::from_utf8(v).ok()
}

/// The character a packed-alphabet code names.
pub open spec fn spec_unpack_char(code: int, hex: bool) -> char {
    if code == 0 {
        '0'
    } else if code == 1 {
        '1'
    } else if code == 2 {
        '2'
    } else if code == 3 {
        '3'
    } else if code == 4 {
        '4'
    } else if code == 5 {
        '5'
    } else if code == 6 {
        '6'
    } else if code == 7 {
        '7'
    } else if code == 8 {
        '8'
    } else if code == 9 {
        '9'
    } else if !hex && code == 10 {
        '-'
    } else if !hex && code == 11 {
        '.'
    } else if hex && code == 10 {
        'A'
    } else if hex && code == 11 {
        'B'
    } else if hex && code == 12 {
        'C'
    } else if hex && code == 13 {
        'D'
    } else if hex && code == 14 {
        'E'
    } else if hex && code == 15 {
        'F'
    } else {
        ' '
    }
}

/// Whether a code names a character of the packed alphabet.
pub open spec fn spec_code_valid(code: int, hex: bool) -> bool {
    if hex {
        0 <= code < 16
    } else {
        0 <= code < 12
    }
}

/// Packing a character of the alphabet and unpacking the code gives the
/// character back.
pub proof fn lemma_unpack_pack(c: char, hex: bool)
    requires
        spec_pack_code(c, hex) < 16,
    ensures
        spec_code_valid(spec_pack_code(c, hex), hex),
        spec_unpack_char(spec_pack_code(c, hex), hex) == c,
{
    let code = spec_pack_code(c, hex);
    if '0' <= c <= '9' {
        assert(c as int == 48 + code);
        assert(spec_unpack_char(code, hex) as int == 48 + code);
        assert(spec_unpack_char(code, hex) == c);
    } else if !hex && c == '-' {
        assert(spec_unpack_char(10, false) == '-');
    } else if !hex && c == '.' {
        assert(spec_unpack_char(11, false) == '.');
    } else {
        assert(hex && 'A' <= c <= 'F');
        assert(c as int == 55 + code);
        assert(spec_unpack_char(code, true) as int == 55 + code);
        assert(spec_unpack_char(code, hex) == c);
    }
}

/// The bytes of a packed body, byte by byte: each pairs two character
/// codes, and an odd last character sits alone above the filler nibble.
pub proof fn lemma_packed_body_index(s: Seq<char>, hex: bool)
    ensures
        spec_packed_body(s, hex).len() == (s.len() + 1) / 2,
        forall|i: int|
            0 <= i < s.len() as int / 2 ==> spec_packed_body(s, hex)[i] == (spec_pack_code(
                s[2 * i],
                hex,
            ) * 16 + spec_pack_code(s[2 * i + 1], hex)) as u8,
        s.len() % 2 == 1 ==> spec_packed_body(s, hex)[(s.len() - 1) as int / 2] == (spec_pack_code(
            s[s.len() - 1],
            hex,
        ) * 16 + 15) as u8,
    decreases s.len(),
{
    if s.len() >= 2 {
        lemma_packed_body_index(s.skip(2), hex);
        let body = spec_packed_body(s, hex);
        let rest = spec_packed_body(s.skip(2), hex);
        assert(forall|i: int| 1 <= i < body.len() ==> body[i] == rest[i - 1]);
        assert(forall|i: int| 0 <= i < s.skip(2).len() ==> s.skip(2)[i] == s[i + 2]);
    }
}

/// The single-character string a packed code names.
fn unpack_char_str(code: u8, hex: bool) -> (r: Result<&'static str, Error>)
    ensures
        match r {
            Ok(s) => spec_code_valid(code as int, hex) && s@ == seq![
                spec_unpack_char(code as int, hex),
            ],
            Err(e) => !spec_code_valid(code as int, hex) && e == Error::InvalidNibble,
        },
{
    let s: &'static str = if code == 0 {
        "0"
    } else if code == 1 {
        "1"
    } else if code == 2 {
        "2"
    } else if code == 3 {
        "3"
    } else if code == 4 {
        "4"
    } else if code == 5 {
        "5"
    } else if code == 6 {
        "6"
    } else if code == 7 {
        "7"
    } else if code == 8 {
        "8"
    } else if code == 9 {
        "9"
    } else if !hex && code == 10 {
        "-"
    } else if !hex && code == 11 {
        "."
    } else if hex && code == 10 {
        "A"
    } else if hex && code == 11 {
        "B"
    } else if hex && code == 12 {
        "C"
    } else if hex && code == 13 {
        "D"
    } else if hex && code == 14 {
        "E"
    } else if hex && code == 15 {
        "F"
    } else {
        return Err(Error::InvalidNibble);
    };
    proof {
        reveal_strlit("0");
        reveal_strlit("1");
        reveal_strlit("2");
        reveal_strlit("3");
        reveal_strlit("4");
        reveal_strlit("5");
        reveal_strlit("6");
        reveal_strlit("7");
        reveal_strlit("8");
        reveal_strlit("9");
        reveal_strlit("-");
        reveal_strlit(".");
        reveal_strlit("A");
        reveal_strlit("B");
        reveal_strlit("C");
        reveal_strlit("D");
        reveal_strlit("E");
        reveal_strlit("F");
    }
    Ok(s)
}


/// The strings whose wire form reads back unchanged: the encoder accepts
/// them, and they carry no left-to-right mark, which reading in attribute
/// position would strip.
pub open spec fn spec_string_decodable(
    single: Seq<Seq<char>>,
    double: Seq<Seq<char>>,
    s: Seq<char>,
) -> bool {
    spec_string_writable(single, double, s) && !spec_contains_char(s, '\u{200E}')
}

/// The identities whose wire form reads back unchanged: a companion triple
/// fits its bytes and lives on the primary domain; a plain pair carries no
/// agent, its user holds none of the separator characters, and its server
/// is one whose textual address names it back.
pub open spec fn spec_jid_decodable(
    single: Seq<Seq<char>>,
    double: Seq<Seq<char>>,
    j: JidV,
) -> bool {
    &&& spec_string_decodable(single, double, j.user)
    &&& !spec_contains_char(j.user, '@')
    &&& if j.device != 0 {
        j.device < 256 && j.agent < 256 && j.server is Whatsapp
    } else {
        &&& j.agent == 0
        &&& !spec_contains_char(j.user, ':')
        &&& !spec_contains_char(j.user, '_')
        &&& (j.server is User || j.server is Group || j.server is Broadcast || j.server is Call
            || j.server is Whatsapp)
    }
}

/// The values whose wire form reads back unchanged. A boolean is written as
/// its text, so it never reads back as a boolean; a byte blob that happens
/// to be valid UTF-8 reads back as text; both stay outside, as do byte
/// blobs in attribute position, where the decoder insists on text.
pub open spec fn spec_value_decodable(
    single: Seq<Seq<char>>,
    double: Seq<Seq<char>>,
    v: ValueV,
    parse: bool,
) -> bool
    decreases v, 0int, 0int,
{
    match v {
        ValueV::Null => true,
        ValueV::Bool(b) => false,
        ValueV::Text(s) => spec_string_decodable(single, double, s),
        ValueV::Bytes(b) => !parse && b.len() < 0x100000 && !valid_utf8(b),
        ValueV::List(ns) => ns.len() < 0x10000 && spec_nodes_decodable(single, double, ns),
        ValueV::Jid(j) => spec_jid_decodable(single, double, j),
    }
}

pub open spec fn spec_nodes_decodable(
    single: Seq<Seq<char>>,
    double: Seq<Seq<char>>,
    ns: Seq<NodeV>,
) -> bool
    decreases ns, ns.len(), 0int,
{
    if ns.len() == 0 {
        true
    } else {
        spec_node_decodable(single, double, ns[0]) && spec_nodes_decodable(
            single,
            double,
            ns.drop_first(),
        )
    }
}

pub open spec fn spec_attrs_decodable(
    single: Seq<Seq<char>>,
    double: Seq<Seq<char>>,
    ats: Seq<(Seq<char>, ValueV)>,
) -> bool
    decreases ats, ats.len(), 0int,
{
    if ats.len() == 0 {
        true
    } else {
        spec_string_decodable(single, double, ats[0].0) && spec_value_decodable(
            single,
            double,
            ats[0].1,
            true,
        ) && spec_attrs_decodable(single, double, ats.drop_first())
    }
}

/// The nodes whose wire form reads back unchanged: every string, value and
/// size in them reads back, and no description is the reserved empty-node
/// marker, whose wire form the decoder rejects.
pub open spec fn spec_node_decodable(
    single: Seq<Seq<char>>,
    double: Seq<Seq<char>>,
    n: NodeV,
) -> bool
    decreases n, 0int, 1int,
{
    &&& n.description != "0"@
    &&& crate::node::spec_node_size(n) < 0x10000
    &&& spec_string_decodable(single, double, n.description)
    &&& spec_attrs_decodable(single, double, n.attributes)
    &&& (n.content is Null || spec_value_decodable(single, double, n.content, false))
}

/// Bytes standing at a position split at any concatenation boundary.
pub proof fn lemma_at_split(buf: Seq<u8>, pos: int, a: Seq<u8>, b: Seq<u8>)
    requires
        at(buf, pos, a + b),
    ensures
        at(buf, pos, a),
        at(buf, pos + a.len(), b),
{
    let ab = a + b;
    assert forall|k: int| 0 <= k < ab.len() implies buf[pos + k] == ab[k] by {
        assert(buf.subrange(pos, pos + ab.len())[k] == ab[k]);
    }
    assert(buf.subrange(pos, pos + a.len()) =~= a);
    assert forall|k: int| 0 <= k < b.len() implies buf.subrange(
        pos + a.len(),
        pos + a.len() + b.len(),
    )[k] == b[k] by {
        assert(buf[pos + (a.len() + k)] == ab[a.len() + k]);
        assert(ab[a.len() + k] == b[k]);
    }
    assert(buf.subrange(pos + a.len(), pos + a.len() + b.len()) =~= b);
}

/// A byte of a standing byte string, read off the buffer.
pub proof fn lemma_at_index(buf: Seq<u8>, pos: int, bs: Seq<u8>, k: int)
    requires
        at(buf, pos, bs),
        0 <= k < bs.len(),
    ensures
        buf[pos + k] == bs[k],
{
    assert(buf.subrange(pos, pos + bs.len())[k] == bs[k]);
}

/// The first wire byte of any string stays off the structural control
/// bytes, because the tables fit under the control range.
pub proof fn lemma_string_first_byte(single: Seq<Seq<char>>, double: Seq<Seq<char>>, s: Seq<char>)
    requires
        single.len() <= 235,
        double.len() <= 256,
    ensures
        spec_write_string(single, double, s).len() > 0,
        ({
            let b = spec_write_string(single, double, s)[0];
            b != 0 && b != 247 && b != 248 && b != 249 && b != 250 && b != 254
        }),
{
    if s.len() == 0 {
    } else {
        crate::tokens::lemma_first_index(single, s);
        crate::tokens::lemma_first_index(double, s);
        match crate::tokens::spec_first_index(single, s) {
            Some(i) => {
                assert(0 <= i < 235);
                assert(spec_write_string(single, double, s)[0] == (i + 1) as u8);
            },
            None => match crate::tokens::spec_first_index(double, s) {
                Some(i) => {
                    assert(0 <= i < 256);
                    assert(236 <= 236 + i / 64 <= 239);
                },
                None => {
                },
            },
        }
    }
}

/// The first wire byte of a decodable value names its variant: the reserved
/// control bytes are disjoint.
pub proof fn lemma_value_first_byte(
    single: Seq<Seq<char>>,
    double: Seq<Seq<char>>,
    v: ValueV,
    parse: bool,
)
    requires
        single.len() <= 235,
        double.len() <= 256,
        spec_value_decodable(single, double, v, parse),
    ensures
        spec_write_value(single, double, v).len() > 0,
        ({
            let b = spec_write_value(single, double, v)[0];
            match v {
                ValueV::Null => b == 0,
                ValueV::Bool(_) => true,
                ValueV::Text(s) => b != 0 && b != 247 && b != 248 && b != 249 && b != 250 && b
                    != 254,
                ValueV::Bytes(bs) => b == 252 || b == 253,
                ValueV::List(ns) => if ns.len() < 256 {
                    b == 248
                } else {
                    b == 249
                },
                ValueV::Jid(j) => if j.device != 0 {
                    b == 247
                } else {
                    b == 250
                },
            }
        }),
{
    match v {
        ValueV::Text(s) => {
            lemma_string_first_byte(single, double, s);
        },
        _ => {
        },
    }
}

/// The raw bytes a binary-tagged value carries: the UTF-8 form of a text,
/// or the blob itself.
pub open spec fn spec_blob_of(v: ValueV) -> Seq<u8> {
    match v {
        ValueV::Text(s) => encode_utf8(s),
        ValueV::Bytes(b) => b,
        _ => Seq::empty(),
    }
}

/// What a text's wire form looks like, read off its leading byte: packed
/// behind a packed tag, length-prefixed raw UTF-8 behind a binary tag.
pub proof fn lemma_text_tag_branch(
    single: Seq<Seq<char>>,
    double: Seq<Seq<char>>,
    s: Seq<char>,
    tag: u8,
)
    requires
        single.len() <= 235,
        double.len() <= 256,
        spec_string_writable(single, double, s),
        spec_write_string(single, double, s).len() > 0,
        spec_write_string(single, double, s)[0] == tag,
    ensures
        tag == crate::tag::HEX_EIGHT ==> (1 <= s.len() < 128 && spec_all_packable(s, true)
            && spec_write_string(single, double, s) == seq![crate::tag::HEX_EIGHT] + spec_packed(
            s,
            true,
        )),
        tag == crate::tag::NIBBLE_EIGHT ==> (1 <= s.len() < 128 && spec_all_packable(s, false)
            && spec_write_string(single, double, s) == seq![crate::tag::NIBBLE_EIGHT]
            + spec_packed(s, false)),
        (tag == crate::tag::BINARY_EIGHT || tag == crate::tag::BINARY_TWENTY) ==> (encode_utf8(
            s,
        ).len() < 0x100000 && spec_write_string(single, double, s) == spec_write_len(
            encode_utf8(s).len() as int,
        ) + encode_utf8(s)),
{
    crate::tokens::lemma_first_index(single, s);
    crate::tokens::lemma_first_index(double, s);
    if s.len() == 0 {
        assert(encode_utf8(s) =~= Seq::<u8>::empty());
        assert(spec_write_string(single, double, s) =~= spec_write_len(0) + encode_utf8(s));
    } else {
        match crate::tokens::spec_first_index(single, s) {
            Some(i) => {
                assert(spec_write_string(single, double, s)[0] == (i + 1) as u8);
                assert(tag <= 236);
            },
            None => match crate::tokens::spec_first_index(double, s) {
                Some(i) => {
                    assert(236 <= 236 + i / 64 <= 239);
                },
                None => {
                },
            },
        }
    }
}

/// How a token or dictionary byte relates a text to its table entry.
pub open spec fn spec_token_hyp(
    single: Seq<Seq<char>>,
    double: Seq<Seq<char>>,
    s: Seq<char>,
    tag: u8,
    buf: Seq<u8>,
    pos: int,
) -> bool {
    if 1 <= tag <= 235 {
        &&& crate::tokens::spec_first_index(single, s) == Some(tag as int - 1)
        &&& spec_write_string(single, double, s) == seq![tag]
    } else if 236 <= tag <= 239 {
        &&& (crate::tokens::spec_first_index(double, s) matches Some(i) && tag as int == 236 + i
            / 64 && at(buf, pos + 1, seq![(i % 64) as u8]) && spec_write_string(single, double, s)
            == seq![tag, (i % 64) as u8])
    } else {
        false
    }
}

/// A text behind a byte outside the control tags took the token or
/// dictionary branch that byte names.
pub proof fn lemma_token_branch(
    single: Seq<Seq<char>>,
    double: Seq<Seq<char>>,
    s: Seq<char>,
    tag: u8,
    buf: Seq<u8>,
    pos: int,
)
    requires
        single.len() <= 235,
        double.len() <= 256,
        spec_write_string(single, double, s).len() > 0,
        spec_write_string(single, double, s)[0] == tag,
        at(buf, pos, spec_write_string(single, double, s)),
        tag != crate::tag::LIST_EMPTY,
        tag != crate::tag::COMPANION_JID,
        tag != crate::tag::LIST_EIGHT,
        tag != crate::tag::LIST_SIXTEEN,
        tag != crate::tag::JID_PAIR,
        tag != crate::tag::HEX_EIGHT,
        tag != crate::tag::BINARY_EIGHT,
        tag != crate::tag::BINARY_TWENTY,
        tag != crate::tag::BINARY_THIRTY_TWO,
        tag != crate::tag::NIBBLE_EIGHT,
    ensures
        spec_token_hyp(single, double, s, tag, buf, pos),
{
    crate::tokens::lemma_first_index(single, s);
    crate::tokens::lemma_first_index(double, s);
    let w = spec_write_string(single, double, s);
    if s.len() == 0 {
        assert(w[0] == crate::tag::BINARY_EIGHT);
    } else {
        match crate::tokens::spec_first_index(single, s) {
            Some(i) => {
                assert(w =~= seq![(i + 1) as u8]);
                assert(tag as int == i + 1);
            },
            None => match crate::tokens::spec_first_index(double, s) {
                Some(i) => {
                    assert(w =~= seq![(236 + i / 64) as u8, (i % 64) as u8]);
                    assert(0 <= i / 64 <= 3);
                    assert(tag as int == 236 + i / 64);
                    assert(w =~= seq![tag] + seq![(i % 64) as u8]);
                    lemma_at_split(buf, pos, seq![tag], seq![(i % 64) as u8]);
                },
                None => {
                    if s.len() < 128 && spec_all_packable(s, false) {
                        assert(w[0] == crate::tag::NIBBLE_EIGHT);
                    } else if s.len() < 128 && spec_all_packable(s, true) {
                        assert(w[0] == crate::tag::HEX_EIGHT);
                    } else {
                        assert(w[0] == spec_write_len(encode_utf8(s).len() as int)[0]);
                    }
                },
            },
        }
    }
}

/// Writing a concatenation of node lists writes each in turn.
pub proof fn lemma_write_nodes_concat(
    single: Seq<Seq<char>>,
    double: Seq<Seq<char>>,
    a: Seq<NodeV>,
    b: Seq<NodeV>,
)
    ensures
        spec_write_nodes(single, double, a + b) == spec_write_nodes(single, double, a)
            + spec_write_nodes(single, double, b),
    decreases a.len(),
{
    if a.len() == 0 {
        assert(a + b =~= b);
        assert(spec_write_nodes(single, double, a) + spec_write_nodes(single, double, b)
            =~= spec_write_nodes(single, double, b));
    } else {
        lemma_write_nodes_concat(single, double, a.drop_first(), b);
        assert((a + b).drop_first() =~= a.drop_first() + b);
        assert((a + b)[0] == a[0]);
        assert(spec_write_nodes(single, double, a + b) =~= spec_write_nodes(single, double, a)
            + spec_write_nodes(single, double, b));
    }
}

/// The wire form of a node list splits before any element.
pub proof fn lemma_write_nodes_split(
    single: Seq<Seq<char>>,
    double: Seq<Seq<char>>,
    ns: Seq<NodeV>,
    i: int,
)
    requires
        0 <= i < ns.len(),
    ensures
        spec_write_nodes(single, double, ns) == spec_write_nodes(single, double, ns.take(i)) + (
        spec_write_node_or_empty(single, double, ns[i]) + spec_write_nodes(
            single,
            double,
            ns.skip(i + 1),
        )),
{
    lemma_write_nodes_concat(single, double, ns.take(i), ns.skip(i));
    assert(ns.take(i) + ns.skip(i) =~= ns);
    assert(ns.skip(i)[0] == ns[i]);
    assert(ns.skip(i).drop_first() =~= ns.skip(i + 1));
}

/// Element-wise reading of `spec_nodes_decodable`.
pub proof fn lemma_nodes_decodable_index(
    single: Seq<Seq<char>>,
    double: Seq<Seq<char>>,
    ns: Seq<NodeV>,
)
    ensures
        spec_nodes_decodable(single, double, ns) <==> (forall|k: int|
            0 <= k < ns.len() ==> spec_node_decodable(single, double, #[trigger] ns[k])),
    decreases ns.len(),
{
    if ns.len() > 0 {
        lemma_nodes_decodable_index(single, double, ns.drop_first());
        assert(forall|k: int| 1 <= k < ns.len() ==> ns.drop_first()[k - 1] == ns[k]);
    }
}

/// Writing a concatenation of attribute lists writes each in turn.
pub proof fn lemma_write_attrs_concat(
    single: Seq<Seq<char>>,
    double: Seq<Seq<char>>,
    a: Seq<(Seq<char>, ValueV)>,
    b: Seq<(Seq<char>, ValueV)>,
)
    ensures
        spec_write_attrs(single, double, a + b) == spec_write_attrs(single, double, a)
            + spec_write_attrs(single, double, b),
    decreases a.len(),
{
    if a.len() == 0 {
        assert(a + b =~= b);
        assert(spec_write_attrs(single, double, a) + spec_write_attrs(single, double, b)
            =~= spec_write_attrs(single, double, b));
    } else {
        lemma_write_attrs_concat(single, double, a.drop_first(), b);
        assert((a + b).drop_first() =~= a.drop_first() + b);
        assert((a + b)[0] == a[0]);
        assert(spec_write_attrs(single, double, a + b) =~= spec_write_attrs(single, double, a)
            + spec_write_attrs(single, double, b));
    }
}

/// The wire form of an attribute list splits before any pair.
pub proof fn lemma_write_attrs_split(
    single: Seq<Seq<char>>,
    double: Seq<Seq<char>>,
    ats: Seq<(Seq<char>, ValueV)>,
    i: int,
)
    requires
        0 <= i < ats.len(),
    ensures
        spec_write_attrs(single, double, ats) == spec_write_attrs(single, double, ats.take(i)) + (
        spec_write_string(single, double, ats[i].0) + (spec_write_value(single, double, ats[i].1)
            + spec_write_attrs(single, double, ats.skip(i + 1)))),
{
    lemma_write_attrs_concat(single, double, ats.take(i), ats.skip(i));
    assert(ats.take(i) + ats.skip(i) =~= ats);
    assert(ats.skip(i)[0] == ats[i]);
    assert(ats.skip(i).drop_first() =~= ats.skip(i + 1));
}

/// Element-wise reading of `spec_attrs_decodable`.
pub proof fn lemma_attrs_decodable_index(
    single: Seq<Seq<char>>,
    double: Seq<Seq<char>>,
    ats: Seq<(Seq<char>, ValueV)>,
)
    ensures
        spec_attrs_decodable(single, double, ats) <==> (forall|k: int|
            0 <= k < ats.len() ==> spec_string_decodable(single, double, (#[trigger] ats[k]).0)
                && spec_value_decodable(single, double, ats[k].1, true)),
    decreases ats.len(),
{
    if ats.len() > 0 {
        lemma_attrs_decodable_index(single, double, ats.drop_first());
        assert(forall|k: int| 1 <= k < ats.len() ==> ats.drop_first()[k - 1] == ats[k]);
    }
}

/// A sequence none of whose characters is `c` does not contain `c`.
pub proof fn lemma_no_char(s: Seq<char>, c: char)
    requires
        forall|j: int| 0 <= j < s.len() ==> s[j] != c,
    ensures
        !spec_contains_char(s, c),
{
    crate::text::lemma_find_char(s, c);
    if crate::text::spec_find_char(s, c) is Some {
        let i = crate::text::spec_find_char(s, c)->Some_0;
        assert(s[i] == c);
    }
}

/// The five real server domains read back from their own textual address,
/// which carries neither an at sign nor a left-to-right mark.
pub proof fn lemma_server_of_addr(srv: Server)
    requires
        srv is User || srv is Group || srv is Broadcast || srv is Call || srv is Whatsapp,
    ensures
        crate::jid::spec_server_of(spec_server_addr(srv)) == srv,
        !spec_contains_char(spec_server_addr(srv), '@'),
        !spec_contains_char(spec_server_addr(srv), '\u{200E}'),
{
    reveal_strlit("c.us");
    reveal_strlit("g.us");
    reveal_strlit("broadcast");
    reveal_strlit("call");
    reveal_strlit("s.whatsapp.net");
    let a = spec_server_addr(srv);
    match srv {
        Server::User => {
            assert(a =~= "c.us"@);
            assert(a.subrange(0, 4) =~= a);
            lemma_no_char(a, '@');
            lemma_no_char(a, '\u{200E}');
        },
        Server::Group => {
            assert(!crate::text::spec_ends_with(a, "c.us"@)) by {
                assert(a.subrange(0, 4)[0] == 'g');
            }
            assert(a.subrange(0, 4) =~= a);
            lemma_no_char(a, '@');
            lemma_no_char(a, '\u{200E}');
        },
        Server::Broadcast => {
            assert(!crate::text::spec_ends_with(a, "c.us"@)) by {
                assert(a.subrange(5, 9)[0] == 'c' && a.subrange(5, 9)[1] == 'a');
                assert("c.us"@[1] == '.');
            }
            assert(!crate::text::spec_ends_with(a, "g.us"@)) by {
                assert(a.subrange(5, 9)[1] == 'a');
                assert("g.us"@[1] == '.');
            }
            assert(a.subrange(0, 9) =~= a);
            lemma_no_char(a, '@');
            lemma_no_char(a, '\u{200E}');
        },
        Server::Call => {
            assert(!crate::text::spec_ends_with(a, "c.us"@)) by {
                assert(a.subrange(0, 4)[1] == 'a');
                assert("c.us"@[1] == '.');
            }
            assert(!crate::text::spec_ends_with(a, "g.us"@)) by {
                assert(a.subrange(0, 4)[0] == 'c');
                assert("g.us"@[0] == 'g');
            }
            assert(a.subrange(0, 4) =~= a);
            lemma_no_char(a, '@');
            lemma_no_char(a, '\u{200E}');
        },
        Server::Whatsapp => {
            assert(!crate::text::spec_ends_with(a, "c.us"@)) by {
                assert(a.subrange(10, 14)[0] == '.');
                assert("c.us"@[0] == 'c');
            }
            assert(!crate::text::spec_ends_with(a, "g.us"@)) by {
                assert(a.subrange(10, 14)[0] == '.');
                assert("g.us"@[0] == 'g');
            }
            assert(!crate::text::spec_ends_with(a, "broadcast"@)) by {
                assert(a.subrange(5, 14)[0] == 't');
                assert("broadcast"@[0] == 'b');
            }
            assert(!crate::text::spec_ends_with(a, "call"@)) by {
                assert(a.subrange(10, 14)[0] == '.');
                assert("call"@[0] == 'c');
            }
            assert(a.subrange(0, 14) =~= a);
            lemma_no_char(a, '@');
            lemma_no_char(a, '\u{200E}');
        },
        _ => {
        },
    }
}

/// How a node's wire form lays out behind its size tag.
pub proof fn lemma_node_layout(
    single: Seq<Seq<char>>,
    double: Seq<Seq<char>>,
    v: NodeV,
    buf: Seq<u8>,
    pos0: int,
)
    requires
        spec_node_decodable(single, double, v),
        at(buf, pos0, spec_write_node(single, double, v)),
    ensures
        ({
            let wsize = spec_write_size(crate::node::spec_node_size(v));
            let wdesc = spec_write_string(single, double, v.description);
            let wattrs = spec_write_attrs(single, double, v.attributes);
            let wcontent = if v.content is Null {
                Seq::<u8>::empty()
            } else {
                spec_write_value(single, double, v.content)
            };
            &&& buf[pos0] == wsize[0]
            &&& at(buf, pos0 + 1, wsize.skip(1))
            &&& at(buf, pos0 + wsize.len(), wdesc)
            &&& at(buf, pos0 + wsize.len() + wdesc.len(), wattrs)
            &&& at(buf, pos0 + wsize.len() + wdesc.len() + wattrs.len(), wcontent)
            &&& spec_write_node(single, double, v).len() == wsize.len() + wdesc.len()
                + wattrs.len() + wcontent.len()
            &&& 1 <= crate::node::spec_node_size(v) < 0x10000
        }),
{
    let wsize = spec_write_size(crate::node::spec_node_size(v));
    let wdesc = spec_write_string(single, double, v.description);
    let wattrs = spec_write_attrs(single, double, v.attributes);
    let wcontent = if v.content is Null {
        Seq::<u8>::empty()
    } else {
        spec_write_value(single, double, v.content)
    };
    assert(spec_write_node(single, double, v) =~= wsize + (wdesc + (wattrs + wcontent)));
    lemma_at_split(buf, pos0, wsize, wdesc + (wattrs + wcontent));
    lemma_at_split(buf, pos0 + wsize.len(), wdesc, wattrs + wcontent);
    lemma_at_split(buf, pos0 + wsize.len() + wdesc.len(), wattrs, wcontent);
    assert(wsize =~= seq![wsize[0]] + wsize.skip(1));
    lemma_at_split(buf, pos0, seq![wsize[0]], wsize.skip(1));
    lemma_at_index(buf, pos0, seq![wsize[0]], 0);
}

/// How a plain JID pair's wire form lays out behind its tag.
pub proof fn lemma_jid_pair_layout(
    single: Seq<Seq<char>>,
    double: Seq<Seq<char>>,
    j: JidV,
    buf: Seq<u8>,
    pos0: int,
)
    requires
        spec_jid_decodable(single, double, j),
        j.device == 0,
        at(buf, pos0, spec_write_jid(single, double, j).skip(1)),
    ensures
        ({
            let user_part = if j.user.len() == 0 {
                seq![crate::tag::LIST_EMPTY]
            } else {
                spec_write_string(single, double, j.user)
            };
            let addr_part = spec_write_string(single, double, spec_server_addr(j.server));
            &&& at(buf, pos0, user_part)
            &&& at(buf, pos0 + user_part.len(), addr_part)
            &&& spec_write_jid(single, double, j).skip(1).len() == user_part.len()
                + addr_part.len()
            &&& spec_string_decodable(single, double, j.user)
            &&& spec_string_decodable(single, double, spec_server_addr(j.server))
            &&& crate::jid::spec_server_of(spec_server_addr(j.server)) == j.server
        }),
{
    let user_part = if j.user.len() == 0 {
        seq![crate::tag::LIST_EMPTY]
    } else {
        spec_write_string(single, double, j.user)
    };
    let addr_part = spec_write_string(single, double, spec_server_addr(j.server));
    assert(spec_write_jid(single, double, j).skip(1) =~= user_part + addr_part);
    lemma_at_split(buf, pos0, user_part, addr_part);
    lemma_server_of_addr(j.server);
    crate::encoder::lemma_server_addr_writable(single, double, j.server);
}

pub struct NodeDecoder {
    pub buffer: Vec<u8>,
    pub pos: usize,
    pub tables: TokenTables,
}

impl NodeDecoder {
    /// The reading position never passes the end of the buffer, and the
    /// tables stay within the wire format's bounds.
    pub open spec fn wf(&self) -> bool {
        self.pos <= self.buffer@.len() && self.tables.wf()
    }

    /// The single-byte token table, viewed.
    pub open spec fn sv(&self) -> Seq<Seq<char>> {
        self.tables.single.deep_view()
    }

    /// The word dictionaries, viewed.
    pub open spec fn dv(&self) -> Seq<Seq<char>> {
        self.tables.double.deep_view()
    }

    /// Decodes one node from a flag-prefixed buffer, inflating the remainder
    /// first when the flag byte carries the compression bit. Together with
    /// the encoder's contract this is the tree codec's round trip: every
    /// node in the decodable set that the encoder wrote reads back equal,
    /// attribute order included.
    pub fn decode(input: &[u8]) -> (r: Result<Node, Error>)
        ensures
            r matches Err(e) ==> crate::error::spec_frame_error(e) && e != Error::AesCipherFail,
            forall|v: NodeV|
                #![trigger spec_write_node(
                    crate::tokens::spec_standard_single(),
                    crate::tokens::spec_standard_double(),
                    v,
                )]
                (spec_node_decodable(
                    crate::tokens::spec_standard_single(),
                    crate::tokens::spec_standard_double(),
                    v,
                ) && input@ == seq![0u8] + spec_write_node(
                    crate::tokens::spec_standard_single(),
                    crate::tokens::spec_standard_double(),
                    v,
                )) ==> (r matches Ok(node) && node@ == v),
    {
        NodeDecoder::decode_with(TokenTables::standard(), input)
    }

    /// Decodes one node against the given token tables; a deployment
    /// carrying the full dictionaries supplies them here.
    pub fn decode_with(tables: TokenTables, input: &[u8]) -> (r: Result<Node, Error>)
        requires
            tables.wf(),
        ensures
            r matches Err(e) ==> crate::error::spec_frame_error(e) && e != Error::AesCipherFail,
            forall|v: NodeV|
                #![trigger spec_write_node(
                    tables.single.deep_view(),
                    tables.double.deep_view(),
                    v,
                )]
                (spec_node_decodable(tables.single.deep_view(), tables.double.deep_view(), v)
                    && input@ == seq![0u8] + spec_write_node(
                    tables.single.deep_view(),
                    tables.double.deep_view(),
                    v,
                )) ==> (r matches Ok(node) && node@ == v),
    {
        let ghost sv = tables.single.deep_view();
        let ghost dv = tables.double.deep_view();
        if input.len() == 0 {
            proof {
                assert forall|v: NodeV|
                    #![trigger spec_write_node(sv, dv, v)]
                    (spec_node_decodable(sv, dv, v) && input@ == seq![0u8] + spec_write_node(
                        sv,
                        dv,
                        v,
                    )) implies false by {}
            }
            return Err(Error::Truncated);
        }
        let flag = input[0];
        let rest = copy_tail(input, 1);
        proof {
            assert forall|v: NodeV|
                #![trigger spec_write_node(sv, dv, v)]
                (spec_node_decodable(sv, dv, v) && input@ == seq![0u8] + spec_write_node(
                    sv,
                    dv,
                    v,
                )) implies (flag == 0 && rest@ == spec_write_node(sv, dv, v)) by {
                assert(input@[0] == 0);
                assert(rest@ =~= spec_write_node(sv, dv, v));
            }
        }
        let buffer: Vec<u8> = if flag % 4 >= 2 {
            match inflate(rest.as_slice()) {
                Some(out) => out,
                None => {
                    return Err(Error::BadCompression);
                },
            }
        } else {
            rest
        };
        let mut dec = NodeDecoder { buffer, pos: 0, tables };
        proof {
            assert forall|v: NodeV|
                #![trigger spec_write_node(sv, dv, v)]
                (spec_node_decodable(sv, dv, v) && input@ == seq![0u8] + spec_write_node(
                    sv,
                    dv,
                    v,
                )) implies at(dec.buffer@, 0, spec_write_node(sv, dv, v)) by {
                assert(dec.buffer@.subrange(0, spec_write_node(sv, dv, v).len() as int)
                    =~= spec_write_node(sv, dv, v));
            }
        }
        let result = dec.read_node(Ghost(sv), Ghost(dv));
        proof {
            assert forall|v: NodeV|
                #![trigger spec_write_node(sv, dv, v)]
                (spec_node_decodable(sv, dv, v) && input@ == seq![0u8] + spec_write_node(
                    sv,
                    dv,
                    v,
                )) implies (result matches Ok(node) && node@ == v) by {}
        }
        result
    }

    fn read_u8(&mut self) -> (r: Result<u8, Error>)
        requires
            old(self).wf(),
        ensures
            r matches Err(e) ==> crate::error::spec_frame_error(e) && e != Error::AesCipherFail,
            final(self).wf(),
            final(self).buffer == old(self).buffer,
            final(self).tables == old(self).tables,
            match r {
                Ok(b) => old(self).pos < old(self).buffer@.len() && b == old(self).buffer@[old(self).pos as int] && final(self).pos == old(self).pos + 1,
                Err(e) => old(self).pos == old(self).buffer@.len() && e == Error::Truncated
                    && final(self).pos == old(self).pos,
            },
    {
        if self.pos < self.buffer.len() {
            let b = self.buffer[self.pos];
            self.pos = self.pos + 1;
            Ok(b)
        } else {
            Err(Error::Truncated)
        }
    }

    fn read_u16(&mut self) -> (r: Result<u16, Error>)
        requires
            old(self).wf(),
        ensures
            r matches Err(e) ==> crate::error::spec_frame_error(e) && e != Error::AesCipherFail,
            final(self).wf(),
            final(self).buffer == old(self).buffer,
            final(self).tables == old(self).tables,
            match r {
                Ok(v) => old(self).pos + 2 <= old(self).buffer@.len() && v as int == old(self).buffer@[old(self).pos as int] * 0x100 + old(self).buffer@[old(self).pos + 1]
                    && final(self).pos == old(self).pos + 2,
                Err(e) => old(self).pos + 2 > old(self).buffer@.len() && e == Error::Truncated
                    && final(self).pos == old(self).pos,
            },
    {
        if self.buffer.len() >= 2 && self.pos <= self.buffer.len() - 2 {
            let hi = self.buffer[self.pos];
            let lo = self.buffer[self.pos + 1];
            self.pos = self.pos + 2;
            Ok((hi as u16) * 0x100 + (lo as u16))
        } else {
            Err(Error::Truncated)
        }
    }

    fn read_bytes(&mut self, n: usize) -> (r: Result<Vec<u8>, Error>)
        requires
            old(self).wf(),
        ensures
            r matches Err(e) ==> crate::error::spec_frame_error(e) && e != Error::AesCipherFail,
            final(self).wf(),
            final(self).buffer == old(self).buffer,
            final(self).tables == old(self).tables,
            match r {
                Ok(out) => old(self).pos + n <= old(self).buffer@.len() && out@ == old(self).buffer@.subrange(old(self).pos as int, old(self).pos + n) && final(self).pos
                    == old(self).pos + n,
                Err(e) => old(self).pos + n > old(self).buffer@.len() && e == Error::Truncated
                    && final(self).pos == old(self).pos,
            },
    {
        if n <= self.buffer.len() && self.pos <= self.buffer.len() - n {
            let mut out: Vec<u8> = Vec::new();
            let start = self.pos;
            let blen = self.buffer.len();
            let mut i: usize = 0;
            while i < n
                invariant
                    i <= n,
                    self.buffer == old(self).buffer,
                    self.tables == old(self).tables,
                    blen == self.buffer@.len(),
                    start + n <= blen,
                    out@ == self.buffer@.subrange(start as int, start + i),
                    self.pos == start,
                decreases n - i,
            {
                out.push(self.buffer[start + i]);
                proof {
                    assert(out@ =~= self.buffer@.subrange(start as int, start + i + 1));
                }
                i += 1;
            }
            self.pos = start + n;
            Ok(out)
        } else {
            Err(Error::Truncated)
        }
    }

    /// The size field: one byte in an 8-bit list context, two otherwise.
    /// Reads back exactly the size whose wire form follows its leading tag.
    fn read_size(&mut self, token: u8) -> (r: Result<usize, Error>)
        requires
            old(self).wf(),
        ensures
            final(self).wf(),
            final(self).buffer == old(self).buffer,
            final(self).tables == old(self).tables,
            old(self).pos <= final(self).pos,
            r matches Err(e) ==> crate::error::spec_frame_error(e) && e != Error::AesCipherFail,
            r is Ok ==> final(self).pos > old(self).pos,
            forall|n: int|
                #![trigger spec_write_size(n)]
                (0 <= n < 0x10000 && token == spec_write_size(n)[0] && at(
                    old(self).buffer@,
                    old(self).pos as int,
                    spec_write_size(n).skip(1),
                )) ==> (r matches Ok(sz) && sz == n && final(self).pos == old(self).pos
                    + spec_write_size(n).len() - 1),
    {
        let ghost bufg = self.buffer@;
        let ghost pos0 = self.pos as int;
        if token == crate::tag::LIST_EIGHT {
            let b = self.read_u8()?;
            proof {
                assert forall|n: int|
                    (0 <= n < 0x10000 && token == spec_write_size(n)[0] && at(
                        bufg,
                        pos0,
                        spec_write_size(n).skip(1),
                    )) implies (n < 256 && b as int == n) by {
                    if n >= 256 {
                        assert(spec_write_size(n)[0] == crate::tag::LIST_SIXTEEN);
                    } else {
                        assert(spec_write_size(n).skip(1) =~= seq![n as u8]);
                        assert(spec_write_size(n).skip(1)[0] == bufg[pos0]);
                    }
                }
            }
            Ok(b as usize)
        } else {
            let v = self.read_u16()?;
            proof {
                assert forall|n: int|
                    (0 <= n < 0x10000 && token == spec_write_size(n)[0] && at(
                        old(self).buffer@,
                        old(self).pos as int,
                        spec_write_size(n).skip(1),
                    )) implies v as int == n by {
                    if n < 256 {
                        assert(spec_write_size(n)[0] == crate::tag::LIST_EIGHT);
                    } else {
                        assert(spec_write_size(n).skip(1) =~= seq![
                            (n / 0x100) as u8,
                            (n % 0x100) as u8,
                        ]);
                        assert(spec_write_size(n).skip(1)[0] == old(self).buffer@[old(self).pos as int]);
                        assert(spec_write_size(n).skip(1)[1] == old(self).buffer@[old(self).pos
                            + 1]);
                        vstd::arithmetic::div_mod::lemma_fundamental_div_mod(n, 0x100);
                    }
                }
            }
            Ok(v as usize)
        }
    }

    /// The 20-bit length field behind the 20-bit binary tag.
    fn read_len20(&mut self) -> (r: Result<usize, Error>)
        requires
            old(self).wf(),
        ensures
            final(self).wf(),
            final(self).buffer == old(self).buffer,
            final(self).tables == old(self).tables,
            old(self).pos <= final(self).pos,
            r matches Err(e) ==> crate::error::spec_frame_error(e) && e != Error::AesCipherFail,
            match r {
                Ok(v) => old(self).pos + 3 <= old(self).buffer@.len() && v as int == (old(self).buffer@[old(self).pos as int] % 16) * 0x10000 + old(self).buffer@[old(self).pos
                    + 1] * 0x100 + old(self).buffer@[old(self).pos + 2] && final(self).pos == old(self).pos + 3,
                Err(e) => old(self).pos + 3 > old(self).buffer@.len() && e == Error::Truncated,
            },
    {
        let b0 = self.read_u8()?;
        let b1 = self.read_u8()?;
        let b2 = self.read_u8()?;
        Ok(((b0 % 16) as usize) * 0x10000 + (b1 as usize) * 0x100 + (b2 as usize))
    }

    /// A string read in attribute position: any value shape that is a text.
    /// Reads back exactly the string whose wire form stands at the position.
    fn read_string(
        &mut self,
        Ghost(sv): Ghost<Seq<Seq<char>>>,
        Ghost(dv): Ghost<Seq<Seq<char>>>,
    ) -> (r: Result<String, Error>)
        requires
            old(self).wf(),
            sv == old(self).tables.single.deep_view(),
            dv == old(self).tables.double.deep_view(),
        ensures
            final(self).wf(),
            final(self).buffer == old(self).buffer,
            final(self).tables == old(self).tables,
            old(self).pos <= final(self).pos,
            r is Ok ==> final(self).pos > old(self).pos,
            r matches Err(e) ==> crate::error::spec_frame_error(e) && e != Error::AesCipherFail,
            forall|sq: Seq<char>|
                #![trigger spec_write_string(sv, dv, sq)]
                (spec_string_decodable(sv, dv, sq) && at(
                    old(self).buffer@,
                    old(self).pos as int,
                    spec_write_string(sv, dv, sq),
                )) ==> (r matches Ok(out) && out@ == sq && final(self).pos == old(self).pos
                    + spec_write_string(sv, dv, sq).len()),
        decreases old(self).buffer@.len() - old(self).pos, 1int,
    {
        let ghost buf = self.buffer@;
        let ghost pos0 = self.pos as int;
        let result = self.read(true, Ghost(sv), Ghost(dv));
        proof {
            assert forall|sq: Seq<char>|
                #![trigger spec_write_string(sv, dv, sq)]
                (spec_string_decodable(sv, dv, sq) && at(
                    buf,
                    pos0,
                    spec_write_string(sv, dv, sq),
                )) implies (result matches Ok(val) && val@ == ValueV::Text(sq) && self.pos
                == pos0 + spec_write_string(sv, dv, sq).len()) by {
                assert(spec_write_value(sv, dv, ValueV::Text(sq)) == spec_write_string(
                    sv,
                    dv,
                    sq,
                ));
                assert(spec_value_decodable(sv, dv, ValueV::Text(sq), true));
            }
        }
        match result {
            Ok(Value::Text(st)) => Ok(st),
            Ok(_) => Err(Error::InvalidString),
            Err(e) => Err(e),
        }
    }

    /// One tagged value. Reads back exactly the value whose wire form stands
    /// at the position, for every value the wire form can carry back.
    #[verifier::rlimit(100)]
    fn read(
        &mut self,
        parse: bool,
        Ghost(sv): Ghost<Seq<Seq<char>>>,
        Ghost(dv): Ghost<Seq<Seq<char>>>,
    ) -> (r: Result<Value, Error>)
        requires
            old(self).wf(),
            sv == old(self).tables.single.deep_view(),
            dv == old(self).tables.double.deep_view(),
        ensures
            final(self).wf(),
            final(self).buffer == old(self).buffer,
            final(self).tables == old(self).tables,
            old(self).pos <= final(self).pos,
            r is Ok ==> final(self).pos > old(self).pos,
            r matches Err(e) ==> crate::error::spec_frame_error(e) && e != Error::AesCipherFail,
            forall|v: ValueV|
                #![trigger spec_write_value(sv, dv, v)]
                (spec_value_decodable(sv, dv, v, parse) && at(
                    old(self).buffer@,
                    old(self).pos as int,
                    spec_write_value(sv, dv, v),
                )) ==> (r matches Ok(val) && val@ == v && final(self).pos == old(self).pos
                    + spec_write_value(sv, dv, v).len()),
        decreases old(self).buffer@.len() - old(self).pos, 0int,
    {
        let ghost buf = self.buffer@;
        let ghost pos0 = self.pos as int;
        let tag = match self.read_u8() {
            Ok(tag) => tag,
            Err(e) => {
                proof {
                    assert forall|v: ValueV|
                        #![trigger spec_write_value(sv, dv, v)]
                        (spec_value_decodable(sv, dv, v, parse) && at(
                            buf,
                            pos0,
                            spec_write_value(sv, dv, v),
                        )) implies false by {
                        lemma_value_first_byte(sv, dv, v, parse);
                    }
                }
                return Err(e);
            },
        };
        proof {
            assert forall|v: ValueV|
                #![trigger spec_write_value(sv, dv, v)]
                (spec_value_decodable(sv, dv, v, parse) && at(
                    buf,
                    pos0,
                    spec_write_value(sv, dv, v),
                )) implies spec_write_value(sv, dv, v)[0] == tag by {
                lemma_value_first_byte(sv, dv, v, parse);
                lemma_at_index(buf, pos0, spec_write_value(sv, dv, v), 0);
            }
        }
        if tag == crate::tag::LIST_EMPTY {
            proof {
                assert forall|v: ValueV|
                    #![trigger spec_write_value(sv, dv, v)]
                    (spec_value_decodable(sv, dv, v, parse) && at(
                        buf,
                        pos0,
                        spec_write_value(sv, dv, v),
                    )) implies (v is Null && spec_write_value(sv, dv, v).len() == 1) by {
                    lemma_value_first_byte(sv, dv, v, parse);
                    match v {
                        ValueV::Text(sq) => {
                            lemma_string_first_byte(sv, dv, sq);
                        },
                        _ => {
                        },
                    }
                }
            }
            Ok(Value::Null)
        } else if tag == crate::tag::COMPANION_JID {
            proof {
                assert forall|v: ValueV|
                    #![trigger spec_write_value(sv, dv, v)]
                    (spec_value_decodable(sv, dv, v, parse) && at(
                        buf,
                        pos0,
                        spec_write_value(sv, dv, v),
                    )) implies (v matches ValueV::Jid(j) && j.device != 0 && at(
                        buf,
                        pos0 + 1,
                        spec_write_jid(sv, dv, j).skip(1),
                    ) && spec_jid_decodable(sv, dv, j) && spec_write_value(sv, dv, v).len() == 1
                        + spec_write_jid(sv, dv, j).skip(1).len()) by {
                    lemma_value_first_byte(sv, dv, v, parse);
                    let j = v->Jid_0;
                    assert(spec_write_value(sv, dv, v) =~= seq![crate::tag::COMPANION_JID]
                        + spec_write_jid(sv, dv, j).skip(1));
                    lemma_at_split(
                        buf,
                        pos0,
                        seq![crate::tag::COMPANION_JID],
                        spec_write_jid(sv, dv, j).skip(1),
                    );
                }
            }
            self.read_companion_jid(Ghost(sv), Ghost(dv))
        } else if tag == crate::tag::LIST_EIGHT || tag == crate::tag::LIST_SIXTEEN {
            proof {
                assert forall|v: ValueV|
                    #![trigger spec_write_value(sv, dv, v)]
                    (spec_value_decodable(sv, dv, v, parse) && at(
                        buf,
                        pos0,
                        spec_write_value(sv, dv, v),
                    )) implies (v matches ValueV::List(ns) && spec_nodes_decodable(sv, dv, ns)
                        && ns.len() < 0x10000 && tag == spec_write_size(ns.len() as int)[0] && at(
                        buf,
                        pos0 + 1,
                        spec_write_size(ns.len() as int).skip(1),
                    ) && at(
                        buf,
                        pos0 + spec_write_size(ns.len() as int).len(),
                        spec_write_nodes(sv, dv, ns),
                    ) && spec_write_value(sv, dv, v).len() == spec_write_size(
                        ns.len() as int,
                    ).len() + spec_write_nodes(sv, dv, ns).len()) by {
                    lemma_value_first_byte(sv, dv, v, parse);
                    match v {
                        ValueV::Text(sq) => {
                            lemma_string_first_byte(sv, dv, sq);
                        },
                        _ => {
                        },
                    }
                    let ns = v->List_0;
                    let wsize = spec_write_size(ns.len() as int);
                    let wnodes = spec_write_nodes(sv, dv, ns);
                    lemma_at_split(buf, pos0, wsize, wnodes);
                    assert(wsize =~= seq![wsize[0]] + wsize.skip(1));
                    lemma_at_split(buf, pos0, seq![wsize[0]], wsize.skip(1));
                }
            }
            let count = self.read_size(tag)?;
            let ghost pos1 = self.pos as int;
            proof {
                assert forall|v: ValueV|
                    #![trigger spec_write_value(sv, dv, v)]
                    (spec_value_decodable(sv, dv, v, parse) && at(
                        buf,
                        pos0,
                        spec_write_value(sv, dv, v),
                    )) implies (v matches ValueV::List(ns) && count == ns.len() && pos1 == pos0
                        + spec_write_size(ns.len() as int).len() && at(
                        buf,
                        pos1,
                        spec_write_nodes(sv, dv, ns),
                    )) by {
                    let ns = v->List_0;
                }
            }
            let nodes = self.read_list(count, Ghost(sv), Ghost(dv))?;
            proof {
                assert forall|v: ValueV|
                    #![trigger spec_write_value(sv, dv, v)]
                    (spec_value_decodable(sv, dv, v, parse) && at(
                        buf,
                        pos0,
                        spec_write_value(sv, dv, v),
                    )) implies (Value::List(nodes)@ == v && self.pos == pos0 + spec_write_value(
                        sv,
                        dv,
                        v,
                    ).len()) by {
                    let ns = v->List_0;
                    assert(crate::node::spec_nodes_view(nodes@) == ns);
                }
            }
            Ok(Value::List(nodes))
        } else if tag == crate::tag::JID_PAIR {
            proof {
                assert forall|v: ValueV|
                    #![trigger spec_write_value(sv, dv, v)]
                    (spec_value_decodable(sv, dv, v, parse) && at(
                        buf,
                        pos0,
                        spec_write_value(sv, dv, v),
                    )) implies (v matches ValueV::Jid(j) && j.device == 0 && at(
                        buf,
                        pos0 + 1,
                        spec_write_jid(sv, dv, j).skip(1),
                    ) && spec_jid_decodable(sv, dv, j) && spec_write_value(sv, dv, v).len() == 1
                        + spec_write_jid(sv, dv, j).skip(1).len()) by {
                    lemma_value_first_byte(sv, dv, v, parse);
                    let j = v->Jid_0;
                    assert(spec_write_value(sv, dv, v) =~= seq![crate::tag::JID_PAIR]
                        + spec_write_jid(sv, dv, j).skip(1));
                    lemma_at_split(
                        buf,
                        pos0,
                        seq![crate::tag::JID_PAIR],
                        spec_write_jid(sv, dv, j).skip(1),
                    );
                }
            }
            self.read_jid_pair(Ghost(sv), Ghost(dv))
        } else if tag == crate::tag::HEX_EIGHT || tag == crate::tag::NIBBLE_EIGHT {
            let hex = tag == crate::tag::HEX_EIGHT;
            proof {
                assert forall|v: ValueV|
                    #![trigger spec_write_value(sv, dv, v)]
                    (spec_value_decodable(sv, dv, v, parse) && at(
                        buf,
                        pos0,
                        spec_write_value(sv, dv, v),
                    )) implies (v matches ValueV::Text(sq) && 1 <= sq.len() < 128
                        && spec_all_packable(sq, hex) && at(buf, pos0 + 1, spec_packed(sq, hex))
                        && spec_write_value(sv, dv, v).len() == 1 + spec_packed(
                        sq,
                        hex,
                    ).len()) by {
                    lemma_value_first_byte(sv, dv, v, parse);
                    let sq = v->Text_0;
                    lemma_text_tag_branch(sv, dv, sq, tag);
                    lemma_at_split(buf, pos0, seq![tag], spec_packed(sq, hex));
                }
            }
            let st = self.read_packed(hex)?;
            Ok(Value::Text(st))
        } else if tag == crate::tag::BINARY_EIGHT || tag == crate::tag::BINARY_TWENTY || tag
            == crate::tag::BINARY_THIRTY_TWO {
            proof {
                assert forall|v: ValueV|
                    #![trigger spec_write_value(sv, dv, v)]
                    (spec_value_decodable(sv, dv, v, parse) && at(
                        buf,
                        pos0,
                        spec_write_value(sv, dv, v),
                    )) implies (spec_blob_of(v).len() < 0x100000 && tag == spec_write_len(
                        spec_blob_of(v).len() as int,
                    )[0] && at(
                        buf,
                        pos0 + 1,
                        spec_write_len(spec_blob_of(v).len() as int).skip(1),
                    ) && at(
                        buf,
                        pos0 + spec_write_len(spec_blob_of(v).len() as int).len(),
                        spec_blob_of(v),
                    ) && spec_write_value(sv, dv, v).len() == spec_write_len(
                        spec_blob_of(v).len() as int,
                    ).len() + spec_blob_of(v).len() && (v is Text || (v matches ValueV::Bytes(bs)
                        && !parse && !valid_utf8(bs))) && (v matches ValueV::Text(sq) ==> (
                    spec_blob_of(v) == encode_utf8(sq) && !spec_contains_char(
                        sq,
                        '\u{200E}',
                    )))) by {
                    lemma_value_first_byte(sv, dv, v, parse);
                    match v {
                        ValueV::Text(sq) => {
                            lemma_text_tag_branch(sv, dv, sq, tag);
                        },
                        _ => {
                        },
                    }
                    let blob = spec_blob_of(v);
                    let wl = spec_write_len(blob.len() as int);
                    assert(spec_write_value(sv, dv, v) == wl + blob);
                    lemma_at_split(buf, pos0, wl, blob);
                    assert(wl =~= seq![wl[0]] + wl.skip(1));
                    lemma_at_split(buf, pos0, seq![wl[0]], wl.skip(1));
                }
            }
            let n: usize;
            if tag == crate::tag::BINARY_EIGHT {
                let b = self.read_u8()?;
                n = b as usize;
                proof {
                    assert forall|v: ValueV|
                        #![trigger spec_write_value(sv, dv, v)]
                        (spec_value_decodable(sv, dv, v, parse) && at(
                            buf,
                            pos0,
                            spec_write_value(sv, dv, v),
                        )) implies (n == spec_blob_of(v).len() && spec_write_len(
                            spec_blob_of(v).len() as int,
                        ).len() == 2) by {
                        let blob = spec_blob_of(v);
                        let wl = spec_write_len(blob.len() as int);
                        if blob.len() >= 256 {
                            assert(wl[0] == crate::tag::BINARY_TWENTY);
                        } else {
                            assert(wl.skip(1) =~= seq![blob.len() as u8]);
                            lemma_at_index(buf, pos0 + 1, wl.skip(1), 0);
                        }
                    }
                }
            } else if tag == crate::tag::BINARY_TWENTY {
                n = self.read_len20()?;
                proof {
                    assert forall|v: ValueV|
                        #![trigger spec_write_value(sv, dv, v)]
                        (spec_value_decodable(sv, dv, v, parse) && at(
                            buf,
                            pos0,
                            spec_write_value(sv, dv, v),
                        )) implies (n == spec_blob_of(v).len() && spec_write_len(
                            spec_blob_of(v).len() as int,
                        ).len() == 4) by {
                        let blob = spec_blob_of(v);
                        let bl = blob.len() as int;
                        let wl = spec_write_len(bl);
                        if bl < 256 {
                            assert(wl[0] == crate::tag::BINARY_EIGHT);
                        } else {
                            assert(wl.skip(1) =~= seq![
                                (bl / 0x10000) as u8,
                                ((bl / 0x100) % 0x100) as u8,
                                (bl % 0x100) as u8,
                            ]);
                            lemma_at_index(buf, pos0 + 1, wl.skip(1), 0);
                            lemma_at_index(buf, pos0 + 1, wl.skip(1), 1);
                            lemma_at_index(buf, pos0 + 1, wl.skip(1), 2);
                            vstd::arithmetic::div_mod::lemma_fundamental_div_mod(bl, 0x100);
                            vstd::arithmetic::div_mod::lemma_fundamental_div_mod(
                                bl / 0x100,
                                0x100,
                            );
                            vstd::arithmetic::div_mod::lemma_div_denominator(bl, 0x100, 0x100);
                            assert(bl / 0x10000 < 16);
                            vstd::arithmetic::div_mod::lemma_small_mod((bl / 0x10000) as nat, 16);
                        }
                    }
                }
            } else {
                let w = self.read_u16()?;
                n = w as usize;
                proof {
                    assert forall|v: ValueV|
                        #![trigger spec_write_value(sv, dv, v)]
                        (spec_value_decodable(sv, dv, v, parse) && at(
                            buf,
                            pos0,
                            spec_write_value(sv, dv, v),
                        )) implies false by {
                        let blob = spec_blob_of(v);
                        let wl = spec_write_len(blob.len() as int);
                        if blob.len() < 256 {
                            assert(wl[0] == crate::tag::BINARY_EIGHT);
                        } else {
                            assert(wl[0] == crate::tag::BINARY_TWENTY);
                        }
                    }
                }
            }
            let ghost pos1 = self.pos as int;
            let out = self.read_string_until(n, parse)?;
            proof {
                assert forall|v: ValueV|
                    #![trigger spec_write_value(sv, dv, v)]
                    (spec_value_decodable(sv, dv, v, parse) && at(
                        buf,
                        pos0,
                        spec_write_value(sv, dv, v),
                    )) implies (out@ == v && self.pos == pos0 + spec_write_value(
                        sv,
                        dv,
                        v,
                    ).len()) by {
                    match v {
                        ValueV::Text(sq) => {
                            assert(at(buf, pos1, encode_utf8(sq)));
                        },
                        _ => {
                            let bs = v->Bytes_0;
                            assert(at(buf, pos1, bs));
                            assert(valid_utf8(bs) == false);
                        },
                    }
                }
            }
            Ok(out)
        } else {
            proof {
                assert forall|v: ValueV|
                    #![trigger spec_write_value(sv, dv, v)]
                    (spec_value_decodable(sv, dv, v, parse) && at(
                        buf,
                        pos0,
                        spec_write_value(sv, dv, v),
                    )) implies (v matches ValueV::Text(sq) && spec_token_hyp(
                        sv,
                        dv,
                        sq,
                        tag,
                        buf,
                        pos0,
                    )) by {
                    lemma_value_first_byte(sv, dv, v, parse);
                    let sq = v->Text_0;
                    lemma_token_branch(sv, dv, sq, tag, buf, pos0);
                }
            }
            let st = match self.read_token(
                tag,
                Ghost(self.tables.single.deep_view()),
                Ghost(self.tables.double.deep_view()),
            ) {
                Ok(st) => st,
                Err(e) => {
                    proof {
                        assert forall|v: ValueV|
                            #![trigger spec_write_value(sv, dv, v)]
                            (spec_value_decodable(sv, dv, v, parse) && at(
                                buf,
                                pos0,
                                spec_write_value(sv, dv, v),
                            )) implies false by {
                            let sq = v->Text_0;
                            crate::tokens::lemma_first_index(sv, sq);
                            crate::tokens::lemma_first_index(dv, sq);
                        }
                    }
                    return Err(e);
                },
            };
            proof {
                assert forall|v: ValueV|
                    #![trigger spec_write_value(sv, dv, v)]
                    (spec_value_decodable(sv, dv, v, parse) && at(
                        buf,
                        pos0,
                        spec_write_value(sv, dv, v),
                    )) implies (Value::Text(st)@ == v && self.pos == pos0 + spec_write_value(
                        sv,
                        dv,
                        v,
                    ).len()) by {
                    let sq = v->Text_0;
                    crate::tokens::lemma_first_index(sv, sq);
                    crate::tokens::lemma_first_index(dv, sq);
                }
            }
            Ok(Value::Text(st))
        }
    }

    /// A token or dictionary literal: a single-byte token names its table
    /// entry directly, a dictionary tag selects one of four 64-entry
    /// dictionaries and the following byte the word within it.
    fn read_token(
        &mut self,
        tag: u8,
        Ghost(sv): Ghost<Seq<Seq<char>>>,
        Ghost(dv): Ghost<Seq<Seq<char>>>,
    ) -> (r: Result<String, Error>)
        requires
            old(self).wf(),
            tag != 0,
            sv == old(self).tables.single.deep_view(),
            dv == old(self).tables.double.deep_view(),
        ensures
            final(self).wf(),
            final(self).buffer == old(self).buffer,
            final(self).tables == old(self).tables,
            old(self).pos <= final(self).pos,
            r matches Err(e) ==> crate::error::spec_frame_error(e) && e != Error::AesCipherFail,
            forall|i: int|
                (0 <= i < sv.len() && tag as int == i + 1) ==> (r matches Ok(out) && out@
                    == #[trigger] sv[i] && final(self).pos == old(self).pos),
            forall|i: int|
                (0 <= i < dv.len() && tag as int == 236 + i / 64 && at(
                    old(self).buffer@,
                    old(self).pos as int,
                    seq![(i % 64) as u8],
                )) ==> (r matches Ok(out) && out@ == #[trigger] dv[i] && final(self).pos == old(self).pos + 1),
    {
        if tag < crate::tag::DICTIONARY_ZERO {
            match self.tables.single_get((tag - 1) as usize) {
                Some(s) => Ok(s.clone()),
                None => Err(Error::InvalidToken),
            }
        } else if tag <= crate::tag::DICTIONARY_THREE {
            let ghost buf = self.buffer@;
            let ghost pos0 = self.pos as int;
            let b = self.read_u8()?;
            proof {
                assert forall|i: int|
                    (0 <= i < dv.len() && tag as int == 236 + i / 64 && at(
                        buf,
                        pos0,
                        seq![(#[trigger] (i % 64)) as u8],
                    )) implies (b as int == i % 64 && ((tag - 236) as int) * 64 + (i % 64)
                    == i) by {
                    lemma_at_index(buf, pos0, seq![(i % 64) as u8], 0);
                    vstd::arithmetic::div_mod::lemma_fundamental_div_mod(i, 64);
                }
            }
            if b >= 64 {
                return Err(Error::InvalidToken);
            }
            let index = ((tag - crate::tag::DICTIONARY_ZERO) as usize) * 64 + (b as usize);
            match self.tables.double_get(index) {
                Some(s) => Ok(s.clone()),
                None => Err(Error::InvalidToken),
            }
        } else {
            Err(Error::InvalidToken)
        }
    }

    /// A packed decimal or hex string: a length byte, then two characters to
    /// a byte, the odd last character alone in its high nibble. Reads back
    /// exactly the string whose packed form stands at the position.
    fn read_packed(&mut self, hex: bool) -> (r: Result<String, Error>)
        requires
            old(self).wf(),
        ensures
            final(self).wf(),
            final(self).buffer == old(self).buffer,
            final(self).tables == old(self).tables,
            old(self).pos <= final(self).pos,
            r matches Err(e) ==> crate::error::spec_frame_error(e) && e != Error::AesCipherFail,
            forall|s: Seq<char>|
                #![trigger spec_packed(s, hex)]
                (1 <= s.len() < 128 && spec_all_packable(s, hex) && at(
                    old(self).buffer@,
                    old(self).pos as int,
                    spec_packed(s, hex),
                )) ==> (r matches Ok(out) && out@ == s && final(self).pos == old(self).pos
                    + spec_packed(s, hex).len()),
    {
        let ghost buf = self.buffer@;
        let ghost pos0 = self.pos as int;
        let lead = self.read_u8()?;
        let odd: bool = lead >= 128;
        let half = (lead % 128) as usize;
        proof {
            assert forall|s: Seq<char>|
                (1 <= s.len() < 128 && spec_all_packable(s, hex) && at(
                    buf,
                    pos0,
                    spec_packed(s, hex),
                )) implies (half == (s.len() + 1) as int / 2 && odd == (s.len() % 2 == 1)
                && s.len() == 2 * half - (if odd { 1int } else { 0int })) by {
                lemma_packed_body_index(s, hex);
                assert(spec_packed(s, hex)[0] == buf[pos0]);
            }
        }
        if odd && half == 0 {
            return Err(Error::InvalidNibble);
        }
        let mut out = String::new();
        let mut i: usize = 0;
        while i < half
            invariant
                i <= half,
                half < 128,
                self.wf(),
                self.buffer == old(self).buffer,
                self.buffer@ == buf,
                self.tables == old(self).tables,
                pos0 == old(self).pos,
                self.pos == pos0 + 1 + i,
                !(odd && half == 0),
                forall|s: Seq<char>|
                    #![trigger spec_packed(s, hex)]
                    (1 <= s.len() < 128 && spec_all_packable(s, hex) && at(
                        buf,
                        pos0,
                        spec_packed(s, hex),
                    )) ==> (half == (s.len() + 1) as int / 2 && odd == (s.len() % 2 == 1) && out@
                        == s.take(if 2 * i <= s.len() {
                        2 * i as int
                    } else {
                        s.len() as int
                    })),
            decreases half - i,
        {
            let b = match self.read_u8() {
                Ok(b) => b,
                Err(e) => {
                    proof {
                        assert forall|s: Seq<char>|
                            (1 <= s.len() < 128 && spec_all_packable(s, hex) && at(
                                buf,
                                pos0,
                                spec_packed(s, hex),
                            )) implies false by {
                            lemma_packed_body_index(s, hex);
                            assert(pos0 + 1 + half <= buf.len());
                        }
                    }
                    return Err(e);
                },
            };
            let hi = b / 16;
            let lo = b % 16;
            let ghost out_before = out@;
            proof {
                assert forall|s: Seq<char>|
                    (1 <= s.len() < 128 && spec_all_packable(s, hex) && at(
                        buf,
                        pos0,
                        spec_packed(s, hex),
                    )) implies (spec_code_valid(hi as int, hex) && (!(odd && i == half - 1)
                    ==> spec_code_valid(lo as int, hex))) by {
                    lemma_packed_body_index(s, hex);
                    assert(spec_packed(s, hex)[1 + i] == buf[pos0 + 1 + i]);
                    assert(spec_packed_body(s, hex)[i as int] == b);
                    if odd && i == half - 1 {
                        lemma_unpack_pack(s[s.len() - 1], hex);
                        assert(b as int == spec_pack_code(s[s.len() - 1], hex) * 16 + 15);
                    } else {
                        lemma_unpack_pack(s[2 * i as int], hex);
                        lemma_unpack_pack(s[2 * i + 1], hex);
                        assert(b as int == spec_pack_code(s[2 * i as int], hex) * 16
                            + spec_pack_code(s[2 * i + 1], hex));
                    }
                }
            }
            let cs = unpack_char_str(hi, hex)?;
            out.append(cs);
            if !(odd && i == half - 1) {
                let cs2 = unpack_char_str(lo, hex)?;
                out.append(cs2);
            }
            proof {
                assert forall|s: Seq<char>|
                    (1 <= s.len() < 128 && spec_all_packable(s, hex) && at(
                        buf,
                        pos0,
                        spec_packed(s, hex),
                    )) implies (out@ == s.take(if 2 * (i + 1) <= s.len() {
                    2 * (i + 1)
                } else {
                    s.len() as int
                })) by {
                    lemma_packed_body_index(s, hex);
                    assert(spec_packed(s, hex)[1 + i] == buf[pos0 + 1 + i]);
                    assert(spec_packed_body(s, hex)[i as int] == b);
                    if odd && i == half - 1 {
                        lemma_unpack_pack(s[s.len() - 1], hex);
                        assert(b as int == spec_pack_code(s[s.len() - 1], hex) * 16 + 15);
                        assert(hi as int == spec_pack_code(s[s.len() - 1], hex));
                        assert(out@ =~= s.take(s.len() as int));
                    } else {
                        lemma_unpack_pack(s[2 * i as int], hex);
                        lemma_unpack_pack(s[2 * i + 1], hex);
                        assert(b as int == spec_pack_code(s[2 * i as int], hex) * 16
                            + spec_pack_code(s[2 * i + 1], hex));
                        assert(hi as int == spec_pack_code(s[2 * i as int], hex));
                        assert(lo as int == spec_pack_code(s[2 * i + 1], hex));
                        assert(out@ =~= s.take(2 * (i + 1)));
                    }
                }
            }
            i += 1;
        }
        proof {
            assert forall|s: Seq<char>|
                (1 <= s.len() < 128 && spec_all_packable(s, hex) && at(
                    buf,
                    pos0,
                    spec_packed(s, hex),
                )) implies (out@ == s && self.pos == pos0 + spec_packed(s, hex).len()) by {
                lemma_packed_body_index(s, hex);
                assert(s.take(s.len() as int) =~= s);
            }
        }
        Ok(out)
    }

    /// A length-prefixed blob: text when the bytes are valid UTF-8, raw bytes
    /// otherwise in content position; in attribute position the text has its
    /// left-to-right marks stripped, and bytes that are not UTF-8 are an
    /// error. Reads back exactly the text or blob whose bytes stand at the
    /// position.
    fn read_string_until(&mut self, n: usize, parse: bool) -> (r: Result<Value, Error>)
        requires
            old(self).wf(),
        ensures
            final(self).wf(),
            final(self).buffer == old(self).buffer,
            final(self).tables == old(self).tables,
            old(self).pos <= final(self).pos,
            r matches Err(e) ==> crate::error::spec_frame_error(e) && e != Error::AesCipherFail,
            forall|sq: Seq<char>|
                #![trigger encode_utf8(sq)]
                (n == encode_utf8(sq).len() && at(
                    old(self).buffer@,
                    old(self).pos as int,
                    encode_utf8(sq),
                ) && !spec_contains_char(sq, '\u{200E}')) ==> (r matches Ok(val) && val@
                    == ValueV::Text(sq) && final(self).pos == old(self).pos + n),
            forall|bs: Seq<u8>|
                #![trigger valid_utf8(bs)]
                (!parse && n == bs.len() && at(old(self).buffer@, old(self).pos as int, bs)
                    && !valid_utf8(bs)) ==> (r matches Ok(val) && val@ == ValueV::Bytes(bs)
                    && final(self).pos == old(self).pos + n),
    {
        let ghost buf = self.buffer@;
        let ghost pos0 = self.pos as int;
        let data = self.read_bytes(n)?;
        let ghost dv = data@;
        proof {
            assert forall|sq: Seq<char>|
                (n == encode_utf8(sq).len() && at(buf, pos0, encode_utf8(sq))
                    && !spec_contains_char(sq, '\u{200E}')) implies (valid_utf8(dv)
                && decode_utf8(dv) == sq) by {
                vstd::utf8::encode_utf8_valid_utf8(sq);
                vstd::utf8::encode_utf8_decode_utf8(sq);
                assert(dv =~= encode_utf8(sq));
            }
        }
        if parse {
            match utf8_to_string(data) {
                Some(st) => {
                    let out = strip_lrm(st)?;
                    Ok(Value::Text(out))
                },
                None => Err(Error::InvalidString),
            }
        } else {
            let data2 = crate::clone_bytes(&data);
            match utf8_to_string(data) {
                Some(st) => Ok(Value::Text(st)),
                None => Ok(Value::Bytes(data2)),
            }
        }
    }

    /// The node list behind a list tag. Reads back exactly the nodes whose
    /// wire forms stand at the position, as many as the count says.
    #[verifier::rlimit(100)]
    fn read_list(
        &mut self,
        count: usize,
        Ghost(sv): Ghost<Seq<Seq<char>>>,
        Ghost(dv): Ghost<Seq<Seq<char>>>,
    ) -> (r: Result<Vec<Node>, Error>)
        requires
            old(self).wf(),
            sv == old(self).tables.single.deep_view(),
            dv == old(self).tables.double.deep_view(),
        ensures
            final(self).wf(),
            final(self).buffer == old(self).buffer,
            final(self).tables == old(self).tables,
            old(self).pos <= final(self).pos,
            r matches Err(e) ==> crate::error::spec_frame_error(e) && e != Error::AesCipherFail,
            forall|ns: Seq<NodeV>|
                #![trigger spec_write_nodes(sv, dv, ns)]
                (spec_nodes_decodable(sv, dv, ns) && count == ns.len() && at(
                    old(self).buffer@,
                    old(self).pos as int,
                    spec_write_nodes(sv, dv, ns),
                )) ==> (r matches Ok(out) && crate::node::spec_nodes_view(out@) == ns && final(self).pos == old(self).pos + spec_write_nodes(sv, dv, ns).len()),
        decreases old(self).buffer@.len() - old(self).pos, 1int,
    {
        let ghost buf = self.buffer@;
        let ghost pos0 = self.pos as int;
        let mut out: Vec<Node> = Vec::new();
        let mut i: usize = 0;
        while i < count
            invariant
                i <= count,
                self.wf(),
                self.buffer == old(self).buffer,
                self.buffer@ == buf,
                self.tables == old(self).tables,
                sv == self.tables.single.deep_view(),
                dv == self.tables.double.deep_view(),
                pos0 == old(self).pos,
                buf == old(self).buffer@,
                pos0 <= self.pos as int,
                out@.len() == i,
                forall|ns: Seq<NodeV>|
                    #![trigger spec_write_nodes(sv, dv, ns)]
                    (spec_nodes_decodable(sv, dv, ns) && count == ns.len() && at(
                        buf,
                        pos0,
                        spec_write_nodes(sv, dv, ns),
                    )) ==> (crate::node::spec_nodes_view(out@) == ns.take(i as int) && self.pos
                        == pos0 + spec_write_nodes(sv, dv, ns.take(i as int)).len()),
            decreases count - i,
        {
            let ghost posi = self.pos as int;
            proof {
                assert forall|ns: Seq<NodeV>|
                    #![trigger spec_write_nodes(sv, dv, ns)]
                    (spec_nodes_decodable(sv, dv, ns) && count == ns.len() && at(
                        buf,
                        pos0,
                        spec_write_nodes(sv, dv, ns),
                    )) implies (spec_node_decodable(sv, dv, ns[i as int]) && at(
                    buf,
                    posi,
                    spec_write_node(sv, dv, ns[i as int]),
                )) by {
                    lemma_nodes_decodable_index(sv, dv, ns);
                    lemma_write_nodes_split(sv, dv, ns, i as int);
                    lemma_at_split(
                        buf,
                        pos0,
                        spec_write_nodes(sv, dv, ns.take(i as int)),
                        spec_write_node_or_empty(sv, dv, ns[i as int]) + spec_write_nodes(
                            sv,
                            dv,
                            ns.skip(i + 1),
                        ),
                    );
                    lemma_at_split(
                        buf,
                        posi,
                        spec_write_node_or_empty(sv, dv, ns[i as int]),
                        spec_write_nodes(sv, dv, ns.skip(i + 1)),
                    );
                    assert(spec_write_node_or_empty(sv, dv, ns[i as int]) == spec_write_node(
                        sv,
                        dv,
                        ns[i as int],
                    ));
                }
            }
            let node = match self.read_node(Ghost(sv), Ghost(dv)) {
                Ok(node) => node,
                Err(e) => {
                    proof {
                        assert forall|ns: Seq<NodeV>|
                            #![trigger spec_write_nodes(sv, dv, ns)]
                            (spec_nodes_decodable(sv, dv, ns) && count == ns.len() && at(
                                buf,
                                pos0,
                                spec_write_nodes(sv, dv, ns),
                            )) implies false by {}
                    }
                    return Err(e);
                },
            };
            let ghost out_before = out@;
            out.push(node);
            proof {
                assert forall|ns: Seq<NodeV>|
                    #![trigger spec_write_nodes(sv, dv, ns)]
                    (spec_nodes_decodable(sv, dv, ns) && count == ns.len() && at(
                        buf,
                        pos0,
                        spec_write_nodes(sv, dv, ns),
                    )) implies (crate::node::spec_nodes_view(out@) == ns.take(i + 1)
                    && self.pos as int == pos0 + spec_write_nodes(sv, dv, ns.take(i + 1)).len())
                    by {
                    crate::node::lemma_nodes_view(out@);
                    crate::node::lemma_nodes_view(out_before);
                    assert(out@.drop_last() =~= out_before);
                    assert(crate::node::spec_nodes_view(out_before) == ns.take(i as int));
                    assert(crate::node::spec_nodes_view(out@) =~= ns.take(i + 1)) by {
                        assert(forall|k: int| 0 <= k < i ==> out@[k] == out_before[k]);
                        assert(forall|k: int|
                            0 <= k < i ==> crate::node::spec_nodes_view(out_before)[k]
                                == crate::node::spec_node_view(out_before[k]));
                        assert(out@[i as int] == node);
                    }
                    crate::encoder::lemma_write_nodes_take_step(sv, dv, ns, i as int);
                    assert(spec_write_node_or_empty(sv, dv, ns[i as int]) == spec_write_node(
                        sv,
                        dv,
                        ns[i as int],
                    )) by {
                        lemma_nodes_decodable_index(sv, dv, ns);
                    }
                }
            }
            i += 1;
        }
        proof {
            assert forall|ns: Seq<NodeV>|
                #![trigger spec_write_nodes(sv, dv, ns)]
                (spec_nodes_decodable(sv, dv, ns) && count == ns.len() && at(
                    buf,
                    pos0,
                    spec_write_nodes(sv, dv, ns),
                )) implies (crate::node::spec_nodes_view(out@) == ns && self.pos as int == pos0
                + spec_write_nodes(sv, dv, ns).len()) by {
                assert(ns.take(count as int) =~= ns);
            }
        }
        Ok(out)
    }

    /// A user/server JID pair: a possibly-null user string, then the server
    /// address suffix. Reads back exactly the identity whose wire form
    /// follows its tag.
    #[verifier::rlimit(100)]
    fn read_jid_pair(
        &mut self,
        Ghost(sv): Ghost<Seq<Seq<char>>>,
        Ghost(dv): Ghost<Seq<Seq<char>>>,
    ) -> (r: Result<Value, Error>)
        requires
            old(self).wf(),
            sv == old(self).tables.single.deep_view(),
            dv == old(self).tables.double.deep_view(),
        ensures
            final(self).wf(),
            final(self).buffer == old(self).buffer,
            final(self).tables == old(self).tables,
            old(self).pos <= final(self).pos,
            r matches Err(e) ==> crate::error::spec_frame_error(e) && e != Error::AesCipherFail,
            forall|j: JidV|
                #![trigger spec_write_jid(sv, dv, j)]
                (spec_jid_decodable(sv, dv, j) && j.device == 0 && at(
                    old(self).buffer@,
                    old(self).pos as int,
                    spec_write_jid(sv, dv, j).skip(1),
                )) ==> (r matches Ok(val) && val@ == ValueV::Jid(j) && final(self).pos == old(self).pos + spec_write_jid(sv, dv, j).skip(1).len()),
        decreases old(self).buffer@.len() - old(self).pos, 1int,
    {
        let ghost buf = self.buffer@;
        let ghost pos0 = self.pos as int;
        proof {
            assert forall|j: JidV|
                #![trigger spec_write_jid(sv, dv, j)]
                (spec_jid_decodable(sv, dv, j) && j.device == 0 && at(
                    buf,
                    pos0,
                    spec_write_jid(sv, dv, j).skip(1),
                )) implies ({
                let user_part = if j.user.len() == 0 {
                    seq![crate::tag::LIST_EMPTY]
                } else {
                    spec_write_string(sv, dv, j.user)
                };
                &&& at(buf, pos0, user_part)
                &&& at(buf, pos0 + user_part.len(), spec_write_string(
                    sv,
                    dv,
                    spec_server_addr(j.server),
                ))
                &&& spec_write_jid(sv, dv, j).skip(1).len() == user_part.len()
                    + spec_write_string(sv, dv, spec_server_addr(j.server)).len()
                &&& spec_string_decodable(sv, dv, j.user)
                &&& spec_string_decodable(sv, dv, spec_server_addr(j.server))
                &&& (j.user.len() == 0 ==> buf[pos0] == crate::tag::LIST_EMPTY)
            }) by {
                lemma_jid_pair_layout(sv, dv, j, buf, pos0);
                if j.user.len() == 0 {
                    lemma_at_index(buf, pos0, seq![crate::tag::LIST_EMPTY], 0);
                }
            }
        }
        let user: String = match self.read(true, Ghost(sv), Ghost(dv)) {
            Ok(Value::Text(st)) => st,
            Ok(Value::Null) => String::new(),
            Ok(_) => {
                proof {
                    assert forall|j: JidV|
                        #![trigger spec_write_jid(sv, dv, j)]
                        (spec_jid_decodable(sv, dv, j) && j.device == 0 && at(
                            buf,
                            pos0,
                            spec_write_jid(sv, dv, j).skip(1),
                        )) implies false by {
                        if j.user.len() == 0 {
                            assert(at(buf, pos0, spec_write_value(sv, dv, ValueV::Null))) by {
                                assert(spec_write_value(sv, dv, ValueV::Null) =~= seq![
                                    crate::tag::LIST_EMPTY,
                                ]);
                            }
                            assert(spec_value_decodable(sv, dv, ValueV::Null, true));
                        } else {
                            assert(spec_write_value(sv, dv, ValueV::Text(j.user))
                                == spec_write_string(sv, dv, j.user));
                            assert(spec_value_decodable(sv, dv, ValueV::Text(j.user), true));
                        }
                    }
                }
                return Err(Error::InvalidJid);
            },
            Err(e) => {
                proof {
                    assert forall|j: JidV|
                        #![trigger spec_write_jid(sv, dv, j)]
                        (spec_jid_decodable(sv, dv, j) && j.device == 0 && at(
                            buf,
                            pos0,
                            spec_write_jid(sv, dv, j).skip(1),
                        )) implies false by {
                        if j.user.len() == 0 {
                            assert(at(buf, pos0, spec_write_value(sv, dv, ValueV::Null))) by {
                                assert(spec_write_value(sv, dv, ValueV::Null) =~= seq![
                                    crate::tag::LIST_EMPTY,
                                ]);
                            }
                            assert(spec_value_decodable(sv, dv, ValueV::Null, true));
                        } else {
                            assert(spec_write_value(sv, dv, ValueV::Text(j.user))
                                == spec_write_string(sv, dv, j.user));
                            assert(spec_value_decodable(sv, dv, ValueV::Text(j.user), true));
                        }
                    }
                }
                return Err(e);
            },
        };
        let ghost poss = self.pos as int;
        proof {
            assert forall|j: JidV|
                #![trigger spec_write_jid(sv, dv, j)]
                (spec_jid_decodable(sv, dv, j) && j.device == 0 && at(
                    buf,
                    pos0,
                    spec_write_jid(sv, dv, j).skip(1),
                )) implies (user@ == j.user && poss == pos0 + (if j.user.len() == 0 {
                1int
            } else {
                spec_write_string(sv, dv, j.user).len() as int
            }) && at(buf, poss, spec_write_string(sv, dv, spec_server_addr(j.server)))) by {
                lemma_jid_pair_layout(sv, dv, j, buf, pos0);
                if j.user.len() == 0 {
                    assert(at(buf, pos0, spec_write_value(sv, dv, ValueV::Null))) by {
                        assert(spec_write_value(sv, dv, ValueV::Null) =~= seq![
                            crate::tag::LIST_EMPTY,
                        ]);
                    }
                    assert(spec_value_decodable(sv, dv, ValueV::Null, true));
                    assert(user@ =~= j.user);
                } else {
                    assert(spec_write_value(sv, dv, ValueV::Text(j.user)) == spec_write_string(
                        sv,
                        dv,
                        j.user,
                    ));
                    assert(spec_value_decodable(sv, dv, ValueV::Text(j.user), true));
                }
            }
        }
        let suffix = match self.read_string(Ghost(sv), Ghost(dv)) {
            Ok(sfx) => sfx,
            Err(e) => {
                proof {
                    assert forall|j: JidV|
                        #![trigger spec_write_jid(sv, dv, j)]
                        (spec_jid_decodable(sv, dv, j) && j.device == 0 && at(
                            buf,
                            pos0,
                            spec_write_jid(sv, dv, j).skip(1),
                        )) implies false by {
                        lemma_jid_pair_layout(sv, dv, j, buf, pos0);
                    }
                }
                return Err(e);
            },
        };
        let server = Server::of(suffix.as_str());
        proof {
            assert forall|j: JidV|
                #![trigger spec_write_jid(sv, dv, j)]
                (spec_jid_decodable(sv, dv, j) && j.device == 0 && at(
                    buf,
                    pos0,
                    spec_write_jid(sv, dv, j).skip(1),
                )) implies (suffix@ == spec_server_addr(j.server) && server == j.server
                && self.pos == pos0 + spec_write_jid(sv, dv, j).skip(1).len()) by {
                lemma_jid_pair_layout(sv, dv, j, buf, pos0);
                lemma_server_of_addr(j.server);
            }
        }
        let jid = match ContactJid::from_complex(user, server) {
            Ok(jid) => jid,
            Err(e) => {
                proof {
                    assert forall|j: JidV|
                        #![trigger spec_write_jid(sv, dv, j)]
                        (spec_jid_decodable(sv, dv, j) && j.device == 0 && at(
                            buf,
                            pos0,
                            spec_write_jid(sv, dv, j).skip(1),
                        )) implies false by {
                        assert(crate::text::spec_find_char(j.user, '@') is None);
                        assert(crate::jid::spec_without_server(j.user) == j.user);
                        assert(crate::text::spec_find_char(j.user, ':') is None);
                        assert(crate::text::spec_find_char(j.user, '_') is None);
                        if j.user.len() == 0 {
                            assert(crate::jid::spec_from_complex(j.user, j.server) is Some);
                        }
                    }
                }
                return Err(e);
            },
        };
        proof {
            assert forall|j: JidV|
                #![trigger spec_write_jid(sv, dv, j)]
                (spec_jid_decodable(sv, dv, j) && j.device == 0 && at(
                    buf,
                    pos0,
                    spec_write_jid(sv, dv, j).skip(1),
                )) implies jid@ == j by {
                assert(crate::text::spec_find_char(j.user, '@') is None);
                assert(crate::jid::spec_without_server(j.user) == j.user);
                assert(crate::text::spec_find_char(j.user, ':') is None);
                assert(crate::text::spec_find_char(j.user, '_') is None);
                if j.user.len() == 0 {
                    assert(jid@ =~= j);
                } else {
                    assert(crate::jid::spec_from_complex(j.user, j.server) == Some(
                        JidV { user: j.user, server: j.server, device: 0, agent: 0 },
                    ));
                    assert(jid@ =~= j);
                }
            }
        }
        Ok(Value::Jid(jid))
    }

    /// A companion JID: agent and device bytes, then the user string. Reads
    /// back exactly the companion identity whose wire form follows its tag.
    fn read_companion_jid(
        &mut self,
        Ghost(sv): Ghost<Seq<Seq<char>>>,
        Ghost(dv): Ghost<Seq<Seq<char>>>,
    ) -> (r: Result<Value, Error>)
        requires
            old(self).wf(),
            sv == old(self).tables.single.deep_view(),
            dv == old(self).tables.double.deep_view(),
        ensures
            final(self).wf(),
            final(self).buffer == old(self).buffer,
            final(self).tables == old(self).tables,
            old(self).pos <= final(self).pos,
            r matches Err(e) ==> crate::error::spec_frame_error(e) && e != Error::AesCipherFail,
            forall|j: JidV|
                #![trigger spec_write_jid(sv, dv, j)]
                (spec_jid_decodable(sv, dv, j) && j.device != 0 && at(
                    old(self).buffer@,
                    old(self).pos as int,
                    spec_write_jid(sv, dv, j).skip(1),
                )) ==> (r matches Ok(val) && val@ == ValueV::Jid(j) && final(self).pos == old(self).pos + spec_write_jid(sv, dv, j).skip(1).len()),
        decreases old(self).buffer@.len() - old(self).pos, 1int,
    {
        let ghost buf = self.buffer@;
        let ghost pos0 = self.pos as int;
        proof {
            assert forall|j: JidV|
                #![trigger spec_write_jid(sv, dv, j)]
                (spec_jid_decodable(sv, dv, j) && j.device != 0 && at(
                    buf,
                    pos0,
                    spec_write_jid(sv, dv, j).skip(1),
                )) implies (at(buf, pos0, seq![j.agent as u8, j.device as u8]) && at(
                buf,
                pos0 + 2,
                spec_write_string(sv, dv, j.user),
            ) && spec_string_decodable(sv, dv, j.user) && spec_write_jid(sv, dv, j).skip(1).len()
                == 2 + spec_write_string(sv, dv, j.user).len() && buf[pos0] == j.agent as u8
                && buf[pos0 + 1] == j.device as u8) by {
                assert(spec_write_jid(sv, dv, j).skip(1) =~= seq![j.agent as u8, j.device as u8]
                    + spec_write_string(sv, dv, j.user));
                lemma_at_split(
                    buf,
                    pos0,
                    seq![j.agent as u8, j.device as u8],
                    spec_write_string(sv, dv, j.user),
                );
                lemma_at_index(buf, pos0, seq![j.agent as u8, j.device as u8], 0);
                lemma_at_index(buf, pos0, seq![j.agent as u8, j.device as u8], 1);
            }
        }
        let agent = self.read_u8()?;
        let device = self.read_u8()?;
        let user = self.read_string(Ghost(sv), Ghost(dv))?;
        let out = ContactJid::from_companion(user, device as u32, agent as u32);
        proof {
            assert forall|j: JidV|
                #![trigger spec_write_jid(sv, dv, j)]
                (spec_jid_decodable(sv, dv, j) && j.device != 0 && at(
                    buf,
                    pos0,
                    spec_write_jid(sv, dv, j).skip(1),
                )) implies (out@ == j && self.pos == pos0 + spec_write_jid(sv, dv, j).skip(
                1,
            ).len()) by {
                assert(agent as u32 == j.agent);
                assert(device as u32 == j.device);
                assert(crate::text::spec_find_char(j.user, '@') is None);
                assert(crate::jid::spec_without_server(j.user) == j.user);
                assert(out@ =~= j);
            }
        }
        Ok(Value::Jid(out))
    }

    /// One node: a size field, a description, the attribute pairs, and the
    /// content when the size is even. Reads back exactly the node whose wire
    /// form stands at the position.
    #[verifier::rlimit(100)]
    fn read_node(
        &mut self,
        Ghost(sv): Ghost<Seq<Seq<char>>>,
        Ghost(dv): Ghost<Seq<Seq<char>>>,
    ) -> (r: Result<Node, Error>)
        requires
            old(self).wf(),
            sv == old(self).tables.single.deep_view(),
            dv == old(self).tables.double.deep_view(),
        ensures
            final(self).wf(),
            final(self).buffer == old(self).buffer,
            final(self).tables == old(self).tables,
            old(self).pos <= final(self).pos,
            r is Ok ==> final(self).pos > old(self).pos,
            r matches Err(e) ==> crate::error::spec_frame_error(e) && e != Error::AesCipherFail,
            forall|v: NodeV|
                #![trigger spec_write_node(sv, dv, v)]
                (spec_node_decodable(sv, dv, v) && at(
                    old(self).buffer@,
                    old(self).pos as int,
                    spec_write_node(sv, dv, v),
                )) ==> (r matches Ok(node) && node@ == v && final(self).pos == old(self).pos
                    + spec_write_node(sv, dv, v).len()),
        decreases old(self).buffer@.len() - old(self).pos, 0int,
    {
        let ghost buf = self.buffer@;
        let ghost pos0 = self.pos as int;
        proof {
            assert forall|v: NodeV|
                #![trigger spec_write_node(sv, dv, v)]
                (spec_node_decodable(sv, dv, v) && at(buf, pos0, spec_write_node(sv, dv, v)))
                implies (buf[pos0] == spec_write_size(crate::node::spec_node_size(v))[0] && at(
                buf,
                pos0 + 1,
                spec_write_size(crate::node::spec_node_size(v)).skip(1),
            ) && 1 <= crate::node::spec_node_size(v) < 0x10000 && spec_write_node(
                sv,
                dv,
                v,
            ).len() >= 2) by {
                lemma_node_layout(sv, dv, v, buf, pos0);
            }
        }
        let token = match self.read_u8() {
            Ok(token) => token,
            Err(e) => {
                proof {
                    assert forall|v: NodeV|
                        #![trigger spec_write_node(sv, dv, v)]
                        (spec_node_decodable(sv, dv, v) && at(
                            buf,
                            pos0,
                            spec_write_node(sv, dv, v),
                        )) implies false by {}
                }
                return Err(e);
            },
        };
        let size = match self.read_size(token) {
            Ok(size) => size,
            Err(e) => {
                proof {
                    assert forall|v: NodeV|
                        #![trigger spec_write_node(sv, dv, v)]
                        (spec_node_decodable(sv, dv, v) && at(
                            buf,
                            pos0,
                            spec_write_node(sv, dv, v),
                        )) implies false by {
                        assert(token == spec_write_size(crate::node::spec_node_size(v))[0]);
                    }
                }
                return Err(e);
            },
        };
        proof {
            assert forall|v: NodeV|
                #![trigger spec_write_node(sv, dv, v)]
                (spec_node_decodable(sv, dv, v) && at(buf, pos0, spec_write_node(sv, dv, v)))
                implies (size as int == crate::node::spec_node_size(v) && self.pos as int == pos0
                + spec_write_size(crate::node::spec_node_size(v)).len()) by {
                assert(token == spec_write_size(crate::node::spec_node_size(v))[0]);
            }
        }
        if size == 0 {
            proof {
                assert forall|v: NodeV|
                    #![trigger spec_write_node(sv, dv, v)]
                    (spec_node_decodable(sv, dv, v) && at(
                        buf,
                        pos0,
                        spec_write_node(sv, dv, v),
                    )) implies false by {}
            }
            return Err(Error::NoNode);
        }
        let ghost posd = self.pos as int;
        let description = match self.read_string(Ghost(sv), Ghost(dv)) {
            Ok(d) => d,
            Err(e) => {
                proof {
                    assert forall|v: NodeV|
                        #![trigger spec_write_node(sv, dv, v)]
                        (spec_node_decodable(sv, dv, v) && at(
                            buf,
                            pos0,
                            spec_write_node(sv, dv, v),
                        )) implies false by {
                        lemma_node_layout(sv, dv, v, buf, pos0);
                    }
                }
                return Err(e);
            },
        };
        let ghost posa = self.pos as int;
        proof {
            assert forall|v: NodeV|
                #![trigger spec_write_node(sv, dv, v)]
                (spec_node_decodable(sv, dv, v) && at(buf, pos0, spec_write_node(sv, dv, v)))
                implies (description@ == v.description && posa == pos0 + spec_write_size(
                crate::node::spec_node_size(v),
            ).len() + spec_write_string(sv, dv, v.description).len() && (size - 1) as int / 2
                == v.attributes.len() && at(buf, posa, spec_write_attrs(sv, dv, v.attributes)))
                by {
                lemma_node_layout(sv, dv, v, buf, pos0);
                assert(posd == pos0 + spec_write_size(crate::node::spec_node_size(v)).len());
                assert(at(buf, posd, spec_write_string(sv, dv, v.description)));
                assert(spec_string_decodable(sv, dv, v.description));
                assert(crate::node::spec_node_size(v) == 2 * v.attributes.len() + (
                if v.content is Null {
                    0int
                } else {
                    1int
                }) + 1);
            }
        }
        let attributes = match self.read_attribute(size, Ghost(sv), Ghost(dv)) {
            Ok(a) => a,
            Err(e) => {
                proof {
                    assert forall|v: NodeV|
                        #![trigger spec_write_node(sv, dv, v)]
                        (spec_node_decodable(sv, dv, v) && at(
                            buf,
                            pos0,
                            spec_write_node(sv, dv, v),
                        )) implies false by {}
                }
                return Err(e);
            },
        };
        let ghost posc = self.pos as int;
        proof {
            assert forall|v: NodeV|
                #![trigger spec_write_node(sv, dv, v)]
                (spec_node_decodable(sv, dv, v) && at(buf, pos0, spec_write_node(sv, dv, v)))
                implies (crate::node::spec_attrs_view(attributes@) == v.attributes && posc == pos0
                + spec_write_size(crate::node::spec_node_size(v)).len() + spec_write_string(
                sv,
                dv,
                v.description,
            ).len() + spec_write_attrs(sv, dv, v.attributes).len() && ((size % 2 != 0)
                <==> v.content is Null)) by {
                lemma_node_layout(sv, dv, v, buf, pos0);
                assert(crate::node::spec_node_size(v) == 2 * v.attributes.len() + (
                if v.content is Null {
                    0int
                } else {
                    1int
                }) + 1);
            }
        }
        if size % 2 != 0 {
            let node = Node::from_attributes(description, attributes);
            proof {
                assert forall|v: NodeV|
                    #![trigger spec_write_node(sv, dv, v)]
                    (spec_node_decodable(sv, dv, v) && at(
                        buf,
                        pos0,
                        spec_write_node(sv, dv, v),
                    )) implies (node@ == v && self.pos as int == pos0 + spec_write_node(
                    sv,
                    dv,
                    v,
                ).len()) by {
                    lemma_node_layout(sv, dv, v, buf, pos0);
                    assert(node@ =~= v);
                }
            }
            Ok(node)
        } else {
            let content = match self.read(false, Ghost(sv), Ghost(dv)) {
                Ok(c) => c,
                Err(e) => {
                    proof {
                        assert forall|v: NodeV|
                            #![trigger spec_write_node(sv, dv, v)]
                            (spec_node_decodable(sv, dv, v) && at(
                                buf,
                                pos0,
                                spec_write_node(sv, dv, v),
                            )) implies false by {
                            lemma_node_layout(sv, dv, v, buf, pos0);
                        }
                    }
                    return Err(e);
                },
            };
            let node = Node::new(description, attributes, content);
            proof {
                assert forall|v: NodeV|
                    #![trigger spec_write_node(sv, dv, v)]
                    (spec_node_decodable(sv, dv, v) && at(
                        buf,
                        pos0,
                        spec_write_node(sv, dv, v),
                    )) implies (node@ == v && self.pos as int == pos0 + spec_write_node(
                    sv,
                    dv,
                    v,
                ).len()) by {
                    lemma_node_layout(sv, dv, v, buf, pos0);
                    assert(node@ =~= v);
                }
            }
            Ok(node)
        }
    }

    /// The attribute pairs a size field announces. Reads back exactly the
    /// pairs whose wire forms stand at the position.
    #[verifier::rlimit(100)]
    fn read_attribute(
        &mut self,
        size: usize,
        Ghost(sv): Ghost<Seq<Seq<char>>>,
        Ghost(dv): Ghost<Seq<Seq<char>>>,
    ) -> (r: Result<Vec<(String, Value)>, Error>)
        requires
            old(self).wf(),
            size >= 1,
            sv == old(self).tables.single.deep_view(),
            dv == old(self).tables.double.deep_view(),
        ensures
            final(self).wf(),
            final(self).buffer == old(self).buffer,
            final(self).tables == old(self).tables,
            old(self).pos <= final(self).pos,
            r matches Err(e) ==> crate::error::spec_frame_error(e) && e != Error::AesCipherFail,
            forall|ats: Seq<(Seq<char>, ValueV)>|
                #![trigger spec_write_attrs(sv, dv, ats)]
                (spec_attrs_decodable(sv, dv, ats) && (size - 1) as int / 2 == ats.len() && at(
                    old(self).buffer@,
                    old(self).pos as int,
                    spec_write_attrs(sv, dv, ats),
                )) ==> (r matches Ok(out) && crate::node::spec_attrs_view(out@) == ats && final(self).pos == old(self).pos + spec_write_attrs(sv, dv, ats).len()),
        decreases old(self).buffer@.len() - old(self).pos, 2int,
    {
        let ghost buf = self.buffer@;
        let ghost pos0 = self.pos as int;
        let count = (size - 1) / 2;
        let mut out: Vec<(String, Value)> = Vec::new();
        let mut i: usize = 0;
        while i < count
            invariant
                i <= count,
                count == (size - 1) as int / 2,
                self.wf(),
                self.buffer == old(self).buffer,
                self.buffer@ == buf,
                self.tables == old(self).tables,
                sv == self.tables.single.deep_view(),
                dv == self.tables.double.deep_view(),
                pos0 == old(self).pos,
                buf == old(self).buffer@,
                pos0 <= self.pos as int,
                out@.len() == i,
                forall|ats: Seq<(Seq<char>, ValueV)>|
                    #![trigger spec_write_attrs(sv, dv, ats)]
                    (spec_attrs_decodable(sv, dv, ats) && count as int == ats.len() && at(
                        buf,
                        pos0,
                        spec_write_attrs(sv, dv, ats),
                    )) ==> (crate::node::spec_attrs_view(out@) == ats.take(i as int) && self.pos
                        == pos0 + spec_write_attrs(sv, dv, ats.take(i as int)).len()),
            decreases count - i,
        {
            let ghost posi = self.pos as int;
            proof {
                assert forall|ats: Seq<(Seq<char>, ValueV)>|
                    #![trigger spec_write_attrs(sv, dv, ats)]
                    (spec_attrs_decodable(sv, dv, ats) && count as int == ats.len() && at(
                        buf,
                        pos0,
                        spec_write_attrs(sv, dv, ats),
                    )) implies (spec_string_decodable(sv, dv, ats[i as int].0)
                    && spec_value_decodable(sv, dv, ats[i as int].1, true) && at(
                    buf,
                    posi,
                    spec_write_string(sv, dv, ats[i as int].0),
                ) && at(
                    buf,
                    posi + spec_write_string(sv, dv, ats[i as int].0).len(),
                    spec_write_value(sv, dv, ats[i as int].1),
                )) by {
                    lemma_attrs_decodable_index(sv, dv, ats);
                    lemma_write_attrs_split(sv, dv, ats, i as int);
                    lemma_at_split(
                        buf,
                        pos0,
                        spec_write_attrs(sv, dv, ats.take(i as int)),
                        spec_write_string(sv, dv, ats[i as int].0) + (spec_write_value(
                            sv,
                            dv,
                            ats[i as int].1,
                        ) + spec_write_attrs(sv, dv, ats.skip(i + 1))),
                    );
                    lemma_at_split(
                        buf,
                        posi,
                        spec_write_string(sv, dv, ats[i as int].0),
                        spec_write_value(sv, dv, ats[i as int].1) + spec_write_attrs(
                            sv,
                            dv,
                            ats.skip(i + 1),
                        ),
                    );
                    lemma_at_split(
                        buf,
                        posi + spec_write_string(sv, dv, ats[i as int].0).len(),
                        spec_write_value(sv, dv, ats[i as int].1),
                        spec_write_attrs(sv, dv, ats.skip(i + 1)),
                    );
                }
            }
            let key = match self.read_string(Ghost(sv), Ghost(dv)) {
                Ok(key) => key,
                Err(e) => {
                    proof {
                        assert forall|ats: Seq<(Seq<char>, ValueV)>|
                            #![trigger spec_write_attrs(sv, dv, ats)]
                            (spec_attrs_decodable(sv, dv, ats) && count as int == ats.len() && at(
                                buf,
                                pos0,
                                spec_write_attrs(sv, dv, ats),
                            )) implies false by {}
                    }
                    return Err(e);
                },
            };
            let value = match self.read(true, Ghost(sv), Ghost(dv)) {
                Ok(value) => value,
                Err(e) => {
                    proof {
                        assert forall|ats: Seq<(Seq<char>, ValueV)>|
                            #![trigger spec_write_attrs(sv, dv, ats)]
                            (spec_attrs_decodable(sv, dv, ats) && count as int == ats.len() && at(
                                buf,
                                pos0,
                                spec_write_attrs(sv, dv, ats),
                            )) implies false by {}
                    }
                    return Err(e);
                },
            };
            let ghost out_before = out@;
            out.push((key, value));
            proof {
                assert forall|ats: Seq<(Seq<char>, ValueV)>|
                    #![trigger spec_write_attrs(sv, dv, ats)]
                    (spec_attrs_decodable(sv, dv, ats) && count as int == ats.len() && at(
                        buf,
                        pos0,
                        spec_write_attrs(sv, dv, ats),
                    )) implies (crate::node::spec_attrs_view(out@) == ats.take(i + 1)
                    && self.pos as int == pos0 + spec_write_attrs(sv, dv, ats.take(i + 1)).len())
                    by {
                    crate::node::lemma_attrs_view(out@);
                    crate::node::lemma_attrs_view(out_before);
                    assert(out@.drop_last() =~= out_before);
                    assert(crate::node::spec_attrs_view(out_before) == ats.take(i as int));
                    assert(crate::node::spec_attrs_view(out@) =~= ats.take(i + 1)) by {
                        assert(forall|k: int| 0 <= k < i ==> out@[k] == out_before[k]);
                        assert(forall|k: int|
                            0 <= k < i ==> crate::node::spec_attrs_view(out_before)[k] == (
                                out_before[k].0@,
                                crate::node::spec_value_view(out_before[k].1),
                            ));
                        assert(out@[i as int] == (key, value));
                    }
                    crate::encoder::lemma_write_attrs_take_step(sv, dv, ats, i as int);
                }
            }
            i += 1;
        }
        proof {
            assert forall|ats: Seq<(Seq<char>, ValueV)>|
                #![trigger spec_write_attrs(sv, dv, ats)]
                (spec_attrs_decodable(sv, dv, ats) && count as int == ats.len() && at(
                    buf,
                    pos0,
                    spec_write_attrs(sv, dv, ats),
                )) implies (crate::node::spec_attrs_view(out@) == ats && self.pos as int == pos0
                + spec_write_attrs(sv, dv, ats).len()) by {
                assert(ats.take(count as int) =~= ats);
            }
        }
        Ok(out)
    }
}

/// The bytes of `input` from `start` on.
fn copy_tail(input: &[u8], start: usize) -> (r: Vec<u8>)
    requires
        start <= input@.len(),
    ensures
        r@ == input@.skip(start as int),
{
    let mut out: Vec<u8> = Vec::new();
    let n = input.len();
    let mut i: usize = start;
    while i < n
        invariant
            start <= i <= n,
            n == input@.len(),
            out@ == input@.subrange(start as int, i as int),
        decreases n - i,
    {
        out.push(input[i]);
        proof {
            assert(out@ =~= input@.subrange(start as int, i + 1));
        }
        i += 1;
    }
    proof {
        assert(out@ =~= input@.skip(start as int));
    }
    out
}

/// The bytes left after removing every three-byte left-to-right mark.
pub open spec fn spec_drop_lrm(b: Seq<u8>) -> Seq<u8>
    decreases b.len(),
{
    if b.len() >= 3 && b[0] == 226 && b[1] == 128 && b[2] == 142 {
        spec_drop_lrm(b.skip(3))
    } else if b.len() > 0 {
        seq![b[0]] + spec_drop_lrm(b.skip(1))
    } else {
        Seq::empty()
    }
}

/// Strips the left-to-right mark from a text: a text without one is returned
/// unchanged, and one with marks is re-decoded from its bytes with every
/// mark sequence removed.
fn strip_lrm(s: String) -> (r: Result<String, Error>)
    ensures
        match r {
            Ok(out) => (!crate::text::spec_contains_char(s@, '\u{200E}') ==> out@ == s@) && (
            crate::text::spec_contains_char(s@, '\u{200E}') ==> (valid_utf8(
                spec_drop_lrm(encode_utf8(s@)),
            ) && out@ == decode_utf8(spec_drop_lrm(encode_utf8(s@))))),
            Err(e) => crate::text::spec_contains_char(s@, '\u{200E}') && !valid_utf8(
                spec_drop_lrm(encode_utf8(s@)),
            ) && e == Error::InvalidString,
        },
{
    match crate::text::find_char(s.as_str(), '\u{200E}') {
        None => Ok(s),
        Some(_) => {
            let bytes = s.as_str().as_bytes_vec();
            let filtered = drop_lrm_bytes(&bytes);
            proof {
                assert(bytes@ == encode_utf8(s@));
            }
            match utf8_to_string(filtered) {
                Some(out) => Ok(out),
                None => Err(Error::InvalidString),
            }
        },
    }
}

/// Removes every three-byte left-to-right mark sequence.
fn drop_lrm_bytes(b: &Vec<u8>) -> (r: Vec<u8>)
    ensures
        r@ == spec_drop_lrm(b@),
{
    let mut out: Vec<u8> = Vec::new();
    let n = b.len();
    let mut i: usize = 0;
    proof {
        assert(b@.skip(0) =~= b@);
        assert(Seq::<u8>::empty() + spec_drop_lrm(b@) =~= spec_drop_lrm(b@));
    }
    while i < n
        invariant
            i <= n,
            n == b@.len(),
            spec_drop_lrm(b@) == out@ + spec_drop_lrm(b@.skip(i as int)),
        decreases n - i,
    {
        let ghost rest = b@.skip(i as int);
        proof {
            assert(rest[0] == b@[i as int]);
            if rest.len() >= 3 {
                assert(rest[1] == b@[i + 1]);
                assert(rest[2] == b@[i + 2]);
            }
        }
        if n - i >= 3 && b[i] == 226 && b[i + 1] == 128 && b[i + 2] == 142 {
            proof {
                assert(rest.skip(3) =~= b@.skip(i + 3));
            }
            i += 3;
        } else {
            out.push(b[i]);
            proof {
                assert(rest.skip(1) =~= b@.skip(i + 1));
                assert(out@ + spec_drop_lrm(b@.skip(i + 1)) =~= out@.drop_last() + (seq![
                    rest[0],
                ] + spec_drop_lrm(rest.skip(1))));
            }
            i += 1;
        }
    }
    proof {
        assert(b@.skip(n as int) =~= Seq::<u8>::empty());
        assert(out@ + Seq::<u8>::empty() =~= out@);
    }
    out
}

} // verus!
