//! Literal-token dictionaries of the tree codec: a single-byte token table
//! and four 64-entry word dictionaries reached through dictionary tags.
//!
//! The deployed protocol fixes these tables; both peers must hold them
//! byte-for-byte. The codec's contracts hold for any well-formed tables.

use vstd::prelude::*;

verus! {

pub struct TokenTables {
    /// Tokens reachable by one byte: byte `b` names entry `b - 1`.
    pub single: Vec<String>,
    /// Dictionary words: a dictionary tag and a second byte name entry
    /// `64 * dictionary + byte`.
    pub double: Vec<String>,
}

/// First entry of the table equal to `s`, if any.
pub open spec fn spec_first_index(tbl: Seq<Seq<char>>, s: Seq<char>) -> Option<int>
    decreases tbl.len(),
{
    if tbl.len() == 0 {
        None
    } else if tbl[0] == s {
        Some(0int)
    } else {
        match spec_first_index(tbl.drop_first(), s) {
            Some(i) => Some(i + 1),
            None => None,
        }
    }
}

pub proof fn lemma_first_index(tbl: Seq<Seq<char>>, s: Seq<char>)
    ensures
        match spec_first_index(tbl, s) {
            Some(i) => 0 <= i < tbl.len() && tbl[i] == s && (forall|j: int|
                0 <= j < i ==> tbl[j] != s),
            None => forall|j: int| 0 <= j < tbl.len() ==> tbl[j] != s,
        },
    decreases tbl.len(),
{
    if tbl.len() > 0 && tbl[0] != s {
        lemma_first_index(tbl.drop_first(), s);
        assert(forall|j: int| 1 <= j < tbl.len() ==> tbl[j] == tbl.drop_first()[j - 1]);
    }
}

pub proof fn lemma_first_index_at(tbl: Seq<Seq<char>>, s: Seq<char>, i: int)
    requires
        0 <= i < tbl.len(),
        tbl[i] == s,
        forall|j: int| 0 <= j < i ==> tbl[j] != s,
    ensures
        spec_first_index(tbl, s) == Some(i),
{
    lemma_first_index(tbl, s);
    match spec_first_index(tbl, s) {
        Some(k) => {
            if k < i {
                assert(tbl[k] == s);
            } else if k > i {
                assert(tbl[i] != s);
            }
        },
        None => {
            assert(tbl[i] != s);
        },
    }
}

impl TokenTables {
    /// Bounds the wire format imposes: single-byte tokens must stay below the
    /// control tags, dictionary indices within four 64-entry dictionaries.
    pub open spec fn wf(&self) -> bool {
        self.single@.len() <= 235 && self.double@.len() <= 256
    }

    /// The entry a single-byte token index names.
    pub fn single_get(&self, index: usize) -> (r: Option<&String>)
        ensures
            match r {
                Some(s) => index < self.single.deep_view().len() && s@ == self.single.deep_view()[
                    index as int
                ],
                None => index >= self.single.deep_view().len(),
            },
    {
        if index < self.single.len() {
            Some(&self.single[index])
        } else {
            None
        }
    }

    /// The entry a dictionary index names.
    pub fn double_get(&self, index: usize) -> (r: Option<&String>)
        ensures
            match r {
                Some(s) => index < self.double.deep_view().len() && s@ == self.double.deep_view()[
                    index as int
                ],
                None => index >= self.double.deep_view().len(),
            },
    {
        if index < self.double.len() {
            Some(&self.double[index])
        } else {
            None
        }
    }

    /// First single-byte token equal to `s`.
    pub fn find_single(&self, s: &str) -> (r: Option<usize>)
        ensures
            match r {
                Some(i) => spec_first_index(self.single.deep_view(), s@) == Some(i as int),
                None => spec_first_index(self.single.deep_view(), s@) is None,
            },
    {
        find_in_table(&self.single, s)
    }

    /// First dictionary word equal to `s`.
    pub fn find_double(&self, s: &str) -> (r: Option<usize>)
        ensures
            match r {
                Some(i) => spec_first_index(self.double.deep_view(), s@) == Some(i as int),
                None => spec_first_index(self.double.deep_view(), s@) is None,
            },
    {
        find_in_table(&self.double, s)
    }

    /// Tables supplied by a deployment that carries the full dictionaries;
    /// accepted exactly when they fit the wire format's bounds.
    pub fn from_entries(single: Vec<String>, double: Vec<String>) -> (r: Result<
        TokenTables,
        crate::error::Error,
    >)
        ensures
            match r {
                Ok(tables) => single@.len() <= 235 && double@.len() <= 256 && tables.wf()
                    && tables.single.deep_view() == single.deep_view()
                    && tables.double.deep_view() == double.deep_view(),
                Err(e) => (single@.len() > 235 || double@.len() > 256) && e
                    == crate::error::Error::InvalidToken,
            },
    {
        if single.len() > 235 || double.len() > 256 {
            return Err(crate::error::Error::InvalidToken);
        }
        Ok(TokenTables { single, double })
    }

    /// The built-in tables. The single-byte table holds the leading tokens of
    /// the deployed dictionary; the word dictionaries are provisioned by the
    /// deployment that carries them.
    pub fn standard() -> (r: TokenTables)
        ensures
            r.wf(),
            r.single.deep_view() == spec_standard_single(),
            r.double.deep_view() == spec_standard_double(),
    {
        let mut single: Vec<String> = Vec::new();
        single.push(String::from_str("xmlstreamstart"));
        single.push(String::from_str("xmlstreamend"));
        single.push(String::from_str("s.whatsapp.net"));
        single.push(String::from_str("type"));
        single.push(String::from_str("participant"));
        single.push(String::from_str("from"));
        single.push(String::from_str("receipt"));
        single.push(String::from_str("id"));
        single.push(String::from_str("broadcast"));
        single.push(String::from_str("status"));
        single.push(String::from_str("unavailable"));
        single.push(String::from_str("notification"));
        single.push(String::from_str("notify"));
        single.push(String::from_str("to"));
        single.push(String::from_str("jid"));
        single.push(String::from_str("user"));
        single.push(String::from_str("class"));
        single.push(String::from_str("offline"));
        single.push(String::from_str("g.us"));
        single.push(String::from_str("result"));
        single.push(String::from_str("mediatype"));
        single.push(String::from_str("enc"));
        single.push(String::from_str("skmsg"));
        single.push(String::from_str("off_cnt"));
        single.push(String::from_str("xmlns"));
        single.push(String::from_str("presence"));
        single.push(String::from_str("participants"));
        single.push(String::from_str("ack"));
        single.push(String::from_str("t"));
        single.push(String::from_str("iq"));
        let double: Vec<String> = Vec::new();
        proof {
            assert(single.deep_view() =~~= spec_standard_single());
            assert(double.deep_view() =~~= spec_standard_double());
        }
        TokenTables { single, double }
    }
}

/// The single-byte token table that `standard` builds.
pub open spec fn spec_standard_single() -> Seq<Seq<char>> {
    seq![
        "xmlstreamstart"@,
        "xmlstreamend"@,
        "s.whatsapp.net"@,
        "type"@,
        "participant"@,
        "from"@,
        "receipt"@,
        "id"@,
        "broadcast"@,
        "status"@,
        "unavailable"@,
        "notification"@,
        "notify"@,
        "to"@,
        "jid"@,
        "user"@,
        "class"@,
        "offline"@,
        "g.us"@,
        "result"@,
        "mediatype"@,
        "enc"@,
        "skmsg"@,
        "off_cnt"@,
        "xmlns"@,
        "presence"@,
        "participants"@,
        "ack"@,
        "t"@,
        "iq"@,
    ]
}

/// The word dictionaries that `standard` builds.
pub open spec fn spec_standard_double() -> Seq<Seq<char>> {
    Seq::empty()
}

fn find_in_table(table: &Vec<String>, s: &str) -> (r: Option<usize>)
    ensures
        match r {
            Some(i) => spec_first_index(table.deep_view(), s@) == Some(i as int),
            None => spec_first_index(table.deep_view(), s@) is None,
        },
{
    let ghost tv = table.deep_view();
    let n = table.len();
    let mut i: usize = 0;
    while i < n
        invariant
            i <= n,
            n == table@.len(),
            tv == table.deep_view(),
            tv.len() == n,
            forall|j: int| 0 <= j < i ==> tv[j] != s@,
        decreases n - i,
    {
        if crate::text::str_eq(table[i].as_str(), s) {
            proof {
                assert(tv[i as int] == table@[i as int]@);
                lemma_first_index_at(tv, s@, i as int);
            }
            return Some(i);
        }
        proof {
            assert(tv[i as int] == table@[i as int]@);
        }
        i += 1;
    }
    proof {
        lemma_first_index(tv, s@);
        if spec_first_index(tv, s@) is Some {
            let k = spec_first_index(tv, s@)->Some_0;
            assert(tv[k] == s@);
        }
    }
    None
}

} // verus!
