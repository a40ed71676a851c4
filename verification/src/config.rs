//! Resolved run configuration: protocol selection, header parsing and
//! the last-writer-wins header table.

use crate::text::{folds_to, trim, trimmed, upper_seq};
use vstd::prelude::*;
use vstd::string::*;

verus! {

/// The HTTP methods a work unit may use.
#[derive(Clone, Copy, Debug, PartialEq, Eq, Structural)]
pub enum HttpMethod {
    Get,
    Post,
    Put,
    Delete,
    Patch,
    Head,
    Options,
}

/// The protocol a work unit drives, decided once at configuration time.
/// An unrecognized method keeps the run alive but makes every work unit
/// an immediate failure, without a network call.
#[derive(Clone, Copy, Debug, PartialEq, Eq, Structural)]
pub enum Protocol {
    Http(HttpMethod),
    WebSocket,
    Unsupported,
}

/// The protocol selected by a method string, compared without regard to
/// ASCII case; `WS` selects the WebSocket protocol.
pub open spec fn resolved_protocol(s: Seq<char>) -> Protocol {
    let u = upper_seq(s);
    if u == "GET"@ {
        Protocol::Http(HttpMethod::Get)
    } else if u == "POST"@ {
        Protocol::Http(HttpMethod::Post)
    } else if u == "PUT"@ {
        Protocol::Http(HttpMethod::Put)
    } else if u == "DELETE"@ {
        Protocol::Http(HttpMethod::Delete)
    } else if u == "PATCH"@ {
        Protocol::Http(HttpMethod::Patch)
    } else if u == "HEAD"@ {
        Protocol::Http(HttpMethod::Head)
    } else if u == "OPTIONS"@ {
        Protocol::Http(HttpMethod::Options)
    } else if u == "WS"@ {
        Protocol::WebSocket
    } else {
        Protocol::Unsupported
    }
}

/// Decides once which protocol the configured method string selects.
pub fn resolve_protocol(s: &str) -> (r: Protocol)
    ensures
        r == resolved_protocol(s@),
{
    if folds_to(s, "GET") {
        Protocol::Http(HttpMethod::Get)
    } else if folds_to(s, "POST") {
        Protocol::Http(HttpMethod::Post)
    } else if folds_to(s, "PUT") {
        Protocol::Http(HttpMethod::Put)
    } else if folds_to(s, "DELETE") {
        Protocol::Http(HttpMethod::Delete)
    } else if folds_to(s, "PATCH") {
        Protocol::Http(HttpMethod::Patch)
    } else if folds_to(s, "HEAD") {
        Protocol::Http(HttpMethod::Head)
    } else if folds_to(s, "OPTIONS") {
        Protocol::Http(HttpMethod::Options)
    } else if folds_to(s, "WS") {
        Protocol::WebSocket
    } else {
        Protocol::Unsupported
    }
}

/// The index of the first colon in `s`, or the length when there is none.
pub open spec fn find_colon(s: Seq<char>) -> int
    decreases s.len(),
{
    if s.len() == 0 {
        0
    } else if s[0] == ':' {
        0
    } else {
        1 + find_colon(s.drop_first())
    }
}

proof fn lemma_find_colon_at(s: Seq<char>, i: int)
    requires
        0 <= i <= s.len(),
        forall|j: int| 0 <= j < i ==> s[j] != ':',
        i == s.len() || s[i] == ':',
    ensures
        find_colon(s) == i,
    decreases i,
{
    if i > 0 {
        lemma_find_colon_at(s.drop_first(), i - 1);
    }
}

/// A header argument split at its first colon, both parts trimmed of
/// surrounding whitespace; a string without a colon is not a header.
pub open spec fn parsed_header(s: Seq<char>) -> Option<(Seq<char>, Seq<char>)> {
    let i = find_colon(s);
    if i < s.len() {
        Some((trimmed(s.subrange(0, i)), trimmed(s.subrange(i + 1, s.len() as int))))
    } else {
        None
    }
}

/// The complaint returned for a header argument without a colon.
pub open spec fn invalid_header_message(s: Seq<char>) -> Seq<char> {
    "invalid header \""@ + s + "\", expected \"Key:Value\""@
}

/// Parses a `Key:Value` header argument: the part before the first colon
/// is the name, the rest is the value, both trimmed. Without a colon the
/// argument is rejected.
pub fn parse_header(s: &str) -> (r: Result<(String, String), String>)
    ensures
        parsed_header(s@) matches Some(kv) ==> (r matches Ok(p) && p.0@ == kv.0 && p.1@ == kv.1),
        parsed_header(s@) is None ==> (r matches Err(m) && m@ == invalid_header_message(s@)),
{
    let n = s.unicode_len();
    let mut i: usize = 0;
    while i < n && s.get_char(i) != ':'
        invariant
            i <= n,
            n == s@.len(),
            forall|j: int| 0 <= j < i ==> s@[j] != ':',
        decreases n - i,
    {
        i = i + 1;
    }
    proof {
        lemma_find_colon_at(s@, i as int);
    }
    if i < n {
        let key = trim(s.substring_char(0, i));
        let value = trim(s.substring_char(i + 1, n));
        Ok((key, value))
    } else {
        let m = String::from_str("invalid header \"").concat(s).concat(
            "\", expected \"Key:Value\"",
        );
        Err(m)
    }
}

/// Header names must be unique: a table never holds a name twice.
pub open spec fn keys_unique(s: Seq<(Seq<char>, Seq<char>)>) -> bool {
    forall|i: int, j: int| 0 <= i < j < s.len() ==> s[i].0 != s[j].0
}

/// A header table after binding `k` to `v`: an existing entry for `k` is
/// overwritten in place, a new name goes to the end.
pub open spec fn header_set(
    s: Seq<(Seq<char>, Seq<char>)>,
    k: Seq<char>,
    v: Seq<char>,
) -> Seq<(Seq<char>, Seq<char>)>
    decreases s.len(),
{
    if s.len() == 0 {
        seq![(k, v)]
    } else if s[0].0 == k {
        seq![(k, v)] + s.drop_first()
    } else {
        seq![s[0]] + header_set(s.drop_first(), k, v)
    }
}

/// A header table built from a list of pairs, an earlier duplicate name
/// overwritten by a later one.
pub open spec fn table_of(pairs: Seq<(Seq<char>, Seq<char>)>) -> Seq<(Seq<char>, Seq<char>)>
    decreases pairs.len(),
{
    if pairs.len() == 0 {
        Seq::empty()
    } else {
        header_set(table_of(pairs.drop_last()), pairs.last().0, pairs.last().1)
    }
}

/// The mapping of header names to values, with unique names; a later
/// duplicate overwrites an earlier one.
pub struct HeaderTable {
    pub entries: Vec<(String, String)>,
}

impl View for HeaderTable {
    type V = Seq<(Seq<char>, Seq<char>)>;

    open spec fn view(&self) -> Seq<(Seq<char>, Seq<char>)> {
        self.entries@.map_values(|p: (String, String)| (p.0@, p.1@))
    }
}

proof fn lemma_header_set_update(s: Seq<(Seq<char>, Seq<char>)>, k: Seq<char>, v: Seq<char>, i: int)
    requires
        0 <= i < s.len(),
        s[i].0 == k,
        forall|j: int| 0 <= j < i ==> s[j].0 != k,
    ensures
        header_set(s, k, v) == s.update(i, (k, v)),
    decreases i,
{
    if i == 0 {
        assert(seq![(k, v)] + s.drop_first() =~= s.update(0, (k, v)));
    } else {
        lemma_header_set_update(s.drop_first(), k, v, i - 1);
        assert(seq![s[0]] + s.drop_first().update(i - 1, (k, v)) =~= s.update(i, (k, v)));
    }
}

proof fn lemma_header_set_push(s: Seq<(Seq<char>, Seq<char>)>, k: Seq<char>, v: Seq<char>)
    requires
        forall|j: int| 0 <= j < s.len() ==> s[j].0 != k,
    ensures
        header_set(s, k, v) == s.push((k, v)),
    decreases s.len(),
{
    if s.len() == 0 {
        assert(seq![(k, v)] =~= s.push((k, v)));
    } else {
        lemma_header_set_push(s.drop_first(), k, v);
        assert(seq![s[0]] + s.drop_first().push((k, v)) =~= s.push((k, v)));
    }
}

impl HeaderTable {
    /// An empty table.
    pub fn new() -> (r: HeaderTable)
        ensures
            r@ == Seq::<(Seq<char>, Seq<char>)>::empty(),
            keys_unique(r@),
    {
        let r = HeaderTable { entries: Vec::new() };
        proof {
            assert(r@ =~= Seq::<(Seq<char>, Seq<char>)>::empty());
        }
        r
    }

    /// The number of distinct header names held.
    pub fn len(&self) -> (r: usize)
        ensures
            r == self@.len(),
    {
        self.entries.len()
    }

    /// Binds `key` to `value`; a value already bound to the same name is
    /// overwritten, so names stay unique.
    pub fn set_header(&mut self, key: String, value: String)
        requires
            keys_unique(old(self)@),
        ensures
            final(self)@ == header_set(old(self)@, key@, value@),
            keys_unique(final(self)@),
    {
        let n = self.entries.len();
        let mut i: usize = 0;
        while i < n
            invariant
                i <= n,
                n == self.entries@.len(),
                self.entries@ == old(self).entries@,
                keys_unique(self@),
                forall|j: int| 0 <= j < i ==> self@[j].0 != key@,
            decreases n - i,
        {
            assert(self@[i as int].0 == self.entries@[i as int].0@);
            if self.entries[i].0 == key {
                let ghost prev = self@;
                self.entries[i] = (key, value);
                proof {
                    lemma_header_set_update(prev, key@, value@, i as int);
                    assert(self@ =~= prev.update(i as int, (key@, value@)));
                    assert forall|p: int, q: int| 0 <= p < q < self@.len() implies self@[p].0
                        != self@[q].0 by {
                        assert(prev[p].0 != prev[q].0);
                    }
                }
                return ;
            }
            i = i + 1;
        }
        let ghost prev = self@;
        self.entries.push((key, value));
        proof {
            lemma_header_set_push(prev, key@, value@);
            assert(self@ =~= prev.push((key@, value@)));
        }
    }

    /// A table built from a list of `(name, value)` pairs in order, a
    /// later duplicate name overwriting an earlier one.
    pub fn from_pairs(pairs: &Vec<(String, String)>) -> (r: HeaderTable)
        ensures
            r@ == table_of(pairs@.map_values(|p: (String, String)| (p.0@, p.1@))),
            keys_unique(r@),
    {
        let ghost all = pairs@.map_values(|p: (String, String)| (p.0@, p.1@));
        let mut r = HeaderTable::new();
        let n = pairs.len();
        let mut i: usize = 0;
        while i < n
            invariant
                i <= n,
                n == pairs@.len(),
                all == pairs@.map_values(|p: (String, String)| (p.0@, p.1@)),
                r@ == table_of(all.take(i as int)),
                keys_unique(r@),
            decreases n - i,
        {
            let (k, v) = (pairs[i].0.clone(), pairs[i].1.clone());
            r.set_header(k, v);
            proof {
                assert(all.take(i + 1).drop_last() =~= all.take(i as int));
                assert(all.take(i + 1).last() == all[i as int]);
            }
            i = i + 1;
        }
        proof {
            assert(all.take(n as int) =~= all);
        }
        r
    }
}

/// The immutable configuration shared by every worker. The method text
/// is kept as given on the command line for the message of an
/// unsupported method; the protocol is resolved from it exactly once.
pub struct Configuration {
    pub url: String,
    pub method_text: String,
    pub protocol: Protocol,
    pub body: Option<String>,
    pub headers: HeaderTable,
    pub ws_message: Option<String>,
    pub ws_hold_secs: Option<u64>,
    pub timeout_secs: u64,
}

impl Configuration {
    /// A configuration is well formed when its protocol is the one its
    /// method text resolves to and its header names are unique.
    pub open spec fn wf(self) -> bool {
        &&& self.protocol == resolved_protocol(self.method_text@)
        &&& keys_unique(self.headers@)
    }

    /// Builds the shared configuration, resolving the protocol from the
    /// method text once.
    pub fn assemble(
        url: String,
        method_text: String,
        body: Option<String>,
        headers: &Vec<(String, String)>,
        ws_message: Option<String>,
        ws_hold_secs: Option<u64>,
        timeout_secs: u64,
    ) -> (r: Configuration)
        ensures
            r.wf(),
            r.url@ == url@,
            r.method_text@ == method_text@,
            r.protocol == resolved_protocol(method_text@),
            r.body == body,
            r.headers@ == table_of(headers@.map_values(|p: (String, String)| (p.0@, p.1@))),
            r.ws_message == ws_message,
            r.ws_hold_secs == ws_hold_secs,
            r.timeout_secs == timeout_secs,
    {
        let protocol = resolve_protocol(method_text.as_str());
        let headers = HeaderTable::from_pairs(headers);
        Configuration { url, method_text, protocol, body, headers, ws_message, ws_hold_secs, timeout_secs }
    }
}

} // verus!
