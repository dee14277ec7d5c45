//! The trace-continuation header codec.
//!
//! A header is `<version>;<clause>,<clause>,...`, each clause `key=value`.
//! Version `1` is the only one understood. Recognized keys are `trace_id`,
//! `parent_id`, `dataset` and `context`; unrecognized clauses are ignored,
//! and a later clause wins over an earlier one with the same key. The
//! `context` value is the base64 encoding of the JSON trace context.

use vstd::prelude::*;
use vstd::string::*;

use crate::b64::{base64_decode, base64_encode, base64_of, base64_parsed, is_base64_char};
use crate::errors::BeelineError;
use crate::json::{json_bytes, json_bytes_of, json_parse, json_parsed};
use crate::strutil::str_eq;

verus! {

/// The position of the first occurrence of `c` in `s`.
pub open spec fn index_of_first(s: Seq<char>, c: char) -> Option<int>
    decreases s.len(),
{
    if s.len() == 0 {
        None
    } else if s[0] == c {
        Some(0int)
    } else {
        match index_of_first(s.drop_first(), c) {
            Some(i) => Some(i + 1),
            None => None,
        }
    }
}

pub proof fn lemma_index_of_first_props(s: Seq<char>, c: char)
    ensures
        match index_of_first(s, c) {
            Some(i) => 0 <= i < s.len() && s[i] == c && forall|j: int| 0 <= j < i ==> s[j] != c,
            None => forall|j: int| 0 <= j < s.len() ==> s[j] != c,
        },
    decreases s.len(),
{
    if s.len() > 0 && s[0] != c {
        lemma_index_of_first_props(s.drop_first(), c);
        match index_of_first(s.drop_first(), c) {
            Some(i) => {
                assert(s[i + 1] == s.drop_first()[i]);
                assert forall|j: int| 0 <= j < i + 1 implies s[j] != c by {
                    if j > 0 {
                        assert(s[j] == s.drop_first()[j - 1]);
                    }
                }
            },
            None => {
                assert forall|j: int| 0 <= j < s.len() implies s[j] != c by {
                    if j > 0 {
                        assert(s[j] == s.drop_first()[j - 1]);
                    }
                }
            },
        }
    }
}

pub proof fn lemma_index_of_first_is(s: Seq<char>, c: char, i: int)
    requires
        0 <= i < s.len(),
        s[i] == c,
        forall|j: int| 0 <= j < i ==> s[j] != c,
    ensures
        index_of_first(s, c) == Some(i),
    decreases s.len(),
{
    if i > 0 {
        lemma_index_of_first_is(s.drop_first(), c, i - 1);
    }
}

pub proof fn lemma_index_of_first_none(s: Seq<char>, c: char)
    requires
        forall|j: int| 0 <= j < s.len() ==> s[j] != c,
    ensures
        index_of_first(s, c) is None,
    decreases s.len(),
{
    if s.len() > 0 {
        lemma_index_of_first_none(s.drop_first(), c);
    }
}

/// Searching a clean prefix finds nothing; the first hit is in the tail.
pub proof fn lemma_index_of_first_append(a: Seq<char>, b: Seq<char>, c: char)
    requires
        forall|i: int| 0 <= i < a.len() ==> a[i] != c,
    ensures
        index_of_first(a + b, c) == match index_of_first(b, c) {
            Some(i) => Some(i + a.len()),
            None => None::<int>,
        },
{
    lemma_index_of_first_props(b, c);
    match index_of_first(b, c) {
        Some(i) => {
            assert((a + b)[a.len() + i] == c);
            assert(forall|j: int| 0 <= j < a.len() + i ==> (a + b)[j] != c);
            lemma_index_of_first_is(a + b, c, a.len() + i);
        },
        None => {
            assert(forall|j: int| 0 <= j < (a + b).len() ==> (a + b)[j] != c);
            lemma_index_of_first_none(a + b, c);
        },
    }
}

/// The comma-separated clauses of a header body.
pub open spec fn split_clauses(s: Seq<char>) -> Seq<Seq<char>>
    decreases s.len(),
    via split_clauses_decreases
{
    match index_of_first(s, ',') {
        None => seq![s],
        Some(i) => seq![s.subrange(0, i)] + split_clauses(s.subrange(i + 1, s.len() as int)),
    }
}

#[via_fn]
proof fn split_clauses_decreases(s: Seq<char>) {
    lemma_index_of_first_props(s, ',');
}

/// The text before the first `=` of a clause; the whole clause if it has none.
pub open spec fn clause_key(c: Seq<char>) -> Seq<char> {
    match index_of_first(c, '=') {
        None => c,
        Some(i) => c.subrange(0, i),
    }
}

/// The text after the first `=` of a clause.
pub open spec fn clause_val(c: Seq<char>) -> Seq<char> {
    match index_of_first(c, '=') {
        None => Seq::empty(),
        Some(i) => c.subrange(i + 1, c.len() as int),
    }
}

/// What one clause leaves a key's accumulated value at: a clause with an `=`
/// and a matching key overwrites, anything else is ignored.
pub open spec fn clause_update(acc: Seq<char>, cl: Seq<char>, key: Seq<char>) -> Seq<char> {
    if index_of_first(cl, '=') is Some && clause_key(cl) == key {
        clause_val(cl)
    } else {
        acc
    }
}

/// The value the clause list leaves a key at, scanning left to right.
pub open spec fn scan_value(cs: Seq<Seq<char>>, key: Seq<char>, acc: Seq<char>) -> Seq<char>
    decreases cs.len(),
{
    if cs.len() == 0 {
        acc
    } else {
        scan_value(cs.drop_first(), key, clause_update(acc, cs[0], key))
    }
}

/// The value a header body carries for a key; empty when no clause sets it.
pub open spec fn header_value(body: Seq<char>, key: Seq<char>) -> Seq<char> {
    scan_value(split_clauses(body), key, Seq::empty())
}

/// What decoding a header text yields: the trace id, parent id, dataset and
/// trace context on success, and the exact error otherwise.
pub open spec fn decode_spec(s: Seq<char>) -> Result<
    (Seq<char>, Seq<char>, Seq<char>, serde_json::Value),
    BeelineError,
> {
    match index_of_first(s, ';') {
        None => Err(BeelineError::UnsupportedVersion),
        Some(i) => {
            if s.subrange(0, i) != seq!['1'] {
                Err(BeelineError::UnsupportedVersion)
            } else {
                let body = s.subrange(i + 1, s.len() as int);
                let tid = header_value(body, "trace_id"@);
                let pid = header_value(body, "parent_id"@);
                let ds = header_value(body, "dataset"@);
                let ctx = header_value(body, "context"@);
                if tid.len() == 0 && pid.len() > 0 {
                    Err(BeelineError::MissingTraceId)
                } else {
                    match base64_parsed(ctx) {
                        None => Err(BeelineError::InvalidBase64),
                        Some(bytes) => match json_parsed(bytes) {
                            None => Err(BeelineError::InvalidJson),
                            Some(v) => Ok((tid, pid, ds, v)),
                        },
                    }
                }
            }
        },
    }
}

/// No comma; such a text never spans a clause boundary.
pub open spec fn no_comma(s: Seq<char>) -> bool {
    forall|i: int| 0 <= i < s.len() ==> s[i] != ','
}

/// The header text `marshal_trace_context` writes.
pub open spec fn encoded_header(
    tid: Seq<char>,
    pid: Seq<char>,
    ds: Seq<char>,
    ctx: serde_json::Value,
) -> Seq<char> {
    "1;trace_id="@ + tid + ",parent_id="@ + pid + (if ds.len() > 0 {
        ",dataset="@ + ds
    } else {
        Seq::empty()
    }) + ",context="@ + base64_of(json_bytes_of(ctx))
}

/// Trace continuation as carried across a process boundary: identifiers, the
/// destination dataset, and the trace-level fields as one JSON value.
#[derive(Debug, PartialEq)]
pub struct Propagation {
    pub trace_id: String,
    pub parent_id: String,
    pub dataset: String,
    pub trace_context: serde_json::Value,
}

/// The position of the first `c`, as the exec scan finds it.
pub fn find_char(s: &str, c: char) -> (r: Option<usize>)
    ensures
        match r {
            Some(i) => index_of_first(s@, c) == Some(i as int),
            None => index_of_first(s@, c) is None,
        },
{
    let n: usize = s.unicode_len();
    let mut i: usize = 0;
    while i < n
        invariant
            i <= n,
            n == s@.len(),
            forall|j: int| 0 <= j < i ==> s@[j] != c,
        decreases n - i,
    {
        if s.get_char(i) == c {
            proof {
                lemma_index_of_first_is(s@, c, i as int);
            }
            return Some(i);
        }
        i = i + 1;
    }
    proof {
        lemma_index_of_first_none(s@, c);
    }
    None
}

/// Apply one clause to the four accumulators.
fn apply_clause(
    cl: &str,
    tid: &mut String,
    pid: &mut String,
    ds: &mut String,
    ctx: &mut String,
)
    ensures
        final(tid)@ == clause_update(old(tid)@, cl@, "trace_id"@),
        final(pid)@ == clause_update(old(pid)@, cl@, "parent_id"@),
        final(ds)@ == clause_update(old(ds)@, cl@, "dataset"@),
        final(ctx)@ == clause_update(old(ctx)@, cl@, "context"@),
{
    match find_char(cl, '=') {
        None => {},
        Some(e) => {
            let n: usize = cl.unicode_len();
            proof {
                lemma_index_of_first_props(cl@, '=');
            }
            let key = cl.substring_char(0, e);
            let val = cl.substring_char(e + 1, n);
            proof {
                assert(key@ == clause_key(cl@));
                assert(val@ == clause_val(cl@));
            }
            if str_eq(key, "trace_id") {
                *tid = val.to_owned();
            } else if str_eq(key, "parent_id") {
                *pid = val.to_owned();
            } else if str_eq(key, "dataset") {
                *ds = val.to_owned();
            } else if str_eq(key, "context") {
                *ctx = val.to_owned();
            }
            proof {
                lemma_recognized_keys_distinct();
            }
        },
    }
}

/// The four recognized keys are pairwise distinct texts.
proof fn lemma_recognized_keys_distinct()
    ensures
        "trace_id"@ != "parent_id"@,
        "trace_id"@ != "dataset"@,
        "trace_id"@ != "context"@,
        "parent_id"@ != "dataset"@,
        "parent_id"@ != "context"@,
        "dataset"@ != "context"@,
{
    reveal_strlit("trace_id");
    reveal_strlit("parent_id");
    reveal_strlit("dataset");
    reveal_strlit("context");
    assert("trace_id"@.len() == 8);
    assert("parent_id"@.len() == 9);
    assert("dataset"@.len() == 7);
    assert("context"@.len() == 7);
    assert("dataset"@[0] == 'd');
    assert("context"@[0] == 'c');
}

/// Scan a header body, returning the last value of each recognized key.
fn scan_body(body: &str) -> (r: (String, String, String, String))
    ensures
        r.0@ == header_value(body@, "trace_id"@),
        r.1@ == header_value(body@, "parent_id"@),
        r.2@ == header_value(body@, "dataset"@),
        r.3@ == header_value(body@, "context"@),
{
    let mut tid = String::new();
    let mut pid = String::new();
    let mut ds = String::new();
    let mut ctx = String::new();
    let mut rest: &str = body;
    loop
        invariant
            scan_value(split_clauses(body@), "trace_id"@, Seq::empty()) == scan_value(
                split_clauses(rest@),
                "trace_id"@,
                tid@,
            ),
            scan_value(split_clauses(body@), "parent_id"@, Seq::empty()) == scan_value(
                split_clauses(rest@),
                "parent_id"@,
                pid@,
            ),
            scan_value(split_clauses(body@), "dataset"@, Seq::empty()) == scan_value(
                split_clauses(rest@),
                "dataset"@,
                ds@,
            ),
            scan_value(split_clauses(body@), "context"@, Seq::empty()) == scan_value(
                split_clauses(rest@),
                "context"@,
                ctx@,
            ),
        decreases rest@.len(),
    {
        let n: usize = rest.unicode_len();
        let ghost pre = rest@;
        let ghost t0 = tid@;
        let ghost p0 = pid@;
        let ghost d0 = ds@;
        let ghost c0 = ctx@;
        match find_char(rest, ',') {
            Some(i) => {
                proof {
                    lemma_index_of_first_props(rest@, ',');
                }
                let cl = rest.substring_char(0, i);
                apply_clause(cl, &mut tid, &mut pid, &mut ds, &mut ctx);
                let r2 = rest.substring_char(i + 1, n);
                rest = r2;
                proof {
                    reveal_with_fuel(scan_value, 3);
                    let cs = split_clauses(pre);
                    assert(cs == seq![pre.subrange(0, i as int)] + split_clauses(rest@));
                    assert(cs.drop_first() =~= split_clauses(rest@));
                    assert(cs[0] == cl@);
                    assert(scan_value(cs, "trace_id"@, t0) == scan_value(
                        split_clauses(rest@),
                        "trace_id"@,
                        tid@,
                    ));
                    assert(scan_value(cs, "parent_id"@, p0) == scan_value(
                        split_clauses(rest@),
                        "parent_id"@,
                        pid@,
                    ));
                    assert(scan_value(cs, "dataset"@, d0) == scan_value(
                        split_clauses(rest@),
                        "dataset"@,
                        ds@,
                    ));
                    assert(scan_value(cs, "context"@, c0) == scan_value(
                        split_clauses(rest@),
                        "context"@,
                        ctx@,
                    ));
                }
            },
            None => {
                apply_clause(rest, &mut tid, &mut pid, &mut ds, &mut ctx);
                proof {
                    reveal_with_fuel(scan_value, 3);
                    let cs = split_clauses(pre);
                    assert(cs == seq![pre]);
                    assert(cs.drop_first() =~= Seq::<Seq<char>>::empty());
                    assert(cs[0] == pre);
                    assert(scan_value(cs, "trace_id"@, t0) == tid@);
                    assert(scan_value(cs, "parent_id"@, p0) == pid@);
                    assert(scan_value(cs, "dataset"@, d0) == ds@);
                    assert(scan_value(cs, "context"@, c0) == ctx@);
                }
                return (tid, pid, ds, ctx);
            },
        }
    }
}

impl Propagation {
    /// Decode a trace-continuation header. Exactly the unsupported-version,
    /// missing-trace-id, bad-base64 and bad-JSON inputs are rejected, each
    /// with its own error; every other header decodes to its carried values.
    pub fn unmarshal_trace_context(header: &str) -> (r: Result<Propagation, BeelineError>)
        ensures
            match r {
                Ok(p) => decode_spec(header@) == Ok::<_, BeelineError>(
                    (p.trace_id@, p.parent_id@, p.dataset@, p.trace_context),
                ),
                Err(e) => decode_spec(header@) == Err::<
                    (Seq<char>, Seq<char>, Seq<char>, serde_json::Value),
                    _,
                >(e),
            },
    {
        let n: usize = header.unicode_len();
        let semi = match find_char(header, ';') {
            None => {
                return Err(BeelineError::UnsupportedVersion);
            },
            Some(s) => s,
        };
        proof {
            lemma_index_of_first_props(header@, ';');
        }
        let version_ok: bool = semi == 1 && header.get_char(0) == '1';
        proof {
            if version_ok {
                assert(header@.subrange(0, semi as int) =~= seq!['1']);
            } else {
                if header@.subrange(0, semi as int) == seq!['1'] {
                    assert(header@.subrange(0, semi as int).len() == 1);
                    assert(header@.subrange(0, semi as int)[0] == header@[0]);
                    assert(false);
                }
            }
        }
        if !version_ok {
            return Err(BeelineError::UnsupportedVersion);
        }
        let body = header.substring_char(semi + 1, n);
        let (tid, pid, ds, ctx) = scan_body(body);
        if tid.as_str().is_empty() && !pid.as_str().is_empty() {
            return Err(BeelineError::MissingTraceId);
        }
        let bytes = match base64_decode(ctx.as_str()) {
            None => {
                return Err(BeelineError::InvalidBase64);
            },
            Some(b) => b,
        };
        match json_parse(bytes.as_slice()) {
            None => Err(BeelineError::InvalidJson),
            Some(v) => Ok(
                Propagation { trace_id: tid, parent_id: pid, dataset: ds, trace_context: v },
            ),
        }
    }

    /// Encode this continuation as a single header line: version `1`, then
    /// the `trace_id`, `parent_id`, `dataset` (only when non-empty) and
    /// `context` clauses. When the identifier fields hold no comma and the
    /// continuation state is valid, decoding the result gives back exactly
    /// the values encoded — the round-trip law — unless the serialized
    /// context is one the JSON parser refuses (its recursion limit is below
    /// the serializer's), in which case decoding fails with the invalid-JSON
    /// error rather than returning other values.
    pub fn marshal_trace_context(&self) -> (r: String)
        ensures
            r@ == encoded_header(self.trace_id@, self.parent_id@, self.dataset@,
                self.trace_context),
            (no_comma(self.trace_id@) && no_comma(self.parent_id@) && no_comma(self.dataset@)
                && !(self.trace_id@.len() == 0 && self.parent_id@.len() > 0)) ==> decode_spec(r@)
                == (match json_parsed(json_bytes_of(self.trace_context)) {
                Some(_) => Ok::<_, BeelineError>(
                    (self.trace_id@, self.parent_id@, self.dataset@, self.trace_context),
                ),
                None => Err(BeelineError::InvalidJson),
            }),
    {
        let mut out = String::from_str("1;trace_id=");
        out.append(self.trace_id.as_str());
        out.append(",parent_id=");
        out.append(self.parent_id.as_str());
        if !self.dataset.as_str().is_empty() {
            out.append(",dataset=");
            out.append(self.dataset.as_str());
        }
        out.append(",context=");
        let bytes = json_bytes(&self.trace_context);
        let b64 = base64_encode(bytes.as_slice());
        out.append(b64.as_str());
        proof {
            assert(out@ =~= encoded_header(self.trace_id@, self.parent_id@, self.dataset@,
                self.trace_context));
            if no_comma(self.trace_id@) && no_comma(self.parent_id@) && no_comma(self.dataset@)
                && !(self.trace_id@.len() == 0 && self.parent_id@.len() > 0) {
                lemma_decode_of_encoded(
                    self.trace_id@,
                    self.parent_id@,
                    self.dataset@,
                    self.trace_context,
                    b64@,
                );
            }
        }
        out
    }
}

/// The clause `keylit=val` has that key and value.
proof fn lemma_clause_kv(keylit: Seq<char>, val: Seq<char>)
    requires
        forall|i: int| 0 <= i < keylit.len() ==> keylit[i] != '=',
    ensures
        index_of_first(keylit + seq!['='] + val, '=') == Some(keylit.len() as int),
        clause_key(keylit + seq!['='] + val) == keylit,
        clause_val(keylit + seq!['='] + val) == val,
{
    let cl = keylit + seq!['='] + val;
    assert(cl =~= keylit + (seq!['='] + val));
    lemma_index_of_first_is(seq!['='] + val, '=', 0);
    lemma_index_of_first_append(keylit, seq!['='] + val, '=');
    assert(cl.subrange(0, keylit.len() as int) =~= keylit);
    assert(cl.subrange(keylit.len() as int + 1, cl.len() as int) =~= val);
}

/// One splitting step: the text up to a comma is the first clause.
proof fn lemma_split_clauses_step(cl: Seq<char>, rest: Seq<char>)
    requires
        no_comma(cl),
    ensures
        split_clauses(cl + seq![','] + rest) == seq![cl] + split_clauses(rest),
{
    let s = cl + seq![','] + rest;
    assert(s =~= cl + (seq![','] + rest));
    lemma_index_of_first_is(seq![','] + rest, ',', 0);
    lemma_index_of_first_append(cl, seq![','] + rest, ',');
    assert(index_of_first(s, ',') == Some(cl.len() as int));
    assert(s.subrange(0, cl.len() as int) =~= cl);
    assert(s.subrange(cl.len() as int + 1, s.len() as int) =~= rest);
}

/// A body with no comma is one clause.
proof fn lemma_split_clauses_single(cl: Seq<char>)
    requires
        no_comma(cl),
    ensures
        split_clauses(cl) == seq![cl],
{
    lemma_index_of_first_none(cl, ',');
}

/// The characters of the literal clause prefixes.
proof fn lemma_prefix_chars()
    ensures
        no_comma("trace_id="@),
        no_comma("parent_id="@),
        no_comma("dataset="@),
        no_comma("context="@),
        forall|i: int| 0 <= i < "trace_id"@.len() ==> "trace_id"@[i] != '=',
        forall|i: int| 0 <= i < "parent_id"@.len() ==> "parent_id"@[i] != '=',
        forall|i: int| 0 <= i < "dataset"@.len() ==> "dataset"@[i] != '=',
        forall|i: int| 0 <= i < "context"@.len() ==> "context"@[i] != '=',
        "trace_id="@ =~= "trace_id"@ + seq!['='],
        "parent_id="@ =~= "parent_id"@ + seq!['='],
        "dataset="@ =~= "dataset"@ + seq!['='],
        "context="@ =~= "context"@ + seq!['='],
        "trace_id="@.len() == 9,
        "parent_id="@.len() == 10,
        "dataset="@.len() == 8,
        "context="@.len() == 8,
        "1;trace_id="@ =~= seq!['1', ';'] + "trace_id="@,
        ",parent_id="@ =~= seq![','] + "parent_id="@,
        ",dataset="@ =~= seq![','] + "dataset="@,
        ",context="@ =~= seq![','] + "context="@,
{
    reveal_strlit("trace_id=");
    reveal_strlit("parent_id=");
    reveal_strlit("dataset=");
    reveal_strlit("context=");
    reveal_strlit("trace_id");
    reveal_strlit("parent_id");
    reveal_strlit("dataset");
    reveal_strlit("context");
    reveal_strlit("1;trace_id=");
    reveal_strlit(",parent_id=");
    reveal_strlit(",dataset=");
    reveal_strlit(",context=");
}

/// Decoding an encoded header recovers what was encoded, as long as the
/// identifier fields hold no comma and the continuation state is valid; when
/// the JSON parser refuses the serialized context, decoding fails with the
/// invalid-JSON error and nothing else.
pub proof fn lemma_decode_of_encoded(
    tid: Seq<char>,
    pid: Seq<char>,
    ds: Seq<char>,
    ctx: serde_json::Value,
    b64: Seq<char>,
)
    requires
        no_comma(tid),
        no_comma(pid),
        no_comma(ds),
        !(tid.len() == 0 && pid.len() > 0),
        b64 == base64_of(json_bytes_of(ctx)),
        forall|i: int| 0 <= i < b64.len() ==> is_base64_char(#[trigger] b64[i]),
        base64_parsed(b64) == Some(json_bytes_of(ctx)),
        json_parsed(json_bytes_of(ctx)) matches Some(w) ==> w == ctx,
    ensures
        decode_spec(encoded_header(tid, pid, ds, ctx)) == (match json_parsed(
            json_bytes_of(ctx),
        ) {
            Some(_) => Ok::<_, BeelineError>((tid, pid, ds, ctx)),
            None => Err(BeelineError::InvalidJson),
        }),
{
    lemma_prefix_chars();
    lemma_recognized_keys_distinct();
    let s = encoded_header(tid, pid, ds, ctx);
    let cl1 = "trace_id="@ + tid;
    let cl2 = "parent_id="@ + pid;
    let cl3 = "dataset="@ + ds;
    let cl4 = "context="@ + b64;
    let body = if ds.len() > 0 {
        cl1 + seq![','] + (cl2 + seq![','] + (cl3 + seq![','] + cl4))
    } else {
        cl1 + seq![','] + (cl2 + seq![','] + cl4)
    };
    assert(s =~= seq!['1', ';'] + body);
    // the version prefix
    assert(s[0] == '1' && s[1] == ';');
    lemma_index_of_first_is(s, ';', 1);
    assert(s.subrange(0, 1) =~= seq!['1']);
    assert(s.subrange(2, s.len() as int) =~= body);
    // clause structure
    assert(no_comma(cl1));
    assert(no_comma(cl2));
    assert(no_comma(cl3));
    assert(no_comma(cl4)) by {
        assert forall|i: int| 0 <= i < cl4.len() implies cl4[i] != ',' by {
            if i < 8 {
                assert(cl4[i] == "context="@[i]);
            } else {
                assert(cl4[i] == b64[i - 8]);
                assert(is_base64_char(b64[i - 8]));
            }
        }
    }
    let clauses = if ds.len() > 0 {
        seq![cl1, cl2, cl3, cl4]
    } else {
        seq![cl1, cl2, cl4]
    };
    if ds.len() > 0 {
        lemma_split_clauses_step(cl1, cl2 + seq![','] + (cl3 + seq![','] + cl4));
        lemma_split_clauses_step(cl2, cl3 + seq![','] + cl4);
        lemma_split_clauses_step(cl3, cl4);
        lemma_split_clauses_single(cl4);
        assert(split_clauses(body) =~= clauses);
    } else {
        lemma_split_clauses_step(cl1, cl2 + seq![','] + cl4);
        lemma_split_clauses_step(cl2, cl4);
        lemma_split_clauses_single(cl4);
        assert(split_clauses(body) =~= clauses);
    }
    // each clause's key and value
    lemma_clause_kv("trace_id"@, tid);
    assert(cl1 =~= "trace_id"@ + seq!['='] + tid);
    lemma_clause_kv("parent_id"@, pid);
    assert(cl2 =~= "parent_id"@ + seq!['='] + pid);
    lemma_clause_kv("dataset"@, ds);
    assert(cl3 =~= "dataset"@ + seq!['='] + ds);
    lemma_clause_kv("context"@, b64);
    assert(cl4 =~= "context"@ + seq!['='] + b64);
    // scanning the clause list
    lemma_scan_of_clauses(clauses, "trace_id"@);
    lemma_scan_of_clauses(clauses, "parent_id"@);
    lemma_scan_of_clauses(clauses, "dataset"@);
    lemma_scan_of_clauses(clauses, "context"@);
    assert(header_value(body, "trace_id"@) == tid);
    assert(header_value(body, "parent_id"@) == pid);
    assert(header_value(body, "context"@) == b64);
    if ds.len() > 0 {
        assert(header_value(body, "dataset"@) == ds);
    } else {
        assert(header_value(body, "dataset"@) =~= ds);
    }
    match json_parsed(json_bytes_of(ctx)) {
        Some(w) => {
            assert(w == ctx);
        },
        None => {},
    }
}

/// Unfold a scan over at most four clauses.
proof fn lemma_scan_of_clauses(cs: Seq<Seq<char>>, key: Seq<char>)
    requires
        cs.len() <= 4,
    ensures
        cs.len() == 3 ==> scan_value(cs, key, Seq::empty()) == clause_update(
            clause_update(clause_update(Seq::empty(), cs[0], key), cs[1], key),
            cs[2],
            key,
        ),
        cs.len() == 4 ==> scan_value(cs, key, Seq::empty()) == clause_update(
            clause_update(
                clause_update(clause_update(Seq::empty(), cs[0], key), cs[1], key),
                cs[2],
                key,
            ),
            cs[3],
            key,
        ),
{
    reveal_with_fuel(scan_value, 6);
    if cs.len() == 3 {
        assert(cs.drop_first() =~= seq![cs[1], cs[2]]);
        assert(seq![cs[1], cs[2]].drop_first() =~= seq![cs[2]]);
        assert(seq![cs[2]].drop_first() =~= Seq::<Seq<char>>::empty());
        assert(seq![cs[1], cs[2]][0] == cs[1]);
        assert(seq![cs[2]][0] == cs[2]);
    }
    if cs.len() == 4 {
        assert(cs.drop_first() =~= seq![cs[1], cs[2], cs[3]]);
        assert(seq![cs[1], cs[2], cs[3]].drop_first() =~= seq![cs[2], cs[3]]);
        assert(seq![cs[2], cs[3]].drop_first() =~= seq![cs[3]]);
        assert(seq![cs[3]].drop_first() =~= Seq::<Seq<char>>::empty());
        assert(seq![cs[1], cs[2], cs[3]][0] == cs[1]);
        assert(seq![cs[2], cs[3]][0] == cs[2]);
        assert(seq![cs[3]][0] == cs[3]);
    }
}

} // verus!
