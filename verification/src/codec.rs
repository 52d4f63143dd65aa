use vstd::prelude::*;
use vstd::string::*;

use crate::metadata::Metadata;
use crate::metadata::ReadMarker;
use crate::metadata::metadata_valid;
use crate::rfc3339::spec_format_ts;
use crate::rfc3339::spec_parse_ts;
use crate::rfc3339::format_ts;
use crate::rfc3339::parse_ts;
use crate::rfc3339::lemma_parse_format_ts;
use crate::json::spec_string_rest;
use crate::json::spec_ws_end;
use crate::json::spec_value_end;
use crate::json::step_from;
use crate::json::step_past;
use crate::json::string_rest;
use crate::json::ws_end;
use crate::json::value_end;
use crate::timestamp::Timestamp;
use crate::timestamp::ts_valid;

verus! {

// One JSON document per (server, conversation) pair. The encoder always
// writes the canonical two-member form
// `{"read_marker":V,"last_triggers_unread":V}` where each `V` is either
// `null` or the canonical RFC-3339 text of a timestamp in double quotes.
// The decoder is lenient, as a JSON reader should be: it accepts any JSON
// object, ignores unknown members, treats an absent or null recognized
// member as "not set", and insists only that a recognized member hold null
// or a canonical timestamp string. Anything that is not such an object is
// reported as unreadable, which the load path turns into the default record.
/// The text of one field value: `null`, or the quoted canonical timestamp.
pub open spec fn spec_encode_field(v: Option<Timestamp>) -> Seq<char> {
    match v {
        None => "null"@,
        Some(t) => "\""@ + spec_format_ts(t) + "\""@,
    }
}

pub open spec fn spec_marker_time(r: Option<ReadMarker>) -> Option<Timestamp> {
    match r {
        Some(m) => Some(m.0),
        None => None,
    }
}

/// The whole persisted document for a record.
pub open spec fn spec_encode_record(m: Metadata) -> Seq<char> {
    "{\"read_marker\":"@ + spec_encode_field(spec_marker_time(m.read_marker))
        + ",\"last_triggers_unread\":"@ + spec_encode_field(m.last_triggers_unread) + "}"@
}

/// Reads one field value at position `at`: `null` or a quoted canonical
/// timestamp. Yields the value and the position after it.
pub open spec fn spec_parse_field(s: Seq<char>, at: int) -> Option<(Option<Timestamp>, int)> {
    if at + 4 <= s.len() && s.subrange(at, at + 4) == "null"@ {
        Some((None, at + 4))
    } else if at + 26 <= s.len() && s[at] == '"' && s[at + 25] == '"' {
        match spec_parse_ts(s.subrange(at + 1, at + 25)) {
            Some(t) => Some((Some(t), at + 26)),
            None => None,
        }
    } else {
        None
    }
}

/// The fast path: `Some` exactly on the canonical document of a valid
/// record, and then that record.
pub open spec fn spec_decode_canonical(s: Seq<char>) -> Option<Metadata> {
    let p1 = "{\"read_marker\":"@;
    let p2 = ",\"last_triggers_unread\":"@;
    if !(p1.len() <= s.len() && s.subrange(0, p1.len() as int) == p1) {
        None
    } else {
        match spec_parse_field(s, p1.len() as int) {
            None => None,
            Some((rm, at1)) => {
                if !(at1 + p2.len() <= s.len() && s.subrange(at1, at1 + p2.len()) == p2) {
                    None
                } else {
                    match spec_parse_field(s, at1 + p2.len()) {
                        None => None,
                        Some((ltu, at2)) => {
                            if at2 + 1 == s.len() && s[at2] == '}' {
                                Some(
                                    Metadata {
                                        read_marker: match rm {
                                            Some(t) => Some(ReadMarker(t)),
                                            None => None,
                                        },
                                        last_triggers_unread: ltu,
                                    },
                                )
                            } else {
                                None
                            }
                        },
                    }
                }
            },
        }
    }
}

/// Whether the `lit@.len()` characters of `s` starting at `at` are `lit`.
pub(crate) fn has_at(s: &str, n: usize, at: usize, lit: &str, litn: usize) -> (b: bool)
    requires
        n == s@.len(),
        litn == lit@.len(),
        at + litn <= n,
    ensures
        b == (s@.subrange(at as int, at as int + litn as int) == lit@),
{
    let mut i: usize = 0;
    while i < litn
        invariant
            n == s@.len(),
            litn == lit@.len(),
            at + litn <= n,
            i <= litn,
            forall|j: int| 0 <= j < i ==> s@[at + j] == lit@[j],
        decreases litn - i,
    {
        if s.get_char(at + i) != lit.get_char(i) {
            proof {
                assert(s@.subrange(at as int, at as int + litn as int)[i as int] != lit@[
                i as int]);
            }
            return false;
        }
        i = i + 1;
    }
    proof {
        assert(s@.subrange(at as int, at as int + litn as int) =~= lit@);
    }
    true
}

fn parse_field(s: &str, n: usize, at: usize) -> (r: Option<(Option<Timestamp>, usize)>)
    requires
        n == s@.len(),
        at <= n,
    ensures
        r matches Some(p) ==> spec_parse_field(s@, at as int) == Some((p.0, p.1 as int)) && p.1
            <= n,
        r is None ==> spec_parse_field(s@, at as int) is None,
        r matches Some(p) ==> (p.0 matches Some(t) ==> ts_valid(t)),
{
    proof {
        reveal_strlit("null");
    }
    if n - at >= 4 {
        if has_at(s, n, at, "null", 4) {
            return Some((None, at + 4));
        }
    }
    if n - at >= 26 {
        if s.get_char(at) == '"' && s.get_char(at + 25) == '"' {
            let sub = s.substring_char(at + 1, at + 25);
            match parse_ts(sub) {
                Some(t) => {
                    return Some((Some(t), at + 26));
                },
                None => {
                    return None;
                },
            }
        }
    }
    None
}

/// The fast path over the exact document the encoder writes.
fn decode_canonical(s: &str, n: usize) -> (r: Option<Metadata>)
    requires
        n == s@.len(),
    ensures
        r == spec_decode_canonical(s@),
        r matches Some(m) ==> metadata_valid(m),
{
    proof {
        reveal_strlit("{\"read_marker\":");
        reveal_strlit(",\"last_triggers_unread\":");
    }
    if n < 15 {
        return None;
    }
    if !has_at(s, n, 0, "{\"read_marker\":", 15) {
        return None;
    }
    let rm_field = parse_field(s, n, 15);
    match rm_field {
        None => None,
        Some((rm, at1)) => {
            if n - at1 < 24 {
                return None;
            }
            if !has_at(s, n, at1, ",\"last_triggers_unread\":", 24) {
                return None;
            }
            let ltu_field = parse_field(s, n, at1 + 24);
            match ltu_field {
                None => None,
                Some((ltu, at2)) => {
                    if at2 < n && n - at2 == 1 && s.get_char(at2) == '}' {
                        Some(
                            Metadata {
                                read_marker: match rm {
                                    Some(t) => Some(ReadMarker(t)),
                                    None => None,
                                },
                                last_triggers_unread: ltu,
                            },
                        )
                    } else {
                        None
                    }
                },
            }
        },
    }
}

/// Writes the persisted text of a record.
pub fn encode_record(m: &Metadata) -> (r: String)
    requires
        metadata_valid(*m),
    ensures
        r@ == spec_encode_record(*m),
{
    let mut s = String::from_str("{\"read_marker\":");
    match &m.read_marker {
        None => {
            s.append("null");
        },
        Some(rm) => {
            s.append("\"");
            let t = format_ts(&rm.0);
            s.append(t.as_str());
            s.append("\"");
        },
    }
    s.append(",\"last_triggers_unread\":");
    match &m.last_triggers_unread {
        None => {
            s.append("null");
        },
        Some(t) => {
            s.append("\"");
            let ts = format_ts(t);
            s.append(ts.as_str());
            s.append("\"");
        },
    }
    s.append("}");
    proof {
        assert(s@ =~= spec_encode_record(*m));
    }
    s
}

/// Reading one encoded field at its position inside a larger text gives the
/// field's value back and stops right after it.
proof fn lemma_parse_encode_field(s: Seq<char>, at: int, v: Option<Timestamp>)
    requires
        v matches Some(t) ==> ts_valid(t),
        0 <= at,
        at + spec_encode_field(v).len() <= s.len(),
        s.subrange(at, at + spec_encode_field(v).len()) == spec_encode_field(v),
    ensures
        spec_parse_field(s, at) == Some((v, at + spec_encode_field(v).len())),
{
    reveal_strlit("null");
    reveal_strlit("\"");
    match v {
        None => {
            assert(spec_encode_field(v).len() == 4);
            assert(s.subrange(at, at + 4) == "null"@);
        },
        Some(t) => {
            let f = spec_encode_field(v);
            assert(f.len() == 26);
            assert(s[at] == f[0]);
            assert(s[at + 25] == f[25]);
            assert(f[0] == '"' && f[25] == '"');
            assert(s.subrange(at, at + 4) != "null"@) by {
                assert(s[at] == '"');
                assert("null"@[0] == 'n');
                assert(s.subrange(at, at + 4)[0] == s[at]);
            }
            assert(s.subrange(at + 1, at + 25) =~= spec_format_ts(t)) by {
                assert(forall|i: int|
                    0 <= i < 24 ==> #[trigger] s.subrange(at + 1, at + 25)[i] == f[1 + i]);
            }
            lemma_parse_format_ts(t);
        },
    }
}


/// The value of a recognized member: JSON `null`, or a string holding the
/// canonical timestamp text; any other value form rejects the document.
pub open spec fn spec_member_value(s: Seq<char>, at: int) -> Option<(Option<Timestamp>, int)> {
    if at + 4 <= s.len() && s.subrange(at, at + 4) == "null"@ {
        Some((None, at + 4))
    } else if 0 <= at < s.len() && s[at] == '"' {
        match spec_string_rest(s, at + 1) {
            None => None,
            Some(k) => {
                if at + 2 <= k <= s.len() {
                    match spec_parse_ts(s.subrange(at + 1, k - 1)) {
                        Some(t) => Some((Some(t), k)),
                        None => None,
                    }
                } else {
                    None
                }
            },
        }
    } else {
        None
    }
}

/// Walks the members of the record object, `at` standing at a member key or
/// the closing brace, carrying the recognized members seen so far (a
/// repeated recognized member takes its last occurrence). Yields the two
/// recognized values and the position after the closing brace.
pub open spec fn spec_record_rest(
    s: Seq<char>,
    at: int,
    rm: Option<Timestamp>,
    ltu: Option<Timestamp>,
) -> Option<(Option<Timestamp>, Option<Timestamp>, int)>
    decreases s.len() - at, 1int,
{
    if !(0 <= at < s.len()) {
        None
    } else if s[at] == '}' {
        Some((rm, ltu, at + 1))
    } else if s[at] != '"' {
        None
    } else {
        match spec_string_rest(s, at + 1) {
            None => None,
            Some(k) => {
                if !(at + 2 <= k <= s.len()) {
                    None
                } else {
                    let key = s.subrange(at + 1, k - 1);
                    let c: int = spec_ws_end(s, k);
                    if !(0 <= c < s.len() && s[c] == ':') {
                        None
                    } else {
                        let v: int = spec_ws_end(s, c + 1);
                        if key == "read_marker"@ {
                            match spec_member_value(s, v) {
                                None => None,
                                Some((t, ve)) => spec_record_tail(s, at, ve, t, ltu),
                            }
                        } else if key == "last_triggers_unread"@ {
                            match spec_member_value(s, v) {
                                None => None,
                                Some((t, ve)) => spec_record_tail(s, at, ve, rm, t),
                            }
                        } else {
                            match spec_value_end(s, step_from(s, at, v)) {
                                None => None,
                                Some(ve) => spec_record_tail(s, at, ve, rm, ltu),
                            }
                        }
                    }
                }
            },
        }
    }
}

/// After a member's value: a comma continues with the next member, the
/// closing brace ends the object.
pub open spec fn spec_record_tail(
    s: Seq<char>,
    at: int,
    ve: int,
    rm: Option<Timestamp>,
    ltu: Option<Timestamp>,
) -> Option<(Option<Timestamp>, Option<Timestamp>, int)>
    decreases s.len() - at, 0int,
{
    let e: int = spec_ws_end(s, step_from(s, at, ve));
    if 0 <= e < s.len() && s[e] == ',' {
        let m2: int = spec_ws_end(s, e + 1);
        if 0 <= m2 < s.len() && s[m2] != '}' {
            spec_record_rest(s, step_past(s, at, m2), rm, ltu)
        } else {
            None
        }
    } else if 0 <= e < s.len() && s[e] == '}' {
        Some((rm, ltu, e + 1))
    } else {
        None
    }
}

/// The lenient decode: any JSON object, with unknown members ignored and an
/// absent or null recognized member read as "not set".
pub open spec fn spec_decode_lenient(s: Seq<char>) -> Option<Metadata> {
    let a0: int = spec_ws_end(s, 0);
    if !(0 <= a0 < s.len() && s[a0] == '{') {
        None
    } else {
        match spec_record_rest(s, step_past(s, a0, spec_ws_end(s, a0 + 1)), None, None) {
            None => None,
            Some((rm, ltu, end)) => {
                if spec_ws_end(s, end) == s.len() {
                    Some(
                        Metadata {
                            read_marker: match rm {
                                Some(t) => Some(ReadMarker(t)),
                                None => None,
                            },
                            last_triggers_unread: ltu,
                        },
                    )
                } else {
                    None
                }
            },
        }
    }
}

/// What a persisted text stands for: the canonical document, or failing
/// that, any JSON object read leniently.
pub open spec fn spec_decode_record(s: Seq<char>) -> Option<Metadata> {
    match spec_decode_canonical(s) {
        Some(m) => Some(m),
        None => spec_decode_lenient(s),
    }
}

fn member_value(s: &str, n: usize, at: usize) -> (r: Option<(Option<Timestamp>, usize)>)
    requires
        n == s@.len(),
        at <= n,
    ensures
        match r {
            Some(p) => spec_member_value(s@, at as int) == Some((p.0, p.1 as int)) && p.1 <= n,
            None => spec_member_value(s@, at as int) is None,
        },
        r matches Some(p) ==> (p.0 matches Some(t) ==> ts_valid(t)),
{
    proof {
        reveal_strlit("null");
    }
    if n - at >= 4 && has_at(s, n, at, "null", 4) {
        return Some((None, at + 4));
    }
    if at < n && s.get_char(at) == '"' {
        match string_rest(s, n, at + 1) {
            None => None,
            Some(k) => {
                if k >= at + 2 {
                    let sub = s.substring_char(at + 1, k - 1);
                    match parse_ts(sub) {
                        Some(t) => Some((Some(t), k)),
                        None => None,
                    }
                } else {
                    None
                }
            },
        }
    } else {
        None
    }
}

fn record_rest(s: &str, n: usize, at: usize, rm: Option<Timestamp>, ltu: Option<Timestamp>) -> (r:
    Option<(Option<Timestamp>, Option<Timestamp>, usize)>)
    requires
        n == s@.len(),
        at <= n,
        rm matches Some(t) ==> ts_valid(t),
        ltu matches Some(t) ==> ts_valid(t),
    ensures
        match r {
            Some(p) => spec_record_rest(s@, at as int, rm, ltu) == Some((p.0, p.1, p.2 as int))
                && p.2 <= n,
            None => spec_record_rest(s@, at as int, rm, ltu) is None,
        },
        r matches Some(p) ==> ((p.0 matches Some(t) ==> ts_valid(t)) && (p.1 matches Some(t)
            ==> ts_valid(t))),
    decreases n - at, 1int,
{
    proof {
        reveal_strlit("read_marker");
        reveal_strlit("last_triggers_unread");
    }
    if at >= n {
        return None;
    }
    if s.get_char(at) == '}' {
        return Some((rm, ltu, at + 1));
    }
    if s.get_char(at) != '"' {
        return None;
    }
    match string_rest(s, n, at + 1) {
        None => None,
        Some(k) => {
            if !(k >= at + 2) {
                return None;
            }
            let c: usize = ws_end(s, n, k);
            if !(c < n && s.get_char(c) == ':') {
                return None;
            }
            let v: usize = ws_end(s, n, c + 1);
            if k - at == 13 && has_at(s, n, at + 1, "read_marker", 11) {
                match member_value(s, n, v) {
                    None => None,
                    Some((t, ve)) => record_tail(s, n, at, ve, t, ltu),
                }
            } else if k - at == 22 && has_at(s, n, at + 1, "last_triggers_unread", 20) {
                match member_value(s, n, v) {
                    None => None,
                    Some((t, ve)) => record_tail(s, n, at, ve, rm, t),
                }
            } else {
                proof {
                    assert(s@.subrange((at + 1) as int, (k - 1) as int).len() == k - 1 - (at
                        + 1));
                    assert("read_marker"@.len() == 11);
                    assert("last_triggers_unread"@.len() == 20);
                }
                match value_end(s, n, v) {
                    None => None,
                    Some(ve) => record_tail(s, n, at, ve, rm, ltu),
                }
            }
        },
    }
}

fn record_tail(s: &str, n: usize, at: usize, ve: usize, rm: Option<Timestamp>, ltu: Option<
    Timestamp,
>) -> (r: Option<(Option<Timestamp>, Option<Timestamp>, usize)>)
    requires
        n == s@.len(),
        at <= n,
        ve <= n,
        rm matches Some(t) ==> ts_valid(t),
        ltu matches Some(t) ==> ts_valid(t),
    ensures
        match r {
            Some(p) => spec_record_tail(s@, at as int, ve as int, rm, ltu) == Some(
                (p.0, p.1, p.2 as int),
            ) && p.2 <= n,
            None => spec_record_tail(s@, at as int, ve as int, rm, ltu) is None,
        },
        r matches Some(p) ==> ((p.0 matches Some(t) ==> ts_valid(t)) && (p.1 matches Some(t)
            ==> ts_valid(t))),
    decreases n - at, 0int,
{
    let vv: usize = if ve >= at {
        ve
    } else {
        at
    };
    let e: usize = ws_end(s, n, vv);
    if e < n && s.get_char(e) == ',' {
        let w2: usize = ws_end(s, n, e + 1);
        if !(w2 < n && s.get_char(w2) != '}') {
            return None;
        }
        let next: usize = if w2 > at {
            w2
        } else {
            at + 1
        };
        record_rest(s, n, next, rm, ltu)
    } else if e < n && s.get_char(e) == '}' {
        Some((rm, ltu, e + 1))
    } else {
        None
    }
}

fn decode_lenient(s: &str, n: usize) -> (r: Option<Metadata>)
    requires
        n == s@.len(),
    ensures
        r == spec_decode_lenient(s@),
        r matches Some(m) ==> metadata_valid(m),
{
    let a0: usize = ws_end(s, n, 0);
    if !(a0 < n && s.get_char(a0) == '{') {
        return None;
    }
    let w: usize = ws_end(s, n, a0 + 1);
    let start: usize = if w > a0 {
        w
    } else {
        a0 + 1
    };
    match record_rest(s, n, start, None, None) {
        None => None,
        Some((rm, ltu, end)) => {
            if ws_end(s, n, end) == n {
                Some(
                    Metadata {
                        read_marker: match rm {
                            Some(t) => Some(ReadMarker(t)),
                            None => None,
                        },
                        last_triggers_unread: ltu,
                    },
                )
            } else {
                None
            }
        },
    }
}

/// Turns the persisted text into the record it encodes: the canonical
/// document directly, any other JSON object leniently, and `None` on
/// anything else.
pub fn decode_record(s: &str) -> (r: Option<Metadata>)
    ensures
        r == spec_decode_record(s@),
        r matches Some(m) ==> metadata_valid(m),
{
    let n: usize = s.unicode_len();
    match decode_canonical(s, n) {
        Some(m) => Some(m),
        None => decode_lenient(s, n),
    }
}

proof fn lemma_record_rest_valid(s: Seq<char>, at: int, rm: Option<Timestamp>, ltu: Option<
    Timestamp,
>)
    requires
        rm matches Some(t) ==> ts_valid(t),
        ltu matches Some(t) ==> ts_valid(t),
    ensures
        spec_record_rest(s, at, rm, ltu) matches Some(p) ==> ((p.0 matches Some(t) ==> ts_valid(
            t,
        )) && (p.1 matches Some(t) ==> ts_valid(t))),
    decreases s.len() - at, 1int,
{
    if 0 <= at < s.len() && s[at] == '"' {
        match spec_string_rest(s, at + 1) {
            None => {},
            Some(k) => {
                if at + 2 <= k <= s.len() {
                    let key = s.subrange(at + 1, k - 1);
                    let c: int = spec_ws_end(s, k);
                    if 0 <= c < s.len() && s[c] == ':' {
                        let v: int = spec_ws_end(s, c + 1);
                        if key == "read_marker"@ {
                            if let Some((t, ve)) = spec_member_value(s, v) {
                                lemma_record_tail_valid(s, at, ve, t, ltu);
                            }
                        } else if key == "last_triggers_unread"@ {
                            if let Some((t, ve)) = spec_member_value(s, v) {
                                lemma_record_tail_valid(s, at, ve, rm, t);
                            }
                        } else {
                            if let Some(ve) = spec_value_end(s, step_from(s, at, v)) {
                                lemma_record_tail_valid(s, at, ve, rm, ltu);
                            }
                        }
                    }
                }
            },
        }
    }
}

proof fn lemma_record_tail_valid(s: Seq<char>, at: int, ve: int, rm: Option<Timestamp>, ltu:
    Option<Timestamp>)
    requires
        rm matches Some(t) ==> ts_valid(t),
        ltu matches Some(t) ==> ts_valid(t),
    ensures
        spec_record_tail(s, at, ve, rm, ltu) matches Some(p) ==> ((p.0 matches Some(t)
            ==> ts_valid(t)) && (p.1 matches Some(t) ==> ts_valid(t))),
    decreases s.len() - at, 0int,
{
    let e: int = spec_ws_end(s, step_from(s, at, ve));
    if 0 <= e < s.len() && s[e] == ',' {
        lemma_record_rest_valid(s, step_past(s, at, spec_ws_end(s, e + 1)), rm, ltu);
    }
}

/// Whatever decodes, decodes to a valid record.
pub proof fn lemma_decode_record_valid(s: Seq<char>)
    ensures
        spec_decode_record(s) matches Some(m) ==> metadata_valid(m),
{
    if spec_decode_canonical(s) is None {
        let a0: int = spec_ws_end(s, 0);
        if 0 <= a0 < s.len() && s[a0] == '{' {
            lemma_record_rest_valid(s, step_past(s, a0, spec_ws_end(s, a0 + 1)), None, None);
        }
    }
}

/// Decoding what the encoder wrote for a valid record gives the record back.
#[verifier::rlimit(80)]
pub proof fn lemma_decode_encode_record(m: Metadata)
    requires
        metadata_valid(m),
    ensures
        spec_decode_record(spec_encode_record(m)) == Some(m),
        spec_decode_canonical(spec_encode_record(m)) == Some(m),
{
    reveal_strlit("{\"read_marker\":");
    reveal_strlit(",\"last_triggers_unread\":");
    reveal_strlit("null");
    reveal_strlit("\"");
    reveal_strlit("}");
    let p1 = "{\"read_marker\":"@;
    let p2 = ",\"last_triggers_unread\":"@;
    let f1 = spec_encode_field(spec_marker_time(m.read_marker));
    let f2 = spec_encode_field(m.last_triggers_unread);
    let s = spec_encode_record(m);
    assert(p1.len() == 15);
    assert(p2.len() == 24);
    assert(s == p1 + f1 + p2 + f2 + "}"@);
    let at1 = 15 + f1.len() as int;
    let at2 = at1 + 24 + f2.len() as int;
    assert(s.len() == at2 + 1);
    assert(s.subrange(0, 15) =~= p1);
    assert(s.subrange(15, 15 + f1.len() as int) =~= f1);
    lemma_parse_encode_field(s, 15, spec_marker_time(m.read_marker));
    assert(spec_parse_field(s, 15) == Some((spec_marker_time(m.read_marker), at1)));
    assert(s.subrange(at1, at1 + 24) =~= p2);
    assert(s.subrange(at1 + 24, at1 + 24 + f2.len() as int) =~= f2);
    lemma_parse_encode_field(s, at1 + 24, m.last_triggers_unread);
    assert(spec_parse_field(s, at1 + 24) == Some((m.last_triggers_unread, at2)));
    assert(s[at2] == '}');
    match m.read_marker {
        Some(rm) => {
            assert(ReadMarker(rm.0) == rm);
        },
        None => {},
    }
    assert(spec_decode_canonical(s) == Some(m));
}

} // verus!
