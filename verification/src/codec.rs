//! Decoding raw payload bytes to event records, and encoding records
//! back, proved against the grammar of `crate::grammar`.

use vstd::prelude::*;
use vstd::string::{StrSliceExecFns, StringExecFns};
use vstd::utf8::{decode_utf8, encode_utf8, valid_utf8};
use crate::grammar::{
    encode_event, encode_param, encode_params, encode_params_from, encode_string, escape_char,
    escape_code, escape_str, lemma_parse_encode_event, lemma_parse_event_wf, parse_bool,
    parse_event, parse_lit,
    parse_opt_bool_field, parse_opt_str_field, parse_param, parse_params, parse_params_rest,
    parse_string, parse_string_body, unescape_code, wf_event,
};
use crate::payload::{EventView, MessagePayload, ParamView, Parameter};
use crate::text::{push_char, utf8_to_string};

verus! {

/// Why a payload was rejected: the bytes are not valid text, or the
/// text is not a well-formed event record.
#[derive(Clone, Copy, Debug, PartialEq, Eq, Structural)]
pub enum DecodeError {
    EncodingError,
    SchemaError,
}

/// What `decode` returns, as a function of the raw bytes.
pub open spec fn spec_decode(bytes: Seq<u8>) -> Result<EventView, DecodeError> {
    if !valid_utf8(bytes) {
        Err(DecodeError::EncodingError)
    } else {
        match parse_event(decode_utf8(bytes)) {
            Some(e) => Ok(e),
            None => Err(DecodeError::SchemaError),
        }
    }
}

// ---------------------------------------------------------------------
// Scanning text
// ---------------------------------------------------------------------

/// Matches the fixed text `lit` at position `i`.
fn match_lit(s: &str, i: usize, lit: &str) -> (r: Option<usize>)
    ensures
        match r {
            Some(j) => parse_lit(s@, i as int, lit@) == Some(j as int),
            None => parse_lit(s@, i as int, lit@) is None,
        },
{
    let slen = s.unicode_len();
    let n = lit.unicode_len();
    if i > slen || n > slen - i {
        return None;
    }
    let mut k: usize = 0;
    while k < n
        invariant
            slen == s@.len(),
            n == lit@.len(),
            i + n <= slen,
            k <= n,
            forall|m: int| 0 <= m < k ==> s@[i + m] == lit@[m],
        decreases n - k,
    {
        if s.get_char(i + k) != lit.get_char(k) {
            assert(s@.subrange(i as int, i + n) != lit@) by {
                assert(s@.subrange(i as int, i + n)[k as int] == s@[i + k]);
            }
            return None;
        }
        k += 1;
    }
    assert(s@.subrange(i as int, i + n) =~= lit@);
    Some(i + n)
}

/// The character an escape letter stands for.
fn unescape(e: char) -> (r: Option<char>)
    ensures
        r == unescape_code(e),
{
    if e == '"' {
        Some('"')
    } else if e == '\\' {
        Some('\\')
    } else if e == 'n' {
        Some('\n')
    } else if e == 'r' {
        Some('\r')
    } else if e == 't' {
        Some('\t')
    } else {
        None
    }
}

/// Scans a quoted string at position `i`.
fn scan_string(s: &str, i: usize) -> (r: Option<(String, usize)>)
    ensures
        match r {
            Some(v) => parse_string(s@, i as int) == Some((v.0@, v.1 as int)) && v.1 <= s@.len(),
            None => parse_string(s@, i as int) is None,
        },
{
    let slen = s.unicode_len();
    if i >= slen || s.get_char(i) != '"' {
        return None;
    }
    let mut acc = String::new();
    let mut j: usize = i + 1;
    proof {
        if parse_string_body(s@, i + 1) is Some {
            let r2 = parse_string_body(s@, i + 1)->Some_0;
            assert(Seq::<char>::empty() + r2.0 =~= r2.0);
        }
    }
    loop
        invariant
            slen == s@.len(),
            i < slen,
            s@[i as int] == '"',
            i + 1 <= j <= slen,
            parse_string_body(s@, i + 1) == (match parse_string_body(s@, j as int) {
                Some(r2) => Some((acc@ + r2.0, r2.1)),
                None => None::<(Seq<char>, int)>,
            }),
        decreases slen - j,
    {
        if j >= slen {
            return None;
        }
        let c = s.get_char(j);
        if c == '"' {
            proof {
                assert(parse_string_body(s@, j as int) == Some(
                    (Seq::<char>::empty(), j + 1),
                ));
                assert(acc@ + Seq::<char>::empty() =~= acc@);
                assert(parse_string_body(s@, i + 1) == Some((acc@, j + 1)));
                assert(parse_string(s@, i as int) == Some((acc@, j + 1)));
            }
            return Some((acc, j + 1));
        } else if c == '\\' {
            if j + 1 >= slen {
                return None;
            }
            let e = s.get_char(j + 1);
            match unescape(e) {
                Some(u) => {
                    let ghost acc_old = acc@;
                    push_char(&mut acc, u);
                    proof {
                        if parse_string_body(s@, j + 2) is Some {
                            let r2 = parse_string_body(s@, j + 2)->Some_0;
                            assert(parse_string_body(s@, j as int) == Some(
                                (seq![u] + r2.0, r2.1),
                            ));
                            assert(acc_old + (seq![u] + r2.0) =~= acc@ + r2.0);
                        }
                    }
                    j += 2;
                },
                None => {
                    return None;
                },
            }
        } else if (c as u32) < 0x20 {
            return None;
        } else {
            let ghost acc_old = acc@;
            push_char(&mut acc, c);
            proof {
                if parse_string_body(s@, j + 1) is Some {
                    let r2 = parse_string_body(s@, j + 1)->Some_0;
                    assert(parse_string_body(s@, j as int) == Some((seq![c] + r2.0, r2.1)));
                    assert(acc_old + (seq![c] + r2.0) =~= acc@ + r2.0);
                }
            }
            j += 1;
        }
    }
}

/// Scans `true` or `false` at position `i`.
fn scan_bool(s: &str, i: usize) -> (r: Option<(bool, usize)>)
    ensures
        match r {
            Some(v) => parse_bool(s@, i as int) == Some((v.0, v.1 as int)) && v.1 <= s@.len(),
            None => parse_bool(s@, i as int) is None,
        },
{
    match match_lit(s, i, "true") {
        Some(j) => Some((true, j)),
        None => match match_lit(s, i, "false") {
            Some(j) => Some((false, j)),
            None => None,
        },
    }
}

/// Scans an optional `key string ,` group; absence consumes nothing.
fn scan_opt_str_field(s: &str, i: usize, key: &str) -> (r: Option<(Option<String>, usize)>)
    requires
        i <= s@.len(),
    ensures
        match r {
            Some(v) => parse_opt_str_field(s@, i as int, key@) == Some(
                (
                    match v.0 {
                        Some(ref d) => Some(d@),
                        None => None,
                    },
                    v.1 as int,
                ),
            ) && v.1 <= s@.len(),
            None => parse_opt_str_field(s@, i as int, key@) is None,
        },
{
    match match_lit(s, i, key) {
        Some(j) => match scan_string(s, j) {
            Some(v) => match match_lit(s, v.1, ",") {
                Some(j2) => Some((Some(v.0), j2)),
                None => None,
            },
            None => None,
        },
        None => Some((None, i)),
    }
}

/// Scans an optional `key bool ,` group; absence means `false`.
fn scan_opt_bool_field(s: &str, i: usize, key: &str) -> (r: Option<(bool, usize)>)
    requires
        i <= s@.len(),
    ensures
        match r {
            Some(v) => parse_opt_bool_field(s@, i as int, key@) == Some((v.0, v.1 as int))
                && v.1 <= s@.len(),
            None => parse_opt_bool_field(s@, i as int, key@) is None,
        },
{
    match match_lit(s, i, key) {
        Some(j) => match scan_bool(s, j) {
            Some(v) => match match_lit(s, v.1, ",") {
                Some(j2) => Some((v.0, j2)),
                None => None,
            },
            None => None,
        },
        None => Some((false, i)),
    }
}

/// Scans one parameter object at position `i`.
fn scan_param(s: &str, i: usize) -> (r: Option<(Parameter, usize)>)
    ensures
        match r {
            Some(v) => parse_param(s@, i as int) == Some((v.0@, v.1 as int)) && v.1 <= s@.len(),
            None => parse_param(s@, i as int) is None,
        },
{
    let j1 = match match_lit(s, i, "{\"name\":") {
        Some(j) => j,
        None => {
            return None;
        },
    };
    let (name, j2) = match scan_string(s, j1) {
        Some(v) => v,
        None => {
            return None;
        },
    };
    let j3 = match match_lit(s, j2, ",") {
        Some(j) => j,
        None => {
            return None;
        },
    };
    let (descr, j4) = match scan_opt_str_field(s, j3, "\"description\":") {
        Some(v) => v,
        None => {
            return None;
        },
    };
    let (req, j5) = match scan_opt_bool_field(s, j4, "\"required\":") {
        Some(v) => v,
        None => {
            return None;
        },
    };
    let j6 = match match_lit(s, j5, "\"value\":") {
        Some(j) => j,
        None => {
            return None;
        },
    };
    let (value, j7) = match scan_string(s, j6) {
        Some(v) => v,
        None => {
            return None;
        },
    };
    let j8 = match match_lit(s, j7, "}") {
        Some(j) => j,
        None => {
            return None;
        },
    };
    Some((Parameter { name, description: descr, required: req, value }, j8))
}

/// Scans the parameter list at position `i`.
fn scan_params(s: &str, i: usize) -> (r: Option<(Vec<Parameter>, usize)>)
    ensures
        match r {
            Some(v) => parse_params(s@, i as int) == Some(
                (v.0@.map_values(|p: Parameter| p@), v.1 as int),
            ) && v.1 <= s@.len(),
            None => parse_params(s@, i as int) is None,
        },
{
    let slen = s.unicode_len();
    let j0 = match match_lit(s, i, "[") {
        Some(j) => j,
        None => {
            return None;
        },
    };
    if let Some(j1) = match_lit(s, j0, "]") {
        let empty: Vec<Parameter> = Vec::new();
        assert(empty@.map_values(|p: Parameter| p@) =~= Seq::<ParamView>::empty());
        return Some((empty, j1));
    }
    let (first, mut j) = match scan_param(s, j0) {
        Some(v) => v,
        None => {
            return None;
        },
    };
    if j <= j0 {
        return None;
    }
    let mut acc: Vec<Parameter> = Vec::new();
    acc.push(first);
    proof {
        assert(acc@.map_values(|p: Parameter| p@) =~= seq![first@]);
    }
    loop
        invariant
            slen == s@.len(),
            j <= slen,
            parse_params(s@, i as int) == parse_params_rest(
                s@,
                j as int,
                acc@.map_values(|p: Parameter| p@),
            ),
        decreases slen - j,
    {
        if let Some(j2) = match_lit(s, j, "]") {
            return Some((acc, j2));
        }
        let j2 = match match_lit(s, j, ",") {
            Some(j2) => j2,
            None => {
                return None;
            },
        };
        let (p, j3) = match scan_param(s, j2) {
            Some(v) => v,
            None => {
                return None;
            },
        };
        if j3 <= j2 {
            return None;
        }
        let ghost acc_old = acc@;
        acc.push(p);
        proof {
            assert(acc@.map_values(|q: Parameter| q@) =~= acc_old.map_values(
                |q: Parameter| q@,
            ).push(p@));
        }
        j = j3;
    }
}

/// Scans a whole event record; the text must be consumed exactly.
fn scan_event(s: &str) -> (r: Option<MessagePayload>)
    ensures
        match r {
            Some(p) => parse_event(s@) == Some(p@),
            None => parse_event(s@) is None,
        },
{
    let slen = s.unicode_len();
    let j1 = match match_lit(s, 0, "{\"timestamp\":") {
        Some(j) => j,
        None => {
            return None;
        },
    };
    let (timestamp, j2) = match scan_string(s, j1) {
        Some(v) => v,
        None => {
            return None;
        },
    };
    let j3 = match match_lit(s, j2, ",\"action\":") {
        Some(j) => j,
        None => {
            return None;
        },
    };
    let (action, j4) = match scan_string(s, j3) {
        Some(v) => v,
        None => {
            return None;
        },
    };
    let j5 = match match_lit(s, j4, ",\"text\":") {
        Some(j) => j,
        None => {
            return None;
        },
    };
    let (text, j6) = match scan_string(s, j5) {
        Some(v) => v,
        None => {
            return None;
        },
    };
    let j7 = match match_lit(s, j6, ",\"description\":") {
        Some(j) => j,
        None => {
            return None;
        },
    };
    let (description, j8) = match scan_string(s, j7) {
        Some(v) => v,
        None => {
            return None;
        },
    };
    let j9 = match match_lit(s, j8, ",\"parameters\":") {
        Some(j) => j,
        None => {
            return None;
        },
    };
    let (parameters, j10) = match scan_params(s, j9) {
        Some(v) => v,
        None => {
            return None;
        },
    };
    let j11 = match match_lit(s, j10, "}") {
        Some(j) => j,
        None => {
            return None;
        },
    };
    if j11 != slen {
        return None;
    }
    Some(MessagePayload { timestamp, action, text, description, parameters })
}

/// Decodes raw payload bytes: first the fixed text encoding, then the
/// event grammar.  Pure; rejects malformed input without side effects.
pub fn decode(bytes: &Vec<u8>) -> (r: Result<MessagePayload, DecodeError>)
    ensures
        match r {
            Ok(p) => spec_decode(bytes@) == Ok::<EventView, DecodeError>(p@),
            Err(e) => spec_decode(bytes@) == Err::<EventView, DecodeError>(e),
        },
{
    match utf8_to_string(bytes) {
        None => Err(DecodeError::EncodingError),
        Some(s) => match scan_event(s.as_str()) {
            Some(p) => Ok(p),
            None => Err(DecodeError::SchemaError),
        },
    }
}

// ---------------------------------------------------------------------
// Writing text
// ---------------------------------------------------------------------

/// The escape letter of a character that must be escaped.
fn escape(c: char) -> (r: Option<char>)
    ensures
        r == escape_code(c),
{
    if c == '"' {
        Some('"')
    } else if c == '\\' {
        Some('\\')
    } else if c == '\n' {
        Some('n')
    } else if c == '\r' {
        Some('r')
    } else if c == '\t' {
        Some('t')
    } else {
        None
    }
}

/// Appends the quoted form of `v` to `out`.
fn emit_string(out: &mut String, v: &str)
    ensures
        final(out)@ == old(out)@ + encode_string(v@),
{
    let n = v.unicode_len();
    push_char(out, '"');
    let ghost base = out@;
    let mut k: usize = 0;
    proof {
        assert(v@.skip(0) =~= v@);
    }
    while k < n
        invariant
            n == v@.len(),
            k <= n,
            base + escape_str(v@) == out@ + escape_str(v@.skip(k as int)),
        decreases n - k,
    {
        let c = v.get_char(k);
        let ghost tail = v@.skip(k as int);
        proof {
            assert(tail[0] == v@[k as int]);
            assert(tail.drop_first() =~= v@.skip(k + 1));
            assert(escape_str(tail) == escape_char(c) + escape_str(v@.skip(k + 1)));
        }
        let ghost out_old = out@;
        match escape(c) {
            Some(e) => {
                push_char(out, '\\');
                push_char(out, e);
                proof {
                    assert(out@ =~= out_old + seq!['\\', e]);
                }
            },
            None => {
                push_char(out, c);
                proof {
                    assert(out@ =~= out_old + seq![c]);
                }
            },
        }
        proof {
            assert(out_old + (escape_char(c) + escape_str(v@.skip(k + 1))) =~= out@ + escape_str(
                v@.skip(k + 1),
            ));
        }
        k += 1;
    }
    proof {
        assert(v@.skip(n as int) =~= Seq::<char>::empty());
        assert(escape_str(Seq::<char>::empty()) == Seq::<char>::empty());
        assert(base + escape_str(v@) =~= out@);
    }
    push_char(out, '"');
    proof {
        assert(old(out)@ + encode_string(v@) =~= base + escape_str(v@) + seq!['"']);
    }
}

/// Appends the written form of one parameter to `out`.
#[verifier::rlimit(50)]
fn emit_param(out: &mut String, p: &Parameter)
    ensures
        final(out)@ == old(out)@ + encode_param(p@),
{
    out.append("{\"name\":");
    emit_string(out, p.name.as_str());
    out.append(",");
    match p.description {
        Some(ref d) => {
            out.append("\"description\":");
            emit_string(out, d.as_str());
            out.append(",");
        },
        None => {},
    }
    out.append("\"required\":");
    if p.required {
        out.append("true");
    } else {
        out.append("false");
    }
    out.append(",");
    out.append("\"value\":");
    emit_string(out, p.value.as_str());
    out.append("}");
    proof {
        assert(out@ =~= old(out)@ + encode_param(p@));
    }
}

/// Appends the written parameter list to `out`.
fn emit_params(out: &mut String, ps: &Vec<Parameter>)
    ensures
        final(out)@ == old(out)@ + encode_params(ps@.map_values(|p: Parameter| p@)),
{
    let ghost views = ps@.map_values(|p: Parameter| p@);
    let n = ps.len();
    if n == 0 {
        out.append("[]");
        proof {
            assert(out@ =~= old(out)@ + encode_params(views));
        }
        return ;
    }
    out.append("[");
    emit_param(out, &ps[0]);
    let mut k: usize = 1;
    let ghost base = out@;
    while k < n
        invariant
            n == ps.len(),
            views == ps@.map_values(|p: Parameter| p@),
            n == views.len(),
            1 <= k <= n,
            base + encode_params_from(views, 1) == out@ + encode_params_from(views, k as int),
        decreases n - k,
    {
        let ghost out_old = out@;
        out.append(",");
        emit_param(out, &ps[k]);
        proof {
            assert(encode_params_from(views, k as int) == ","@ + (encode_param(views[k as int])
                + encode_params_from(views, k + 1)));
            assert(out@ =~= out_old + (","@ + encode_param(ps[k as int]@)));
            assert(out_old + (","@ + (encode_param(views[k as int]) + encode_params_from(
                views,
                k + 1,
            ))) =~= out@ + encode_params_from(views, k + 1));
        }
        k += 1;
    }
    out.append("]");
    proof {
        assert(encode_params_from(views, n as int) == Seq::<char>::empty());
        assert(views[0] == ps@[0]@);
        assert(old(out)@ + encode_params(views) =~= out@);
    }
}

/// The written text of an event record.
fn encode_text(p: &MessagePayload) -> (r: String)
    ensures
        r@ == encode_event(p@),
{
    let mut out = String::new();
    out.append("{\"timestamp\":");
    emit_string(&mut out, p.timestamp.as_str());
    out.append(",\"action\":");
    emit_string(&mut out, p.action.as_str());
    out.append(",\"text\":");
    emit_string(&mut out, p.text.as_str());
    out.append(",\"description\":");
    emit_string(&mut out, p.description.as_str());
    out.append(",\"parameters\":");
    emit_params(&mut out, &p.parameters);
    out.append("}");
    proof {
        assert(out@ =~= encode_event(p@));
    }
    out
}

/// Re-encodes an event record as payload bytes.
pub fn encode(p: &MessagePayload) -> (r: Vec<u8>)
    ensures
        r@ == encode_utf8(encode_event(p@)),
{
    let s = encode_text(p);
    s.as_str().as_bytes_vec()
}

/// The structural round trip: decoding an encoded record yields a
/// record with identical field values.
pub proof fn lemma_decode_encode(e: EventView)
    requires
        wf_event(e),
    ensures
        spec_decode(encode_utf8(encode_event(e))) == Ok::<EventView, DecodeError>(e),
{
    vstd::utf8::encode_utf8_valid_utf8(encode_event(e));
    vstd::utf8::encode_utf8_decode_utf8(encode_event(e));
    lemma_parse_encode_event(e);
}

/// The round trip from the input side: a record decoded from any
/// accepted byte payload re-encodes, and decoding that encoding yields
/// the record back with identical field values.
pub proof fn lemma_decode_reencode(bytes: Seq<u8>, e: EventView)
    requires
        spec_decode(bytes) == Ok::<EventView, DecodeError>(e),
    ensures
        wf_event(e),
        spec_decode(encode_utf8(encode_event(e))) == Ok::<EventView, DecodeError>(e),
{
    lemma_parse_event_wf(decode_utf8(bytes));
    lemma_decode_encode(e);
}

} // verus!
