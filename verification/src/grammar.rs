//! The concrete syntax of an event record, as mathematical functions.
//!
//! An event record is written as one object with the fields
//! `timestamp`, `action`, `text`, `description` (strings) and
//! `parameters` (a list of parameter objects), in that order.  A
//! parameter object carries `name`, an optional `description`, an
//! optional `required` flag (absent means `false`) and `value`.
//! Strings are quoted; the characters `"` and `\` and the three
//! control characters newline, carriage return and tab are written
//! with a backslash escape; other control characters have no written
//! form.  `parse_event` is the meaning of `decode`'s text phase and
//! `encode_event` the meaning of re-encoding.

use vstd::prelude::*;
use crate::payload::{EventView, ParamView};

verus! {

/// The escape letter of a character that must be escaped.
pub open spec fn escape_code(c: char) -> Option<char> {
    if c == '"' {
        Some('"')
    } else if c == '\\' {
        Some('\\')
    } else if c == '\n' {
        Some('n')
    } else if c == '\r' {
        Some('r')
    } else if c == '\t' {
        Some('t')
    } else {
        None
    }
}

/// The character an escape letter stands for.
pub open spec fn unescape_code(e: char) -> Option<char> {
    if e == '"' {
        Some('"')
    } else if e == '\\' {
        Some('\\')
    } else if e == 'n' {
        Some('\n')
    } else if e == 'r' {
        Some('\r')
    } else if e == 't' {
        Some('\t')
    } else {
        None
    }
}

/// A character the syntax can carry: printable, or one of the three
/// escapable control characters.
pub open spec fn encodable_char(c: char) -> bool {
    c as u32 >= 0x20 || c == '\n' || c == '\r' || c == '\t'
}

pub open spec fn encodable_str(s: Seq<char>) -> bool {
    forall|i: int| 0 <= i < s.len() ==> encodable_char(s[i])
}

pub open spec fn wf_param(p: ParamView) -> bool {
    &&& encodable_str(p.name)
    &&& match p.description {
        Some(d) => encodable_str(d),
        None => true,
    }
    &&& encodable_str(p.value)
}

/// An event whose strings the syntax can carry.
pub open spec fn wf_event(e: EventView) -> bool {
    &&& encodable_str(e.timestamp)
    &&& encodable_str(e.action)
    &&& encodable_str(e.text)
    &&& encodable_str(e.description)
    &&& forall|i: int| 0 <= i < e.parameters.len() ==> wf_param(#[trigger] e.parameters[i])
}

// ---------------------------------------------------------------------
// Encoding
// ---------------------------------------------------------------------

/// How one character is written inside a quoted string.
pub open spec fn escape_char(c: char) -> Seq<char> {
    match escape_code(c) {
        Some(e) => seq!['\\', e],
        None => seq![c],
    }
}

pub open spec fn escape_str(s: Seq<char>) -> Seq<char>
    decreases s.len(),
{
    if s.len() == 0 {
        Seq::empty()
    } else {
        escape_char(s[0]) + escape_str(s.drop_first())
    }
}

/// A quoted string.
pub open spec fn encode_string(s: Seq<char>) -> Seq<char> {
    seq!['"'] + (escape_str(s) + seq!['"'])
}

pub open spec fn encode_bool(b: bool) -> Seq<char> {
    if b {
        "true"@
    } else {
        "false"@
    }
}

pub open spec fn encode_param(p: ParamView) -> Seq<char> {
    "{\"name\":"@ + (encode_string(p.name) + (","@ + ((match p.description {
        Some(d) => "\"description\":"@ + (encode_string(d) + ","@),
        None => Seq::empty(),
    }) + ("\"required\":"@ + (encode_bool(p.required) + (","@ + ("\"value\":"@ + (
    encode_string(p.value) + "}"@))))))))
}

/// The written parameters from index `k` on, each preceded by a comma.
pub open spec fn encode_params_from(ps: Seq<ParamView>, k: int) -> Seq<char>
    decreases ps.len() - k when 0 <= k <= ps.len()
{
    if k >= ps.len() {
        Seq::empty()
    } else {
        ","@ + (encode_param(ps[k]) + encode_params_from(ps, k + 1))
    }
}

pub open spec fn encode_params(ps: Seq<ParamView>) -> Seq<char> {
    if ps.len() == 0 {
        "[]"@
    } else {
        "["@ + (encode_param(ps[0]) + (encode_params_from(ps, 1) + "]"@))
    }
}

pub open spec fn encode_event(e: EventView) -> Seq<char> {
    "{\"timestamp\":"@ + (encode_string(e.timestamp) + (",\"action\":"@ + (encode_string(
    e.action) + (",\"text\":"@ + (encode_string(e.text) + (",\"description\":"@ + (
    encode_string(e.description) + (",\"parameters\":"@ + (encode_params(e.parameters)
    + "}"@)))))))))
}

// ---------------------------------------------------------------------
// Parsing
// ---------------------------------------------------------------------

/// A fixed piece of text at position `i`.
pub open spec fn parse_lit(s: Seq<char>, i: int, lit: Seq<char>) -> Option<int> {
    if 0 <= i && i + lit.len() <= s.len() && s.subrange(i, i + lit.len()) == lit {
        Some(i + lit.len())
    } else {
        None
    }
}

/// The inside of a quoted string, from `i` up to the closing quote.
pub open spec fn parse_string_body(s: Seq<char>, i: int) -> Option<(Seq<char>, int)>
    decreases s.len() - i when 0 <= i <= s.len()
{
    if i >= s.len() {
        None
    } else if s[i] == '"' {
        Some((Seq::empty(), i + 1))
    } else if s[i] == '\\' {
        if i + 1 < s.len() {
            match unescape_code(s[i + 1]) {
                Some(u) => match parse_string_body(s, i + 2) {
                    Some(r) => Some((seq![u] + r.0, r.1)),
                    None => None,
                },
                None => None,
            }
        } else {
            None
        }
    } else if (s[i] as u32) < 0x20 {
        None
    } else {
        match parse_string_body(s, i + 1) {
            Some(r) => Some((seq![s[i]] + r.0, r.1)),
            None => None,
        }
    }
}

/// A quoted string at position `i`.
pub open spec fn parse_string(s: Seq<char>, i: int) -> Option<(Seq<char>, int)> {
    if 0 <= i < s.len() && s[i] == '"' {
        parse_string_body(s, i + 1)
    } else {
        None
    }
}

pub open spec fn parse_bool(s: Seq<char>, i: int) -> Option<(bool, int)> {
    match parse_lit(s, i, "true"@) {
        Some(j) => Some((true, j)),
        None => match parse_lit(s, i, "false"@) {
            Some(j) => Some((false, j)),
            None => None,
        },
    }
}

/// An optional `key: string ,` group; absence consumes nothing.
pub open spec fn parse_opt_str_field(s: Seq<char>, i: int, key: Seq<char>) -> Option<
    (Option<Seq<char>>, int),
> {
    match parse_lit(s, i, key) {
        Some(j) => match parse_string(s, j) {
            Some(r) => match parse_lit(s, r.1, ","@) {
                Some(j2) => Some((Some(r.0), j2)),
                None => None,
            },
            None => None,
        },
        None => Some((None, i)),
    }
}

/// An optional `key: bool ,` group; absence means `false`.
pub open spec fn parse_opt_bool_field(s: Seq<char>, i: int, key: Seq<char>) -> Option<
    (bool, int),
> {
    match parse_lit(s, i, key) {
        Some(j) => match parse_bool(s, j) {
            Some(r) => match parse_lit(s, r.1, ","@) {
                Some(j2) => Some((r.0, j2)),
                None => None,
            },
            None => None,
        },
        None => Some((false, i)),
    }
}

/// One parameter object at position `i`.
pub open spec fn parse_param(s: Seq<char>, i: int) -> Option<(ParamView, int)> {
    match parse_lit(s, i, "{\"name\":"@) {
        Some(j1) => match parse_string(s, j1) {
            Some(name) => match parse_lit(s, name.1, ","@) {
                Some(j2) => match parse_opt_str_field(s, j2, "\"description\":"@) {
                    Some(desc) => match parse_opt_bool_field(s, desc.1, "\"required\":"@) {
                        Some(req) => match parse_lit(s, req.1, "\"value\":"@) {
                            Some(j3) => match parse_string(s, j3) {
                                Some(value) => match parse_lit(s, value.1, "}"@) {
                                    Some(j4) => Some(
                                        (
                                            ParamView {
                                                name: name.0,
                                                description: desc.0,
                                                required: req.0,
                                                value: value.0,
                                            },
                                            j4,
                                        ),
                                    ),
                                    None => None,
                                },
                                None => None,
                            },
                            None => None,
                        },
                        None => None,
                    },
                    None => None,
                },
                None => None,
            },
            None => None,
        },
        None => None,
    }
}

/// The parameters after the first one: `,` and a parameter, repeated,
/// then `]`.  `acc` carries what is already parsed.
pub open spec fn parse_params_rest(s: Seq<char>, i: int, acc: Seq<ParamView>) -> Option<
    (Seq<ParamView>, int),
>
    decreases s.len() - i when 0 <= i <= s.len()
{
    match parse_lit(s, i, "]"@) {
        Some(j) => Some((acc, j)),
        None => match parse_lit(s, i, ","@) {
            Some(j) => match parse_param(s, j) {
                Some(p) => if j < p.1 <= s.len() {
                    parse_params_rest(s, p.1, acc.push(p.0))
                } else {
                    None
                },
                None => None,
            },
            None => None,
        },
    }
}

/// The parameter list at position `i`.
pub open spec fn parse_params(s: Seq<char>, i: int) -> Option<(Seq<ParamView>, int)> {
    match parse_lit(s, i, "["@) {
        Some(j) => match parse_lit(s, j, "]"@) {
            Some(j2) => Some((Seq::empty(), j2)),
            None => match parse_param(s, j) {
                Some(p) => if j < p.1 <= s.len() {
                    parse_params_rest(s, p.1, seq![p.0])
                } else {
                    None
                },
                None => None,
            },
        },
        None => None,
    }
}

/// A whole event record: the text must be consumed exactly.
pub open spec fn parse_event(s: Seq<char>) -> Option<EventView> {
    match parse_lit(s, 0, "{\"timestamp\":"@) {
        Some(j1) => match parse_string(s, j1) {
            Some(ts) => match parse_lit(s, ts.1, ",\"action\":"@) {
                Some(j2) => match parse_string(s, j2) {
                    Some(ac) => match parse_lit(s, ac.1, ",\"text\":"@) {
                        Some(j3) => match parse_string(s, j3) {
                            Some(tx) => match parse_lit(s, tx.1, ",\"description\":"@) {
                                Some(j4) => match parse_string(s, j4) {
                                    Some(de) => match parse_lit(s, de.1, ",\"parameters\":"@) {
                                        Some(j5) => match parse_params(s, j5) {
                                            Some(ps) => match parse_lit(s, ps.1, "}"@) {
                                                Some(j6) => if j6 == s.len() {
                                                    Some(
                                                        EventView {
                                                            timestamp: ts.0,
                                                            action: ac.0,
                                                            text: tx.0,
                                                            description: de.0,
                                                            parameters: ps.0,
                                                        },
                                                    )
                                                } else {
                                                    None
                                                },
                                                None => None,
                                            },
                                            None => None,
                                        },
                                        None => None,
                                    },
                                    None => None,
                                },
                                None => None,
                            },
                            None => None,
                        },
                        None => None,
                    },
                    None => None,
                },
                None => None,
            },
            None => None,
        },
        None => None,
    }
}

// ---------------------------------------------------------------------
// The encoding is parsed back to the same record
// ---------------------------------------------------------------------

/// A stretch of text equal to `a + b` splits at `a.len()`.
pub proof fn lemma_split(s: Seq<char>, i: int, a: Seq<char>, b: Seq<char>)
    requires
        0 <= i,
        i + a.len() + b.len() <= s.len(),
        s.subrange(i, i + a.len() + b.len()) == a + b,
    ensures
        s.subrange(i, i + a.len()) == a,
        s.subrange(i + a.len(), i + a.len() + b.len()) == b,
{
    let ab = s.subrange(i, i + a.len() + b.len());
    assert forall|k: int| 0 <= k < a.len() implies s.subrange(i, i + a.len())[k] == a[k] by {
        assert(ab[k] == (a + b)[k]);
    }
    assert(s.subrange(i, i + a.len()) =~= a);
    assert forall|k: int| 0 <= k < b.len() implies s.subrange(
        i + a.len(),
        i + a.len() + b.len(),
    )[k] == b[k] by {
        assert(ab[a.len() + k] == (a + b)[a.len() + k]);
    }
    assert(s.subrange(i + a.len(), i + a.len() + b.len()) =~= b);
}

/// The written form of an encodable string, followed by its closing
/// quote, parses back to that string.
proof fn lemma_parse_escaped_at(s: Seq<char>, i: int, v: Seq<char>)
    requires
        encodable_str(v),
        0 <= i,
        i + escape_str(v).len() + 1 <= s.len(),
        s.subrange(i, i + escape_str(v).len() + 1) == escape_str(v) + seq!['"'],
    ensures
        parse_string_body(s, i) == Some((v, i + escape_str(v).len() + 1)),
    decreases v.len(),
{
    if v.len() == 0 {
        assert(escape_str(v) + seq!['"'] =~= seq!['"']);
        assert(s[i] == s.subrange(i, i + 1)[0]);
    } else {
        let c = v[0];
        let rest = v.drop_first();
        assert(encodable_char(c));
        let ec = escape_char(c);
        let tail = escape_str(rest) + seq!['"'];
        assert(escape_str(v) + seq!['"'] =~= ec + tail);
        lemma_split(s, i, ec, tail);
        let sub = s.subrange(i, i + ec.len());
        match escape_code(c) {
            Some(e) => {
                assert(s[i] == sub[0] && s[i + 1] == sub[1]);
                assert(s[i] == '\\' && s[i + 1] == e);
                assert(unescape_code(e) == Some(c));
                lemma_parse_escaped_at(s, i + 2, rest);
                assert(seq![c] + rest =~= v);
            },
            None => {
                assert(s[i] == sub[0]);
                assert(s[i] == c);
                assert(c != '"' && c != '\\' && c as u32 >= 0x20);
                lemma_parse_escaped_at(s, i + 1, rest);
                assert(seq![c] + rest =~= v);
            },
        }
    }
}

/// A quoted encodable string parses back to itself.
pub proof fn lemma_parse_string_at(s: Seq<char>, i: int, v: Seq<char>)
    requires
        encodable_str(v),
        0 <= i,
        i + encode_string(v).len() <= s.len(),
        s.subrange(i, i + encode_string(v).len()) == encode_string(v),
    ensures
        parse_string(s, i) == Some((v, i + encode_string(v).len())),
{
    lemma_split(s, i, seq!['"'], escape_str(v) + seq!['"']);
    assert(s[i] == s.subrange(i, i + 1)[0]);
    assert(s[i] == '"');
    lemma_parse_escaped_at(s, i + 1, v);
}

/// A literal placed in the text is found there.
proof fn lemma_parse_lit_at(s: Seq<char>, i: int, lit: Seq<char>, rest: Seq<char>)
    requires
        0 <= i,
        i + lit.len() + rest.len() <= s.len(),
        s.subrange(i, i + lit.len() + rest.len()) == lit + rest,
    ensures
        parse_lit(s, i, lit) == Some(i + lit.len()),
        s.subrange(i + lit.len(), i + lit.len() + rest.len()) == rest,
{
    lemma_split(s, i, lit, rest);
}

/// A written parameter object parses back to itself.
#[verifier::rlimit(80)]
pub proof fn lemma_parse_param_at(s: Seq<char>, i: int, p: ParamView)
    requires
        wf_param(p),
        0 <= i,
        i + encode_param(p).len() <= s.len(),
        s.subrange(i, i + encode_param(p).len()) == encode_param(p),
    ensures
        parse_param(s, i) == Some((p, i + encode_param(p).len())),
{
    reveal_strlit("{\"name\":");
    reveal_strlit("\"description\":");
    reveal_strlit("\"required\":");
    reveal_strlit("\"value\":");
    reveal_strlit(",");
    reveal_strlit("}");
    reveal_strlit("true");
    reveal_strlit("false");
    let nk = "{\"name\":"@;
    let dk = "\"description\":"@;
    let rk = "\"required\":"@;
    let vk = "\"value\":"@;
    let cm = ","@;
    let cb = "}"@;
    let sn = encode_string(p.name);
    let dpart = match p.description {
        Some(d) => dk + (encode_string(d) + cm),
        None => Seq::<char>::empty(),
    };
    let bl = encode_bool(p.required);
    let sv = encode_string(p.value);

    let r8 = sv + cb;
    let r7 = vk + r8;
    let r6 = cm + r7;
    let r5 = bl + r6;
    let r4 = rk + r5;
    let r3 = dpart + r4;
    let r2 = cm + r3;
    let r1 = sn + r2;
    assert(encode_param(p) == nk + r1);

    lemma_parse_lit_at(s, i, nk, r1);
    let i1 = i + nk.len();
    lemma_split(s, i1, sn, r2);
    lemma_parse_string_at(s, i1, p.name);
    let i2 = i1 + sn.len();
    lemma_parse_lit_at(s, i2, cm, r3);
    let i3 = i2 + cm.len();
    lemma_split(s, i3, dpart, r4);
    let i4 = i3 + dpart.len();
    // the optional description group
    match p.description {
        Some(d) => {
            let d2 = encode_string(d) + cm;
            assert(dpart == dk + d2);
            assert(dpart + r4 =~= dk + (d2 + r4));
            lemma_parse_lit_at(s, i3, dk, d2 + r4);
            assert(d2 + r4 =~= encode_string(d) + (cm + r4));
            lemma_split(s, i3 + dk.len(), encode_string(d), cm + r4);
            lemma_parse_string_at(s, i3 + dk.len(), d);
            lemma_parse_lit_at(s, i3 + dk.len() + encode_string(d).len(), cm, r4);
            assert(parse_opt_str_field(s, i3, dk) == Some((Some(d), i4)));
        },
        None => {
            // what stands at `i3` is the required key, whose second
            // character differs from the description key's
            assert(s.subrange(i3, i3 + r4.len()) == r4);
            lemma_split(s, i3, rk, r5);
            assert(parse_lit(s, i3, dk) is None) by {
                if 0 <= i3 && i3 + dk.len() <= s.len() && s.subrange(i3, i3 + dk.len()) == dk {
                    assert(s[i3 + 1] == s.subrange(i3, i3 + dk.len())[1]);
                    assert(s[i3 + 1] == s.subrange(i3, i3 + rk.len())[1]);
                    assert(dk[1] == 'd' && rk[1] == 'r');
                    assert(false);
                }
            }
            assert(parse_opt_str_field(s, i3, dk) == Some((None::<Seq<char>>, i4)));
        },
    }
    // the required flag, always written
    assert(s.subrange(i4, i4 + r4.len()) == r4);
    lemma_parse_lit_at(s, i4, rk, r5);
    let i5 = i4 + rk.len();
    lemma_split(s, i5, bl, r6);
    if p.required {
        assert(parse_lit(s, i5, "true"@) == Some(i5 + 4));
    } else {
        assert(parse_lit(s, i5, "true"@) is None) by {
            if 0 <= i5 && i5 + 4 <= s.len() && s.subrange(i5, i5 + 4) == "true"@ {
                assert(s[i5] == s.subrange(i5, i5 + 4)[0]);
                assert(s[i5] == s.subrange(i5, i5 + bl.len())[0]);
                assert(false);
            }
        }
        assert(parse_lit(s, i5, "false"@) == Some(i5 + 5));
    }
    assert(parse_bool(s, i5) == Some((p.required, i5 + bl.len())));
    let i6 = i5 + bl.len();
    assert(s.subrange(i6, i6 + r6.len()) == r6);
    lemma_parse_lit_at(s, i6, cm, r7);
    let i7 = i6 + cm.len();
    assert(parse_opt_bool_field(s, i4, rk) == Some((p.required, i7)));
    lemma_parse_lit_at(s, i7, vk, r8);
    let i8 = i7 + vk.len();
    lemma_split(s, i8, sv, cb);
    lemma_parse_string_at(s, i8, p.value);
    let i9 = i8 + sv.len();
    assert(parse_lit(s, i9, cb) == Some(i9 + 1));
    assert(i9 + 1 == i + encode_param(p).len());
}

/// A written parameter object is never empty and never opens with `]`
/// or `,`.
proof fn lemma_encode_param_opens(p: ParamView)
    ensures
        encode_param(p).len() >= 8,
        encode_param(p)[0] == '{',
{
    reveal_strlit("{\"name\":");
    let nk = "{\"name\":"@;
    assert(encode_param(p)[0] == nk[0]);
}

/// The written tail of a parameter list parses back to the parameters
/// from `k` on, appended to what was already gathered.
proof fn lemma_parse_params_rest_at(
    s: Seq<char>,
    i: int,
    ps: Seq<ParamView>,
    k: int,
    acc: Seq<ParamView>,
)
    requires
        0 <= k <= ps.len(),
        forall|m: int| 0 <= m < ps.len() ==> wf_param(#[trigger] ps[m]),
        0 <= i,
        i + encode_params_from(ps, k).len() + 1 <= s.len(),
        s.subrange(i, i + encode_params_from(ps, k).len() + 1) == encode_params_from(ps, k)
            + seq![']'],
    ensures
        parse_params_rest(s, i, acc) == Some(
            (acc + ps.skip(k), i + encode_params_from(ps, k).len() + 1),
        ),
    decreases ps.len() - k,
{
    reveal_strlit("]");
    reveal_strlit(",");
    assert("]"@ =~= seq![']']);
    if k == ps.len() {
        assert(encode_params_from(ps, k) + seq![']'] =~= seq![']']);
        assert(s.subrange(i, i + 1) == seq![']']);
        assert(parse_lit(s, i, "]"@) == Some(i + 1));
        assert(acc + ps.skip(k) =~= acc);
    } else {
        let ep = encode_param(ps[k]);
        let rest = encode_params_from(ps, k + 1) + seq![']'];
        assert(encode_params_from(ps, k) + seq![']'] =~= ","@ + (ep + rest));
        lemma_parse_lit_at(s, i, ","@, ep + rest);
        let i1 = i + 1;
        lemma_split(s, i1, ep, rest);
        lemma_encode_param_opens(ps[k]);
        assert(parse_lit(s, i, "]"@) is None) by {
            if 0 <= i && i + 1 <= s.len() && s.subrange(i, i + 1) == "]"@ {
                assert(s[i] == s.subrange(i, i + 1)[0]);
                assert(s[i] == (","@ + (ep + rest))[0]);
                assert(false);
            }
        }
        lemma_parse_param_at(s, i1, ps[k]);
        let i2 = i1 + ep.len();
        lemma_parse_params_rest_at(s, i2, ps, k + 1, acc.push(ps[k]));
        assert(acc.push(ps[k]) + ps.skip(k + 1) =~= acc + ps.skip(k));
    }
}

/// A written parameter list parses back to itself.
pub proof fn lemma_parse_params_at(s: Seq<char>, i: int, ps: Seq<ParamView>)
    requires
        forall|m: int| 0 <= m < ps.len() ==> wf_param(#[trigger] ps[m]),
        0 <= i,
        i + encode_params(ps).len() <= s.len(),
        s.subrange(i, i + encode_params(ps).len()) == encode_params(ps),
    ensures
        parse_params(s, i) == Some((ps, i + encode_params(ps).len())),
{
    reveal_strlit("[]");
    reveal_strlit("[");
    reveal_strlit("]");
    if ps.len() == 0 {
        assert(encode_params(ps) =~= seq!['[', ']']);
        assert(s[i] == s.subrange(i, i + 2)[0]);
        assert(s[i + 1] == s.subrange(i, i + 2)[1]);
        assert(s.subrange(i, i + 1) =~= "["@);
        assert(s.subrange(i + 1, i + 2) =~= "]"@);
        assert(parse_lit(s, i, "["@) == Some(i + 1));
        assert(parse_lit(s, i + 1, "]"@) == Some(i + 2));
        assert(ps =~= Seq::<ParamView>::empty());
    } else {
        let ep = encode_param(ps[0]);
        let rest = encode_params_from(ps, 1) + seq![']'];
        assert(encode_params(ps) =~= "["@ + (ep + rest));
        lemma_parse_lit_at(s, i, "["@, ep + rest);
        let i1 = i + 1;
        lemma_split(s, i1, ep, rest);
        lemma_encode_param_opens(ps[0]);
        assert(parse_lit(s, i1, "]"@) is None) by {
            if 0 <= i1 && i1 + 1 <= s.len() && s.subrange(i1, i1 + 1) == "]"@ {
                assert(s[i1] == s.subrange(i1, i1 + 1)[0]);
                assert(s[i1] == (ep + rest)[0]);
                assert(false);
            }
        }
        lemma_parse_param_at(s, i1, ps[0]);
        let i2 = i1 + ep.len();
        lemma_parse_params_rest_at(s, i2, ps, 1, seq![ps[0]]);
        assert(seq![ps[0]] + ps.skip(1) =~= ps);
    }
}

// ---------------------------------------------------------------------
// What the parser yields, the syntax can carry again
// ---------------------------------------------------------------------

proof fn lemma_body_encodable(s: Seq<char>, i: int)
    requires
        0 <= i <= s.len(),
        parse_string_body(s, i) is Some,
    ensures
        encodable_str(parse_string_body(s, i)->Some_0.0),
    decreases s.len() - i,
{
    let r = parse_string_body(s, i)->Some_0;
    if s[i] == '"' {
    } else if s[i] == '\\' {
        let u = unescape_code(s[i + 1])->Some_0;
        lemma_body_encodable(s, i + 2);
        let v = parse_string_body(s, i + 2)->Some_0.0;
        assert(r.0 == seq![u] + v);
        assert(encodable_char(u));
        assert forall|m: int| 0 <= m < r.0.len() implies encodable_char(#[trigger] r.0[m]) by {
            if m > 0 {
                assert(r.0[m] == v[m - 1]);
            }
        }
    } else {
        lemma_body_encodable(s, i + 1);
        let v = parse_string_body(s, i + 1)->Some_0.0;
        assert(r.0 == seq![s[i]] + v);
        assert forall|m: int| 0 <= m < r.0.len() implies encodable_char(#[trigger] r.0[m]) by {
            if m > 0 {
                assert(r.0[m] == v[m - 1]);
            }
        }
    }
}

proof fn lemma_parse_string_encodable(s: Seq<char>, i: int)
    requires
        parse_string(s, i) is Some,
    ensures
        encodable_str(parse_string(s, i)->Some_0.0),
{
    lemma_body_encodable(s, i + 1);
}

proof fn lemma_parse_param_wf(s: Seq<char>, i: int)
    requires
        parse_param(s, i) is Some,
    ensures
        wf_param(parse_param(s, i)->Some_0.0),
{
    let j1 = parse_lit(s, i, "{\"name\":"@)->Some_0;
    lemma_parse_string_encodable(s, j1);
    let name = parse_string(s, j1)->Some_0;
    let j2 = parse_lit(s, name.1, ","@)->Some_0;
    if parse_lit(s, j2, "\"description\":"@) is Some {
        lemma_parse_string_encodable(s, parse_lit(s, j2, "\"description\":"@)->Some_0);
    }
    let desc = parse_opt_str_field(s, j2, "\"description\":"@)->Some_0;
    let req = parse_opt_bool_field(s, desc.1, "\"required\":"@)->Some_0;
    let j3 = parse_lit(s, req.1, "\"value\":"@)->Some_0;
    lemma_parse_string_encodable(s, j3);
}

proof fn lemma_parse_params_rest_wf(s: Seq<char>, i: int, acc: Seq<ParamView>)
    requires
        0 <= i <= s.len(),
        parse_params_rest(s, i, acc) is Some,
        forall|m: int| 0 <= m < acc.len() ==> wf_param(#[trigger] acc[m]),
    ensures
        forall|m: int|
            0 <= m < parse_params_rest(s, i, acc)->Some_0.0.len() ==> wf_param(
                #[trigger] parse_params_rest(s, i, acc)->Some_0.0[m],
            ),
    decreases s.len() - i,
{
    if parse_lit(s, i, "]"@) is Some {
    } else {
        let j = parse_lit(s, i, ","@)->Some_0;
        let p = parse_param(s, j)->Some_0;
        lemma_parse_param_wf(s, j);
        assert forall|m: int| 0 <= m < acc.push(p.0).len() implies wf_param(
            #[trigger] acc.push(p.0)[m],
        ) by {
            if m < acc.len() {
                assert(acc.push(p.0)[m] == acc[m]);
            }
        }
        lemma_parse_params_rest_wf(s, p.1, acc.push(p.0));
    }
}

proof fn lemma_parse_params_wf(s: Seq<char>, i: int)
    requires
        parse_params(s, i) is Some,
    ensures
        forall|m: int|
            0 <= m < parse_params(s, i)->Some_0.0.len() ==> wf_param(
                #[trigger] parse_params(s, i)->Some_0.0[m],
            ),
{
    let j = parse_lit(s, i, "["@)->Some_0;
    if parse_lit(s, j, "]"@) is Some {
    } else {
        let p = parse_param(s, j)->Some_0;
        lemma_parse_param_wf(s, j);
        assert forall|m: int| 0 <= m < seq![p.0].len() implies wf_param(
            #[trigger] seq![p.0][m],
        ) by {
            assert(seq![p.0][m] == p.0);
        }
        lemma_parse_params_rest_wf(s, p.1, seq![p.0]);
    }
}

/// Whatever the parser accepts is an event the syntax can carry: the
/// grammar has no written form for anything else.
pub proof fn lemma_parse_event_wf(s: Seq<char>)
    requires
        parse_event(s) is Some,
    ensures
        wf_event(parse_event(s)->Some_0),
{
    let j1 = parse_lit(s, 0, "{\"timestamp\":"@)->Some_0;
    lemma_parse_string_encodable(s, j1);
    let ts = parse_string(s, j1)->Some_0;
    let j2 = parse_lit(s, ts.1, ",\"action\":"@)->Some_0;
    lemma_parse_string_encodable(s, j2);
    let ac = parse_string(s, j2)->Some_0;
    let j3 = parse_lit(s, ac.1, ",\"text\":"@)->Some_0;
    lemma_parse_string_encodable(s, j3);
    let tx = parse_string(s, j3)->Some_0;
    let j4 = parse_lit(s, tx.1, ",\"description\":"@)->Some_0;
    lemma_parse_string_encodable(s, j4);
    let de = parse_string(s, j4)->Some_0;
    let j5 = parse_lit(s, de.1, ",\"parameters\":"@)->Some_0;
    lemma_parse_params_wf(s, j5);
}

/// A key literal, a quoted string and the rest of the text, taken
/// apart in one step.
proof fn lemma_key_string_at(s: Seq<char>, i: int, key: Seq<char>, v: Seq<char>, rest: Seq<char>)
    requires
        encodable_str(v),
        0 <= i,
        i + key.len() + encode_string(v).len() + rest.len() <= s.len(),
        s.subrange(i, i + key.len() + encode_string(v).len() + rest.len()) == key + (
        encode_string(v) + rest),
    ensures
        parse_lit(s, i, key) == Some(i + key.len()),
        parse_string(s, i + key.len()) == Some((v, i + key.len() + encode_string(v).len())),
        s.subrange(
            i + key.len() + encode_string(v).len(),
            i + key.len() + encode_string(v).len() + rest.len(),
        ) == rest,
{
    lemma_parse_lit_at(s, i, key, encode_string(v) + rest);
    lemma_split(s, i + key.len(), encode_string(v), rest);
    lemma_parse_string_at(s, i + key.len(), v);
}

/// A written event record parses back to the same record: the text
/// round trip behind the structural round trip of the codec.
#[verifier::rlimit(100)]
pub proof fn lemma_parse_encode_event(e: EventView)
    requires
        wf_event(e),
    ensures
        parse_event(encode_event(e)) == Some(e),
{
    reveal_strlit("{\"timestamp\":");
    reveal_strlit(",\"action\":");
    reveal_strlit(",\"text\":");
    reveal_strlit(",\"description\":");
    reveal_strlit(",\"parameters\":");
    reveal_strlit("}");
    let s = encode_event(e);
    let tk = "{\"timestamp\":"@;
    let ak = ",\"action\":"@;
    let xk = ",\"text\":"@;
    let dk = ",\"description\":"@;
    let pk = ",\"parameters\":"@;
    let cb = "}"@;
    let st = encode_string(e.timestamp);
    let sa = encode_string(e.action);
    let sx = encode_string(e.text);
    let sd = encode_string(e.description);
    let pp = encode_params(e.parameters);

    let r9 = pp + cb;
    let r8 = pk + r9;
    let r7 = sd + r8;
    let r6 = dk + r7;
    let r5 = sx + r6;
    let r4 = xk + r5;
    let r3 = sa + r4;
    let r2 = ak + r3;
    let r1 = st + r2;
    assert(s == tk + r1);
    assert(s.subrange(0, s.len() as int) =~= s);
    assert(s.subrange(0, s.len() as int) == tk + (st + r2));

    lemma_key_string_at(s, 0, tk, e.timestamp, r2);
    let i2: int = (tk.len() + st.len()) as int;
    assert(r2 =~= ak + (sa + r4));
    lemma_key_string_at(s, i2, ak, e.action, r4);
    let i4: int = i2 + ak.len() + sa.len() as int;
    assert(r4 =~= xk + (sx + r6));
    lemma_key_string_at(s, i4, xk, e.text, r6);
    let i6: int = i4 + xk.len() + sx.len() as int;
    assert(r6 =~= dk + (sd + r8));
    lemma_key_string_at(s, i6, dk, e.description, r8);
    let i8: int = i6 + dk.len() + sd.len() as int;
    lemma_parse_lit_at(s, i8, pk, r9);
    let i9 = i8 + pk.len();
    lemma_split(s, i9, pp, cb);
    lemma_parse_params_at(s, i9, e.parameters);
    let i10 = i9 + pp.len();
    assert(parse_lit(s, i10, cb) == Some(i10 + 1));
    assert(i10 + 1 == s.len());
}

} // verus!
