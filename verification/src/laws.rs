use vstd::prelude::*;
use crate::ast::{
    SpecValue, entries_insert, entries_sorted, lemma_entries_insert_split, lex_lt, wf_value,
};
use crate::error::SpecError;
use crate::token::SpecToken;
use crate::lexer::{lemma_close_quote_at, lex_cons, spec_lex, spec_tokenize};
use crate::spec_parse_json;
use crate::parser::{sp_members, sp_object, sp_value};

verus! {

/// The canonical token rendering of a value: what the lexer emits for its
/// canonical text, without the end-of-input sentinel.
pub open spec fn val_tokens(v: SpecValue) -> Seq<SpecToken>
    decreases v,
{
    match v {
        SpecValue::Str(s) => seq![SpecToken::StringLit(s)],
        SpecValue::Obj(es) => seq![SpecToken::LBrace] + entries_tokens(es) + seq![
            SpecToken::RBrace,
        ],
    }
}

/// The token rendering of an object's entries, comma-separated.
pub open spec fn entries_tokens(es: Seq<(Seq<char>, SpecValue)>) -> Seq<SpecToken>
    decreases es,
{
    if es.len() == 0 {
        Seq::empty()
    } else {
        let head = seq![SpecToken::StringLit(es[0].0), SpecToken::Colon] + val_tokens(es[0].1);
        if es.len() == 1 {
            head
        } else {
            head + seq![SpecToken::Comma] + entries_tokens(es.skip(1))
        }
    }
}

/// Every value's token rendering holds at least one token.
pub proof fn lemma_val_tokens_len(v: SpecValue)
    ensures
        val_tokens(v).len() >= 1,
{
}

/// The value an entry tree stands for once every object's entries are
/// folded in, left to right: keys in sorted order, a later entry under a
/// key that was seen before overwriting the earlier one.
pub open spec fn normalize(v: SpecValue) -> SpecValue
    decreases v, 1int,
{
    match v {
        SpecValue::Str(s) => SpecValue::Str(s),
        SpecValue::Obj(es) => SpecValue::Obj(normalize_entries(es, Seq::empty())),
    }
}

/// Folds entries into the gathered `acc`, in order, each value normalized.
pub open spec fn normalize_entries(
    es: Seq<(Seq<char>, SpecValue)>,
    acc: Seq<(Seq<char>, SpecValue)>,
) -> Seq<(Seq<char>, SpecValue)>
    decreases es, 0int,
{
    if es.len() == 0 {
        acc
    } else {
        normalize_entries(es.skip(1), entries_insert(acc, es[0].0, normalize(es[0].1)))
    }
}

/// Parsing the token rendering of any value, wherever it stands in a
/// token sequence, consumes exactly it and yields its normal form.
pub proof fn lemma_parse_val_tokens(ts: Seq<SpecToken>, pos: int, v: SpecValue)
    requires
        0 <= pos,
        pos + val_tokens(v).len() <= ts.len(),
        ts.subrange(pos, pos + val_tokens(v).len()) == val_tokens(v),
    ensures
        sp_value(ts, pos) == Ok::<(SpecValue, int), SpecError>(
            (normalize(v), pos + val_tokens(v).len()),
        ),
    decreases v,
{
    let n = val_tokens(v).len() as int;
    assert(ts[pos] == val_tokens(v)[0]) by {
        assert(ts.subrange(pos, pos + n)[0] == ts[pos]);
    }
    match v {
        SpecValue::Str(s) => {
            assert(ts[pos] == SpecToken::StringLit(s));
        },
        SpecValue::Obj(es) => {
            assert(ts[pos] is LBrace);
            let et = entries_tokens(es);
            assert(val_tokens(v)[0] == SpecToken::LBrace);
            assert forall|j: int| 0 <= j < et.len() implies ts[pos + 1 + j] == #[trigger] et[j] by {
                assert(ts.subrange(pos, pos + n)[1 + j] == ts[pos + 1 + j]);
                assert(val_tokens(v)[1 + j] == (seq![SpecToken::LBrace] + et)[1 + j]);
            }
            assert(ts.subrange(pos + 1, pos + 1 + et.len()) =~= et);
            assert(ts[pos + 1 + et.len()] is RBrace) by {
                assert(ts.subrange(pos, pos + n)[n - 1] == ts[pos + n - 1]);
                assert(val_tokens(v)[n - 1] == SpecToken::RBrace);
            }
            if es.len() == 0 {
                assert(et.len() == 0);
                assert(ts[pos + 1] is RBrace);
                assert(sp_object(ts, pos) == Ok::<(SpecValue, int), SpecError>(
                    (SpecValue::Obj(Seq::empty()), pos + 2),
                ));
                assert(normalize_entries(es, Seq::empty()) =~= Seq::<
                    (Seq<char>, SpecValue),
                >::empty());
            } else {
                assert(et[0] == SpecToken::StringLit(es[0].0));
                assert(!(ts[pos + 1] is RBrace));
                lemma_members_tokens(ts, pos + 1, es, Seq::empty());
            }
        },
    }
}

/// Parsing the token rendering of entries with a closing brace after
/// them, entries gathered so far in `acc`, consumes rendering and brace
/// and yields the object of all of them folded in, in order.
pub proof fn lemma_members_tokens(
    ts: Seq<SpecToken>,
    pos: int,
    es: Seq<(Seq<char>, SpecValue)>,
    acc: Seq<(Seq<char>, SpecValue)>,
)
    requires
        es.len() > 0,
        0 <= pos,
        pos + entries_tokens(es).len() + 1 <= ts.len(),
        ts.subrange(pos, pos + entries_tokens(es).len()) == entries_tokens(es),
        ts[pos + entries_tokens(es).len()] is RBrace,
    ensures
        sp_members(ts, pos, acc) == Ok::<(SpecValue, int), SpecError>(
            (SpecValue::Obj(normalize_entries(es, acc)), pos + entries_tokens(es).len() + 1),
        ),
    decreases es,
{
    let et = entries_tokens(es);
    let k0 = es[0].0;
    let v0 = es[0].1;
    let n0 = val_tokens(v0).len() as int;
    lemma_val_tokens_len(v0);
    assert forall|j: int| 0 <= j < et.len() implies ts[pos + j] == #[trigger] et[j] by {
        assert(ts.subrange(pos, pos + et.len())[j] == ts[pos + j]);
    }
    let head = seq![SpecToken::StringLit(k0), SpecToken::Colon] + val_tokens(v0);
    assert(head.len() == 2 + n0);
    assert(head[0] == SpecToken::StringLit(k0));
    assert(head[1] == SpecToken::Colon);
    assert(et[0] == head[0]);
    assert(et[1] == head[1]);
    assert(ts[pos] == SpecToken::StringLit(k0));
    assert(ts[pos + 1] == SpecToken::Colon);
    // the value's rendering stands at pos + 2
    assert(ts.subrange(pos + 2, pos + 2 + n0) =~= val_tokens(v0)) by {
        assert forall|j: int| 0 <= j < n0 implies ts[pos + 2 + j] == val_tokens(v0)[j] by {
            assert(et[2 + j] == head[2 + j]);
        }
    }
    lemma_parse_val_tokens(ts, pos + 2, v0);
    let p3 = pos + 2 + n0;
    let acc2 = entries_insert(acc, k0, normalize(v0));
    if es.len() == 1 {
        assert(et.len() == 2 + n0);
        assert(ts[p3] is RBrace);
        assert(es.skip(1).len() == 0);
        assert(normalize_entries(es.skip(1), acc2) == acc2);
        assert(normalize_entries(es, acc) == acc2);
        assert(sp_members(ts, pos, acc) == Ok::<(SpecValue, int), SpecError>(
            (SpecValue::Obj(acc2), p3 + 1),
        ));
    } else {
        assert(et == head + seq![SpecToken::Comma] + entries_tokens(es.skip(1)));
        assert(ts[p3] == SpecToken::Comma) by {
            assert(et[2 + n0] == SpecToken::Comma);
        }
        let rest = entries_tokens(es.skip(1));
        assert(ts.subrange(p3 + 1, p3 + 1 + rest.len()) =~= rest) by {
            assert forall|j: int| 0 <= j < rest.len() implies ts[p3 + 1 + j] == rest[j] by {
                assert(et[2 + n0 + 1 + j] == rest[j]);
            }
        }
        assert(et.len() == 2 + n0 + 1 + rest.len());
        assert(ts[p3 + 1 + rest.len()] is RBrace);
        lemma_members_tokens(ts, p3 + 1, es.skip(1), acc2);
        assert(normalize_entries(es, acc) == normalize_entries(es.skip(1), acc2));
        assert(sp_members(ts, pos, acc) == sp_members(ts, p3 + 1, acc2));
    }
}

/// A well-formed value is already normal: folding sorted, unique entries
/// back in changes nothing.
pub proof fn lemma_normalize_wf(v: SpecValue)
    requires
        wf_value(v),
    ensures
        normalize(v) == v,
    decreases v, 1int,
{
    match v {
        SpecValue::Str(_) => {},
        SpecValue::Obj(es) => {
            lemma_normalize_entries_wf(es, Seq::empty());
            assert(Seq::empty() + es =~= es);
        },
    }
}

/// Folding sorted entries whose keys all lie above the gathered ones
/// appends them as they are.
proof fn lemma_normalize_entries_wf(
    es: Seq<(Seq<char>, SpecValue)>,
    acc: Seq<(Seq<char>, SpecValue)>,
)
    requires
        entries_sorted(es),
        forall|i: int| 0 <= i < es.len() ==> wf_value(#[trigger] es[i].1),
        forall|i: int, j: int|
            0 <= i < acc.len() && 0 <= j < es.len() ==> lex_lt(
                #[trigger] acc[i].0,
                #[trigger] es[j].0,
            ),
    ensures
        normalize_entries(es, acc) == acc + es,
    decreases es, 0int,
{
    if es.len() == 0 {
        assert(acc + es =~= acc);
    } else {
        let k0 = es[0].0;
        let v0 = es[0].1;
        lemma_normalize_wf(v0);
        // the new entry's key lies above every gathered key, so it goes last
        lemma_entries_insert_split(acc, k0, v0, acc.len() as int);
        assert(acc.skip(acc.len() as int) =~= Seq::<(Seq<char>, SpecValue)>::empty());
        let acc2 = entries_insert(acc, k0, v0);
        assert(acc2 =~= acc.push((k0, v0)));
        assert(entries_sorted(es.skip(1)));
        assert forall|i: int, j: int|
            0 <= i < acc2.len() && 0 <= j < es.skip(1).len() implies lex_lt(
            #[trigger] acc2[i].0,
            #[trigger] es.skip(1)[j].0,
        ) by {
            assert(es.skip(1)[j] == es[j + 1]);
            if i < acc.len() {
                assert(acc2[i] == acc[i]);
            } else {
                assert(acc2[i] == (k0, v0));
                assert(lex_lt(es[0].0, es[j + 1].0));
            }
        }
        assert(forall|i: int| 0 <= i < es.skip(1).len() ==> wf_value(#[trigger] es.skip(1)[i].1))
            by {
            assert(forall|i: int|
                0 <= i < es.skip(1).len() ==> #[trigger] es.skip(1)[i] == es[i + 1]);
        }
        lemma_normalize_entries_wf(es.skip(1), acc2);
        assert(acc2 + es.skip(1) =~= acc + es);
    }
}

/// The canonical text of a value: strings and keys quoted, entries
/// comma-separated, no spacing.
pub open spec fn val_text(v: SpecValue) -> Seq<char>
    decreases v,
{
    match v {
        SpecValue::Str(s) => seq!['"'] + s + seq!['"'],
        SpecValue::Obj(es) => seq!['{'] + entries_text(es) + seq!['}'],
    }
}

/// The canonical text of an object's entries.
pub open spec fn entries_text(es: Seq<(Seq<char>, SpecValue)>) -> Seq<char>
    decreases es,
{
    if es.len() == 0 {
        Seq::empty()
    } else {
        let head = seq!['"'] + es[0].0 + seq!['"', ':'] + val_text(es[0].1);
        if es.len() == 1 {
            head
        } else {
            head + seq![','] + entries_text(es.skip(1))
        }
    }
}

/// A value whose canonical text scans back: no string and no key holds a
/// quote mark, the one character the dialect cannot carry in a string.
pub open spec fn quotable(v: SpecValue) -> bool
    decreases v, 1int,
{
    match v {
        SpecValue::Str(s) => !s.contains('"'),
        SpecValue::Obj(es) => quotable_entries(es),
    }
}

/// Every key and every value of the entries scans back.
pub open spec fn quotable_entries(es: Seq<(Seq<char>, SpecValue)>) -> bool
    decreases es, 0int,
{
    forall|i: int|
        0 <= i < es.len() ==> ((!(#[trigger] es[i]).0.contains('"')) && quotable(es[i].1))
}

/// Prepends a token sequence to a scan result, keeping an error as it is.
pub open spec fn lex_app(ts: Seq<SpecToken>, rest: Result<Seq<SpecToken>, SpecError>) -> Result<
    Seq<SpecToken>,
    SpecError,
> {
    match rest {
        Ok(r) => Ok(ts + r),
        Err(e) => Err(e),
    }
}

/// The characters of a matched slice, one by one.
proof fn lemma_sub_chars(cs: Seq<char>, pos: int, t: Seq<char>)
    requires
        0 <= pos,
        pos + t.len() <= cs.len(),
        cs.subrange(pos, pos + t.len()) == t,
    ensures
        forall|j: int| 0 <= j < t.len() ==> cs[pos + j] == #[trigger] t[j],
{
    assert forall|j: int| 0 <= j < t.len() implies cs[pos + j] == #[trigger] t[j] by {
        assert(cs.subrange(pos, pos + t.len())[j] == cs[pos + j]);
    }
}

/// Scanning a quoted string: where `"` + `s` + `"` stands at `pos` and `s`
/// holds no quote, the scan emits the one string token and goes on.
proof fn lemma_lex_quoted(cs: Seq<char>, pos: int, s: Seq<char>)
    requires
        !s.contains('"'),
        0 <= pos,
        pos + s.len() + 2 <= cs.len(),
        forall|j: int| 0 <= j < s.len() ==> cs[pos + 1 + j] == #[trigger] s[j],
        cs[pos] == '"',
        cs[pos + 1 + s.len()] == '"',
    ensures
        spec_lex(cs, pos) == lex_cons(
            SpecToken::StringLit(s),
            spec_lex(cs, pos + s.len() + 2),
        ),
{
    assert forall|t: int| pos + 1 <= t < pos + 1 + s.len() implies cs[t] != '"' by {
        assert(cs[pos + 1 + (t - pos - 1)] == s[t - pos - 1]);
    }
    lemma_close_quote_at(cs, pos + 1, pos + 1 + s.len());
    assert(cs.subrange(pos + 1, pos + 1 + s.len()) =~= s);
}

/// Scanning a value's canonical text: the scan emits exactly its tokens
/// and goes on behind it.
pub proof fn lemma_lex_val_text(cs: Seq<char>, pos: int, v: SpecValue)
    requires
        quotable(v),
        0 <= pos,
        pos + val_text(v).len() <= cs.len(),
        cs.subrange(pos, pos + val_text(v).len()) == val_text(v),
    ensures
        spec_lex(cs, pos) == lex_app(val_tokens(v), spec_lex(cs, pos + val_text(v).len())),
    decreases v,
{
    let m = val_text(v).len() as int;
    lemma_sub_chars(cs, pos, val_text(v));
    match v {
        SpecValue::Str(s) => {
            assert(val_text(v)[0] == '"');
            assert(val_text(v)[1 + s.len() as int] == '"');
            assert forall|j: int| 0 <= j < s.len() implies cs[pos + 1 + j] == #[trigger] s[j] by {
                assert(val_text(v)[1 + j] == s[j]);
            }
            lemma_lex_quoted(cs, pos, s);
            match spec_lex(cs, pos + m) {
                Ok(r) => {
                    assert(seq![SpecToken::StringLit(s)] + r =~= val_tokens(v) + r);
                },
                Err(_) => {},
            }
        },
        SpecValue::Obj(es) => {
            let et = entries_text(es);
            assert(val_text(v)[0] == '{');
            assert(val_text(v)[m - 1] == '}');
            assert(cs[pos] == '{');
            assert(cs[pos + m - 1] == '}');
            assert forall|j: int| 0 <= j < et.len() implies cs[pos + 1 + j] == #[trigger] et[j] by {
                assert(val_text(v)[1 + j] == et[j]);
            }
            if es.len() == 0 {
                assert(spec_lex(cs, pos) == lex_cons(SpecToken::LBrace, spec_lex(cs, pos + 1)));
                assert(spec_lex(cs, pos + 1) == lex_cons(
                    SpecToken::RBrace,
                    spec_lex(cs, pos + 2),
                ));
                assert(entries_tokens(es) =~= Seq::<SpecToken>::empty());
                match spec_lex(cs, pos + 2) {
                    Ok(r) => {
                        assert(seq![SpecToken::LBrace] + (seq![SpecToken::RBrace] + r)
                            =~= val_tokens(v) + r);
                    },
                    Err(_) => {},
                }
            } else {
                assert(spec_lex(cs, pos) == lex_cons(SpecToken::LBrace, spec_lex(cs, pos + 1)));
                assert(cs.subrange(pos + 1, pos + 1 + et.len()) =~= et);
                lemma_lex_entries_text(cs, pos + 1, es);
                assert(spec_lex(cs, pos + 1 + et.len()) == lex_cons(
                    SpecToken::RBrace,
                    spec_lex(cs, pos + m),
                ));
                match spec_lex(cs, pos + m) {
                    Ok(r) => {
                        assert(seq![SpecToken::LBrace] + (entries_tokens(es) + (seq![
                            SpecToken::RBrace,
                        ] + r)) =~= val_tokens(v) + r);
                    },
                    Err(_) => {},
                }
            }
        },
    }
}

/// Scanning the canonical text of an object's entries: the scan emits
/// exactly their tokens and goes on behind them.
proof fn lemma_lex_entries_text(cs: Seq<char>, pos: int, es: Seq<(Seq<char>, SpecValue)>)
    requires
        es.len() > 0,
        quotable_entries(es),
        0 <= pos,
        pos + entries_text(es).len() <= cs.len(),
        cs.subrange(pos, pos + entries_text(es).len()) == entries_text(es),
    ensures
        spec_lex(cs, pos) == lex_app(
            entries_tokens(es),
            spec_lex(cs, pos + entries_text(es).len()),
        ),
    decreases es,
{
    let et = entries_text(es);
    let k0 = es[0].0;
    let v0 = es[0].1;
    let head = seq!['"'] + k0 + seq!['"', ':'] + val_text(v0);
    let m0 = val_text(v0).len() as int;
    lemma_sub_chars(cs, pos, et);
    assert forall|j: int| 0 <= j < head.len() implies cs[pos + j] == #[trigger] head[j] by {
        assert(et[j] == head[j]);
    }
    assert(head[0] == '"');
    assert(head[1 + k0.len() as int] == '"');
    assert(head[2 + k0.len() as int] == ':');
    assert forall|j: int| 0 <= j < k0.len() implies cs[pos + 1 + j] == #[trigger] k0[j] by {
        assert(head[1 + j] == k0[j]);
    }
    lemma_lex_quoted(cs, pos, k0);
    let pc = pos + k0.len() + 2;
    assert(cs[pc] == ':');
    assert(spec_lex(cs, pc) == lex_cons(SpecToken::Colon, spec_lex(cs, pc + 1)));
    let pv = pc + 1;
    assert(cs.subrange(pv, pv + m0) =~= val_text(v0)) by {
        assert forall|j: int| 0 <= j < m0 implies cs[pv + j] == #[trigger] val_text(v0)[j] by {
            assert(head[3 + k0.len() + j] == val_text(v0)[j]);
        }
    }
    lemma_lex_val_text(cs, pv, v0);
    let pe = pv + m0;
    if es.len() == 1 {
        assert(et == head);
        match spec_lex(cs, pe) {
            Ok(r) => {
                assert(seq![SpecToken::StringLit(k0)] + (seq![SpecToken::Colon] + (val_tokens(v0)
                    + r)) =~= entries_tokens(es) + r);
            },
            Err(_) => {},
        }
    } else {
        assert(et == head + seq![','] + entries_text(es.skip(1)));
        assert(et[head.len() as int] == ',');
        assert(cs[pe] == ',');
        assert(spec_lex(cs, pe) == lex_cons(SpecToken::Comma, spec_lex(cs, pe + 1)));
        let rest = entries_text(es.skip(1));
        assert(cs.subrange(pe + 1, pe + 1 + rest.len()) =~= rest) by {
            assert forall|j: int| 0 <= j < rest.len() implies cs[pe + 1 + j] == #[trigger] rest[j]
                by {
                assert(et[head.len() + 1 + j] == rest[j]);
            }
        }
        assert forall|i: int|
            0 <= i < es.skip(1).len() implies ((!(#[trigger] es.skip(1)[i]).0.contains('"'))
            && quotable(es.skip(1)[i].1)) by {
            assert(es.skip(1)[i] == es[i + 1]);
            assert(quotable(es[i + 1].1) && !es[i + 1].0.contains('"'));
        }
        assert(quotable_entries(es.skip(1)));
        lemma_lex_entries_text(cs, pe + 1, es.skip(1));
        match spec_lex(cs, pos + et.len()) {
            Ok(r) => {
                assert(seq![SpecToken::StringLit(k0)] + (seq![SpecToken::Colon] + (val_tokens(v0)
                    + (seq![SpecToken::Comma] + (entries_tokens(es.skip(1)) + r))))
                    =~= entries_tokens(es) + r);
            },
            Err(_) => {},
        }
    }
}

/// Round trip: the canonical text of any value tree whose strings carry
/// no quote mark — entries in any order, duplicate keys allowed —
/// parses back to its normal form: `tokenize` then `parse_value`
/// succeeds on every such input, however deeply nested, and returns its
/// structure with each object's keys sorted and the last write winning.
/// A well-formed value comes back exactly as it is.
pub proof fn lemma_parse_round_trip(v: SpecValue)
    requires
        quotable(v),
    ensures
        spec_parse_json(val_text(v)) == Ok::<SpecValue, Seq<char>>(normalize(v)),
        wf_value(v) ==> spec_parse_json(val_text(v)) == Ok::<SpecValue, Seq<char>>(v),
{
    if wf_value(v) {
        lemma_normalize_wf(v);
    }
    let cs = val_text(v);
    assert(cs.subrange(0, cs.len() as int) =~= cs);
    lemma_lex_val_text(cs, 0, v);
    assert(spec_lex(cs, cs.len() as int) == Ok::<Seq<SpecToken>, SpecError>(Seq::empty()));
    assert(val_tokens(v) + Seq::<SpecToken>::empty() =~= val_tokens(v));
    assert(spec_tokenize(cs) == Ok::<Seq<SpecToken>, SpecError>(
        val_tokens(v).push(SpecToken::EndOfInput),
    ));
    let ts = val_tokens(v).push(SpecToken::EndOfInput);
    assert(ts.subrange(0, val_tokens(v).len() as int) =~= val_tokens(v));
    lemma_parse_val_tokens(ts, 0, v);
}

/// Failure is idempotent: what the pipeline makes of a text — the value,
/// or the error variant with its position and rendered message — is a
/// function of the text alone, so parsing the same input again yields
/// the same outcome. The contract of `parse_json` ties each call's
/// result to `spec_parse_json` of its input, of which this law speaks.
pub proof fn lemma_parse_deterministic(
    a: Seq<char>,
    b: Seq<char>,
    r1: Result<SpecValue, Seq<char>>,
    r2: Result<SpecValue, Seq<char>>,
)
    requires
        a == b,
        r1 == spec_parse_json(a),
        r2 == spec_parse_json(b),
    ensures
        r1 == r2,
{
}

} // verus!
