use vstd::prelude::*;
use vstd::string::StrSliceExecFns;

verus! {

/// Ghost form of an AST value: a string, or an object whose entries
/// stand in strictly increasing key order.
pub enum SpecValue {
    Str(Seq<char>),
    Obj(Seq<(Seq<char>, SpecValue)>),
}

/// Strict lexicographic order on character sequences, by code point.
/// Object entries are kept in this order.
pub open spec fn lex_lt(a: Seq<char>, b: Seq<char>) -> bool
    decreases a.len(),
{
    if b.len() == 0 {
        false
    } else if a.len() == 0 {
        true
    } else if (a[0] as u32) < (b[0] as u32) {
        true
    } else if (a[0] as u32) > (b[0] as u32) {
        false
    } else {
        lex_lt(a.skip(1), b.skip(1))
    }
}

pub proof fn lemma_lex_lt_asym(a: Seq<char>, b: Seq<char>)
    ensures
        lex_lt(a, b) ==> !lex_lt(b, a),
    decreases a.len(),
{
    if a.len() > 0 && b.len() > 0 && (a[0] as u32) == (b[0] as u32) {
        lemma_lex_lt_asym(a.skip(1), b.skip(1));
    }
}

pub proof fn lemma_lex_lt_total(a: Seq<char>, b: Seq<char>)
    ensures
        lex_lt(a, b) || lex_lt(b, a) || a == b,
    decreases a.len(),
{
    if a.len() == 0 && b.len() == 0 {
        assert(a =~= b);
    } else if a.len() > 0 && b.len() > 0 && (a[0] as u32) == (b[0] as u32) {
        vstd::utf8::char_u32_cast(a[0], a[0] as u32);
        vstd::utf8::char_u32_cast(b[0], b[0] as u32);
        lemma_lex_lt_total(a.skip(1), b.skip(1));
        if a.skip(1) == b.skip(1) {
            assert(a.skip(1).len() == a.len() - 1);
            assert(b.skip(1).len() == b.len() - 1);
            assert forall|i: int| 0 <= i < a.len() implies a[i] == b[i] by {
                if i >= 1 {
                    assert(a[i] == a.skip(1)[i - 1]);
                    assert(b[i] == b.skip(1)[i - 1]);
                }
            }
            assert(a =~= b);
        }
    }
}

pub proof fn lemma_lex_lt_trans(a: Seq<char>, b: Seq<char>, c: Seq<char>)
    ensures
        lex_lt(a, b) && lex_lt(b, c) ==> lex_lt(a, c),
    decreases a.len(),
{
    if a.len() > 0 && b.len() > 0 && c.len() > 0 && (a[0] as u32) == (b[0] as u32) && (b[0]
        as u32) == (c[0] as u32) {
        lemma_lex_lt_trans(a.skip(1), b.skip(1), c.skip(1));
    }
}

/// Entries in strictly increasing key order: sorted, and keys unique.
pub open spec fn entries_sorted(es: Seq<(Seq<char>, SpecValue)>) -> bool {
    forall|i: int, j: int|
        0 <= i < j < es.len() ==> lex_lt(#[trigger] es[i].0, #[trigger] es[j].0)
}

/// Insertion into a sorted entry sequence; an existing key is overwritten,
/// so the last write wins.
pub open spec fn entries_insert(
    es: Seq<(Seq<char>, SpecValue)>,
    k: Seq<char>,
    v: SpecValue,
) -> Seq<(Seq<char>, SpecValue)>
    decreases es.len(),
{
    if es.len() == 0 {
        seq![(k, v)]
    } else if lex_lt(k, es[0].0) {
        seq![(k, v)] + es
    } else if k == es[0].0 {
        seq![(k, v)] + es.skip(1)
    } else {
        seq![es[0]] + entries_insert(es.skip(1), k, v)
    }
}

/// A well-formed value: every object's entries, at every depth, are
/// sorted strictly by key.
pub open spec fn wf_value(v: SpecValue) -> bool
    decreases v,
{
    match v {
        SpecValue::Str(_) => true,
        SpecValue::Obj(es) => entries_sorted(es) && forall|i: int|
            0 <= i < es.len() ==> wf_value(#[trigger] es[i].1),
    }
}

/// The AST the parser produces: a string literal, or an object holding
/// its entries sorted strictly by key (the well-formedness invariant,
/// `entries_sorted` of the view). Duplicate keys overwrite.
#[derive(Debug, PartialEq)]
pub enum JsonValue {
    String(String),
    Object(Vec<(String, JsonValue)>),
}

/// The ghost value an AST value stands for.
pub open spec fn jv_view(v: JsonValue) -> SpecValue
    decreases v,
{
    match v {
        JsonValue::String(s) => SpecValue::Str(s@),
        JsonValue::Object(entries) => SpecValue::Obj(jv_entries_view(entries@)),
    }
}

/// The ghost entries an AST entry list stands for, in the same order.
pub open spec fn jv_entries_view(es: Seq<(String, JsonValue)>) -> Seq<(Seq<char>, SpecValue)>
    decreases es,
{
    if es.len() == 0 {
        Seq::empty()
    } else {
        seq![(es[0].0@, jv_view(es[0].1))] + jv_entries_view(es.skip(1))
    }
}

impl View for JsonValue {
    type V = SpecValue;

    open spec fn view(&self) -> SpecValue {
        jv_view(*self)
    }
}

/// If the first `n` characters agree, the order is decided by the rest.
pub proof fn lemma_lex_lt_common_prefix(a: Seq<char>, b: Seq<char>, n: int)
    requires
        0 <= n <= a.len(),
        n <= b.len(),
        forall|j: int| 0 <= j < n ==> a[j] == b[j],
    ensures
        lex_lt(a, b) == lex_lt(a.skip(n), b.skip(n)),
    decreases n,
{
    if n == 0 {
        assert(a.skip(0) =~= a);
        assert(b.skip(0) =~= b);
    } else {
        assert(a[0] == b[0]);
        lemma_lex_lt_common_prefix(a.skip(1), b.skip(1), n - 1);
        assert(a.skip(1).skip(n - 1) =~= a.skip(n));
        assert(b.skip(1).skip(n - 1) =~= b.skip(n));
    }
}

/// Decides the key order on strings: `lex_lt` of the views.
pub fn str_lt(a: &str, b: &str) -> (r: bool)
    ensures
        r == lex_lt(a@, b@),
{
    let alen = a.unicode_len();
    let blen = b.unicode_len();
    let mut i: usize = 0;
    loop
        invariant
            i <= alen,
            i <= blen,
            alen == a@.len(),
            blen == b@.len(),
            forall|j: int| 0 <= j < i ==> a@[j] == b@[j],
        decreases alen - i,
    {
        proof {
            lemma_lex_lt_common_prefix(a@, b@, i as int);
        }
        if i >= blen {
            return false;
        }
        if i >= alen {
            return true;
        }
        let ca = a.get_char(i);
        let cb = b.get_char(i);
        proof {
            assert(a@.skip(i as int)[0] == ca);
            assert(b@.skip(i as int)[0] == cb);
        }
        if (ca as u32) < (cb as u32) {
            return true;
        }
        if (ca as u32) > (cb as u32) {
            return false;
        }
        proof {
            vstd::utf8::char_u32_cast(ca, ca as u32);
            vstd::utf8::char_u32_cast(cb, cb as u32);
        }
        i = i + 1;
    }
}

/// The entry view, element by element.
pub proof fn lemma_jv_entries_view(es: Seq<(String, JsonValue)>)
    ensures
        jv_entries_view(es).len() == es.len(),
        forall|i: int|
            0 <= i < es.len() ==> #[trigger] jv_entries_view(es)[i] == (es[i].0@, jv_view(es[i].1)),
    decreases es,
{
    if es.len() > 0 {
        lemma_jv_entries_view(es.skip(1));
        assert forall|i: int|
            0 <= i < es.len() implies #[trigger] jv_entries_view(es)[i] == (
            es[i].0@,
            jv_view(es[i].1),
        ) by {
            if i > 0 {
                assert(jv_entries_view(es)[i] == jv_entries_view(es.skip(1))[i - 1]);
                assert(es.skip(1)[i - 1] == es[i]);
            }
        }
    }
}

/// Insertion splits at the first entry whose key is not below `k`.
pub proof fn lemma_entries_insert_split(
    es: Seq<(Seq<char>, SpecValue)>,
    k: Seq<char>,
    v: SpecValue,
    n: int,
)
    requires
        0 <= n <= es.len(),
        forall|j: int| 0 <= j < n ==> lex_lt(#[trigger] es[j].0, k),
        n < es.len() ==> !lex_lt(es[n].0, k),
    ensures
        entries_insert(es, k, v) == es.take(n) + entries_insert(es.skip(n), k, v),
    decreases n,
{
    if n == 0 {
        assert(es.take(0) =~= Seq::<(Seq<char>, SpecValue)>::empty());
        assert(es.skip(0) =~= es);
        assert(entries_insert(es, k, v) =~= es.take(0) + entries_insert(es.skip(0), k, v));
    } else {
        assert(lex_lt(es[0].0, k));
        lemma_lex_lt_asym(es[0].0, k);
        assert(!lex_lt(k, es[0].0));
        assert(k != es[0].0) by {
            if k == es[0].0 {
                lemma_lex_lt_asym(es[0].0, es[0].0);
            }
        }
        assert(entries_insert(es, k, v) == seq![es[0]] + entries_insert(es.skip(1), k, v));
        lemma_entries_insert_split(es.skip(1), k, v, n - 1);
        assert(es.skip(1).take(n - 1) =~= es.subrange(1, n));
        assert(es.skip(1).skip(n - 1) =~= es.skip(n));
        assert(seq![es[0]] + (es.subrange(1, n) + entries_insert(es.skip(n), k, v)) =~= es.take(n)
            + entries_insert(es.skip(n), k, v));
    }
}

/// Puts `(key, value)` into a key-sorted entry list, keeping the order;
/// an entry under the same key is overwritten.
pub fn obj_insert(entries: &mut Vec<(String, JsonValue)>, key: String, value: JsonValue)
    requires
        entries_sorted(jv_entries_view(old(entries)@)),
    ensures
        jv_entries_view(final(entries)@) == entries_insert(
            jv_entries_view(old(entries)@),
            key@,
            value@,
        ),
        entries_sorted(jv_entries_view(final(entries)@)),
{
    let ghost es = jv_entries_view(old(entries)@);
    proof {
        lemma_jv_entries_view(old(entries)@);
    }
    let len = entries.len();
    let mut n: usize = 0;
    while n < len && str_lt(entries[n].0.as_str(), key.as_str())
        invariant
            n <= len,
            len == entries@.len(),
            entries@ == old(entries)@,
            es == jv_entries_view(old(entries)@),
            entries_sorted(es),
            forall|j: int| 0 <= j < n ==> lex_lt(#[trigger] es[j].0, key@),
        decreases len - n,
    {
        proof {
            lemma_jv_entries_view(old(entries)@);
            assert(es[n as int] == jv_entries_view(old(entries)@)[n as int]);
        }
        n = n + 1;
    }
    proof {
        lemma_entries_insert_split(es, key@, value@, n as int);
    }
    let ghost tail = entries_insert(es.skip(n as int), key@, value@);
    if n == len {
        // every key is below the new one: the entry goes at the end
        entries.push((key, value));
        proof {
            assert(es.skip(n as int) =~= Seq::<(Seq<char>, SpecValue)>::empty());
            assert(tail =~= seq![(key@, value@)]);
            lemma_jv_entries_view(entries@);
            assert(jv_entries_view(entries@) =~= es.take(n as int) + tail);
            assert(jv_entries_view(entries@) =~= entries_insert(es, key@, value@));
        }
    } else if str_lt(key.as_str(), entries[n].0.as_str()) {
        // strictly between its neighbours: a fresh entry
        entries.insert(n, (key, value));
        proof {
            assert(es.skip(n as int)[0] == es[n as int]);
            assert(tail =~= seq![(key@, value@)] + es.skip(n as int));
            lemma_jv_entries_view(entries@);
            assert(jv_entries_view(entries@) =~= es.take(n as int) + tail);
            assert(jv_entries_view(entries@) =~= entries_insert(es, key@, value@));
            assert forall|i: int, j: int|
                0 <= i < j < jv_entries_view(entries@).len() implies lex_lt(
                #[trigger] jv_entries_view(entries@)[i].0,
                #[trigger] jv_entries_view(entries@)[j].0,
            ) by {
                let nn = n as int;
                if i < nn && j > nn {
                    lemma_lex_lt_trans(es[i].0, key@, es[j - 1].0);
                    lemma_lex_lt_trans(es[i].0, es[nn].0, es[j - 1].0);
                } else if i == nn && j > nn {
                    lemma_lex_lt_trans(key@, es[nn].0, es[j - 1].0);
                }
            }
        }
    } else {
        // same key: the last write wins
        proof {
            lemma_lex_lt_total(key@, es[n as int].0);
            assert(key@ == es[n as int].0);
            assert(es.skip(n as int)[0] == es[n as int]);
            assert(tail =~= seq![(key@, value@)] + es.skip(n as int).skip(1));
            assert(es.skip(n as int).skip(1) =~= es.skip(n as int + 1));
        }
        entries.remove(n);
        entries.insert(n, (key, value));
        proof {
            lemma_jv_entries_view(entries@);
            assert(jv_entries_view(entries@) =~= es.take(n as int) + tail);
            assert(jv_entries_view(entries@) =~= entries_insert(es, key@, value@));
        }
    }
}

} // verus!
