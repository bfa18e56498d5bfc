//! Reading Cypher literals back, and the encoder's round trip: what the
//! encoder writes reads back as the value it encoded.

use vstd::prelude::*;
use crate::cypher::{
    encode, encode_list, encode_pairs, entry_head, escape_char, escape_name, escape_name_char,
    escape_text, lemma_escape_name_concat, lemma_escape_text_concat, separator,
};
use crate::json::JsonModel;

verus! {

/// A character of number text.
pub open spec fn num_char(c: char) -> bool {
    (48 <= (c as u32) && (c as u32) <= 57) || c == '-' || c == '+' || c == '.' || c == 'e' || c == 'E'
}

/// Every number in the value is non-empty number text.
pub open spec fn numbers_ok(v: JsonModel) -> bool
    decreases v,
{
    match v {
        JsonModel::Number(t) => t.len() > 0 && forall|i: int| 0 <= i < t.len() ==> num_char(#[trigger] t[i]),
        JsonModel::Array(items) => forall|i: int| 0 <= i < items.len() ==> numbers_ok(#[trigger] items[i]),
        JsonModel::Object(ps) => forall|i: int| 0 <= i < ps.len() ==> numbers_ok(#[trigger] ps[i].1),
        _ => true,
    }
}

/// The body of a single-quoted string up to its closing quote, and what follows.
pub open spec fn read_text(s: Seq<char>) -> Option<(Seq<char>, Seq<char>)>
    decreases s.len(),
{
    if s.len() == 0 {
        None
    } else if s[0] == '\'' {
        Some((Seq::empty(), s.subrange(1, s.len() as int)))
    } else if s[0] == '\\' && s.len() >= 2 {
        match read_text(s.subrange(2, s.len() as int)) {
            Some((t, r)) => Some((seq![s[1]] + t, r)),
            None => None,
        }
    } else {
        match read_text(s.subrange(1, s.len() as int)) {
            Some((t, r)) => Some((seq![s[0]] + t, r)),
            None => None,
        }
    }
}

/// The body of a backtick-quoted name up to its closing backtick, and what follows.
pub open spec fn read_name(s: Seq<char>) -> Option<(Seq<char>, Seq<char>)>
    decreases s.len(),
{
    if s.len() == 0 {
        None
    } else if s[0] == '`' {
        if s.len() >= 2 && s[1] == '`' {
            match read_name(s.subrange(2, s.len() as int)) {
                Some((t, r)) => Some((seq!['`'] + t, r)),
                None => None,
            }
        } else {
            Some((Seq::empty(), s.subrange(1, s.len() as int)))
        }
    } else {
        match read_name(s.subrange(1, s.len() as int)) {
            Some((t, r)) => Some((seq![s[0]] + t, r)),
            None => None,
        }
    }
}

/// The longest prefix of number text, and what follows.
pub open spec fn read_number(s: Seq<char>) -> (Seq<char>, Seq<char>)
    decreases s.len(),
{
    if s.len() > 0 && num_char(s[0]) {
        let (t, r) = read_number(s.subrange(1, s.len() as int));
        (seq![s[0]] + t, r)
    } else {
        (Seq::empty(), s)
    }
}

pub open spec fn starts_with(s: Seq<char>, p: Seq<char>) -> bool {
    s.len() >= p.len() && s.subrange(0, p.len() as int) == p
}

/// One literal at the start of `s`, and what follows it.
pub open spec fn read_value(s: Seq<char>) -> Option<(JsonModel, Seq<char>)>
    decreases s.len(), 0nat,
{
    if s.len() == 0 {
        None
    } else if starts_with(s, seq!['n', 'u', 'l', 'l']) {
        Some((JsonModel::Null, s.subrange(4, s.len() as int)))
    } else if starts_with(s, seq!['t', 'r', 'u', 'e']) {
        Some((JsonModel::Bool(true), s.subrange(4, s.len() as int)))
    } else if starts_with(s, seq!['f', 'a', 'l', 's', 'e']) {
        Some((JsonModel::Bool(false), s.subrange(5, s.len() as int)))
    } else if s[0] == '\'' {
        match read_text(s.subrange(1, s.len() as int)) {
            Some((t, r)) => Some((JsonModel::Str(t), r)),
            None => None,
        }
    } else if s[0] == '[' {
        let r = s.subrange(1, s.len() as int);
        if r.len() > 0 && r[0] == ']' {
            Some((JsonModel::Array(Seq::empty()), r.subrange(1, r.len() as int)))
        } else {
            match read_items(r) {
                Some((items, r2)) => if r2.len() > 0 && r2[0] == ']' {
                    Some((JsonModel::Array(items), r2.subrange(1, r2.len() as int)))
                } else {
                    None
                },
                None => None,
            }
        }
    } else if s[0] == '{' {
        let r = s.subrange(1, s.len() as int);
        if r.len() > 0 && r[0] == '}' {
            Some((JsonModel::Object(Seq::empty()), r.subrange(1, r.len() as int)))
        } else {
            match read_entries(r) {
                Some((ps, r2)) => if r2.len() > 0 && r2[0] == '}' {
                    Some((JsonModel::Object(ps), r2.subrange(1, r2.len() as int)))
                } else {
                    None
                },
                None => None,
            }
        }
    } else if num_char(s[0]) {
        let (t, r) = read_number(s);
        Some((JsonModel::Number(t), r))
    } else {
        None
    }
}

/// Literals separated by `", "`.
pub open spec fn read_items(s: Seq<char>) -> Option<(Seq<JsonModel>, Seq<char>)>
    decreases s.len(), 1nat,
{
    match read_value(s) {
        Some((v, r)) => if r.len() < s.len() && starts_with(r, separator()) {
            match read_items(r.subrange(2, r.len() as int)) {
                Some((vs, r2)) => Some((seq![v] + vs, r2)),
                None => None,
            }
        } else {
            Some((seq![v], r))
        },
        None => None,
    }
}

/// Map entries `` `name`: literal `` separated by `", "`.
pub open spec fn read_entries(s: Seq<char>) -> Option<(Seq<(Seq<char>, JsonModel)>, Seq<char>)>
    decreases s.len(), 1nat,
{
    if s.len() > 0 && s[0] == '`' {
        match read_name(s.subrange(1, s.len() as int)) {
            Some((k, r)) => if r.len() < s.len() && starts_with(r, seq![':', ' ']) {
                match read_value(r.subrange(2, r.len() as int)) {
                    Some((v, r2)) => if r2.len() < s.len() && starts_with(r2, separator()) {
                        match read_entries(r2.subrange(2, r2.len() as int)) {
                            Some((es, r3)) => Some((seq![(k, v)] + es, r3)),
                            None => None,
                        }
                    } else {
                        Some((seq![(k, v)], r2))
                    },
                    None => None,
                }
            } else {
                None
            },
            None => None,
        }
    } else {
        None
    }
}

proof fn lemma_not_starts(s: Seq<char>, p: Seq<char>)
    requires
        p.len() > 0,
        s.len() > 0,
        s[0] != p[0],
    ensures
        !starts_with(s, p),
{
    if s.len() >= p.len() {
        assert(s.subrange(0, p.len() as int)[0] == s[0]);
    }
}

proof fn lemma_escape_text_front(c: char, t: Seq<char>)
    ensures
        escape_text(seq![c] + t) == escape_char(c) + escape_text(t),
{
    lemma_escape_text_concat(seq![c], t);
    assert(seq![c].drop_last() =~= Seq::<char>::empty());
    assert(escape_text(Seq::<char>::empty()) == Seq::<char>::empty());
    assert(seq![c].last() == c);
    assert(Seq::<char>::empty() + escape_char(c) =~= escape_char(c));
}

proof fn lemma_escape_name_front(c: char, t: Seq<char>)
    ensures
        escape_name(seq![c] + t) == escape_name_char(c) + escape_name(t),
{
    lemma_escape_name_concat(seq![c], t);
    assert(seq![c].drop_last() =~= Seq::<char>::empty());
    assert(escape_name(Seq::<char>::empty()) == Seq::<char>::empty());
    assert(seq![c].last() == c);
    assert(Seq::<char>::empty() + escape_name_char(c) =~= escape_name_char(c));
}

proof fn lemma_read_text(t: Seq<char>, rest: Seq<char>)
    ensures
        read_text(escape_text(t) + seq!['\''] + rest) == Some((t, rest)),
    decreases t.len(),
{
    let s = escape_text(t) + seq!['\''] + rest;
    if t.len() == 0 {
        assert(escape_text(t) == Seq::<char>::empty());
        assert(s =~= seq!['\''] + rest);
        assert(s.subrange(1, s.len() as int) =~= rest);
    } else {
        let c = t[0];
        let t1 = t.subrange(1, t.len() as int);
        assert(t =~= seq![c] + t1);
        lemma_escape_text_front(c, t1);
        lemma_read_text(t1, rest);
        let tail = escape_text(t1) + seq!['\''] + rest;
        assert(s =~= escape_char(c) + tail);
        if c == '\\' || c == '\'' {
            assert(s[0] == '\\');
            assert(s[1] == c);
            assert(s.subrange(2, s.len() as int) =~= tail);
        } else {
            assert(s[0] == c);
            assert(s.subrange(1, s.len() as int) =~= tail);
        }
        assert(seq![c] + t1 =~= t);
    }
}

proof fn lemma_read_name(k: Seq<char>, rest: Seq<char>)
    requires
        rest.len() > 0,
        rest[0] != '`',
    ensures
        read_name(escape_name(k) + seq!['`'] + rest) == Some((k, rest)),
    decreases k.len(),
{
    let s = escape_name(k) + seq!['`'] + rest;
    if k.len() == 0 {
        assert(escape_name(k) == Seq::<char>::empty());
        assert(s =~= seq!['`'] + rest);
        assert(s[1] == rest[0]);
        assert(s.subrange(1, s.len() as int) =~= rest);
    } else {
        let c = k[0];
        let k1 = k.subrange(1, k.len() as int);
        assert(k =~= seq![c] + k1);
        lemma_escape_name_front(c, k1);
        lemma_read_name(k1, rest);
        let tail = escape_name(k1) + seq!['`'] + rest;
        assert(s =~= escape_name_char(c) + tail);
        if c == '`' {
            assert(s[0] == '`');
            assert(s[1] == '`');
            assert(s.subrange(2, s.len() as int) =~= tail);
        } else {
            assert(s[0] == c);
            assert(s.subrange(1, s.len() as int) =~= tail);
        }
        assert(seq![c] + k1 =~= k);
    }
}

proof fn lemma_read_number(t: Seq<char>, rest: Seq<char>)
    requires
        forall|i: int| 0 <= i < t.len() ==> num_char(#[trigger] t[i]),
        rest.len() == 0 || !num_char(rest[0]),
    ensures
        read_number(t + rest) == (t, rest),
    decreases t.len(),
{
    let s = t + rest;
    if t.len() == 0 {
        assert(s =~= rest);
    } else {
        let t1 = t.subrange(1, t.len() as int);
        assert(s[0] == t[0]);
        assert(s.subrange(1, s.len() as int) =~= t1 + rest);
        lemma_read_number(t1, rest);
        assert(seq![t[0]] + t1 =~= t);
    }
}

proof fn lemma_encode_list_front(s: Seq<JsonModel>)
    requires
        s.len() >= 2,
    ensures
        encode_list(s) == encode(s[0]) + separator() + encode_list(s.subrange(1, s.len() as int)),
    decreases s.len(),
{
    let init = s.subrange(0, s.len() - 1);
    let tail = s.subrange(1, s.len() as int);
    if s.len() == 2 {
        assert(init.len() == 1 && init[0] == s[0]);
        assert(tail.len() == 1 && tail[0] == s[1]);
        assert(encode_list(init) == encode(s[0]));
        assert(encode_list(tail) == encode(s[1]));
        assert(encode_list(s) == encode_list(init) + separator() + encode(s[1]));
    } else {
        lemma_encode_list_front(init);
        assert(encode_list(s) == encode_list(init) + separator() + encode(s[s.len() - 1]));
        assert(encode_list(tail) == encode_list(tail.subrange(0, tail.len() - 1)) + separator()
            + encode(tail[tail.len() - 1]));
        assert(init.subrange(1, init.len() as int) =~= tail.subrange(0, tail.len() - 1));
        assert(tail[tail.len() - 1] == s[s.len() - 1]);
        assert(init[0] == s[0]);
        assert(encode(s[0]) + separator() + encode_list(tail.subrange(0, tail.len() - 1)) + separator()
            + encode(s[s.len() - 1]) =~= encode(s[0]) + separator() + (encode_list(
            tail.subrange(0, tail.len() - 1),
        ) + separator() + encode(s[s.len() - 1])));
    }
}

proof fn lemma_encode_pairs_front(s: Seq<(Seq<char>, JsonModel)>)
    requires
        s.len() >= 2,
    ensures
        encode_pairs(s) == entry_head(s[0].0) + encode(s[0].1) + separator() + encode_pairs(
            s.subrange(1, s.len() as int),
        ),
    decreases s.len(),
{
    let init = s.subrange(0, s.len() - 1);
    let tail = s.subrange(1, s.len() as int);
    if s.len() == 2 {
        assert(init.len() == 1 && init[0] == s[0]);
        assert(tail.len() == 1 && tail[0] == s[1]);
        assert(encode_pairs(init) == entry_head(s[0].0) + encode(s[0].1));
        assert(encode_pairs(tail) == entry_head(s[1].0) + encode(s[1].1));
        assert(encode_pairs(s) == encode_pairs(init) + separator() + entry_head(s[1].0) + encode(
            s[1].1,
        ));
        assert(encode_pairs(s) =~= entry_head(s[0].0) + encode(s[0].1) + separator() + (entry_head(
            s[1].0,
        ) + encode(s[1].1)));
    } else {
        lemma_encode_pairs_front(init);
        let last0 = s[s.len() - 1];
        assert(encode_pairs(s) == encode_pairs(init) + separator() + entry_head(last0.0) + encode(
            last0.1,
        ));
        assert(encode_pairs(tail) == encode_pairs(tail.subrange(0, tail.len() - 1)) + separator()
            + entry_head(tail[tail.len() - 1].0) + encode(tail[tail.len() - 1].1));
        assert(init.subrange(1, init.len() as int) =~= tail.subrange(0, tail.len() - 1));
        assert(tail[tail.len() - 1] == s[s.len() - 1]);
        assert(init[0] == s[0]);
        let last = s[s.len() - 1];
        assert(entry_head(s[0].0) + encode(s[0].1) + separator() + encode_pairs(
            tail.subrange(0, tail.len() - 1),
        ) + separator() + entry_head(last.0) + encode(last.1) =~= entry_head(s[0].0) + encode(
            s[0].1,
        ) + separator() + (encode_pairs(tail.subrange(0, tail.len() - 1)) + separator()
            + entry_head(last.0) + encode(last.1)));
    }
}

/// What may follow a literal inside an encoding: nothing, a separator, or a
/// closing bracket.
pub open spec fn stops(rest: Seq<char>) -> bool {
    rest.len() == 0 || rest[0] == ',' || rest[0] == ']' || rest[0] == '}'
}

proof fn lemma_encode_start(v: JsonModel)
    requires
        numbers_ok(v),
    ensures
        encode(v).len() > 0,
        encode(v)[0] != ']' && encode(v)[0] != '}' && encode(v)[0] != ',',
{
    match v {
        JsonModel::Number(t) => {
            assert(num_char(t[0]));
        },
        JsonModel::Array(items) => {
            assert(encode(v)[0] == '[');
        },
        JsonModel::Object(ps) => {
            assert(encode(v)[0] == '{');
        },
        JsonModel::Str(x) => {
            assert(encode(v)[0] == '\'');
        },
        _ => {},
    }
}

proof fn lemma_read_value(v: JsonModel, rest: Seq<char>)
    requires
        numbers_ok(v),
        stops(rest),
    ensures
        read_value(encode(v) + rest) == Some((v, rest)),
    decreases v,
{
    let s = encode(v) + rest;
    let null = seq!['n', 'u', 'l', 'l'];
    let tru = seq!['t', 'r', 'u', 'e'];
    let fals = seq!['f', 'a', 'l', 's', 'e'];
    match v {
        JsonModel::Null => {
            assert(s.subrange(0, 4) =~= null);
            assert(s.subrange(4, s.len() as int) =~= rest);
        },
        JsonModel::Bool(b) => {
            if b {
                lemma_not_starts(s, null);
                assert(s.subrange(0, 4) =~= tru);
                assert(s.subrange(4, s.len() as int) =~= rest);
            } else {
                lemma_not_starts(s, null);
                lemma_not_starts(s, tru);
                assert(s.subrange(0, 5) =~= fals);
                assert(s.subrange(5, s.len() as int) =~= rest);
            }
        },
        JsonModel::Number(t) => {
            assert(s[0] == t[0]);
            assert(num_char(t[0]));
            lemma_not_starts(s, null);
            lemma_not_starts(s, tru);
            lemma_not_starts(s, fals);
            lemma_read_number(t, rest);
        },
        JsonModel::Str(x) => {
            assert(s[0] == '\'');
            lemma_not_starts(s, null);
            lemma_not_starts(s, tru);
            lemma_not_starts(s, fals);
            lemma_read_text(x, rest);
            assert(s.subrange(1, s.len() as int) =~= escape_text(x) + seq!['\''] + rest);
        },
        JsonModel::Array(items) => {
            assert(s[0] == '[');
            lemma_not_starts(s, null);
            lemma_not_starts(s, tru);
            lemma_not_starts(s, fals);
            let r = s.subrange(1, s.len() as int);
            let close = seq![']'] + rest;
            assert(r =~= encode_list(items) + close);
            if items.len() == 0 {
                assert(encode_list(items) == Seq::<char>::empty());
                assert(r.subrange(1, r.len() as int) =~= rest);
                assert(items =~= Seq::<JsonModel>::empty());
            } else {
                assert(numbers_ok(items[0]));
                lemma_encode_start(items[0]);
                if items.len() >= 2 {
                    lemma_encode_list_front(items);
                }
                assert(encode_list(items)[0] == encode(items[0])[0]);
                assert(r[0] != ']');
                lemma_read_items(items, close);
                assert(close.subrange(1, close.len() as int) =~= rest);
            }
        },
        JsonModel::Object(ps) => {
            assert(s[0] == '{');
            lemma_not_starts(s, null);
            lemma_not_starts(s, tru);
            lemma_not_starts(s, fals);
            let r = s.subrange(1, s.len() as int);
            let close = seq!['}'] + rest;
            assert(r =~= encode_pairs(ps) + close);
            if ps.len() == 0 {
                assert(encode_pairs(ps) == Seq::<char>::empty());
                assert(r.subrange(1, r.len() as int) =~= rest);
                assert(ps =~= Seq::<(Seq<char>, JsonModel)>::empty());
            } else {
                if ps.len() >= 2 {
                    lemma_encode_pairs_front(ps);
                }
                assert(encode_pairs(ps)[0] == '`');
                assert(r[0] != '}');
                lemma_read_entries(ps, close);
                assert(close.subrange(1, close.len() as int) =~= rest);
            }
        },
    }
}

proof fn lemma_read_items(items: Seq<JsonModel>, rest: Seq<char>)
    requires
        items.len() > 0,
        forall|i: int| 0 <= i < items.len() ==> numbers_ok(#[trigger] items[i]),
        rest.len() > 0,
        rest[0] == ']' || rest[0] == '}',
    ensures
        read_items(encode_list(items) + rest) == Some((items, rest)),
    decreases items,
{
    let s = encode_list(items) + rest;
    let v = items[0];
    assert(numbers_ok(v));
    lemma_encode_start(v);
    if items.len() == 1 {
        assert(encode_list(items) == encode(items[0]));
        lemma_read_value(v, rest);
        lemma_not_starts(rest, separator());
        assert(seq![v] =~= items);
    } else {
        let tail = items.subrange(1, items.len() as int);
        lemma_encode_list_front(items);
        let after = separator() + encode_list(tail) + rest;
        assert(s =~= encode(v) + after);
        lemma_read_value(v, after);
        assert(after.subrange(0, 2) =~= separator());
        assert(after.subrange(2, after.len() as int) =~= encode_list(tail) + rest);
        assert forall|i: int| 0 <= i < tail.len() implies numbers_ok(#[trigger] tail[i]) by {
            assert(tail[i] == items[i + 1]);
        }
        lemma_read_items(tail, rest);
        assert(seq![v] + tail =~= items);
    }
}

proof fn lemma_read_entries(ps: Seq<(Seq<char>, JsonModel)>, rest: Seq<char>)
    requires
        ps.len() > 0,
        forall|i: int| 0 <= i < ps.len() ==> numbers_ok(#[trigger] ps[i].1),
        rest.len() > 0,
        rest[0] == '}',
    ensures
        read_entries(encode_pairs(ps) + rest) == Some((ps, rest)),
    decreases ps,
{
    let s = encode_pairs(ps) + rest;
    let k = ps[0].0;
    let v = ps[0].1;
    assert(numbers_ok(v));
    let tail_text = if ps.len() == 1 {
        rest
    } else {
        separator() + encode_pairs(ps.subrange(1, ps.len() as int)) + rest
    };
    if ps.len() == 1 {
        assert(encode_pairs(ps) == entry_head(k) + encode(v));
    } else {
        lemma_encode_pairs_front(ps);
    }
    assert(s =~= seq!['`'] + escape_name(k) + seq!['`'] + (seq![':', ' '] + encode(v) + tail_text));
    assert(s[0] == '`');
    let after_name = seq![':', ' '] + encode(v) + tail_text;
    lemma_read_name(k, after_name);
    assert(s.subrange(1, s.len() as int) =~= escape_name(k) + seq!['`'] + after_name);
    assert(after_name.subrange(0, 2) =~= seq![':', ' ']);
    assert(after_name.subrange(2, after_name.len() as int) =~= encode(v) + tail_text);
    lemma_read_value(v, tail_text);
    if ps.len() == 1 {
        lemma_not_starts(rest, separator());
        assert(seq![(k, v)] =~= ps);
    } else {
        let tail = ps.subrange(1, ps.len() as int);
        assert(tail_text.subrange(0, 2) =~= separator());
        assert(tail_text.subrange(2, tail_text.len() as int) =~= encode_pairs(tail) + rest);
        assert forall|i: int| 0 <= i < tail.len() implies numbers_ok(#[trigger] tail[i].1) by {
            assert(tail[i] == ps[i + 1]);
        }
        assert(decreases_to!(ps => tail));
        lemma_read_entries(tail, rest);
        assert(seq![(k, v)] + tail =~= ps);
    }
}

/// The encoder round-trips: every value whose numbers are number text reads
/// back, from its literal, as exactly that value, with nothing left over.
pub proof fn lemma_literal_round_trip(v: JsonModel)
    requires
        numbers_ok(v),
    ensures
        read_value(encode(v)) == Some((v, Seq::<char>::empty())),
{
    lemma_read_value(v, Seq::empty());
    assert(encode(v) + Seq::<char>::empty() =~= encode(v));
}

} // verus!
