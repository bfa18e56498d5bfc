//! Encoding of value trees as Cypher literals.

use vstd::prelude::*;
use crate::json::{JsonValue, JsonModel, models_of, pairs_model, lemma_models_of, lemma_pairs_model};

verus! {

/// One character of a single-quoted string literal.
pub open spec fn escape_char(c: char) -> Seq<char> {
    if c == '\\' {
        seq!['\\', '\\']
    } else if c == '\'' {
        seq!['\\', '\'']
    } else {
        seq![c]
    }
}

/// The body of a single-quoted string literal: `\` and `'` get a backslash.
pub open spec fn escape_text(s: Seq<char>) -> Seq<char>
    decreases s.len(),
{
    if s.len() == 0 {
        Seq::empty()
    } else {
        escape_text(s.drop_last()) + escape_char(s.last())
    }
}

/// One character of a backtick-quoted name.
pub open spec fn escape_name_char(c: char) -> Seq<char> {
    if c == '`' {
        seq!['`', '`']
    } else {
        seq![c]
    }
}

/// The body of a backtick-quoted name: each backtick is doubled.
pub open spec fn escape_name(s: Seq<char>) -> Seq<char>
    decreases s.len(),
{
    if s.len() == 0 {
        Seq::empty()
    } else {
        escape_name(s.drop_last()) + escape_name_char(s.last())
    }
}

pub open spec fn separator() -> Seq<char> {
    seq![',', ' ']
}

/// The Cypher literal of a value.
pub open spec fn encode(v: JsonModel) -> Seq<char>
    decreases v,
{
    match v {
        JsonModel::Null => seq!['n', 'u', 'l', 'l'],
        JsonModel::Bool(b) => if b {
            seq!['t', 'r', 'u', 'e']
        } else {
            seq!['f', 'a', 'l', 's', 'e']
        },
        JsonModel::Number(t) => t,
        JsonModel::Str(s) => seq!['\''] + escape_text(s) + seq!['\''],
        JsonModel::Array(items) => seq!['['] + encode_list(items) + seq![']'],
        JsonModel::Object(pairs) => seq!['{'] + encode_pairs(pairs) + seq!['}'],
    }
}

/// The literals of `s`, separated by `", "`.
pub open spec fn encode_list(s: Seq<JsonModel>) -> Seq<char>
    decreases s,
{
    if s.len() == 0 {
        Seq::empty()
    } else if s.len() == 1 {
        encode(s[0])
    } else {
        encode_list(s.subrange(0, s.len() - 1)) + separator() + encode(s[s.len() - 1])
    }
}

/// The start of a map entry: the quoted name and `": "`.
pub open spec fn entry_head(name: Seq<char>) -> Seq<char> {
    seq!['`'] + escape_name(name) + seq!['`', ':', ' ']
}

/// The entries of a map literal, separated by `", "`.
pub open spec fn encode_pairs(s: Seq<(Seq<char>, JsonModel)>) -> Seq<char>
    decreases s,
{
    if s.len() == 0 {
        Seq::empty()
    } else if s.len() == 1 {
        entry_head(s[0].0) + encode(s[0].1)
    } else {
        encode_pairs(s.subrange(0, s.len() - 1)) + separator() + entry_head(
            s[s.len() - 1].0,
        ) + encode(s[s.len() - 1].1)
    }
}

fn append_escaped(out: &mut String, s: &str)
    ensures
        final(out)@ == old(out)@ + escape_text(s@),
{
    let ghost start = out@;
    for c in it: s.chars()
        invariant
            it.seq() == s@,
            out@ == start + escape_text(s@.subrange(0, it.index() as int)),
    {
        let ghost k = it.index();
        proof {
            assert(s@.subrange(0, k + 1).drop_last() =~= s@.subrange(0, k));
        }
        if c == '\\' {
            out.push('\\');
            out.push('\\');
        } else if c == '\'' {
            out.push('\\');
            out.push('\'');
        } else {
            out.push(c);
        }
        assert(out@ =~= start + escape_text(s@.subrange(0, k + 1)));
    }
    assert(s@.subrange(0, s@.len() as int) =~= s@);
}

fn append_escaped_name(out: &mut String, s: &str)
    ensures
        final(out)@ == old(out)@ + escape_name(s@),
{
    let ghost start = out@;
    for c in it: s.chars()
        invariant
            it.seq() == s@,
            out@ == start + escape_name(s@.subrange(0, it.index() as int)),
    {
        let ghost k = it.index();
        proof {
            assert(s@.subrange(0, k + 1).drop_last() =~= s@.subrange(0, k));
        }
        if c == '`' {
            out.push('`');
            out.push('`');
        } else {
            out.push(c);
        }
        assert(out@ =~= start + escape_name(s@.subrange(0, k + 1)));
    }
    assert(s@.subrange(0, s@.len() as int) =~= s@);
}

/// Appends the Cypher literal of `v` to `out`.
pub fn append_literal(out: &mut String, v: &JsonValue)
    ensures
        final(out)@ == old(out)@ + encode(v.model()),
    decreases v,
{
    let ghost start = out@;
    match v {
        JsonValue::Null => {
            out.append("null");
            proof { reveal_strlit("null"); }
            assert(out@ =~= start + encode(v.model()));
        },
        JsonValue::Bool(b) => {
            if *b {
                out.append("true");
                proof { reveal_strlit("true"); }
            } else {
                out.append("false");
                proof { reveal_strlit("false"); }
            }
            assert(out@ =~= start + encode(v.model()));
        },
        JsonValue::Number(t) => {
            out.append(t.as_str());
        },
        JsonValue::String(s) => {
            out.push('\'');
            append_escaped(out, s.as_str());
            out.push('\'');
            assert(out@ =~= start + encode(v.model()));
        },
        JsonValue::Array(items) => {
            let ghost ms = models_of(items@);
            proof { lemma_models_of(items@); }
            out.push('[');
            let mut i: usize = 0;
            while i < items.len()
                invariant
                    i <= items.len(),
                    *v is Array,
                    v->Array_0 == *items,
                    ms == models_of(items@),
                    ms.len() == items.len(),
                    forall|j: int| 0 <= j < items.len() ==> #[trigger] ms[j] == items@[j].model(),
                    out@ == start + seq!['['] + encode_list(ms.subrange(0, i as int)),
                decreases items.len() - i,
            {
                let ghost before = out@;
                if i > 0 {
                    out.append(", ");
                    proof { reveal_strlit(", "); }
                }
                proof {
                    assert(decreases_to!(items => items[i as int]));
                }
                append_literal(out, &items[i]);
                proof {
                    let p = ms.subrange(0, i + 1);
                    assert(p.subrange(0, i as int) =~= ms.subrange(0, i as int));
                    assert(p[i as int] == items@[i as int].model());
                    if i == 0 {
                        assert(out@ =~= start + seq!['['] + encode_list(p));
                    } else {
                        assert(out@ =~= start + seq!['['] + encode_list(p));
                    }
                }
                i += 1;
            }
            out.push(']');
            assert(ms.subrange(0, items.len() as int) =~= ms);
            assert(out@ =~= start + encode(v.model()));
        },
        JsonValue::Object(pairs) => {
            let ghost ms = pairs_model(pairs@);
            proof { lemma_pairs_model(pairs@); }
            out.push('{');
            let mut i: usize = 0;
            while i < pairs.len()
                invariant
                    i <= pairs.len(),
                    *v is Object,
                    v->Object_0 == *pairs,
                    ms == pairs_model(pairs@),
                    ms.len() == pairs.len(),
                    forall|j: int|
                        0 <= j < pairs.len() ==> #[trigger] ms[j] == (
                        pairs@[j].0@, pairs@[j].1.model()),
                    out@ == start + seq!['{'] + encode_pairs(ms.subrange(0, i as int)),
                decreases pairs.len() - i,
            {
                if i > 0 {
                    out.append(", ");
                    proof { reveal_strlit(", "); }
                }
                out.push('`');
                append_escaped_name(out, pairs[i].0.as_str());
                out.append("`: ");
                proof { reveal_strlit("`: "); }
                proof {
                    assert(decreases_to!(pairs => pairs[i as int]));
                    assert(decreases_to!(pairs[i as int] => pairs[i as int].1));
                }
                append_literal(out, &pairs[i].1);
                proof {
                    let p = ms.subrange(0, i + 1);
                    assert(p.subrange(0, i as int) =~= ms.subrange(0, i as int));
                    assert(p[i as int] == ms[i as int]);
                    assert(out@ =~= start + seq!['{'] + encode_pairs(p));
                }
                i += 1;
            }
            out.push('}');
            assert(ms.subrange(0, pairs.len() as int) =~= ms);
            assert(out@ =~= start + encode(v.model()));
        },
    }
}

/// The Cypher literal of `value`, ready to be inlined into a query.
pub fn json_value_to_cypher_literal(value: &JsonValue) -> (r: String)
    ensures
        r@ == encode(value.model()),
{
    let mut out = String::new();
    append_literal(&mut out, value);
    assert(out@ =~= encode(value.model()));
    out
}

/// Escaping distributes over concatenation.
pub proof fn lemma_escape_text_concat(a: Seq<char>, b: Seq<char>)
    ensures
        escape_text(a + b) == escape_text(a) + escape_text(b),
    decreases b.len(),
{
    if b.len() == 0 {
        assert(a + b =~= a);
        assert(escape_text(a) + Seq::<char>::empty() =~= escape_text(a));
    } else {
        lemma_escape_text_concat(a, b.drop_last());
        assert((a + b).drop_last() =~= a + b.drop_last());
        assert((a + b).last() == b.last());
        assert(escape_text(a) + escape_text(b.drop_last()) + escape_char(b.last()) =~= escape_text(a)
            + (escape_text(b.drop_last()) + escape_char(b.last())));
    }
}

/// Name escaping distributes over concatenation.
pub proof fn lemma_escape_name_concat(a: Seq<char>, b: Seq<char>)
    ensures
        escape_name(a + b) == escape_name(a) + escape_name(b),
    decreases b.len(),
{
    if b.len() == 0 {
        assert(a + b =~= a);
        assert(escape_name(a) + Seq::<char>::empty() =~= escape_name(a));
    } else {
        lemma_escape_name_concat(a, b.drop_last());
        assert((a + b).drop_last() =~= a + b.drop_last());
        assert((a + b).last() == b.last());
        assert(escape_name(a) + escape_name(b.drop_last()) + escape_name_char(b.last()) =~= escape_name(a)
            + (escape_name(b.drop_last()) + escape_name_char(b.last())));
    }
}

} // verus!
