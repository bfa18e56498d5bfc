//! Sequences of named entries read as maps: the first entry of a name wins.

use vstd::prelude::*;

verus! {

/// The value of the first entry named `name`.
pub open spec fn named_lookup<V>(s: Seq<(Seq<char>, V)>, name: Seq<char>) -> Option<V>
    decreases s.len(),
{
    if s.len() == 0 {
        None
    } else if s[0].0 == name {
        Some(s[0].1)
    } else {
        named_lookup(s.subrange(1, s.len() as int), name)
    }
}

pub proof fn lemma_named_lookup_index<V>(s: Seq<(Seq<char>, V)>, name: Seq<char>, i: int)
    requires
        0 <= i <= s.len(),
        forall|j: int| 0 <= j < i ==> s[j].0 != name,
    ensures
        i == s.len() ==> named_lookup(s, name) is None,
        i < s.len() && s[i].0 == name ==> named_lookup(s, name) == Some(s[i].1),
    decreases i,
{
    if i > 0 {
        let t = s.subrange(1, s.len() as int);
        assert forall|j: int| 0 <= j < i - 1 implies t[j].0 != name by {
            assert(t[j] == s[j + 1]);
        }
        lemma_named_lookup_index(t, name, i - 1);
    }
}

pub proof fn lemma_named_lookup_update<V>(
    s: Seq<(Seq<char>, V)>,
    i: int,
    name: Seq<char>,
    text: V,
    n: Seq<char>,
)
    requires
        0 <= i < s.len(),
        s[i].0 == name,
        forall|j: int| 0 <= j < i ==> s[j].0 != name,
    ensures
        named_lookup(s.update(i, (name, text)), n) == (if n == name {
            Some(text)
        } else {
            named_lookup(s, n)
        }),
    decreases i,
{
    let t = s.update(i, (name, text));
    if i == 0 {
        assert(t.subrange(1, t.len() as int) =~= s.subrange(1, s.len() as int));
    } else {
        let s1 = s.subrange(1, s.len() as int);
        assert(t.subrange(1, t.len() as int) =~= s1.update(i - 1, (name, text)));
        assert forall|j: int| 0 <= j < i - 1 implies s1[j].0 != name by {
            assert(s1[j] == s[j + 1]);
        }
        lemma_named_lookup_update(s1, i - 1, name, text, n);
    }
}

pub proof fn lemma_named_lookup_push<V>(
    s: Seq<(Seq<char>, V)>,
    name: Seq<char>,
    text: V,
    n: Seq<char>,
)
    requires
        named_lookup(s, name) is None,
    ensures
        named_lookup(s.push((name, text)), n) == (if n == name {
            Some(text)
        } else {
            named_lookup(s, n)
        }),
    decreases s.len(),
{
    let t = s.push((name, text));
    if s.len() == 0 {
        assert(t.subrange(1, t.len() as int) =~= Seq::<(Seq<char>, V)>::empty());
        assert(named_lookup(t.subrange(1, t.len() as int), n) is None);
    } else {
        let s1 = s.subrange(1, s.len() as int);
        assert(t[0] == s[0]);
        assert(t.subrange(1, t.len() as int) =~= s1.push((name, text)));
        lemma_named_lookup_push(s1, name, text, n);
    }
}

} // verus!
