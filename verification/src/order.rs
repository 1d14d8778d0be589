//! The delivery order: a strict total order on the ordering key
//! `(logical_time, target, sequence_id)`, with target ids compared
//! lexicographically by scalar value.

use vstd::prelude::*;

verus! {

use vstd::std_specs::iter::IteratorSpec;

/// Strict lexicographic order on character sequences, by scalar value.
pub open spec fn chars_lt(a: Seq<char>, b: Seq<char>) -> bool
    decreases a.len(),
{
    if b.len() == 0 {
        false
    } else if a.len() == 0 {
        true
    } else if (a[0] as u32) < (b[0] as u32) {
        true
    } else if (a[0] as u32) > (b[0] as u32) {
        false
    } else {
        chars_lt(a.drop_first(), b.drop_first())
    }
}

/// An ordering key, as the scheduler compares it.
pub struct KeyView {
    pub logical_time: u64,
    pub target: Seq<char>,
    pub sequence_id: u64,
}

/// `a` strictly precedes `b`: earlier logical time first, then the
/// lexicographically smaller target id, then the smaller sequence id.
pub open spec fn key_lt(a: KeyView, b: KeyView) -> bool {
    if a.logical_time != b.logical_time {
        a.logical_time < b.logical_time
    } else if a.target != b.target {
        chars_lt(a.target, b.target)
    } else {
        a.sequence_id < b.sequence_id
    }
}

/// `a` precedes `b` or the keys are equal.
pub open spec fn key_le(a: KeyView, b: KeyView) -> bool {
    key_lt(a, b) || a == b
}

/// No sequence lexicographically precedes itself.
pub proof fn lemma_chars_lt_irreflexive(a: Seq<char>)
    ensures
        !chars_lt(a, a),
    decreases a.len(),
{
    if a.len() > 0 {
        lemma_chars_lt_irreflexive(a.drop_first());
    }
}

/// Two sequences, neither of which precedes the other, are equal.
pub proof fn lemma_chars_lt_connected(a: Seq<char>, b: Seq<char>)
    requires
        !chars_lt(a, b),
        !chars_lt(b, a),
    ensures
        a == b,
    decreases a.len(),
{
    if a.len() == 0 && b.len() == 0 {
        assert(a =~= b);
    } else if a.len() > 0 && b.len() > 0 {
        lemma_chars_lt_connected(a.drop_first(), b.drop_first());
        vstd::utf8::char_u32_cast(a[0], a[0] as u32);
        vstd::utf8::char_u32_cast(b[0], b[0] as u32);
        assert(a[0] == b[0]);
        assert(a =~= seq![a[0]] + a.drop_first());
        assert(b =~= seq![b[0]] + b.drop_first());
    }
}

/// The lexicographic order is transitive.
pub proof fn lemma_chars_lt_transitive(a: Seq<char>, b: Seq<char>, c: Seq<char>)
    requires
        chars_lt(a, b),
        chars_lt(b, c),
    ensures
        chars_lt(a, c),
    decreases a.len(),
{
    if a.len() > 0 && b.len() > 0 && c.len() > 0 {
        if (a[0] as u32) == (b[0] as u32) && (b[0] as u32) == (c[0] as u32) {
            lemma_chars_lt_transitive(a.drop_first(), b.drop_first(), c.drop_first());
        }
    }
}

/// The key order never relates a key to itself.
pub proof fn lemma_key_lt_irreflexive(a: KeyView)
    ensures
        !key_lt(a, a),
{
    lemma_chars_lt_irreflexive(a.target);
}

/// Two keys, neither of which precedes the other, are equal: with
/// irreflexivity and transitivity this makes the key order a strict
/// total order, so any two distinct keys are comparable.
pub proof fn lemma_key_lt_connected(a: KeyView, b: KeyView)
    requires
        !key_lt(a, b),
        !key_lt(b, a),
    ensures
        a == b,
{
    if a.logical_time == b.logical_time {
        if a.target != b.target {
            lemma_chars_lt_connected(a.target, b.target);
        }
    }
}

/// The key order is transitive.
pub proof fn lemma_key_lt_transitive(a: KeyView, b: KeyView, c: KeyView)
    requires
        key_lt(a, b),
        key_lt(b, c),
    ensures
        key_lt(a, c),
{
    if a.logical_time == b.logical_time && b.logical_time == c.logical_time {
        if a.target != b.target && b.target != c.target {
            lemma_chars_lt_transitive(a.target, b.target, c.target);
            if a.target == c.target {
                lemma_chars_lt_irreflexive(a.target);
            }
        }
    }
}

/// At most one of `key_lt(a, b)` and `key_lt(b, a)` holds.
pub proof fn lemma_key_lt_asymmetric(a: KeyView, b: KeyView)
    ensures
        !(key_lt(a, b) && key_lt(b, a)),
{
    if key_lt(a, b) && key_lt(b, a) {
        lemma_key_lt_transitive(a, b, a);
        lemma_key_lt_irreflexive(a);
    }
}

/// Turns a `&str` into the vector of its characters, so that ids can be
/// compared and rebuilt character by character.
pub fn str_chars(s: &str) -> (r: Vec<char>)
    ensures
        r@ == s@,
{
    let mut it = s.chars();
    let mut r: Vec<char> = Vec::new();
    proof {
        broadcast use vstd::string::axiom_spec_iter;
        broadcast use vstd::string::next_postcondition;

    }
    loop
        invariant
            it.obeys_prophetic_iter_laws(),
            it.decrease() is Some,
            r@ + it.remaining() == s@,
        decreases it.decrease()->0,
    {
        proof {
            broadcast use vstd::string::next_postcondition;

        }
        let next = it.next();
        match next {
            Some(c) => {
                r.push(c);
            },
            None => {
                proof {
                    assert(r@ =~= s@);
                }
                return r;
            },
        }
    }
}

/// Decides `chars_lt` on character slices.
pub fn chars_lt_exec(a: &[char], b: &[char]) -> (r: bool)
    ensures
        r == chars_lt(a@, b@),
{
    let mut i: usize = 0;
    proof {
        assert(a@.skip(0) =~= a@);
        assert(b@.skip(0) =~= b@);
    }
    loop
        invariant
            i <= a.len(),
            i <= b.len(),
            forall|j: int| 0 <= j < i ==> a@[j] == b@[j],
            chars_lt(a@, b@) == chars_lt(a@.skip(i as int), b@.skip(i as int)),
        decreases b@.len() - i,
    {
        if i >= b.len() {
            return false;
        }
        if i >= a.len() {
            return true;
        }
        let ca = a[i];
        let cb = b[i];
        if (ca as u32) < (cb as u32) {
            return true;
        }
        if (ca as u32) > (cb as u32) {
            return false;
        }
        proof {
            vstd::utf8::char_u32_cast(a@[i as int], a@[i as int] as u32);
            vstd::utf8::char_u32_cast(b@[i as int], b@[i as int] as u32);
            assert(a@[i as int] == b@[i as int]);
            let sa = a@.skip(i as int);
            let sb = b@.skip(i as int);
            assert(sa[0] == a@[i as int]);
            assert(sb[0] == b@[i as int]);
            assert(sa.drop_first() =~= a@.skip(i + 1));
            assert(sb.drop_first() =~= b@.skip(i + 1));
        }
        i = i + 1;
    }
}

} // verus!

