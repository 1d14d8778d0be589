//! Name–value tables kept as vectors of pairs with distinct keys, viewed as
//! maps from character sequences to the values' mathematical views.

use vstd::prelude::*;

verus! {

/// The map a table stands for: later entries would win, but the tables kept
/// here never repeat a key.
pub open spec fn table_view<V: View>(s: Seq<(String, V)>) -> Map<Seq<char>, V::V>
    decreases s.len(),
{
    if s.len() == 0 {
        Map::empty()
    } else {
        table_view(s.drop_last()).insert(s.last().0@, s.last().1@)
    }
}

/// No key occurs twice.
pub open spec fn distinct_keys<V>(s: Seq<(String, V)>) -> bool {
    forall|i: int, j: int| 0 <= i < j < s.len() ==> s[i].0@ != s[j].0@
}

/// An entry's key is in the table's map.
proof fn lemma_table_view_contains<V: View>(s: Seq<(String, V)>, i: int)
    requires
        0 <= i < s.len(),
    ensures
        table_view(s).contains_key(s[i].0@),
    decreases s.len(),
{
    if i < s.len() - 1 {
        lemma_table_view_contains(s.drop_last(), i);
    }
}

/// A key that no entry holds is not in the table's map.
proof fn lemma_table_view_absent<V: View>(s: Seq<(String, V)>, k: Seq<char>)
    requires
        forall|i: int| 0 <= i < s.len() ==> s[i].0@ != k,
    ensures
        !table_view(s).contains_key(k),
    decreases s.len(),
{
    if s.len() > 0 {
        lemma_table_view_absent(s.drop_last(), k);
    }
}

/// With distinct keys, the map sends an entry's key to that entry's value.
proof fn lemma_table_view_index<V: View>(s: Seq<(String, V)>, i: int)
    requires
        distinct_keys(s),
        0 <= i < s.len(),
    ensures
        table_view(s).contains_key(s[i].0@),
        table_view(s)[s[i].0@] == s[i].1@,
    decreases s.len(),
{
    lemma_table_view_contains(s, i);
    if i < s.len() - 1 {
        assert(distinct_keys(s.drop_last()));
        lemma_table_view_index(s.drop_last(), i);
        assert(s.last().0@ != s[i].0@);
    }
}

/// Replacing the value at an entry updates the map at that entry's key.
proof fn lemma_table_view_update<V: View>(s: Seq<(String, V)>, i: int, p: (String, V))
    requires
        distinct_keys(s),
        0 <= i < s.len(),
        p.0@ == s[i].0@,
    ensures
        table_view(s.update(i, p)) =~= table_view(s).insert(p.0@, p.1@),
    decreases s.len(),
{
    let t = s.update(i, p);
    if i == s.len() - 1 {
        assert(t.drop_last() =~= s.drop_last());
        assert(t.last() == p);
    } else {
        assert(distinct_keys(s.drop_last()));
        assert(t.drop_last() =~= s.drop_last().update(i, p));
        lemma_table_view_update(s.drop_last(), i, p);
        assert(t.last() == s.last());
        assert(s.last().0@ != p.0@);
    }
}

/// Looks a key up. The result is exactly what the table's map holds.
pub fn table_get<'a, V: View>(t: &'a Vec<(String, V)>, k: &String) -> (r: Option<&'a V>)
    requires
        distinct_keys(t@),
    ensures
        match r {
            Some(v) => table_view(t@).contains_key(k@) && v@ == table_view(t@)[k@],
            None => !table_view(t@).contains_key(k@),
        },
{
    let mut i: usize = 0;
    while i < t.len()
        invariant
            distinct_keys(t@),
            i <= t@.len(),
            forall|j: int| 0 <= j < i ==> t@[j].0@ != k@,
        decreases t@.len() - i,
    {
        if t[i].0 == *k {
            proof {
                lemma_table_view_index(t@, i as int);
            }
            return Some(&t[i].1);
        }
        i = i + 1;
    }
    proof {
        lemma_table_view_absent(t@, k@);
    }
    None
}

/// Binds `k` to `v`, replacing any earlier binding. The table's map gains
/// exactly that binding; the keys stay distinct.
pub fn table_set<V: View>(t: &mut Vec<(String, V)>, k: String, v: V)
    requires
        distinct_keys(old(t)@),
    ensures
        distinct_keys(final(t)@),
        table_view(final(t)@) == table_view(old(t)@).insert(k@, v@),
        final(t)@.len() <= old(t)@.len() + 1,
    {
    let mut i: usize = 0;
    while i < t.len()
        invariant
            distinct_keys(t@),
            t@ == old(t)@,
            i <= t@.len(),
            forall|j: int| 0 <= j < i ==> t@[j].0@ != k@,
        decreases t@.len() - i,
    {
        if t[i].0 == *(&k) {
            proof {
                lemma_table_view_update(t@, i as int, (k, v));
            }
            t.set(i, (k, v));
            proof {
                assert(table_view(t@) =~= table_view(old(t)@).insert(t@[i as int].0@, t@[
                    i as int].1@));
            }
            return ;
        }
        i = i + 1;
    }
    proof {
        let pushed = old(t)@.push((k, v));
        assert(pushed.drop_last() =~= old(t)@);
        assert(distinct_keys(pushed));
    }
    t.push((k, v));
}

} // verus!
