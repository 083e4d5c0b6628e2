//! The map a sequence of key/value string pairs denotes, with later entries
//! overriding earlier ones, and the lemmas the store and the ledger share.

use vstd::prelude::*;

verus! {

/// The map a pair sequence denotes: later entries win.
pub open spec fn entries_map(s: Seq<(String, String)>) -> Map<Seq<char>, Seq<char>>
    decreases s.len(),
{
    if s.len() == 0 {
        Map::empty()
    } else {
        entries_map(s.drop_last()).insert(s.last().0@, s.last().1@)
    }
}

/// The value of the last entry with key `k`, scanning from the rear.
pub open spec fn lookup_seq(s: Seq<(String, String)>, k: Seq<char>) -> Option<Seq<char>>
    decreases s.len(),
{
    if s.len() == 0 {
        None
    } else if s.last().0@ == k {
        Some(s.last().1@)
    } else {
        lookup_seq(s.drop_last(), k)
    }
}

/// Some entry carries key `k`.
pub open spec fn has_key(s: Seq<(String, String)>, k: Seq<char>) -> bool {
    exists|i: int| 0 <= i < s.len() && (#[trigger] s[i]).0@ == k
}

/// No two entries carry the same key.
pub open spec fn unique_keys(s: Seq<(String, String)>) -> bool {
    forall|i: int, j: int| 0 <= i < j < s.len() ==> (#[trigger] s[i]).0@ != (#[trigger] s[j]).0@
}

/// Rear-scan lookup agrees with the denoted map.
pub proof fn lemma_lookup(s: Seq<(String, String)>, k: Seq<char>)
    ensures
        entries_map(s).contains_key(k) <==> (lookup_seq(s, k) is Some),
        lookup_seq(s, k) matches Some(v) ==> entries_map(s)[k] == v,
    decreases s.len(),
{
    if s.len() > 0 {
        lemma_lookup(s.drop_last(), k);
    }
}

/// A key is in the denoted map exactly when some entry carries it.
pub proof fn lemma_entries_map_has_key(s: Seq<(String, String)>, k: Seq<char>)
    ensures
        entries_map(s).contains_key(k) <==> has_key(s, k),
    decreases s.len(),
{
    if s.len() > 0 {
        lemma_entries_map_has_key(s.drop_last(), k);
        if s.last().0@ == k {
            assert(s[s.len() - 1].0@ == k);
        } else {
            if has_key(s.drop_last(), k) {
                let i = choose|i: int|
                    0 <= i < s.drop_last().len() && (#[trigger] s.drop_last()[i]).0@ == k;
                assert(s[i].0@ == k);
            }
            if has_key(s, k) {
                let i = choose|i: int| 0 <= i < s.len() && (#[trigger] s[i]).0@ == k;
                assert(i < s.len() - 1);
                assert(s.drop_last()[i].0@ == k);
            }
        }
    }
}

/// In a duplicate-free sequence, any entry's value is the denoted map's value
/// for its key.
pub proof fn lemma_unique_value(s: Seq<(String, String)>, i: int)
    requires
        unique_keys(s),
        0 <= i < s.len(),
    ensures
        entries_map(s).contains_key(s[i].0@),
        entries_map(s)[s[i].0@] == s[i].1@,
    decreases s.len(),
{
    if i < s.len() - 1 {
        assert(s.drop_last()[i] == s[i]);
        lemma_unique_value(s.drop_last(), i);
        assert(s.last().0@ != s[i].0@);
    }
}

/// Removing an entry of a duplicate-free sequence removes its key from the
/// denoted map and keeps the rest duplicate-free.
pub proof fn lemma_entries_map_remove(s: Seq<(String, String)>, i: int)
    requires
        unique_keys(s),
        0 <= i < s.len(),
    ensures
        entries_map(s.remove(i)) == entries_map(s).remove(s[i].0@),
        unique_keys(s.remove(i)),
        !has_key(s.remove(i), s[i].0@),
    decreases s.len(),
{
    let k = s[i].0@;
    assert forall|a: int, b: int| 0 <= a < b < s.remove(i).len() implies (#[trigger] s.remove(
        i,
    )[a]).0@ != (#[trigger] s.remove(i)[b]).0@ by {
        let oa: int = if a < i {
            a
        } else {
            a + 1
        };
        let ob: int = if b < i {
            b
        } else {
            b + 1
        };
        assert(s.remove(i)[a] == s[oa] && s.remove(i)[b] == s[ob]);
    }
    assert forall|a: int| 0 <= a < s.remove(i).len() implies (#[trigger] s.remove(i)[a]).0@
        != k by {
        let oa: int = if a < i {
            a
        } else {
            a + 1
        };
        assert(s.remove(i)[a] == s[oa]);
        assert(s[oa].0@ != s[i].0@);
    }
    if i == s.len() - 1 {
        assert(s.remove(i) =~= s.drop_last());
        lemma_entries_map_has_key(s.drop_last(), k);
        assert(!has_key(s.drop_last(), k)) by {
            if has_key(s.drop_last(), k) {
                let a = choose|a: int|
                    0 <= a < s.drop_last().len() && (#[trigger] s.drop_last()[a]).0@ == k;
                assert(s[a].0@ == s[i].0@);
                assert(false);
            }
        }
        assert(entries_map(s.drop_last()) =~= entries_map(s).remove(k));
    } else {
        lemma_entries_map_remove(s.drop_last(), i);
        assert(s.remove(i).drop_last() =~= s.drop_last().remove(i));
        assert(s.remove(i).last() == s.last());
        assert(entries_map(s.remove(i)) == entries_map(s.drop_last().remove(i)).insert(
            s.last().0@,
            s.last().1@,
        ));
        assert(s.last().0@ != k);
        assert(entries_map(s.drop_last()).remove(k).insert(s.last().0@, s.last().1@)
            =~= entries_map(s).remove(k));
    }
}

} // verus!
