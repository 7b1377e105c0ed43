//! Counting facts about sequences of distinct indices.

use vstd::prelude::*;

verus! {

/// A sequence of distinct indices below `n` has at most `n` entries.
pub proof fn lemma_distinct_indices_bounded(s: Seq<usize>, n: nat)
    requires
        s.no_duplicates(),
        forall|i: int| 0 <= i < s.len() ==> (#[trigger] s[i]) < n,
    ensures
        s.len() <= n,
    decreases n,
{
    if s.len() == 0 {
    } else {
        assert(s[0] < n);
        let v = (n - 1) as usize;
        if exists|i: int| 0 <= i < s.len() && s[i] == v {
            let i = choose|i: int| 0 <= i < s.len() && s[i] == v;
            let t = s.remove(i);
            assert forall|a: int| 0 <= a < t.len() implies (#[trigger] t[a]) < n - 1 by {
                if a < i {
                    assert(t[a] == s[a]);
                } else {
                    assert(t[a] == s[a + 1]);
                }
            }
            assert(t.no_duplicates()) by {
                assert forall|a: int, b: int| 0 <= a < t.len() && 0 <= b < t.len() && a != b
                    implies t[a] != t[b] by {
                    let sa = if a < i { a } else { a + 1 };
                    let sb = if b < i { b } else { b + 1 };
                    assert(t[a] == s[sa]);
                    assert(t[b] == s[sb]);
                }
            }
            lemma_distinct_indices_bounded(t, (n - 1) as nat);
        } else {
            assert forall|a: int| 0 <= a < s.len() implies (#[trigger] s[a]) < n - 1 by {
                assert(s[a] != v);
            }
            lemma_distinct_indices_bounded(s, (n - 1) as nat);
        }
    }
}

/// A sequence of `n` distinct indices below `n` contains every index below `n`.
pub proof fn lemma_distinct_indices_cover(s: Seq<usize>, n: nat)
    requires
        s.no_duplicates(),
        s.len() == n,
        forall|i: int| 0 <= i < s.len() ==> (#[trigger] s[i]) < n,
    ensures
        forall|v: usize| v < n ==> s.contains(v),
{
    assert forall|v: usize| v < n implies s.contains(v) by {
        if !s.contains(v) {
            let top = (n - 1) as usize;
            let t = s.map_values(|x: usize| if x == top { v } else { x });
            assert forall|a: int| 0 <= a < t.len() implies (#[trigger] t[a]) < n - 1 by {
                if s[a] == top {
                    assert(t[a] == v);
                    if v == top {
                        assert(s[a] == v);
                        assert(s.contains(v));
                    }
                } else {
                    assert(s[a] != v) by {
                        if s[a] == v {
                            assert(s.contains(v));
                        }
                    }
                }
            }
            assert(t.no_duplicates()) by {
                assert forall|a: int, b: int| 0 <= a < t.len() && 0 <= b < t.len() && a != b
                    implies t[a] != t[b] by {
                    if s[a] != top && s[b] != top {
                    } else if s[a] == top && s[b] == top {
                    } else if s[a] == top {
                        assert(t[a] == v);
                        assert(t[b] == s[b]);
                        if s[b] == v {
                            assert(s.contains(v));
                        }
                    } else {
                        assert(t[b] == v);
                        assert(t[a] == s[a]);
                        if s[a] == v {
                            assert(s.contains(v));
                        }
                    }
                }
            }
            lemma_distinct_indices_bounded(t, (n - 1) as nat);
        }
    }
}

} // verus!
