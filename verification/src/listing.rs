//! Resources listed in the order of their ids.
use vstd::prelude::*;

use crate::config::HasConfigId;
use crate::text::str_chars;

verus! {

/// The order of strings: character by character, a prefix first.  On UTF-8
/// text this is the byte order that `str` compares by.
pub open spec fn text_le(a: Seq<char>, b: Seq<char>) -> bool
    decreases a.len(),
{
    if a.len() == 0 {
        true
    } else if b.len() == 0 {
        false
    } else if a[0] != b[0] {
        a[0] < b[0]
    } else {
        text_le(a.drop_first(), b.drop_first())
    }
}

/// Any two strings are ordered one way or the other.
proof fn lemma_text_le_total(a: Seq<char>, b: Seq<char>)
    ensures
        text_le(a, b) || text_le(b, a),
    decreases a.len(),
{
    if a.len() > 0 && b.len() > 0 && a[0] == b[0] {
        lemma_text_le_total(a.drop_first(), b.drop_first());
    }
}

/// The order is transitive.
proof fn lemma_text_le_transitive(a: Seq<char>, b: Seq<char>, c: Seq<char>)
    requires
        text_le(a, b),
        text_le(b, c),
    ensures
        text_le(a, c),
    decreases a.len(),
{
    if a.len() > 0 && b.len() > 0 && c.len() > 0 && a[0] == b[0] && b[0] == c[0] {
        lemma_text_le_transitive(a.drop_first(), b.drop_first(), c.drop_first());
    }
}

/// Compares two strings in that order.
fn text_le_exec(a: &str, b: &str) -> (res: bool)
    ensures
        res == text_le(a@, b@),
{
    let x = str_chars(a);
    let y = str_chars(b);
    let mut i: usize = 0;
    proof {
        assert(x@.skip(0) =~= x@);
        assert(y@.skip(0) =~= y@);
    }
    while i < x.len() && i < y.len() && x[i] == y[i]
        invariant
            i <= x@.len(),
            i <= y@.len(),
            text_le(a@, b@) == text_le(x@.skip(i as int), y@.skip(i as int)),
            x@ == a@,
            y@ == b@,
        decreases x@.len() - i,
    {
        proof {
            assert(x@.skip(i as int).drop_first() =~= x@.skip(i + 1));
            assert(y@.skip(i as int).drop_first() =~= y@.skip(i + 1));
        }
        i = i + 1;
    }
    if i == x.len() {
        true
    } else if i == y.len() {
        false
    } else {
        x[i] < y[i]
    }
}

/// Whether the ids of `s` are in order.
pub open spec fn sorted_by_id<T: HasConfigId>(s: Seq<T>) -> bool {
    forall|i: int, j: int|
        0 <= i < j < s.len() ==> text_le(
            #[trigger] s[i].spec_config_id(),
            #[trigger] s[j].spec_config_id(),
        )
}

/// The resources ordered by id.
pub fn sort_by_id<T: HasConfigId>(items: Vec<T>) -> (res: Vec<T>)
    ensures
        res@.to_multiset() == items@.to_multiset(),
        sorted_by_id(res@),
{
    let ghost all = items@;
    let mut rest = items;
    let mut out: Vec<T> = Vec::new();
    let mut n: usize = 0;
    proof {
        assert(all.subrange(0, 0) =~= Seq::<T>::empty());
        assert(rest@ =~= all.subrange(0, all.len() as int));
    }
    while rest.len() > 0
        invariant
            n <= all.len(),
            rest@ == all.subrange(n as int, all.len() as int),
            out@.to_multiset() == all.subrange(0, n as int).to_multiset(),
            out@.len() == n,
            sorted_by_id(out@),
        decreases rest@.len(),
    {
        let x = rest.remove(0);
        proof {
            assert(x == all[n as int]);
        }
        let mut p: usize = 0;
        while p < out.len() && text_le_exec(out[p].config_id(), x.config_id())
            invariant
                p <= out@.len(),
                forall|k: int| 0 <= k < p ==> text_le(
                    #[trigger] out@[k].spec_config_id(),
                    x.spec_config_id(),
                ),
            decreases out@.len() - p,
        {
            p = p + 1;
        }
        let ghost before = out@;
        proof {
            if p < before.len() {
                assert(!text_le(before[p as int].spec_config_id(), x.spec_config_id()));
                lemma_text_le_total(before[p as int].spec_config_id(), x.spec_config_id());
            }
        }
        out.insert(p, x);
        proof {
            to_multiset_insert_lemma(before, p as int, x);
            assert(all.subrange(0, n + 1) =~= all.subrange(0, n as int).push(x));
            vstd::seq_lib::to_multiset_build(all.subrange(0, n as int), x);
            assert forall|i: int, j: int| 0 <= i < j < out@.len() implies text_le(
                #[trigger] out@[i].spec_config_id(),
                #[trigger] out@[j].spec_config_id(),
            ) by {
                if j < p {
                    assert(out@[i] == before[i] && out@[j] == before[j]);
                } else if j == p {
                    assert(out@[i] == before[i]);
                } else if i < p {
                    assert(out@[i] == before[i] && out@[j] == before[j - 1]);
                    if j - 1 > p {
                        lemma_text_le_transitive(
                            x.spec_config_id(),
                            before[p as int].spec_config_id(),
                            before[j - 1].spec_config_id(),
                        );
                    }
                    lemma_text_le_transitive(
                        before[i].spec_config_id(),
                        x.spec_config_id(),
                        before[j - 1].spec_config_id(),
                    );
                } else if i == p {
                    assert(out@[j] == before[j - 1]);
                    if j - 1 > p {
                        lemma_text_le_transitive(
                            x.spec_config_id(),
                            before[p as int].spec_config_id(),
                            before[j - 1].spec_config_id(),
                        );
                    }
                } else {
                    assert(out@[i] == before[i - 1] && out@[j] == before[j - 1]);
                }
            }
            assert(rest@ =~= all.subrange(n + 1, all.len() as int));
        }
        n = out.len();
    }
    proof {
        assert(all.subrange(0, n as int) =~= all);
    }
    out
}

/// Inserting an element adds it to the multiset.
proof fn to_multiset_insert_lemma<T>(s: Seq<T>, i: int, a: T)
    requires
        0 <= i <= s.len(),
    ensures
        s.insert(i, a).to_multiset() == s.to_multiset().insert(a),
{
    vstd::seq_lib::to_multiset_insert(s, i, a);
}

} // verus!
