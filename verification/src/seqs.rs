//! Facts about sequences.

use vstd::prelude::*;

verus! {

/// Filtering one element more.
pub proof fn filter_step<A>(s: Seq<A>, at: int, keep: spec_fn(A) -> bool)
    requires
        0 <= at < s.len(),
    ensures
        s.take(at + 1).filter(keep) == if keep(s[at]) {
            s.take(at).filter(keep).push(s[at])
        } else {
            s.take(at).filter(keep)
        },
{
    reveal(Seq::filter);
    assert(s.take(at + 1).drop_last() =~= s.take(at));
    assert(s.take(at + 1).last() == s[at]);
}

/// What a filter keeps is what passes it, and no more of it than there was.
pub proof fn filter_members<A>(s: Seq<A>, keep: spec_fn(A) -> bool)
    ensures
        s.filter(keep).len() <= s.len(),
        forall|a: A| #[trigger] s.filter(keep).contains(a) <==> s.contains(a) && keep(a),
        forall|i: int|
            0 <= i < s.filter(keep).len() ==> s.contains(#[trigger] s.filter(keep)[i]) && keep(
                s.filter(keep)[i],
            ),
        (s.filter(keep).len() == 0) <==> (forall|i: int|
            0 <= i < s.len() ==> !keep(#[trigger] s[i])),
    decreases s.len(),
{
    reveal(Seq::filter);
    let kept = s.filter(keep);
    if s.len() > 0 {
        let front = s.drop_last();
        filter_members(front, keep);
        let before = front.filter(keep);
        assert(s[s.len() - 1] == s.last());
        assert forall|a: A| kept.contains(a) <==> s.contains(a) && keep(a) by {
            if kept.contains(a) {
                let i = choose|i: int| 0 <= i < kept.len() && kept[i] == a;
                if i < before.len() {
                    assert(before[i] == a);
                    assert(before.contains(a));
                    let j = choose|j: int| 0 <= j < front.len() && front[j] == a;
                    assert(s[j] == a);
                }
            }
            if s.contains(a) && keep(a) {
                let j = choose|j: int| 0 <= j < s.len() && s[j] == a;
                if j < front.len() {
                    assert(front[j] == a);
                    assert(before.contains(a));
                    let i = choose|i: int| 0 <= i < before.len() && before[i] == a;
                    assert(kept[i] == a);
                } else {
                    assert(kept[kept.len() - 1] == a);
                }
            }
        }
        assert forall|i: int| 0 <= i < kept.len() implies s.contains(#[trigger] kept[i]) && keep(
            kept[i],
        ) by {
            assert(kept.contains(kept[i]));
        }
        if kept.len() == 0 {
            assert forall|i: int| 0 <= i < s.len() implies !keep(#[trigger] s[i]) by {
                if keep(s[i]) {
                    assert(s.contains(s[i]));
                    assert(kept.contains(s[i]));
                }
            }
        } else {
            assert(keep(kept[0]));
            let j = choose|j: int| 0 <= j < s.len() && s[j] == kept[0];
            assert(keep(s[j]));
        }
    }
}

/// A filter that everything passes leaves the sequence as it is.
pub proof fn filter_of_all<A>(s: Seq<A>, keep: spec_fn(A) -> bool)
    requires
        forall|i: int| 0 <= i < s.len() ==> keep(#[trigger] s[i]),
    ensures
        s.filter(keep) == s,
    decreases s.len(),
{
    reveal(Seq::filter);
    if s.len() > 0 {
        let front = s.drop_last();
        assert forall|i: int| 0 <= i < front.len() implies keep(#[trigger] front[i]) by {
            assert(front[i] == s[i]);
        }
        filter_of_all(front, keep);
        assert(keep(s[s.len() - 1]));
        assert(s.filter(keep) =~= s);
    } else {
        assert(s.filter(keep) =~= s);
    }
}

} // verus!
