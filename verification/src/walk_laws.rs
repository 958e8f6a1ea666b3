//! The order in which a lookup walks the contacts of a routing table.

use vstd::prelude::*;

use crate::bucket::BucketModel;
use crate::node::Node;
use crate::ranking::distinct_ids;
use crate::routing::beside;
use crate::routing::outward;
use crate::routing::peers_of;
use crate::routing::TableModel;
use crate::routing::TableTraverser;
use crate::table_laws::genuine;
use crate::table_laws::no_id_is_there_twice;
use crate::table_laws::only_in;

verus! {

/// Up to which distance from `center` there are buckets on both sides.
pub open spec fn reach(len: int, center: int) -> int {
    if center <= len - 1 - center {
        center
    } else {
        len - 1 - center
    }
}

/// The bucket whose turn it is after `turn` others: `center`, then by turns the
/// next to the left and the next to the right, and from the end of one side on
/// the rest of the other.
pub open spec fn visited(len: int, center: int, turn: int) -> int {
    let both = reach(len, center);
    if turn > 2 * both {
        if center > both {
            center - (turn - both)
        } else {
            center + (turn - both)
        }
    } else if turn % 2 == 1 {
        center - (turn + 1) / 2
    } else {
        center + turn / 2
    }
}

/// After how many others it is the turn of a bucket.
pub open spec fn turn_of(len: int, center: int, bucket: int) -> int {
    let both = reach(len, center);
    let left = center - bucket;
    let right = bucket - center;
    if left > both {
        both + left
    } else if right > both {
        both + right
    } else if left > 0 {
        2 * left - 1
    } else {
        2 * right
    }
}

/// Every bucket has exactly one turn.
pub proof fn every_bucket_has_its_turn(len: int, center: int, turn: int, bucket: int)
    requires
        0 <= center < len,
        0 <= turn < len,
        0 <= bucket < len,
    ensures
        0 <= visited(len, center, turn) < len,
        0 <= turn_of(len, center, bucket) < len,
        visited(len, center, turn) == bucket <==> turn == turn_of(len, center, bucket),
{
}

/// The contacts of the buckets that have their turn from `turn` on.  Of each
/// bucket, the most recently seen contact comes first.
pub open spec fn gathered(buckets: Seq<BucketModel>, center: int, turn: int) -> Seq<Node>
    decreases buckets.len() - turn,
{
    if turn >= buckets.len() {
        Seq::empty()
    } else {
        buckets[visited(buckets.len() as int, center, turn)].nodes.reverse() + gathered(
            buckets,
            center,
            turn + 1,
        )
    }
}

/// How many buckets to the left have had their turn before `turn`.
spec fn done_left(len: int, center: int, turn: int) -> int {
    let both = reach(len, center);
    if turn - 1 <= 2 * both {
        turn / 2
    } else if center > both {
        turn - 1 - both
    } else {
        both
    }
}

proof fn beside_is_gathered(
    buckets: Seq<BucketModel>,
    center: int,
    turn: int,
    take_left: bool,
)
    requires
        0 <= center < buckets.len(),
        1 <= turn <= buckets.len(),
        turn - 1 < 2 * reach(buckets.len() as int, center) ==> take_left == (turn % 2 == 1),
    ensures
        ({
            let left = done_left(buckets.len() as int, center, turn);
            beside(buckets, center - left, center + turn - left, take_left) == gathered(
                buckets,
                center,
                turn,
            )
        }),
    decreases buckets.len() - turn,
{
    let len = buckets.len() as int;
    let both = reach(len, center);
    let done = done_left(len, center, turn);
    let left = center - done;
    let right = center + turn - done;
    if turn < len {
        if take_left && left > 0 {
            assert(visited(len, center, turn) == left - 1);
            assert(done_left(len, center, turn + 1) == done + 1);
            beside_is_gathered(buckets, center, turn + 1, false);
        } else if right < len {
            assert(visited(len, center, turn) == right);
            assert(done_left(len, center, turn + 1) == done);
            beside_is_gathered(buckets, center, turn + 1, true);
        } else {
            assert(visited(len, center, turn) == left - 1);
            assert(done_left(len, center, turn + 1) == done + 1);
            beside_is_gathered(buckets, center, turn + 1, take_left);
        }
    }
}

/// A walk takes the buckets in their turns: first the one at `center`, then the
/// nearest to the left, the nearest to the right, the next to the left and so on,
/// and when one side is used up the rest of the other.
pub proof fn a_walk_takes_the_buckets_in_turn(buckets: Seq<BucketModel>, center: int)
    requires
        0 <= center < buckets.len(),
    ensures
        outward(buckets, center) == gathered(buckets, center, 0),
{
    let len = buckets.len() as int;
    assert(visited(len, center, 0) == center);
    assert(done_left(len, center, 1) == 0);
    beside_is_gathered(buckets, center, 1, true);
}

/// The bucket that a gathered contact is from, and its place in it.
proof fn source_of(buckets: Seq<BucketModel>, center: int, turn: int, at: int) -> (source: (
    int,
    int,
))
    requires
        0 <= center < buckets.len(),
        0 <= turn,
        0 <= at < gathered(buckets, center, turn).len(),
    ensures
        turn <= source.0 < buckets.len(),
        ({
            let nodes = buckets[visited(buckets.len() as int, center, source.0)].nodes;
            0 <= source.1 < nodes.len() && nodes[source.1] == gathered(buckets, center, turn)[at]
        }),
    decreases buckets.len() - turn,
{
    let here = buckets[visited(buckets.len() as int, center, turn)].nodes;
    if at < here.len() {
        assert(here.reverse()[at] == here[here.len() - 1 - at]);
        (turn, here.len() - 1 - at)
    } else {
        source_of(buckets, center, turn + 1, at - here.len())
    }
}

proof fn gathered_once(table: TableModel, center: int, turn: int)
    requires
        table.wf(),
        only_in(table, genuine()),
        0 <= center < table.buckets.len(),
        0 <= turn,
    ensures
        distinct_ids(gathered(table.buckets, center, turn)),
    decreases table.buckets.len() - turn,
{
    let buckets = table.buckets;
    let len = buckets.len() as int;
    if turn < len {
        let all = gathered(buckets, center, turn);
        let which = visited(len, center, turn);
        let here = buckets[which].nodes;
        let rest = gathered(buckets, center, turn + 1);
        gathered_once(table, center, turn + 1);
        every_bucket_has_its_turn(len, center, turn, 0);
        assert forall|i: int, j: int| 0 <= i < j < all.len() implies (#[trigger] all[i]).id != (
        #[trigger] all[j]).id by {
            if i >= here.len() {
                assert(all[i] == rest[i - here.len()] && all[j] == rest[j - here.len()]);
            } else {
                let a = here.len() - 1 - i;
                assert(all[i] == here[a]);
                assert(peers_of(buckets[which])[a] == here[a]);
                if all[i].id == all[j].id {
                    if j < here.len() {
                        let b = here.len() - 1 - j;
                        assert(all[j] == here[b]);
                        assert(peers_of(buckets[which])[b] == here[b]);
                        no_id_is_there_twice(table, which, a, which, b);
                    } else {
                        let (later, b) = source_of(buckets, center, turn + 1, j - here.len());
                        let other = visited(len, center, later);
                        every_bucket_has_its_turn(len, center, later, which);
                        every_bucket_has_its_turn(len, center, turn, which);
                        assert(peers_of(buckets[other])[b] == buckets[other].nodes[b]);
                        no_id_is_there_twice(table, which, a, other, b);
                    }
                }
            }
        }
    }
}

/// In a table whose peers have the folded IDs that belong to their raw ones, a
/// walk meets no contact twice.
pub proof fn a_walk_meets_no_contact_twice(table: TableModel, center: int)
    requires
        table.wf(),
        only_in(table, genuine()),
        0 <= center < table.buckets.len(),
    ensures
        distinct_ids(outward(table.buckets, center)),
{
    a_walk_takes_the_buckets_in_turn(table.buckets, center);
    gathered_once(table, center, 0);
}

/// Repeated steps of a walk hand out the contacts still to come, one after the
/// other, and then nothing any more.  `walks` lists the states of the walk, and
/// `handed` what each step handed out.
pub proof fn repeated_steps_hand_out_every_contact<'a>(
    walks: Seq<TableTraverser<'a>>,
    handed: Seq<Option<Node>>,
    step: int,
)
    requires
        walks.len() == handed.len() + 1,
        forall|i: int|
            0 <= i < handed.len() ==> (#[trigger] walks[i]).steps_to(&walks[i + 1], handed[i]),
        0 <= step < handed.len(),
    ensures
        handed[step] == if step < walks[0].coming().len() {
            Some(walks[0].coming()[step])
        } else {
            None
        },
{
    left_after(walks, handed, step);
    let all = walks[0].coming();
    assert(walks[step].steps_to(&walks[step + 1], handed[step]));
    if step < all.len() {
        assert(all.skip(step)[0] == all[step]);
    }
}

proof fn left_after<'a>(walks: Seq<TableTraverser<'a>>, handed: Seq<Option<Node>>, step: int)
    requires
        walks.len() == handed.len() + 1,
        forall|i: int|
            0 <= i < handed.len() ==> (#[trigger] walks[i]).steps_to(&walks[i + 1], handed[i]),
        0 <= step < walks.len(),
    ensures
        walks[step].coming() == if step < walks[0].coming().len() {
            walks[0].coming().skip(step)
        } else {
            Seq::empty()
        },
    decreases step,
{
    let all = walks[0].coming();
    if step == 0 {
        assert(all.skip(0) =~= all);
        if all.len() == 0 {
            assert(all =~= Seq::empty());
        }
    } else {
        left_after(walks, handed, step - 1);
        assert(walks[step - 1].steps_to(&walks[step], handed[step - 1]));
        if step - 1 < all.len() {
            assert(all.skip(step - 1).drop_first() =~= all.skip(step));
            if step == all.len() {
                assert(all.skip(step) =~= Seq::empty());
            }
        }
    }
}

} // verus!
