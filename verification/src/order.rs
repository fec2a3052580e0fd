//! Keeping messages in the order in which they are due: a stable sort by
//! play time, built one insertion at a time.
use crate::message::{Message, MessageView};
use vstd::multiset::Multiset;
use vstd::prelude::*;

verus! {

/// Inserts `x` after every element of `s` that is due no later than it,
/// scanning from the back: the insertion step of a stable sort.
pub open spec fn insert_by_time(s: Seq<MessageView>, x: MessageView) -> Seq<MessageView>
    decreases s.len(),
{
    if s.len() == 0 {
        seq![x]
    } else if s.last().play_at_ms <= x.play_at_ms {
        s.push(x)
    } else {
        insert_by_time(s.drop_last(), x).push(s.last())
    }
}

/// The stable sort of `s` by play time.
pub open spec fn sort_by_time(s: Seq<MessageView>) -> Seq<MessageView>
    decreases s.len(),
{
    if s.len() == 0 {
        s
    } else {
        insert_by_time(sort_by_time(s.drop_last()), s.last())
    }
}

/// Every message is due no earlier than the one before it.
pub open spec fn sorted_by_time(s: Seq<MessageView>) -> bool {
    forall|a: int, b: int| 0 <= a <= b < s.len() ==> s[a].play_at_ms <= s[b].play_at_ms
}

proof fn lemma_insert_by_time(s: Seq<MessageView>, x: MessageView)
    ensures
        insert_by_time(s, x).to_multiset() =~= s.to_multiset().insert(x),
        insert_by_time(s, x).len() == s.len() + 1,
        sorted_by_time(s) ==> sorted_by_time(insert_by_time(s, x)),
        forall|k: int| 0 <= k < insert_by_time(s, x).len() ==>
            (#[trigger] insert_by_time(s, x)[k] == x || s.contains(insert_by_time(s, x)[k])),
    decreases s.len(),
{
    broadcast use vstd::seq_lib::group_to_multiset_ensures;
    if s.len() == 0 {
        assert(seq![x].to_multiset() =~= Multiset::<MessageView>::empty().insert(x)) by {
            assert(seq![x] =~= Seq::<MessageView>::empty().push(x));
        }
    } else if s.last().play_at_ms <= x.play_at_ms {
    } else {
        let t = s.drop_last();
        lemma_insert_by_time(t, x);
        assert(s =~= t.push(s.last()));
        let r = insert_by_time(t, x);
        assert forall|k: int| 0 <= k < r.push(s.last()).len() implies
            (#[trigger] r.push(s.last())[k] == x || s.contains(r.push(s.last())[k])) by {
            if k < r.len() {
                if r[k] != x {
                    let w = choose|w: int| 0 <= w < t.len() && t[w] == r[k];
                    assert(s[w] == r[k]);
                }
            } else {
                assert(s[s.len() - 1] == s.last());
            }
        }
        if sorted_by_time(s) {
            assert(sorted_by_time(t));
            assert forall|k: int| 0 <= k < r.len() implies #[trigger] r[k].play_at_ms <= s.last().play_at_ms by {
                if r[k] != x {
                    let w = choose|w: int| 0 <= w < t.len() && t[w] == r[k];
                    assert(s[w] == t[w]);
                    assert(s[s.len() - 1] == s.last());
                }
            }
        }
    }
}

/// Sorting by play time yields messages in order, and the same messages.
pub proof fn law_sort_by_time(s: Seq<MessageView>)
    ensures
        sorted_by_time(sort_by_time(s)),
        sort_by_time(s).to_multiset() =~= s.to_multiset(),
        sort_by_time(s).len() == s.len(),
    decreases s.len(),
{
    broadcast use vstd::seq_lib::group_to_multiset_ensures;
    if s.len() > 0 {
        law_sort_by_time(s.drop_last());
        lemma_insert_by_time(sort_by_time(s.drop_last()), s.last());
        assert(s =~= s.drop_last().push(s.last()));
    }
}

/// Inserts `x` into `v` at the place that `insert_by_time` names, and
/// returns that place.
pub fn insert_message_by_time(v: &mut Vec<Message>, x: Message) -> (pos: usize)
    ensures
        pos <= old(v)@.len(),
        final(v)@ == old(v)@.insert(pos as int, x),
        final(v)@.map_values(|m: Message| m@) == insert_by_time(old(v)@.map_values(|m: Message| m@), x@),
{
    let ghost s = old(v)@.map_values(|m: Message| m@);
    let mut pos: usize = v.len();
    assert(s.take(pos as int) =~= s);
    assert(insert_by_time(s, x@) =~= insert_by_time(s.take(pos as int), x@) + s.skip(pos as int));
    while pos > 0 && v[pos - 1].play_at_ms > x.play_at_ms
        invariant
            pos <= v.len(),
            v@.map_values(|m: Message| m@) == s,
            insert_by_time(s, x@) == insert_by_time(s.take(pos as int), x@) + s.skip(pos as int),
        decreases pos,
    {
        proof {
            let t = s.take(pos as int);
            assert(t.drop_last() =~= s.take(pos - 1));
            assert(t.last() == s[pos - 1]);
            assert(s.skip(pos - 1) =~= seq![s[pos - 1]] + s.skip(pos as int));
            assert(insert_by_time(s, x@) =~= insert_by_time(s.take(pos - 1), x@) + s.skip(pos - 1));
        }
        pos = pos - 1;
    }
    proof {
        let t = s.take(pos as int);
        if pos > 0 {
            assert(t.last() == s[pos - 1]);
            assert(insert_by_time(t, x@) == t.push(x@));
        } else {
            assert(insert_by_time(t, x@) =~= seq![x@]);
        }
    }
    v.insert(pos, x);
    proof {
        assert(v@.map_values(|m: Message| m@) =~= s.take(pos as int).push(x@) + s.skip(pos as int));
    }
    pos
}

} // verus!
