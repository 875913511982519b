//! What builds on a work item.

use vstd::prelude::*;

use crate::catalog;
use crate::catalog::Catalog;
use crate::error::{AlderError, Result};
use crate::json::Json;
use crate::project::{ProjectState, StateView};
use crate::rules;
use crate::text::{has_text, joined3};
use crate::views;

verus! {

proof fn one_step_on(s: StateView, from: Seq<char>, required: Seq<char>, id: Seq<char>)
    requires
        required == from || rules::is_downstream(s, from, required),
        rules::depends(s, id, required),
    ensures
        rules::is_downstream(s, from, id),
{
    if rules::is_downstream(s, from, required) {
        let way = choose|way: Seq<Seq<char>>| rules::leads(s, from, required, way);
        let longer = way.push(id);
        assert forall|i: int| 0 <= i < longer.len() - 1 implies #[trigger] rules::depends(
            s,
            longer[i + 1],
            longer[i],
        ) by {
            if i < way.len() - 1 {
                assert(rules::depends(s, way[i + 1], way[i]));
            }
        }
        assert(rules::leads(s, from, id, longer));
    } else {
        let way = seq![from, id];
        assert forall|i: int| 0 <= i < way.len() - 1 implies #[trigger] rules::depends(
            s,
            way[i + 1],
            way[i],
        ) by {}
        assert(rules::leads(s, from, id, way));
    }
}

/// A set that holds all that requires `from` or one of its own holds the whole way.
proof fn closed_set_holds_way(
    s: StateView,
    from: Seq<char>,
    way: Seq<Seq<char>>,
    seen: Set<Seq<char>>,
    n: int,
)
    requires
        way.len() >= 2,
        way[0] == from,
        forall|i: int| 0 <= i < way.len() - 1 ==> #[trigger] rules::depends(s, way[i + 1], way[i]),
        forall|id: Seq<char>, required: Seq<char>|
            (required == from || seen.contains(required)) && #[trigger] rules::depends(
                s,
                id,
                required,
            ) ==> seen.contains(id),
        1 <= n < way.len(),
    ensures
        seen.contains(way[n]),
    decreases n,
{
    if n > 1 {
        closed_set_holds_way(s, from, way, seen, n - 1);
    }
    assert(rules::depends(s, way[n - 1 + 1], way[n - 1]));
}

/// The IDs in the order of their keys.
pub open spec fn ids_in_order(s: StateView, keys: Seq<Seq<char>>) -> Seq<Seq<char>> {
    Seq::new(keys.len(), |i: int| s.work[keys[i]].id)
}

/// What the search has so far: `queue` is the start and, behind it, everything seen.
spec fn gathered(
    s: StateView,
    from: Seq<char>,
    keys: Seq<Seq<char>>,
    queue: Seq<Seq<char>>,
    seen: Set<Seq<char>>,
) -> bool {
    &&& seen.finite()
    &&& queue.len() == seen.len() + 1
    &&& queue[0] == from
    &&& forall|i: int| 1 <= i < queue.len() ==> seen.contains(#[trigger] queue[i])
    &&& forall|k: Seq<char>| seen.contains(k) ==> #[trigger] queue.contains(k)
    &&& forall|k: Seq<char>| #[trigger] seen.contains(k) ==> rules::is_downstream(s, from, k)
    &&& seen.subset_of(ids_in_order(s, keys).to_set())
}

/// Everything that requires the first `n` of the queue has been seen.
spec fn expanded(s: StateView, queue: Seq<Seq<char>>, seen: Set<Seq<char>>, n: int) -> bool {
    forall|i: int, id: Seq<char>|
        0 <= i < n && #[trigger] rules::depends(s, id, queue[i]) ==> seen.contains(id)
}

proof fn queue_fits(
    s: StateView,
    from: Seq<char>,
    keys: Seq<Seq<char>>,
    queue: Seq<Seq<char>>,
    seen: Set<Seq<char>>,
)
    requires
        gathered(s, from, keys, queue, seen),
    ensures
        queue.len() <= keys.len() + 1,
{
    ids_in_order(s, keys).lemma_cardinality_of_set();
    vstd::set_lib::lemma_len_subset(seen, ids_in_order(s, keys).to_set());
}

impl ProjectState {
    /// All that requires the work item, directly or through others, in
    /// ascending order.
    pub fn downstream(&self, work_id: &str) -> (ids: Vec<String>)
        ensures
            views::views(ids@) == rules::downstream(self@, work_id@),
    {
        let len = self.work.len();
        let ghost keys = self.work.keys();
        let mut seen: Catalog<String, ()> = Catalog::new();
        let mut queue: Vec<String> = Vec::new();
        queue.push(work_id.to_owned());
        let mut next: usize = 0;
        proof {
            assert(seen@.dom() =~= Set::<Seq<char>>::empty());
            assert(gathered(self@, work_id@, keys, views::views(queue@), seen@.dom()));
            queue_fits(self@, work_id@, keys, views::views(queue@), seen@.dom());
        }
        while next < queue.len()
            invariant
                len == keys.len(),
                keys == self.work.keys(),
                catalog::lists::<String>(keys, self.work@.dom()),
                next <= queue@.len() <= len + 1,
                gathered(self@, work_id@, keys, views::views(queue@), seen@.dom()),
                expanded(self@, views::views(queue@), seen@.dom(), next as int),
            decreases len + 1 - next,
        {
            let required = queue[next].clone();
            assert(required@ == views::views(queue@)[next as int]);
            self.expand(work_id, next, &required, &mut seen, &mut queue);
            next += 1;
            proof {
                queue_fits(self@, work_id@, keys, views::views(queue@), seen@.dom());
            }
        }
        proof {
            let s = self@;
            let all = views::views(queue@);
            let found = seen@.dom();
            assert forall|id: Seq<char>, required: Seq<char>|
                (required == work_id@ || found.contains(required)) && #[trigger] rules::depends(
                    s,
                    id,
                    required,
                ) implies found.contains(id) by {
                if required == work_id@ {
                    assert(rules::depends(s, id, all[0]));
                } else {
                    assert(all.contains(required));
                    let i = choose|i: int| 0 <= i < all.len() && all[i] == required;
                    assert(rules::depends(s, id, all[i]));
                }
            }
            assert forall|id: Seq<char>| found.contains(id) <==> rules::downstream_set(
                s,
                work_id@,
            ).contains(id) by {
                if rules::is_downstream(s, work_id@, id) {
                    let way = choose|way: Seq<Seq<char>>| rules::leads(s, work_id@, id, way);
                    closed_set_holds_way(s, work_id@, way, found, way.len() - 1);
                }
            }
            assert(found =~= rules::downstream_set(s, work_id@));
        }
        keys_of(&seen)
    }

    /// Adds to `seen` and `queue` everything that requires `required`, which is
    /// the next of the queue.
    fn expand(
        &self,
        work_id: &str,
        next: usize,
        required: &String,
        seen: &mut Catalog<String, ()>,
        queue: &mut Vec<String>,
    )
        requires
            next < old(queue)@.len(),
            views::views(old(queue)@)[next as int] == required@,
            gathered(
                self@,
                work_id@,
                self.work.keys(),
                views::views(old(queue)@),
                old(seen)@.dom(),
            ),
            expanded(self@, views::views(old(queue)@), old(seen)@.dom(), next as int),
        ensures
            next < final(queue)@.len(),
            gathered(
                self@,
                work_id@,
                self.work.keys(),
                views::views(final(queue)@),
                final(seen)@.dom(),
            ),
            expanded(self@, views::views(final(queue)@), final(seen)@.dom(), next + 1),
    {
        let len = self.work.len();
        let ghost keys = self.work.keys();
        let mut index: usize = 0;
        while index < len
            invariant
                index <= len,
                len == keys.len(),
                keys == self.work.keys(),
                catalog::lists::<String>(keys, self.work@.dom()),
                next < queue@.len(),
                views::views(queue@)[next as int] == required@,
                gathered(self@, work_id@, keys, views::views(queue@), seen@.dom()),
                expanded(self@, views::views(queue@), seen@.dom(), next as int),
                forall|j: int|
                    0 <= j < index && (#[trigger] self@.work[keys[j]]).requires.contains(required@)
                        ==> seen@.dom().contains(self@.work[keys[j]].id),
            decreases len - index,
        {
            let work = self.work.value_at(index);
            let ghost key = keys[index as int];
            assert(self@.work[key] == work@);
            if has_text(&work.requires, required.as_str()) && !seen.contains_key(
                work.id.as_str(),
            ) {
                let ghost before_queue = views::views(queue@);
                let ghost before_seen = seen@.dom();
                let ghost id = work@.id;
                proof {
                    assert(rules::depends(self@, id, required@));
                    if next > 0 {
                        assert(before_seen.contains(before_queue[next as int]));
                    }
                    one_step_on(self@, work_id@, required@, id);
                }
                seen.insert(work.id.clone(), ());
                queue.push(work.id.clone());
                proof {
                    let after_queue = views::views(queue@);
                    let after_seen = seen@.dom();
                    assert(after_queue =~= before_queue.push(id));
                    assert(after_seen =~= before_seen.insert(id));
                    assert forall|i: int| 1 <= i < after_queue.len() implies after_seen.contains(
                        #[trigger] after_queue[i],
                    ) by {
                        if i < before_queue.len() {
                            assert(before_seen.contains(before_queue[i]));
                        }
                    }
                    assert forall|k: Seq<char>| after_seen.contains(
                        k,
                    ) implies #[trigger] after_queue.contains(k) by {
                        if k == id {
                            assert(after_queue[after_queue.len() - 1] == id);
                        } else {
                            assert(before_queue.contains(k));
                            let i = choose|i: int| 0 <= i < before_queue.len() && before_queue[i] == k;
                            assert(after_queue[i] == k);
                        }
                    }
                    let ids = ids_in_order(self@, keys);
                    assert(ids[index as int] == id);
                    assert(ids.to_set().contains(id));
                    assert(gathered(self@, work_id@, keys, after_queue, after_seen));
                    assert forall|i: int, d: Seq<char>|
                        0 <= i < next && #[trigger] rules::depends(
                            self@,
                            d,
                            after_queue[i],
                        ) implies after_seen.contains(d) by {
                        assert(rules::depends(self@, d, before_queue[i]));
                    }
                }
            }
            index += 1;
        }
        proof {
            let all = views::views(queue@);
            let found = seen@.dom();
            assert forall|i: int, d: Seq<char>|
                0 <= i < next + 1 && #[trigger] rules::depends(
                    self@,
                    d,
                    all[i],
                ) implies found.contains(d) by {
                if i == next {
                    let key = choose|key: Seq<char>|
                        self@.work.contains_key(key) && #[trigger] self@.work[key].id == d
                            && self@.work[key].requires.contains(required@);
                    assert(keys.to_set().contains(key));
                    let j = choose|j: int| 0 <= j < keys.len() && keys[j] == key;
                    assert(self@.work[keys[j]].requires.contains(required@));
                }
            }
        }
    }

    /// The IDs of the attempts that run at the given items.
    fn active_among(&self, ids: &Vec<String>) -> (active: Vec<String>)
        ensures
            views::views(active@) == rules::active_at(self@, views::views(ids@)),
    {
        let ghost all = views::views(ids@);
        let mut active: Vec<String> = Vec::new();
        let mut index: usize = 0;
        assert(all.take(0) =~= Seq::<Seq<char>>::empty());
        assert(views::views(active@) =~= Seq::empty());
        while index < ids.len()
            invariant
                index <= ids@.len(),
                all == views::views(ids@),
                views::views(active@) == rules::active_at(self@, all.take(index as int)),
            decreases ids@.len() - index,
        {
            assert(all.take(index + 1).drop_last() =~= all.take(index as int));
            assert(all.take(index + 1).last() == ids@[index as int]@);
            if let Some(attempt) = self.active_attempt_for(ids[index].as_str()) {
                let ghost before = active@;
                active.push(attempt.id.clone());
                assert(views::views(active@) =~= views::views(before).push(attempt@.id));
            }
            index += 1;
        }
        assert(all.take(index as int) =~= all);
        active
    }

    /// Refuses a change under attempts that build on the item.
    pub fn reject_active_downstream(&self, work_id: &str) -> (outcome: Result<()>)
        ensures
            match rules::downstream_error(self@, work_id@) {
                Some(error) => outcome matches Err(e) && e@ == error,
                None => outcome is Ok,
            },
    {
        let active = self.active_among(&self.downstream(work_id));
        assert(views::views(active@).len() == active@.len());
        if active.len() == 0 {
            Ok(())
        } else {
            Err(
                AlderError::with_context(
                    "active_downstream",
                    joined3(
                        "changing `",
                        work_id,
                        "` would invalidate active downstream work",
                    ),
                    Json::object().with("active_attempts", Json::texts(&active)).with(
                        "work_id",
                        Json::text(work_id),
                    ),
                ),
            )
        }
    }
}

/// The keys, in ascending order.
pub fn keys_of<V: View>(entries: &Catalog<String, V>) -> (keys: Vec<String>)
    ensures
        views::views(keys@) == catalog::listing::<String>(entries@.dom()),
{
    let len = entries.len();
    let mut keys: Vec<String> = Vec::new();
    let mut index: usize = 0;
    while index < len
        invariant
            index <= len,
            len == entries.keys().len(),
            keys@.len() == index,
            forall|i: int| 0 <= i < index ==> (#[trigger] keys@[i])@ == entries.keys()[i],
        decreases len - index,
    {
        keys.push(entries.key_at(index).clone());
        index += 1;
    }
    assert(views::views(keys@) =~= entries.keys());
    keys
}

} // verus!
