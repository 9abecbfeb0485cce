//! The in-memory side of storage: id allocation by gap recycling and
//! tag existence checks. Reading and writing the two files is left to
//! the surrounding program.
use vstd::prelude::*;

use crate::models::{Tag, Task};
use crate::text::str_eq;

verus! {

/// Whether some task in the collection carries the id `id`.
pub open spec fn spec_has_id(tasks: Seq<Task>, id: int) -> bool {
    exists|i: int| 0 <= i < tasks.len() && tasks[i].id == id
}

/// Whether some task in the collection carries the id `id`.
pub fn has_task_id(tasks: &Vec<Task>, id: u32) -> (r: bool)
    ensures
        r == spec_has_id(tasks@, id as int),
{
    let n = tasks.len();
    let mut i: usize = 0;
    while i < n
        invariant
            i <= n,
            n == tasks@.len(),
            forall|j: int| 0 <= j < i ==> tasks@[j].id != id,
        decreases n - i,
    {
        if tasks[i].id == id {
            proof {
                assert(tasks@[i as int].id == id);
            }
            return true;
        }
        i = i + 1;
    }
    false
}

/// When every id in 1..=c is carried by some task, there are at least
/// `c` tasks: the task ids that realize 1..=c are pairwise distinct
/// positions cannot be, but distinct ids can, so the id set has at
/// least c elements.
proof fn lemma_used_range_bound(tasks: Seq<Task>, c: int)
    requires
        forall|j: int| 1 <= j <= c ==> spec_has_id(tasks, j),
        c >= 0,
    ensures
        c <= tasks.len(),
{
    broadcast use vstd::set::group_set_axioms;

    let ids = tasks.map_values(|t: Task| t.id as int);
    let rng = vstd::set_lib::set_int_range(1, c + 1);
    vstd::set_lib::lemma_int_range(1, c + 1);
    assert forall|j: int| rng.contains(j) implies ids.to_set().contains(j) by {
        assert(1 <= j <= c);
        assert(spec_has_id(tasks, j));
        let i = choose|i: int| 0 <= i < tasks.len() && tasks[i].id == j;
        assert(0 <= i < tasks.len() && tasks[i].id == j);
        assert(ids[i] == j);
        assert(ids.contains(j));
    };
    assert(rng.subset_of(ids.to_set()));
    ids.lemma_cardinality_of_set();
    vstd::seq_lib::seq_to_set_is_finite(ids);
    vstd::set_lib::lemma_len_subset(rng, ids.to_set());
}

/// Whether some positive id is still free, so that an allocation can
/// succeed at all.
pub open spec fn spec_has_free_id(tasks: Seq<Task>) -> bool {
    exists|v: int| 1 <= v <= u32::MAX && !spec_has_id(tasks, v)
}

/// A collection with fewer tasks than there are positive ids leaves
/// some id free.
pub proof fn lemma_free_id_exists(tasks: Seq<Task>)
    requires
        tasks.len() < u32::MAX,
    ensures
        spec_has_free_id(tasks),
{
    if !spec_has_free_id(tasks) {
        assert forall|j: int| 1 <= j <= u32::MAX implies spec_has_id(tasks, j) by {
            assert(!(1 <= j <= u32::MAX && !spec_has_id(tasks, j)));
        }
        lemma_used_range_bound(tasks, u32::MAX as int);
        assert(false);
    }
}

/// Returns the smallest positive integer not used as a task id: ids
/// freed by clearing completed tasks are recycled before the sequence
/// grows ("gap recycling"). It asks only that some positive id is
/// still free, which any collection of fewer than `u32::MAX` tasks
/// guarantees.
pub fn get_next_task_id(tasks: &Vec<Task>) -> (r: u32)
    requires
        spec_has_free_id(tasks@),
    ensures
        r >= 1,
        !spec_has_id(tasks@, r as int),
        forall|j: int| 1 <= j < r ==> spec_has_id(tasks@, j),
{
    let mut c: u32 = 1;
    loop
        invariant
            1 <= c,
            spec_has_free_id(tasks@),
            forall|j: int| 1 <= j < c ==> spec_has_id(tasks@, j),
        decreases u32::MAX - c,
    {
        if !has_task_id(tasks, c) {
            return c;
        }
        proof {
            let v = choose|v: int| 1 <= v <= u32::MAX && !spec_has_id(tasks@, v);
            if v < c {
                assert(spec_has_id(tasks@, v));
            }
            assert(v >= c);
            if c == u32::MAX {
                assert(v == c as int);
                assert(spec_has_id(tasks@, c as int));
            }
            assert(c < u32::MAX);
        }
        c = c + 1;
    }
}

/// Whether a tag of exactly this name is in the tag collection
/// (case-sensitive).
pub open spec fn spec_tag_exists(tags: Seq<Tag>, name: Seq<char>) -> bool {
    exists|i: int| 0 <= i < tags.len() && tags[i].name@ == name
}

/// Whether a tag of exactly this name is in the tag collection
/// (case-sensitive).
pub fn tag_exists(tags: &Vec<Tag>, name: &str) -> (r: bool)
    ensures
        r == spec_tag_exists(tags@, name@),
{
    let n = tags.len();
    let mut i: usize = 0;
    while i < n
        invariant
            i <= n,
            n == tags@.len(),
            forall|j: int| 0 <= j < i ==> tags@[j].name@ != name@,
        decreases n - i,
    {
        if str_eq(tags[i].name.as_str(), name) {
            proof {
                assert(tags@[i as int].name@ == name@);
            }
            return true;
        }
        i = i + 1;
    }
    false
}

} // verus!
