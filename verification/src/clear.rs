//! The clear command: permanently delete every task marked completed.
use vstd::prelude::*;

use crate::models::Task;
use crate::text::spec_dec_digits;
use crate::text::push_dec;

verus! {

/// The tasks that clear keeps: exactly the ones not marked completed,
/// in their original order.
pub open spec fn spec_active(tasks: Seq<Task>) -> Seq<Task> {
    tasks.filter(|t: Task| !t.completed)
}

proof fn lemma_active_push(s: Seq<Task>, x: Task)
    ensures
        spec_active(s + seq![x]) == if !x.completed {
            spec_active(s).push(x)
        } else {
            spec_active(s)
        },
{
    reveal(Seq::filter);
    assert((s + seq![x]).drop_last() =~= s);
    assert((s + seq![x]).last() == x);
}

/// Drops every completed task, keeping the rest in order, and reports
/// how many records were removed.
pub fn clear_tasks(tasks: Vec<Task>) -> (r: (Vec<Task>, usize))
    ensures
        r.0@ == spec_active(tasks@),
        r.1 == tasks@.len() - r.0@.len(),
{
    let ghost orig = tasks@;
    let mut rest = tasks;
    let mut kept: Vec<Task> = Vec::new();
    let n = rest.len();
    let mut i: usize = 0;
    while i < n
        invariant
            i <= n,
            n == orig.len(),
            rest@ == orig.skip(i as int),
            kept@ == spec_active(orig.take(i as int)),
            kept@.len() <= i,
        decreases n - i,
    {
        let t = rest.remove(0);
        proof {
            assert(t == orig[i as int]);
            assert(rest@ =~= orig.skip(i + 1));
            lemma_active_push(orig.take(i as int), t);
            assert(orig.take(i as int) + seq![t] =~= orig.take(i + 1));
        }
        if !t.completed {
            kept.push(t);
        }
        i = i + 1;
    }
    proof {
        assert(orig.take(n as int) =~= orig);
    }
    let removed = n - kept.len();
    (kept, removed)
}

/// What the clear command prints: the count of removed tasks, or a
/// notice that there was nothing to clear.
pub open spec fn spec_clear_message(removed: int) -> Seq<char> {
    if removed == 0 {
        "No completed tasks to clear"@
    } else {
        "Cleared "@ + spec_dec_digits(removed) + " completed tasks"@
    }
}

/// Renders the message the clear command prints.
pub fn clear_message(removed: usize) -> (r: String)
    ensures
        r@ == spec_clear_message(removed as int),
{
    if removed == 0 {
        String::from_str("No completed tasks to clear")
    } else {
        let mut out = String::from_str("Cleared ");
        push_dec(&mut out, removed);
        out.append(" completed tasks");
        proof {
            assert(out@ =~= spec_clear_message(removed as int));
        }
        out
    }
}

} // verus!
