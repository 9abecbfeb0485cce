//! The list command: group tasks by tag, sort each group by deadline,
//! and render the aligned, optionally struck-through lines.
use vstd::prelude::*;

use crate::date::{format_date_display, spec_render_display, Date};
use crate::models::{spec_deadline_wf, Task};
use crate::text::{
    lemma_lex_le_antisym, lemma_lex_le_total, lemma_lex_le_trans, push_padded_id, push_spaces,
    spec_lex_le, spec_padded_id, spec_spaces, spec_strike, str_eq, str_le, strike,
};

verus! {

broadcast use vstd::seq_lib::group_to_multiset_ensures, vstd::seq_lib::to_multiset_insert;

/// The tag a task is listed under: its own tag, or "Untagged" when the
/// tag is the empty string.
pub open spec fn spec_display_tag(t: Task) -> Seq<char> {
    if t.tag@.len() == 0 {
        "Untagged"@
    } else {
        t.tag@
    }
}

/// The tag a task is listed under.
pub fn display_tag(t: &Task) -> (r: String)
    ensures
        r@ == spec_display_tag(*t),
{
    if t.tag.as_str().unicode_len() == 0 {
        String::from_str("Untagged")
    } else {
        t.tag.clone()
    }
}

/// A date collapsed to one integer that orders as the calendar does.
pub open spec fn spec_date_key(d: Date) -> int {
    d.year as int * 10000 + d.month as int * 100 + d.day as int
}

/// The sort key of a deadline: dated tasks order by their date, and
/// every dated task comes before every undated one.
pub open spec fn spec_deadline_key(t: Task) -> int {
    match t.deadline {
        Some(d) => spec_date_key(d),
        None => 100000000,
    }
}

/// For valid dates the key orders exactly as the calendar does, and
/// stays below the key that stands for "no deadline": every dated task
/// sorts before every undated one.
pub proof fn lemma_date_key_orders_dates(a: Date, b: Date)
    requires
        a.wf(),
        b.wf(),
    ensures
        spec_date_key(a) < 100000000,
        spec_date_key(a) < spec_date_key(b) <==> (a.year < b.year || (a.year == b.year && (a.month
            < b.month || (a.month == b.month && a.day < b.day)))),
{
}

/// The order within one tag group: ascending deadline, dated before
/// undated, and ascending id between two undated tasks. Two tasks with
/// the same deadline are tied.
pub open spec fn spec_group_le(a: Task, b: Task) -> bool {
    spec_deadline_key(a) < spec_deadline_key(b) || (spec_deadline_key(a) == spec_deadline_key(b)
        && (spec_deadline_key(a) == 100000000 ==> a.id <= b.id))
}

/// The order of the whole listing: groups by tag name, and the group
/// order within equal tags.
pub open spec fn spec_list_le(a: Task, b: Task) -> bool {
    if spec_display_tag(a) == spec_display_tag(b) {
        spec_group_le(a, b)
    } else {
        spec_lex_le(spec_display_tag(a), spec_display_tag(b))
    }
}

/// The listing order relates every pair one way or the other.
pub proof fn lemma_list_le_total(a: Task, b: Task)
    ensures
        spec_list_le(a, b) || spec_list_le(b, a),
{
    if spec_display_tag(a) != spec_display_tag(b) {
        lemma_lex_le_total(spec_display_tag(a), spec_display_tag(b));
    }
}

/// The listing order is transitive.
pub proof fn lemma_list_le_trans(a: Task, b: Task, c: Task)
    requires
        spec_list_le(a, b),
        spec_list_le(b, c),
    ensures
        spec_list_le(a, c),
{
    let ta = spec_display_tag(a);
    let tb = spec_display_tag(b);
    let tc = spec_display_tag(c);
    if ta != tb && tb != tc {
        lemma_lex_le_trans(ta, tb, tc);
        if ta == tc {
            lemma_lex_le_antisym(ta, tb);
        }
    }
}

/// A sequence of tasks in listing order.
pub open spec fn spec_list_sorted(s: Seq<Task>) -> bool {
    forall|x: int, y: int| 0 <= x < y < s.len() ==> #[trigger] spec_list_le(s[x], s[y])
}

/// In listing order the groups are contiguous: between two tasks of one
/// tag there is no task of another tag, so each tag header covers all
/// of its tasks.
pub proof fn lemma_sorted_groups_contiguous(s: Seq<Task>, x: int, y: int, z: int)
    requires
        spec_list_sorted(s),
        0 <= x < y < z < s.len(),
        spec_display_tag(s[x]) == spec_display_tag(s[z]),
    ensures
        spec_display_tag(s[y]) == spec_display_tag(s[x]),
{
    let tx = spec_display_tag(s[x]);
    let ty = spec_display_tag(s[y]);
    if tx != ty {
        assert(spec_list_le(s[x], s[y]));
        assert(spec_list_le(s[y], s[z]));
        lemma_lex_le_antisym(tx, ty);
    }
}

fn deadline_key(t: &Task) -> (r: u64)
    ensures
        r as int == spec_deadline_key(*t),
{
    match &t.deadline {
        Some(d) => (d.year as u64) * 10000 + (d.month as u64) * 100 + (d.day as u64),
        None => 100000000,
    }
}

fn group_le_exec(a: &Task, b: &Task) -> (r: bool)
    ensures
        r == spec_group_le(*a, *b),
{
    let ka = deadline_key(a);
    let kb = deadline_key(b);
    ka < kb || (ka == kb && (ka != 100000000 || a.id <= b.id))
}

fn list_le_exec(a: &Task, b: &Task) -> (r: bool)
    ensures
        r == spec_list_le(*a, *b),
{
    let ta = display_tag(a);
    let tb = display_tag(b);
    if str_eq(ta.as_str(), tb.as_str()) {
        group_le_exec(a, b)
    } else {
        str_le(ta.as_str(), tb.as_str())
    }
}

/// Sorts the whole collection into listing order: a permutation of the
/// input in which equal tags stand together, ordered as the listing
/// shows them.
pub fn sort_list(tasks: Vec<Task>) -> (r: Vec<Task>)
    ensures
        r@.to_multiset() == tasks@.to_multiset(),
        spec_list_sorted(r@),
{
    let ghost orig = tasks@;
    let mut rest = tasks;
    let mut out: Vec<Task> = Vec::new();
    let n = rest.len();
    let mut i: usize = 0;
    proof {
        assert(out@ =~= orig.take(0));
    }
    while i < n
        invariant
            i <= n,
            n == orig.len(),
            rest@ == orig.skip(i as int),
            out@.to_multiset() == orig.take(i as int).to_multiset(),
            spec_list_sorted(out@),
        decreases n - i,
    {
        let t = rest.remove(0);
        proof {
            assert(t == orig[i as int]);
            assert(rest@ =~= orig.skip(i + 1));
        }
        let m = out.len();
        let mut p: usize = 0;
        while p < m && list_le_exec(&out[p], &t)
            invariant
                p <= m,
                m == out@.len(),
                forall|j: int| 0 <= j < p ==> spec_list_le(#[trigger] out@[j], t),
            decreases m - p,
        {
            p = p + 1;
        }
        let ghost pre = out@;
        out.insert(p, t);
        proof {
            pre.insert_ensures(p as int, t);
            if p < m {
                lemma_list_le_total(pre[p as int], t);
                assert(spec_list_le(t, pre[p as int]));
            }
            assert forall|x: int, y: int| 0 <= x < y < out@.len() implies #[trigger] spec_list_le(
                out@[x],
                out@[y],
            ) by {
                if y < p {
                    assert(out@[x] == pre[x] && out@[y] == pre[y]);
                } else if x < p && y == p {
                    assert(out@[x] == pre[x] && out@[y] == t);
                } else if x < p && y > p {
                    assert(out@[x] == pre[x] && out@[y] == pre[y - 1]);
                    assert(x < y - 1);
                } else if x == p {
                    assert(out@[x] == t && out@[y] == pre[y - 1]);
                    if y - 1 > p {
                        lemma_list_le_trans(t, pre[p as int], pre[y - 1]);
                    }
                } else {
                    assert(out@[x] == pre[x - 1] && out@[y] == pre[y - 1]);
                }
            }
            assert(orig.take(i as int).push(t) =~= orig.take(i + 1));
            assert(out@.to_multiset() == orig.take(i + 1).to_multiset());
        }
        i = i + 1;
    }
    proof {
        assert(orig.take(n as int) =~= orig);
    }
    out
}

/// The longest task name in the collection, measured over every task
/// so the deadline column lines up across groups.
pub open spec fn spec_max_name_len(ts: Seq<Task>) -> int
    decreases ts.len(),
{
    if ts.len() == 0 {
        0
    } else {
        let rest = spec_max_name_len(ts.drop_last());
        let l = ts.last().name@.len() as int;
        if l > rest {
            l
        } else {
            rest
        }
    }
}

/// The length of the longest task name.
pub fn max_name_len(tasks: &Vec<Task>) -> (r: usize)
    ensures
        r as int == spec_max_name_len(tasks@),
{
    let n = tasks.len();
    let mut m: usize = 0;
    let mut i: usize = 0;
    proof {
        assert(tasks@.take(0) =~= Seq::<Task>::empty());
    }
    while i < n
        invariant
            i <= n,
            n == tasks@.len(),
            m as int == spec_max_name_len(tasks@.take(i as int)),
        decreases n - i,
    {
        let l = tasks[i].name.as_str().unicode_len();
        if l > m {
            m = l;
        }
        i = i + 1;
        proof {
            assert(tasks@.take(i as int).drop_last() =~= tasks@.take(i - 1));
            assert(tasks@.take(i as int).last() == tasks@[i - 1]);
        }
    }
    proof {
        assert(tasks@.take(n as int) =~= tasks@);
    }
    m
}

/// A string as the listing shows it: struck through when the task is
/// completed, plain otherwise.
pub open spec fn spec_maybe_strike(s: Seq<char>, completed: bool) -> Seq<char> {
    if completed {
        spec_strike(s)
    } else {
        s
    }
}

/// The number of spaces between the name and the date column.
pub open spec fn spec_pad_width(w: int, name_len: int) -> int {
    (if w >= name_len {
        w - name_len
    } else {
        0
    }) + 8
}

/// One task's row: four spaces of indent, the zero-padded id, the name,
/// and, when there is a deadline, the alignment padding and the date.
pub open spec fn spec_task_line(t: Task, w: int) -> Seq<char> {
    let head = "    "@ + spec_padded_id(t.id as int) + " - "@ + spec_maybe_strike(
        t.name@,
        t.completed,
    );
    match t.deadline {
        None => head,
        Some(d) => head + spec_spaces(spec_pad_width(w, t.name@.len() as int)) + spec_maybe_strike(
            spec_render_display(d),
            t.completed,
        ),
    }
}

/// Renders one task's row, aligned to the global name-column width `w`.
pub fn render_task_line(t: &Task, w: usize) -> (r: String)
    requires
        spec_deadline_wf(*t),
    ensures
        r@ == spec_task_line(*t, w as int),
{
    let mut out = String::from_str("    ");
    push_padded_id(&mut out, t.id);
    out.append(" - ");
    if t.completed {
        let st = strike(t.name.as_str());
        out.append(st.as_str());
    } else {
        out.append(t.name.as_str());
    }
    match &t.deadline {
        None => {},
        Some(d) => {
            let nl = t.name.as_str().unicode_len();
            let base = if w >= nl {
                w - nl
            } else {
                0
            };
            push_spaces(&mut out, base);
            push_spaces(&mut out, 8);
            proof {
                assert(spec_spaces(base as int) + spec_spaces(8) =~= spec_spaces(
                    spec_pad_width(w as int, t.name@.len() as int),
                ));
            }
            let ds = format_date_display(d);
            if t.completed {
                let sd = strike(ds.as_str());
                out.append(sd.as_str());
            } else {
                out.append(ds.as_str());
            }
        },
    }
    proof {
        assert(out@ =~= spec_task_line(*t, w as int));
    }
    out
}

/// The lines of the listing for tasks already in listing order: a tag
/// header before the first task of each tag, then one row per task.
pub open spec fn spec_render(ts: Seq<Task>, w: int) -> Seq<Seq<char>>
    decreases ts.len(),
{
    if ts.len() == 0 {
        Seq::empty()
    } else {
        let head = spec_render(ts.drop_last(), w);
        let t = ts.last();
        if ts.len() == 1 || spec_display_tag(ts[ts.len() - 2]) != spec_display_tag(t) {
            head + seq![spec_display_tag(t)] + seq![spec_task_line(t, w)]
        } else {
            head + seq![spec_task_line(t, w)]
        }
    }
}

/// Lists the collection: an empty collection is one notice line; any
/// other collection is rendered in listing order, a permutation of the
/// input sorted by tag and deadline, with completed tasks still shown.
pub fn list_tasks(tasks: Vec<Task>) -> (r: Vec<String>)
    requires
        forall|i: int| 0 <= i < tasks@.len() ==> spec_deadline_wf(#[trigger] tasks@[i]),
    ensures
        tasks@.len() == 0 ==> r@.map_values(|s: String| s@) == seq!["No tasks found"@],
        tasks@.len() > 0 ==> (exists|sorted: Seq<Task>|
            {
                &&& #[trigger] sorted.to_multiset() == tasks@.to_multiset()
                &&& spec_list_sorted(sorted)
                &&& r@.map_values(|s: String| s@) == spec_render(sorted, spec_max_name_len(tasks@))
            }),
{
    if tasks.len() == 0 {
        let mut r: Vec<String> = Vec::new();
        r.push(String::from_str("No tasks found"));
        proof {
            assert(r@.map_values(|s: String| s@) =~= seq!["No tasks found"@]);
        }
        return r;
    }
    let w = max_name_len(&tasks);
    let ghost origms = tasks@.to_multiset();
    let ghost origlen = tasks@.len();
    let ghost origview = tasks@;
    let sorted = sort_list(tasks);
    proof {
        assert forall|i: int| 0 <= i < sorted@.len() implies spec_deadline_wf(
            #[trigger] sorted@[i],
        ) by {
            assert(sorted@.contains(sorted@[i]));
            assert(sorted@.to_multiset().count(sorted@[i]) > 0);
            assert(origview.contains(sorted@[i]));
            let j = choose|j: int| 0 <= j < origview.len() && origview[j] == sorted@[i];
            assert(spec_deadline_wf(origview[j]));
        }
    }
    let mut lines: Vec<String> = Vec::new();
    let n = sorted.len();
    let mut i: usize = 0;
    proof {
        assert(sorted@.take(0) =~= Seq::<Task>::empty());
        assert(lines@.map_values(|s: String| s@) =~= spec_render(sorted@.take(0), w as int));
    }
    while i < n
        invariant
            i <= n,
            n == sorted@.len(),
            w as int == spec_max_name_len(origview),
            forall|k: int| 0 <= k < sorted@.len() ==> spec_deadline_wf(#[trigger] sorted@[k]),
            lines@.map_values(|s: String| s@) == spec_render(sorted@.take(i as int), w as int),
        decreases n - i,
    {
        let ghost old_lines = lines@;
        let need_header = if i == 0 {
            true
        } else {
            let prev = display_tag(&sorted[i - 1]);
            let cur = display_tag(&sorted[i]);
            !str_eq(prev.as_str(), cur.as_str())
        };
        if need_header {
            lines.push(display_tag(&sorted[i]));
        }
        lines.push(render_task_line(&sorted[i], w));
        i = i + 1;
        proof {
            let pre = sorted@.take(i - 1);
            let now = sorted@.take(i as int);
            assert(now.drop_last() =~= pre);
            assert(now.last() == sorted@[i - 1]);
            if i > 1 {
                assert(now[now.len() - 2] == sorted@[i - 2]);
            }
            if need_header {
                assert(lines@.map_values(|s: String| s@) =~= old_lines.map_values(|s: String| s@)
                    + seq![spec_display_tag(sorted@[i - 1])] + seq![
                    spec_task_line(sorted@[i - 1], w as int),
                ]);
            } else {
                assert(lines@.map_values(|s: String| s@) =~= old_lines.map_values(|s: String| s@)
                    + seq![spec_task_line(sorted@[i - 1], w as int)]);
            }
            assert(lines@.map_values(|s: String| s@) == spec_render(now, w as int));
        }
    }
    proof {
        assert(sorted@.take(n as int) =~= sorted@);
        assert(sorted@.to_multiset() == origms);
        assert(spec_list_sorted(sorted@));
        assert(lines@.map_values(|s: String| s@) == spec_render(sorted@, spec_max_name_len(
            origview,
        )));
    }
    lines
}

} // verus!
