//! The remove command: parse id strings, mark the matching tasks
//! completed, and report the ids that matched nothing.
use vstd::prelude::*;

use crate::date::{spec_digit_val, spec_is_digit};
use crate::errors::TaskError;
use crate::models::Task;
use crate::storage::{has_task_id, spec_has_id};
use crate::text::{push_join_comma, spec_join_comma};

verus! {

/// The characters trimmed from around an id string: the Unicode
/// White_Space set, as Rust's `str::trim` removes it.
pub open spec fn spec_is_space(c: char) -> bool {
    let u = c as int;
    (0x09 <= u && u <= 0x0D) || u == 0x20 || u == 0x85 || u == 0xA0 || u == 0x1680 || (0x2000 <= u
        && u <= 0x200A) || u == 0x2028 || u == 0x2029 || u == 0x202F || u == 0x205F || u == 0x3000
}

/// `s` without its leading whitespace.
pub open spec fn spec_trim_front(s: Seq<char>) -> Seq<char>
    decreases s.len(),
{
    if s.len() > 0 && spec_is_space(s[0]) {
        spec_trim_front(s.drop_first())
    } else {
        s
    }
}

/// `s` without its trailing whitespace.
pub open spec fn spec_trim_back(s: Seq<char>) -> Seq<char>
    decreases s.len(),
{
    if s.len() > 0 && spec_is_space(s.last()) {
        spec_trim_back(s.drop_last())
    } else {
        s
    }
}

/// `s` without its surrounding whitespace.
pub open spec fn spec_trim(s: Seq<char>) -> Seq<char> {
    spec_trim_back(spec_trim_front(s))
}

/// Whether every character of `s` is a decimal digit.
pub open spec fn spec_all_digits(s: Seq<char>) -> bool {
    forall|i: int| 0 <= i < s.len() ==> spec_is_digit(s[i])
}

/// The number named by a digit string, most significant digit first.
pub open spec fn spec_digits_val(s: Seq<char>) -> int
    decreases s.len(),
{
    if s.len() == 0 {
        0
    } else {
        spec_digits_val(s.drop_last()) * 10 + spec_digit_val(s.last())
    }
}

/// The id named by a bare digit string, when it is one and fits in a
/// `u32`.
pub open spec fn spec_id_of_digits(u: Seq<char>) -> Option<u32> {
    if u.len() > 0 && spec_all_digits(u) && spec_digits_val(u) <= u32::MAX {
        Some(spec_digits_val(u) as u32)
    } else {
        None
    }
}

/// What id parsing accepts: optional surrounding whitespace, an
/// optional leading '+', then one or more decimal digits whose value
/// fits in a `u32`. Leading zeros are allowed.
pub open spec fn spec_parse_id(s: Seq<char>) -> Option<u32> {
    let t = spec_trim(s);
    let u = if t.len() > 0 && t[0] == '+' {
        t.drop_first()
    } else {
        t
    };
    spec_id_of_digits(u)
}

fn is_space_char(c: char) -> (r: bool)
    ensures
        r == spec_is_space(c),
{
    let u = c as u32;
    (0x09 <= u && u <= 0x0D) || u == 0x20 || u == 0x85 || u == 0xA0 || u == 0x1680 || (0x2000 <= u
        && u <= 0x200A) || u == 0x2028 || u == 0x2029 || u == 0x202F || u == 0x205F || u == 0x3000
}

spec fn spec_pow10(k: int) -> int
    decreases k,
{
    if k <= 0 {
        1
    } else {
        10 * spec_pow10(k - 1)
    }
}

proof fn lemma_pow10_mono(a: int, b: int)
    requires
        a <= b,
    ensures
        spec_pow10(a) <= spec_pow10(b),
    decreases b - a,
{
    if a < b {
        lemma_pow10_mono(a, b - 1);
        assert(spec_pow10(b - 1) >= 1) by {
            lemma_pow10_pos(b - 1);
        }
    }
}

proof fn lemma_pow10_pos(k: int)
    ensures
        spec_pow10(k) >= 1,
    decreases (if k > 0 { k } else { 0 }),
{
    if k > 0 {
        lemma_pow10_pos(k - 1);
    }
}

proof fn lemma_all_zeros_val(s: Seq<char>)
    requires
        forall|j: int| 0 <= j < s.len() ==> s[j] == '0',
    ensures
        spec_digits_val(s) == 0,
    decreases s.len(),
{
    if s.len() > 0 {
        lemma_all_zeros_val(s.drop_last());
    }
}

proof fn lemma_zeros_prefix_val(s: Seq<char>, k: int)
    requires
        0 <= k <= s.len(),
        forall|j: int| 0 <= j < k ==> s[j] == '0',
    ensures
        spec_digits_val(s) == spec_digits_val(s.skip(k)),
        spec_all_digits(s) == spec_all_digits(s.skip(k)),
    decreases s.len(),
{
    if s.len() == k {
        lemma_all_zeros_val(s);
        assert(s.skip(k) =~= Seq::<char>::empty());
    } else if s.len() > k {
        lemma_zeros_prefix_val(s.drop_last(), k);
        assert(s.drop_last().skip(k) =~= s.skip(k).drop_last());
        assert(s.skip(k).len() > 0);
        assert(s.skip(k).last() == s.last());
        assert(spec_digits_val(s) == spec_digits_val(s.skip(k)));
        assert forall|j: int| 0 <= j < s.len() implies (spec_is_digit(s[j]) == (
        if j < k {
            spec_is_digit(s[j])
        } else {
            spec_is_digit(s.skip(k)[j - k])
        })) by {}
        assert(spec_all_digits(s) ==> spec_all_digits(s.skip(k)));
        if spec_all_digits(s.skip(k)) {
            assert forall|j: int| 0 <= j < s.len() implies spec_is_digit(s[j]) by {
                if j < k {
                    assert(s[j] == '0');
                } else {
                    assert(s[j] == s.skip(k)[j - k]);
                }
            }
        }
    }
}

proof fn lemma_digits_val_lower(s: Seq<char>)
    requires
        spec_all_digits(s),
        s.len() >= 1,
        s[0] != '0',
    ensures
        spec_digits_val(s) >= spec_pow10(s.len() - 1),
    decreases s.len(),
{
    if s.len() == 1 {
        assert(spec_digit_val(s[0]) >= 1);
    } else {
        assert forall|j: int| 0 <= j < s.drop_last().len() implies spec_is_digit(
            #[trigger] s.drop_last()[j],
        ) by {
            assert(s.drop_last()[j] == s[j]);
        }
        assert(s.drop_last()[0] == s[0]);
        lemma_digits_val_lower(s.drop_last());
        assert(spec_digit_val(s.last()) >= 0);
        assert(spec_digits_val(s) == spec_digits_val(s.drop_last()) * 10 + spec_digit_val(s.last()));
        assert(spec_digits_val(s.drop_last()) * 10 >= spec_pow10(s.len() - 2) * 10);
        assert(spec_pow10(s.len() - 1) == 10 * spec_pow10(s.len() - 2));
    }
}

proof fn lemma_pow10_values()
    ensures
        spec_pow10(9) == 1000000000,
        spec_pow10(10) == 10000000000,
{
    reveal_with_fuel(spec_pow10, 11);
}

/// Parses an id string as the remove command does: surrounding
/// whitespace is trimmed, leading zeros are accepted, anything that is
/// not an unsigned number that fits in a `u32` yields `None`.
#[verifier::rlimit(100)]
pub fn parse_id(s: &str) -> (r: Option<u32>)
    ensures
        r == spec_parse_id(s@),
{
    let n = s.unicode_len();
    // trim leading whitespace
    let mut a: usize = 0;
    proof {
        assert(s@.skip(0) =~= s@);
    }
    while a < n && is_space_char(s.get_char(a))
        invariant
            a <= n,
            n == s@.len(),
            spec_trim_front(s@) == spec_trim_front(s@.skip(a as int)),
        decreases n - a,
    {
        proof {
            assert(s@.skip(a as int).len() > 0);
            assert(s@.skip(a as int)[0] == s@[a as int]);
            assert(s@.skip(a as int).drop_first() =~= s@.skip(a + 1));
        }
        a = a + 1;
    }
    proof {
        if a < n {
            assert(s@.skip(a as int)[0] == s@[a as int]);
        } else {
            assert(s@.skip(a as int) =~= Seq::<char>::empty());
        }
        assert(spec_trim_front(s@) == s@.skip(a as int));
    }
    // trim trailing whitespace
    let ghost f = s@.skip(a as int);
    let mut b: usize = n;
    proof {
        assert(f.take(n - a) =~= f);
    }
    while b > a && is_space_char(s.get_char(b - 1))
        invariant
            a <= b <= n,
            n == s@.len(),
            f == s@.skip(a as int),
            spec_trim_back(f) == spec_trim_back(f.take(b - a)),
        decreases b,
    {
        proof {
            assert(f.take(b - a).len() > 0);
            assert(f.take(b - a).last() == s@[b - 1]);
            assert(f.take(b - a).drop_last() =~= f.take(b - a - 1));
        }
        b = b - 1;
    }
    proof {
        if b > a {
            assert(f.take(b - a).last() == s@[b - 1]);
        }
        assert(spec_trim(s@) == f.take(b - a));
        assert(f.take(b - a) =~= s@.subrange(a as int, b as int));
    }
    let ghost t = spec_trim(s@);
    // optional leading '+'
    let mut p: usize = a;
    if p < b && s.get_char(p) == '+' {
        proof {
            assert(t[0] == s@[p as int]);
            assert(t.drop_first() =~= s@.subrange(p + 1, b as int));
        }
        p = p + 1;
    }
    let ghost u = s@.subrange(p as int, b as int);
    proof {
        assert(spec_parse_id(s@) == spec_id_of_digits(u));
    }
    if p == b {
        proof {
            assert(u.len() == 0);
        }
        return None;
    }
    // skip leading zeros
    let mut z: usize = p;
    while z < b && s.get_char(z) == '0'
        invariant
            p <= z <= b <= n,
            n == s@.len(),
            u == s@.subrange(p as int, b as int),
            forall|j: int| p <= j < z ==> s@[j] == '0',
        decreases b - z,
    {
        z = z + 1;
    }
    let ghost w = s@.subrange(z as int, b as int);
    proof {
        assert(w =~= u.skip(z - p));
        lemma_zeros_prefix_val(u, z - p);
    }
    if b - z > 10 {
        // more than ten significant digits cannot fit in a u32
        proof {
            if spec_all_digits(w) {
                assert(w[0] == s@[z as int]);
                assert(w[0] != '0');
                lemma_digits_val_lower(w);
                lemma_pow10_mono(10, w.len() - 1);
                lemma_pow10_values();
                assert(spec_digits_val(w) > u32::MAX);
            }
        }
        return None;
    }
    // accumulate the at most ten remaining digits
    let mut acc: u64 = 0;
    let mut q: usize = z;
    proof {
        assert(w.take(0) =~= Seq::<char>::empty());
    }
    while q < b
        invariant
            p <= z <= q <= b <= n,
            p < b,
            b - z <= 10,
            n == s@.len(),
            w == s@.subrange(z as int, b as int),
            u == s@.subrange(p as int, b as int),
            spec_parse_id(s@) == spec_id_of_digits(u),
            spec_all_digits(u) == spec_all_digits(w),
            spec_digits_val(u) == spec_digits_val(w),
            spec_all_digits(w.take(q - z)),
            acc == spec_digits_val(w.take(q - z)),
            acc < spec_pow10(q - z),
        decreases b - q,
    {
        let c = s.get_char(q);
        let v = c as u32;
        if !(48 <= v && v <= 57) {
            // a non-digit after the sign: not a number
            proof {
                assert(w[q - z] == s@[q as int]);
                assert(!spec_is_digit(s@[q as int]));
                assert(!spec_all_digits(w));
                assert(!spec_all_digits(u));
            }
            return None;
        }
        proof {
            lemma_pow10_mono(q - z, 9);
            lemma_pow10_values();
            assert(acc < 10000000000);
        }
        acc = acc * 10 + ((v - 48) as u64);
        q = q + 1;
        proof {
            assert(w.take(q - z).drop_last() =~= w.take(q - z - 1));
            assert(w.take(q - z).last() == s@[q - 1]);
            assert(spec_is_digit(s@[q - 1]));
            assert(spec_digit_val(s@[q - 1]) == v - 48);
            assert(acc == spec_digits_val(w.take(q - z)));
            assert forall|j: int| 0 <= j < q - z implies spec_is_digit(#[trigger] w.take(q - z)[j]) by {
                if j < q - z - 1 {
                    assert(spec_is_digit(w.take(q - z - 1)[j]));
                }
            }
        }
    }
    proof {
        assert(w.take(b - z) =~= w);
        assert(spec_all_digits(w));
        assert(spec_all_digits(u));
        assert(acc == spec_digits_val(w) == spec_digits_val(u));
    }
    if acc <= 0xffff_ffff {
        Some(acc as u32)
    } else {
        None
    }
}

/// Whether the id `v` is named by one of the given id strings.
pub open spec fn spec_id_requested(vids: Seq<Seq<char>>, v: u32) -> bool {
    exists|i: int| 0 <= i < vids.len() && spec_parse_id(vids[i]) == Some(v)
}

/// A task after remove has processed the given id strings: marked
/// completed when its id was requested, untouched otherwise.
pub open spec fn spec_mark(t: Task, vids: Seq<Seq<char>>) -> Task {
    Task {
        id: t.id,
        name: t.name,
        tag: t.tag,
        deadline: t.deadline,
        completed: t.completed || spec_id_requested(vids, t.id),
    }
}

/// The whole collection after remove has processed the id strings.
pub open spec fn spec_mark_all(tasks: Seq<Task>, vids: Seq<Seq<char>>) -> Seq<Task> {
    tasks.map_values(|t: Task| spec_mark(t, vids))
}

/// Whether an id string parses and matches an existing task.
pub open spec fn spec_hit(tasks: Seq<Task>, sv: Seq<char>) -> bool {
    match spec_parse_id(sv) {
        Some(v) => spec_has_id(tasks, v as int),
        None => false,
    }
}

/// Whether an id string parses but matches no task: such a string is
/// reported back to the user.
pub open spec fn spec_missed(tasks: Seq<Task>, sv: Seq<char>) -> bool {
    match spec_parse_id(sv) {
        Some(v) => !spec_has_id(tasks, v as int),
        None => false,
    }
}

/// The id strings reported as not found, by their original spelling and
/// in the order given: the ones that parse but match no task.
pub open spec fn spec_not_found(vids: Seq<Seq<char>>, tasks: Seq<Task>) -> Seq<Seq<char>> {
    vids.filter(|sv: Seq<char>| spec_missed(tasks, sv))
}

/// Whether any requested id matches an existing task, so that the
/// collection must be written back.
pub open spec fn spec_any_marked(vids: Seq<Seq<char>>, tasks: Seq<Task>) -> bool {
    exists|i: int| 0 <= i < vids.len() && spec_hit(tasks, vids[i])
}

/// Whether any of the id strings parses at all.
pub open spec fn spec_any_valid(vids: Seq<Seq<char>>) -> bool {
    exists|i: int| 0 <= i < vids.len() && spec_parse_id(vids[i]) is Some
}

proof fn lemma_not_found_push(vids: Seq<Seq<char>>, sv: Seq<char>, tasks: Seq<Task>)
    ensures
        spec_not_found(vids + seq![sv], tasks) == if spec_missed(tasks, sv) {
            spec_not_found(vids, tasks).push(sv)
        } else {
            spec_not_found(vids, tasks)
        },
{
    reveal(Seq::filter);
    assert((vids + seq![sv]).drop_last() =~= vids);
    assert((vids + seq![sv]).last() == sv);
}

/// What the remove command returns on success.
#[derive(Debug)]
pub struct RemoveOutcome {
    /// The task collection with every requested task marked completed.
    pub tasks: Vec<Task>,
    /// Whether any task was marked, so the collection must be saved.
    pub marked_any: bool,
    /// The id strings that matched no task, in their original spelling.
    pub not_found: Vec<String>,
}

fn requested_id(ids: &Vec<String>, v: u32) -> (r: bool)
    ensures
        r == spec_id_requested(ids@.map_values(|s: String| s@), v),
{
    let ghost vids = ids@.map_values(|s: String| s@);
    let n = ids.len();
    let mut i: usize = 0;
    while i < n
        invariant
            i <= n,
            n == ids@.len(),
            vids == ids@.map_values(|s: String| s@),
            forall|j: int| 0 <= j < i ==> spec_parse_id(#[trigger] vids[j]) != Some(v),
        decreases n - i,
    {
        if let Some(p) = parse_id(ids[i].as_str()) {
            if p == v {
                proof {
                    assert(vids[i as int] == ids@[i as int]@);
                }
                return true;
            }
        }
        proof {
            assert(vids[i as int] == ids@[i as int]@);
        }
        i = i + 1;
    }
    false
}

/// Marks the tasks with the requested ids completed. Each id string is
/// trimmed and parsed; strings that do not parse are dropped from the
/// working set. Fails only when no id at all was given, or when none of
/// the given strings is a number. Ids that parse but match no task are
/// collected, in their original spelling, for reporting; the matches
/// are still marked.
pub fn remove_tasks(ids: &Vec<String>, tasks: Vec<Task>) -> (r: Result<RemoveOutcome, TaskError>)
    ensures
        r is Err <==> ids@.len() == 0 || !spec_any_valid(ids@.map_values(|s: String| s@)),
        r matches Err(e) ==> e == (if ids@.len() == 0 {
            TaskError::NoIds
        } else {
            TaskError::NoValidIds
        }),
        r matches Ok(out) ==> {
            let vids = ids@.map_values(|s: String| s@);
            &&& out.tasks@ == spec_mark_all(tasks@, vids)
            &&& out.not_found@.map_values(|s: String| s@) == spec_not_found(vids, tasks@)
            &&& out.marked_any == spec_any_marked(vids, tasks@)
        },
{
    let ghost vids = ids@.map_values(|s: String| s@);
    let n_ids = ids.len();
    if n_ids == 0 {
        return Err(TaskError::NoIds);
    }
    let mut any_valid = false;
    let mut marked_any = false;
    let mut not_found: Vec<String> = Vec::new();
    let mut i: usize = 0;
    proof {
        assert(vids.take(0) =~= Seq::<Seq<char>>::empty());
        reveal(Seq::filter);
    }
    while i < n_ids
        invariant
            i <= n_ids,
            n_ids == ids@.len(),
            vids == ids@.map_values(|s: String| s@),
            any_valid ==> spec_any_valid(vids),
            !any_valid ==> forall|j: int| 0 <= j < i ==> spec_parse_id(#[trigger] vids[j]) is None,
            marked_any ==> spec_any_marked(vids, tasks@),
            !marked_any ==> forall|j: int| 0 <= j < i ==> !spec_hit(tasks@, #[trigger] vids[j]),
            not_found@.map_values(|s: String| s@) == spec_not_found(vids.take(i as int), tasks@),
        decreases n_ids - i,
    {
        proof {
            assert(vids[i as int] == ids@[i as int]@);
        }
        match parse_id(ids[i].as_str()) {
            Some(v) => {
                any_valid = true;
                if has_task_id(&tasks, v) {
                    marked_any = true;
                } else {
                    let ghost old_nf = not_found@;
                    not_found.push(ids[i].clone());
                    proof {
                        assert(not_found@.map_values(|s: String| s@) =~= old_nf.map_values(
                            |s: String| s@,
                        ).push(vids[i as int]));
                    }
                }
            },
            None => {},
        }
        proof {
            lemma_not_found_push(vids.take(i as int), vids[i as int], tasks@);
            assert(vids.take(i as int) + seq![vids[i as int]] =~= vids.take(i + 1));
        }
        i = i + 1;
    }
    proof {
        assert(vids.take(n_ids as int) =~= vids);
    }
    if !any_valid {
        return Err(TaskError::NoValidIds);
    }
    let ghost orig = tasks@;
    let mut rest = tasks;
    let mut marked: Vec<Task> = Vec::new();
    let n = rest.len();
    let mut k: usize = 0;
    while k < n
        invariant
            k <= n,
            n == orig.len(),
            rest@ == orig.skip(k as int),
            marked@ == spec_mark_all(orig.take(k as int), vids),
            vids == ids@.map_values(|s: String| s@),
        decreases n - k,
    {
        let t = rest.remove(0);
        proof {
            assert(t == orig[k as int]);
            assert(rest@ =~= orig.skip(k + 1));
        }
        let hit = requested_id(ids, t.id);
        let done = t.completed || hit;
        let t2 = Task { id: t.id, name: t.name, tag: t.tag, deadline: t.deadline, completed: done };
        proof {
            assert(t2 == spec_mark(orig[k as int], vids));
        }
        marked.push(t2);
        k = k + 1;
        proof {
            assert(marked@ =~= spec_mark_all(orig.take(k as int), vids));
        }
    }
    proof {
        assert(orig.take(n as int) =~= orig);
    }
    Ok(RemoveOutcome { tasks: marked, marked_any, not_found })
}

/// What remove prints when some requested ids matched nothing: their
/// original spellings, joined by ", ".
pub open spec fn spec_not_found_message(parts: Seq<Seq<char>>) -> Seq<char> {
    "One or more IDs could not be found: "@ + spec_join_comma(parts)
}

/// Renders the message listing the ids that matched nothing.
pub fn not_found_message(not_found: &Vec<String>) -> (r: String)
    ensures
        r@ == spec_not_found_message(not_found@.map_values(|s: String| s@)),
{
    let mut out = String::from_str("One or more IDs could not be found: ");
    push_join_comma(&mut out, not_found);
    out
}

/// Marking is idempotent: processing the same id strings a second time
/// leaves the collection exactly as after the first time.
pub proof fn lemma_remove_idempotent(tasks: Seq<Task>, vids: Seq<Seq<char>>)
    ensures
        spec_mark_all(spec_mark_all(tasks, vids), vids) == spec_mark_all(tasks, vids),
{
    let once = spec_mark_all(tasks, vids);
    assert(spec_mark_all(once, vids) =~= once);
}

/// Marking tasks that are all already completed changes nothing: the
/// collection stays exactly as it was, and remove treats this as
/// success, not as an error.
pub proof fn lemma_mark_completed_noop(tasks: Seq<Task>, vids: Seq<Seq<char>>)
    requires
        forall|k: int|
            0 <= k < tasks.len() ==> (spec_id_requested(vids, (#[trigger] tasks[k]).id)
                ==> tasks[k].completed),
    ensures
        spec_mark_all(tasks, vids) == tasks,
{
    assert(spec_mark_all(tasks, vids) =~= tasks);
}

} // verus!
