//! Arrangement planning: which window goes into which slot.
//!
//! The plan combines pin rules, optional usage-score ordering and the
//! available slots into a deterministic window-to-slot assignment.  The
//! operating-system positioning calls themselves are issued by the caller,
//! which reports their outcomes back for the final tally.

use crate::config::PinRule;
use crate::layout::Slot;
use crate::windows::{string_bytes, ManagedWindow};
use vstd::prelude::*;
use vstd::pervasive::VecAdditionalExecFns;

verus! {

/// Outcome of one arrangement pass: how many windows were positioned, how
/// many had no slot, and the per-window error messages.
#[derive(Debug)]
pub struct ArrangeResult {
    pub arranged: usize,
    pub skipped: usize,
    pub errors: Vec<String>,
}

impl ArrangeResult {
    /// The zero result reported when no display can be found.
    pub fn no_monitors() -> (r: ArrangeResult)
        ensures
            r.arranged == 0,
            r.skipped == 0,
            r.errors@.len() == 1,
            r.errors@[0]@ == "No monitors detected"@,
    {
        let mut errors: Vec<String> = Vec::new();
        errors.push("No monitors detected".to_owned());
        ArrangeResult { arranged: 0, skipped: 0, errors }
    }
}

/// The slot a window is pinned to: the target of the first rule, in list
/// order, that matches the window and names a slot that exists.
pub open spec fn spec_pin_slot(
    rules: Seq<PinRule>,
    w: ManagedWindow,
    slots_len: int,
) -> Option<int>
    decreases rules.len(),
{
    if rules.len() == 0 {
        Option::None
    } else if rules[0].spec_matches(string_bytes(w.process_name), string_bytes(w.title))
        && rules[0].slot < slots_len {
        Option::Some(rules[0].slot as int)
    } else {
        spec_pin_slot(rules.drop_first(), w, slots_len)
    }
}

/// The `(slot, window index)` pairs of the pinned windows among the first
/// `n`, in discovery order.
pub open spec fn spec_pinned_prefix(
    ws: Seq<ManagedWindow>,
    rules: Seq<PinRule>,
    slots_len: int,
    n: int,
) -> Seq<(int, int)>
    decreases n,
{
    if n <= 0 {
        Seq::empty()
    } else {
        let rest = spec_pinned_prefix(ws, rules, slots_len, n - 1);
        match spec_pin_slot(rules, ws[n - 1], slots_len) {
            Option::Some(s) => rest.push((s, n - 1)),
            Option::None => rest,
        }
    }
}

/// The window indices of the unpinned windows among the first `n`, in
/// discovery order.
pub open spec fn spec_unpinned_prefix(
    ws: Seq<ManagedWindow>,
    rules: Seq<PinRule>,
    slots_len: int,
    n: int,
) -> Seq<int>
    decreases n,
{
    if n <= 0 {
        Seq::empty()
    } else {
        let rest = spec_unpinned_prefix(ws, rules, slots_len, n - 1);
        match spec_pin_slot(rules, ws[n - 1], slots_len) {
            Option::Some(s) => rest,
            Option::None => rest.push(n - 1),
        }
    }
}

/// Whether window index `a` is placed before `b` when sorting by score:
/// strictly higher score first, earlier position on ties (a stable order).
pub open spec fn score_before(scores: Seq<u64>, a: int, b: int) -> bool {
    scores[a] > scores[b] || (scores[a] == scores[b] && a < b)
}

/// Insert position `v` into the already-ordered `s`.
pub open spec fn spec_insert_desc(s: Seq<int>, v: int, scores: Seq<u64>) -> Seq<int>
    decreases s.len(),
{
    if s.len() == 0 {
        seq![v]
    } else if score_before(scores, v, s[0]) {
        seq![v] + s
    } else {
        seq![s[0]] + spec_insert_desc(s.drop_first(), v, scores)
    }
}

/// The positions `0 .. n` ordered by descending score, stable on ties.
pub open spec fn spec_sort_desc(n: int, scores: Seq<u64>) -> Seq<int>
    decreases n,
{
    if n <= 0 {
        Seq::empty()
    } else {
        spec_insert_desc(spec_sort_desc(n - 1, scores), n - 1, scores)
    }
}

/// The assignment array after placing every pinned window into its slot, in
/// order: a later pin to the same slot replaces an earlier one.
pub open spec fn spec_apply_pins(slots_len: int, pairs: Seq<(int, int)>) -> Seq<Option<int>>
    decreases pairs.len(),
{
    if pairs.len() == 0 {
        Seq::new(slots_len as nat, |i: int| Option::None)
    } else {
        spec_apply_pins(slots_len, pairs.drop_last()).update(
            pairs.last().0,
            Option::Some(pairs.last().1),
        )
    }
}

/// Some pin targets slot `i`.
pub open spec fn slot_pinned(pairs: Seq<(int, int)>, i: int) -> bool {
    exists|k: int| 0 <= k < pairs.len() && (#[trigger] pairs[k]).0 == i
}

/// How many pinned windows a later pin to the same slot displaces: each
/// displaced window is not positioned, and is counted as skipped.
pub open spec fn spec_displaced(pairs: Seq<(int, int)>) -> int
    decreases pairs.len(),
{
    if pairs.len() == 0 {
        0
    } else {
        let rest = spec_displaced(pairs.drop_first());
        if exists|k: int| 1 <= k < pairs.len() && (#[trigger] pairs[k]).0 == pairs[0].0 {
            rest + 1
        } else {
            rest
        }
    }
}

/// Fill the empty, unpinned slots from position `i` on with the ordered
/// unpinned windows starting at `next`; the result pairs the final
/// assignment with how many ordered windows were consumed in total.
pub open spec fn spec_fill_from(
    a: Seq<Option<int>>,
    pairs: Seq<(int, int)>,
    order: Seq<int>,
    i: int,
    next: int,
) -> (Seq<Option<int>>, int)
    decreases a.len() - i,
{
    if i < 0 || i >= a.len() {
        (a, next)
    } else if a[i] is None && !slot_pinned(pairs, i) && next < order.len() {
        spec_fill_from(a.update(i, Option::Some(order[next])), pairs, order, i + 1, next + 1)
    } else {
        spec_fill_from(a, pairs, order, i + 1, next)
    }
}

/// The identity order `0 .. n`.
pub open spec fn spec_identity(n: int) -> Seq<int> {
    Seq::new(n as nat, |i: int| i)
}

/// The whole plan, as a function of the inputs: the per-slot window indices
/// and the count of windows left without a slot.
///
/// With smart sort and pin rules, pinned windows take their slots (a later
/// pin to a taken slot replaces the earlier window, which is then counted as
/// skipped), and the unpinned windows — ordered by descending score when a
/// tracker's scores are given, else in discovery order — fill the remaining
/// unpinned slots in order; the skipped count covers both the unpinned
/// windows left over and the displaced pinned windows, so every window is
/// either assigned a slot or counted.  With smart sort alone, every window
/// is ordered by score and assigned densely.  Without smart sort, windows
/// keep discovery order and pin rules are not applied.
pub open spec fn spec_plan(
    ws: Seq<ManagedWindow>,
    slots_len: int,
    rules: Seq<PinRule>,
    smart_sort: bool,
    scores: Option<Seq<u64>>,
) -> (Seq<Option<int>>, int) {
    if smart_sort && rules.len() > 0 {
        let pairs = spec_pinned_prefix(ws, rules, slots_len, ws.len() as int);
        let unp = spec_unpinned_prefix(ws, rules, slots_len, ws.len() as int);
        let order = match scores {
            Option::Some(sc) => spec_sort_desc(
                unp.len() as int,
                Seq::new(unp.len(), |p: int| sc[unp[p]]),
            ).map_values(|p: int| unp[p]),
            Option::None => unp,
        };
        let filled = spec_fill_from(spec_apply_pins(slots_len, pairs), pairs, order, 0, 0);
        (filled.0, order.len() - filled.1 + spec_displaced(pairs))
    } else {
        let order = if smart_sort && scores is Some {
            spec_sort_desc(ws.len() as int, scores->Some_0)
        } else {
            spec_identity(ws.len() as int)
        };
        let a = Seq::new(
            slots_len as nat,
            |i: int| if i < order.len() {
                Option::Some(order[i])
            } else {
                Option::None
            },
        );
        let skipped = if ws.len() > slots_len {
            ws.len() - slots_len
        } else {
            0
        };
        (a, skipped as int)
    }
}

/// A computed arrangement: for each available slot, the index of the window
/// to place there, and how many windows were left without a slot.
#[derive(Debug)]
pub struct ArrangePlan {
    pub assignments: Vec<Option<usize>>,
    pub skipped: usize,
}

/// The assignment entries as mathematical integers.
pub open spec fn opts_of(a: Seq<Option<usize>>) -> Seq<Option<int>> {
    a.map_values(
        |o: Option<usize>|
            match o {
                Option::Some(v) => Option::Some(v as int),
                Option::None => Option::<int>::None,
            },
    )
}

/// A sequence of `usize` values, as integers.
pub open spec fn idxs_of(s: Seq<usize>) -> Seq<int> {
    s.map_values(|v: usize| v as int)
}

/// `(slot, window)` pairs, as integers.
pub open spec fn pairs_of(s: Seq<(usize, usize)>) -> Seq<(int, int)> {
    s.map_values(|p: (usize, usize)| (p.0 as int, p.1 as int))
}

/// The slot the first matching, in-range pin rule names for this window.
fn pin_slot_for(rules: &Vec<PinRule>, w: &ManagedWindow, slots_len: usize) -> (r: Option<usize>)
    ensures
        match r {
            Option::Some(s) => spec_pin_slot(rules@, *w, slots_len as int) == Option::Some(
                s as int,
            ) && s < slots_len,
            Option::None => spec_pin_slot(rules@, *w, slots_len as int) is None,
        },
{
    proof {
        assert(rules@.skip(0) =~= rules@);
    }
    let mut i: usize = 0;
    while i < rules.len()
        invariant
            i <= rules@.len(),
            spec_pin_slot(rules@.skip(i as int), *w, slots_len as int) == spec_pin_slot(
                rules@,
                *w,
                slots_len as int,
            ),
        decreases rules@.len() - i,
    {
        proof {
            assert(rules@.skip(i as int)[0] == rules@[i as int]);
            assert(rules@.skip(i as int).drop_first() =~= rules@.skip(i as int + 1));
        }
        if rules[i].matches(w.process_name.as_str(), w.title.as_str()) && rules[i].slot
            < slots_len {
            return Some(rules[i].slot);
        }
        i = i + 1;
    }
    None
}

/// Whether any pinned pair targets slot `i`.
fn slot_pinned_exec(pinned: &Vec<(usize, usize)>, i: usize) -> (r: bool)
    ensures
        r == slot_pinned(pairs_of(pinned@), i as int),
{
    let mut k: usize = 0;
    while k < pinned.len()
        invariant
            k <= pinned@.len(),
            forall|j: int| 0 <= j < k ==> (#[trigger] pairs_of(pinned@)[j]).0 != i as int,
        decreases pinned@.len() - k,
    {
        if pinned[k].0 == i {
            proof {
                assert((pairs_of(pinned@)[k as int]).0 == i as int);
            }
            return true;
        }
        k = k + 1;
    }
    proof {
        assert(!slot_pinned(pairs_of(pinned@), i as int)) by {
            if slot_pinned(pairs_of(pinned@), i as int) {
                let j = choose|j: int|
                    0 <= j < pairs_of(pinned@).len() && (#[trigger] pairs_of(pinned@)[j]).0
                        == i as int;
                assert((pairs_of(pinned@)[j]).0 != i as int);
            }
        }
    }
    false
}

/// Among the first `n` windows, every one is either pinned or unpinned.
proof fn lemma_partition_lens(
    ws: Seq<ManagedWindow>,
    rules: Seq<PinRule>,
    slots_len: int,
    n: int,
)
    requires
        0 <= n,
    ensures
        spec_pinned_prefix(ws, rules, slots_len, n).len() + spec_unpinned_prefix(
            ws,
            rules,
            slots_len,
            n,
        ).len() == n,
    decreases n,
{
    if n > 0 {
        lemma_partition_lens(ws, rules, slots_len, n - 1);
    }
}

/// Count the pinned windows that a later pin to the same slot displaces.
fn count_displaced(pinned: &Vec<(usize, usize)>) -> (r: usize)
    ensures
        r == spec_displaced(pairs_of(pinned@)),
        r <= pinned@.len(),
{
    let ghost ps = pairs_of(pinned@);
    proof {
        assert(ps.skip(0) =~= ps);
    }
    let n = pinned.len();
    let mut count: usize = 0;
    let mut k: usize = 0;
    while k < n
        invariant
            k <= n,
            count <= k,
            n == pinned@.len(),
            ps == pairs_of(pinned@),
            spec_displaced(ps) == count + spec_displaced(ps.skip(k as int)),
        decreases n - k,
    {
        let ghost tail = ps.skip(k as int);
        proof {
            assert(tail[0] == ps[k as int]);
            assert(tail.drop_first() =~= ps.skip(k as int + 1));
        }
        let mut hit = false;
        let mut j: usize = k + 1;
        while j < n
            invariant
                k < j <= n || (j == k + 1 && k < n),
                k < n,
                n == pinned@.len(),
                ps == pairs_of(pinned@),
                tail == ps.skip(k as int),
                hit ==> exists|k2: int|
                    1 <= k2 < tail.len() && (#[trigger] tail[k2]).0 == tail[0].0,
                !hit ==> forall|j2: int|
                    k < j2 < j ==> (#[trigger] ps[j2]).0 != ps[k as int].0,
            decreases n - j,
        {
            if !hit && pinned[j].0 == pinned[k].0 {
                proof {
                    assert(tail[j - k] == ps[j as int]);
                    assert((tail[j - k]).0 == tail[0].0);
                }
                hit = true;
            }
            j = j + 1;
        }
        proof {
            if !hit {
                assert(!(exists|k2: int|
                    1 <= k2 < tail.len() && (#[trigger] tail[k2]).0 == tail[0].0)) by {
                    if exists|k2: int|
                        1 <= k2 < tail.len() && (#[trigger] tail[k2]).0 == tail[0].0 {
                        let k2 = choose|k2: int|
                            1 <= k2 < tail.len() && (#[trigger] tail[k2]).0 == tail[0].0;
                        assert(tail[k2] == ps[k as int + k2]);
                        assert(ps[k as int + k2].0 != ps[k as int].0);
                    }
                }
            }
        }
        if hit {
            count = count + 1;
        }
        k = k + 1;
    }
    proof {
        assert(ps.skip(n as int).len() == 0);
    }
    count
}

proof fn lemma_insert_desc_at(s: Seq<int>, v: int, scores: Seq<u64>, p: int)
    requires
        0 <= p <= s.len(),
        forall|j: int| 0 <= j < p ==> !score_before(scores, v, #[trigger] s[j]),
        p < s.len() ==> score_before(scores, v, s[p]),
    ensures
        spec_insert_desc(s, v, scores) == s.take(p) + seq![v] + s.skip(p),
    decreases s.len(),
{
    if p == 0 {
        if s.len() == 0 {
            assert(spec_insert_desc(s, v, scores) =~= s.take(0) + seq![v] + s.skip(0));
        } else {
            assert(spec_insert_desc(s, v, scores) =~= s.take(0) + seq![v] + s.skip(0));
        }
    } else {
        assert(!score_before(scores, v, s[0]));
        let t = s.drop_first();
        assert(forall|j: int| 0 <= j < p - 1 ==> !score_before(scores, v, #[trigger] t[j]));
        lemma_insert_desc_at(t, v, scores, p - 1);
        assert(seq![s[0]] + (t.take(p - 1) + seq![v] + t.skip(p - 1)) =~= s.take(p) + seq![v]
            + s.skip(p));
    }
}

/// Insert position `v` into the ordered list `cur`.
fn insert_desc(cur: &Vec<usize>, v: usize, scores: &Vec<u64>) -> (r: Vec<usize>)
    requires
        v < scores@.len(),
        forall|j: int| 0 <= j < cur@.len() ==> #[trigger] cur@[j] < scores@.len(),
    ensures
        r@.len() == cur@.len() + 1,
        idxs_of(r@) == spec_insert_desc(idxs_of(cur@), v as int, scores@),
        forall|j: int| 0 <= j < r@.len() ==> #[trigger] r@[j] < scores@.len(),
{
    let n = cur.len();
    let sv = scores[v];
    let mut p: usize = 0;
    while p < n && !(sv > scores[cur[p]] || (sv == scores[cur[p]] && v < cur[p]))
        invariant
            p <= n,
            n == cur@.len(),
            sv == scores@[v as int],
            v < scores@.len(),
            forall|j: int| 0 <= j < cur@.len() ==> #[trigger] cur@[j] < scores@.len(),
            forall|j: int|
                0 <= j < p ==> !score_before(scores@, v as int, #[trigger] idxs_of(cur@)[j]),
        decreases n - p,
    {
        p = p + 1;
    }
    proof {
        if p < n {
            assert(score_before(scores@, v as int, idxs_of(cur@)[p as int]));
        }
        lemma_insert_desc_at(idxs_of(cur@), v as int, scores@, p as int);
    }
    let mut out: Vec<usize> = Vec::new();
    let mut j: usize = 0;
    while j < p
        invariant
            j <= p <= n,
            n == cur@.len(),
            out@ == cur@.take(j as int),
        decreases p - j,
    {
        proof {
            assert(out@.push(cur@[j as int]) =~= cur@.take(j as int + 1));
        }
        out.push(cur[j]);
        j = j + 1;
    }
    out.push(v);
    let mut j2: usize = p;
    while j2 < n
        invariant
            p <= j2 <= n,
            n == cur@.len(),
            out@ == cur@.take(p as int).push(v).add(cur@.subrange(p as int, j2 as int)),
        decreases n - j2,
    {
        proof {
            assert(out@.push(cur@[j2 as int]) =~= cur@.take(p as int).push(v).add(
                cur@.subrange(p as int, j2 as int + 1),
            ));
        }
        out.push(cur[j2]);
        j2 = j2 + 1;
    }
    proof {
        assert(idxs_of(out@) =~= idxs_of(cur@).take(p as int) + seq![v as int] + idxs_of(
            cur@,
        ).skip(p as int));
    }
    out
}

/// The window positions `0 .. scores.len()` ordered by descending score,
/// stable on ties.
pub fn sort_indices_desc(scores: &Vec<u64>) -> (r: Vec<usize>)
    ensures
        r@.len() == scores@.len(),
        idxs_of(r@) == spec_sort_desc(scores@.len() as int, scores@),
        forall|j: int| 0 <= j < r@.len() ==> #[trigger] r@[j] < scores@.len(),
{
    let mut cur: Vec<usize> = Vec::new();
    let mut k: usize = 0;
    proof {
        assert(idxs_of(cur@) =~= spec_sort_desc(0, scores@));
    }
    while k < scores.len()
        invariant
            k <= scores@.len(),
            cur@.len() == k,
            idxs_of(cur@) == spec_sort_desc(k as int, scores@),
            forall|j: int| 0 <= j < cur@.len() ==> #[trigger] cur@[j] < scores@.len(),
        decreases scores@.len() - k,
    {
        cur = insert_desc(&cur, k, scores);
        k = k + 1;
    }
    cur
}

/// The slots that stay after removing the disabled indices, in order.
pub open spec fn spec_enabled_prefix(all: Seq<Slot>, disabled: Seq<usize>, n: int) -> Seq<Slot>
    decreases n,
{
    if n <= 0 {
        Seq::empty()
    } else {
        let rest = spec_enabled_prefix(all, disabled, n - 1);
        if disabled.contains((n - 1) as usize) {
            rest
        } else {
            rest.push(all[n - 1])
        }
    }
}

fn contains_usize(v: &Vec<usize>, x: usize) -> (r: bool)
    ensures
        r == v@.contains(x),
{
    let mut i: usize = 0;
    while i < v.len()
        invariant
            i <= v@.len(),
            forall|j: int| 0 <= j < i ==> v@[j] != x,
        decreases v@.len() - i,
    {
        if v[i] == x {
            return true;
        }
        i = i + 1;
    }
    proof {
        assert(!v@.contains(x)) by {
            if v@.contains(x) {
                let j = choose|j: int| 0 <= j < v@.len() && v@[j] == x;
                assert(v@[j] != x);
            }
        }
    }
    false
}

/// Remove the disabled slot indices, keeping the relative order of the rest.
pub fn enabled_slots(all: &Vec<Slot>, disabled: &Vec<usize>) -> (r: Vec<Slot>)
    ensures
        r@ == spec_enabled_prefix(all@, disabled@, all@.len() as int),
{
    let mut r: Vec<Slot> = Vec::new();
    let mut i: usize = 0;
    while i < all.len()
        invariant
            i <= all@.len(),
            r@ == spec_enabled_prefix(all@, disabled@, i as int),
        decreases all@.len() - i,
    {
        if !contains_usize(disabled, i) {
            r.push(all[i]);
        }
        i = i + 1;
    }
    r
}

/// Compute the window-to-slot plan for `slots_len` available slots.
///
/// `scores` are the tracker's usage scores, one per window in discovery
/// order, already mapped to a monotone integer scale; `None` when no tracker
/// is consulted, in which case smart sort keeps discovery order.
pub fn plan_arrangement(
    windows: &Vec<ManagedWindow>,
    slots_len: usize,
    pin_rules: &Vec<PinRule>,
    smart_sort: bool,
    scores: Option<&Vec<u64>>,
) -> (r: ArrangePlan)
    requires
        match scores {
            Option::Some(sc) => sc@.len() == windows@.len(),
            Option::None => true,
        },
    ensures
        r.assignments@.len() == slots_len,
        ({
            let plan = spec_plan(
                windows@,
                slots_len as int,
                pin_rules@,
                smart_sort,
                match scores {
                    Option::Some(sc) => Option::Some(sc@),
                    Option::None => Option::None,
                },
            );
            opts_of(r.assignments@) == plan.0 && r.skipped == plan.1
        }),
{
    let ghost gscores: Option<Seq<u64>> = match scores {
        Option::Some(sc) => Option::Some(sc@),
        Option::None => Option::None,
    };
    if smart_sort && pin_rules.len() > 0 {
        // Partition into pinned (slot, window) pairs and unpinned indices.
        let mut pinned: Vec<(usize, usize)> = Vec::new();
        let mut unpinned: Vec<usize> = Vec::new();
        let mut i: usize = 0;
        while i < windows.len()
            invariant
                i <= windows@.len(),
                pairs_of(pinned@) == spec_pinned_prefix(
                    windows@,
                    pin_rules@,
                    slots_len as int,
                    i as int,
                ),
                idxs_of(unpinned@) == spec_unpinned_prefix(
                    windows@,
                    pin_rules@,
                    slots_len as int,
                    i as int,
                ),
                forall|k: int| 0 <= k < pinned@.len() ==> (#[trigger] pinned@[k]).0 < slots_len,
                forall|k: int|
                    0 <= k < unpinned@.len() ==> (#[trigger] unpinned@[k]) < windows@.len(),
            decreases windows@.len() - i,
        {
            match pin_slot_for(pin_rules, &windows[i], slots_len) {
                Some(s) => {
                    pinned.push((s, i));
                    proof {
                        assert(pairs_of(pinned@) =~= spec_pinned_prefix(
                            windows@,
                            pin_rules@,
                            slots_len as int,
                            i as int + 1,
                        ));
                        assert(idxs_of(unpinned@) =~= spec_unpinned_prefix(
                            windows@,
                            pin_rules@,
                            slots_len as int,
                            i as int + 1,
                        ));
                    }
                },
                None => {
                    unpinned.push(i);
                    proof {
                        assert(pairs_of(pinned@) =~= spec_pinned_prefix(
                            windows@,
                            pin_rules@,
                            slots_len as int,
                            i as int + 1,
                        ));
                        assert(idxs_of(unpinned@) =~= spec_unpinned_prefix(
                            windows@,
                            pin_rules@,
                            slots_len as int,
                            i as int + 1,
                        ));
                    }
                },
            }
            i = i + 1;
        }
        let ghost spairs = spec_pinned_prefix(
            windows@,
            pin_rules@,
            slots_len as int,
            windows@.len() as int,
        );
        let ghost sunp = spec_unpinned_prefix(
            windows@,
            pin_rules@,
            slots_len as int,
            windows@.len() as int,
        );
        // Order the unpinned windows.
        let order: Vec<usize> = match scores {
            Some(sc) => {
                let mut sub: Vec<u64> = Vec::new();
                let mut q: usize = 0;
                while q < unpinned.len()
                    invariant
                        q <= unpinned@.len(),
                        sc@.len() == windows@.len(),
                        idxs_of(unpinned@) == sunp,
                        forall|k: int|
                            0 <= k < unpinned@.len() ==> (#[trigger] unpinned@[k])
                                < windows@.len(),
                        sub@.len() == q,
                        forall|k: int| 0 <= k < q ==> #[trigger] sub@[k] == sc@[sunp[k]],
                    decreases unpinned@.len() - q,
                {
                    sub.push(sc[unpinned[q]]);
                    q = q + 1;
                }
                proof {
                    assert(sub@ =~= Seq::new(sunp.len(), |p: int| sc@[sunp[p]]));
                }
                let pos = sort_indices_desc(&sub);
                let mut ord: Vec<usize> = Vec::new();
                let mut q2: usize = 0;
                while q2 < pos.len()
                    invariant
                        q2 <= pos@.len(),
                        idxs_of(unpinned@) == sunp,
                        forall|k: int|
                            0 <= k < unpinned@.len() ==> (#[trigger] unpinned@[k])
                                < windows@.len(),
                        forall|k: int| 0 <= k < pos@.len() ==> #[trigger] pos@[k] < unpinned@.len(),
                        ord@.len() == q2,
                        forall|k: int|
                            0 <= k < q2 ==> #[trigger] ord@[k] == unpinned@[pos@[k] as int],
                    decreases pos@.len() - q2,
                {
                    ord.push(unpinned[pos[q2]]);
                    q2 = q2 + 1;
                }
                proof {
                    assert(idxs_of(ord@) =~= spec_sort_desc(
                        sunp.len() as int,
                        Seq::new(sunp.len(), |p: int| sc@[sunp[p]]),
                    ).map_values(|p: int| sunp[p]));
                }
                ord
            },
            None => {
                let mut ord: Vec<usize> = Vec::new();
                let mut q: usize = 0;
                while q < unpinned.len()
                    invariant
                        q <= unpinned@.len(),
                        idxs_of(unpinned@) == sunp,
                        ord@ == unpinned@.take(q as int),
                    decreases unpinned@.len() - q,
                {
                    proof {
                        assert(ord@.push(unpinned@[q as int]) =~= unpinned@.take(q as int + 1));
                    }
                    ord.push(unpinned[q]);
                    q = q + 1;
                }
                proof {
                    assert(ord@ =~= unpinned@);
                }
                ord
            },
        };
        let ghost gorder = idxs_of(order@);
        // Place the pinned windows.
        let mut a: Vec<Option<usize>> = Vec::new();
        let mut z: usize = 0;
        while z < slots_len
            invariant
                z <= slots_len,
                a@.len() == z,
                forall|k: int| 0 <= k < z ==> a@[k] is None,
            decreases slots_len - z,
        {
            a.push(None);
            z = z + 1;
        }
        proof {
            assert(opts_of(a@) =~= spec_apply_pins(slots_len as int, spairs.take(0)));
        }
        let mut k: usize = 0;
        while k < pinned.len()
            invariant
                k <= pinned@.len(),
                pairs_of(pinned@) == spairs,
                forall|j: int| 0 <= j < pinned@.len() ==> (#[trigger] pinned@[j]).0 < slots_len,
                a@.len() == slots_len,
                opts_of(a@) == spec_apply_pins(slots_len as int, spairs.take(k as int)),
            decreases pinned@.len() - k,
        {
            let (slot, widx) = pinned[k];
            a.set(slot, Some(widx));
            proof {
                assert(spairs.take(k as int + 1).drop_last() =~= spairs.take(k as int));
                assert(spairs.take(k as int + 1).last() == spairs[k as int]);
                assert(opts_of(a@) =~= spec_apply_pins(
                    slots_len as int,
                    spairs.take(k as int),
                ).update(spairs[k as int].0, Option::Some(spairs[k as int].1)));
            }
            k = k + 1;
        }
        proof {
            assert(spairs.take(spairs.len() as int) =~= spairs);
        }
        let ghost a0 = opts_of(a@);
        // Fill the remaining unpinned slots in order.
        let mut next: usize = 0;
        let mut si: usize = 0;
        while si < slots_len
            invariant
                si <= slots_len,
                next <= order@.len(),
                a@.len() == slots_len,
                pairs_of(pinned@) == spairs,
                gorder == idxs_of(order@),
                forall|k2: int|
                    0 <= k2 < order@.len() ==> (#[trigger] order@[k2]) < windows@.len()
                        || order@[k2] < windows@.len(),
                spec_fill_from(a0, spairs, gorder, 0, 0) == spec_fill_from(
                    opts_of(a@),
                    spairs,
                    gorder,
                    si as int,
                    next as int,
                ),
            decreases slots_len - si,
        {
            let is_none = match a[si] {
                Some(_) => false,
                None => true,
            };
            if is_none && !slot_pinned_exec(&pinned, si) && next < order.len() {
                let ghost before = opts_of(a@);
                a.set(si, Some(order[next]));
                proof {
                    assert(opts_of(a@) =~= before.update(
                        si as int,
                        Option::Some(gorder[next as int]),
                    ));
                }
                next = next + 1;
            }
            si = si + 1;
        }
        let displaced = count_displaced(&pinned);
        proof {
            lemma_partition_lens(
                windows@,
                pin_rules@,
                slots_len as int,
                windows@.len() as int,
            );
            assert(spec_fill_from(opts_of(a@), spairs, gorder, slots_len as int, next as int)
                == (opts_of(a@), next as int));
        }
        let skipped = order.len() - next + displaced;
        ArrangePlan { assignments: a, skipped }
    } else {
        // Dense assignment: score order with smart sort, else discovery order.
        let order: Vec<usize> = match scores {
            Some(sc) => {
                if smart_sort {
                    sort_indices_desc(sc)
                } else {
                    identity_order(windows.len())
                }
            },
            None => identity_order(windows.len()),
        };
        let mut a: Vec<Option<usize>> = Vec::new();
        let mut i: usize = 0;
        while i < slots_len
            invariant
                i <= slots_len,
                a@.len() == i,
                order@.len() == windows@.len(),
                forall|k: int|
                    0 <= k < i ==> #[trigger] a@[k] == (if k < order@.len() {
                        Option::Some(order@[k])
                    } else {
                        Option::<usize>::None
                    }),
            decreases slots_len - i,
        {
            if i < order.len() {
                a.push(Some(order[i]));
            } else {
                a.push(None);
            }
            i = i + 1;
        }
        let skipped = if windows.len() > slots_len {
            windows.len() - slots_len
        } else {
            0
        };
        proof {
            let plan = spec_plan(
                windows@,
                slots_len as int,
                pin_rules@,
                smart_sort,
                gscores,
            );
            assert(opts_of(a@) =~= plan.0);
        }
        ArrangePlan { assignments: a, skipped }
    }
}

/// The order `0, 1, 2, ...` of length `n`.
fn identity_order(n: usize) -> (r: Vec<usize>)
    ensures
        r@.len() == n,
        idxs_of(r@) == spec_identity(n as int),
{
    let mut r: Vec<usize> = Vec::new();
    let mut i: usize = 0;
    while i < n
        invariant
            i <= n,
            r@.len() == i,
            forall|j: int| 0 <= j < i ==> #[trigger] r@[j] == j,
        decreases n - i,
    {
        r.push(i);
        i = i + 1;
    }
    proof {
        assert(idxs_of(r@) =~= spec_identity(n as int));
    }
    r
}

/// The error messages among the first `n` positioning outcomes, in order.
pub open spec fn spec_errors(outs: Seq<Option<String>>, n: int) -> Seq<Seq<char>>
    decreases n,
{
    if n <= 0 {
        Seq::empty()
    } else {
        let rest = spec_errors(outs, n - 1);
        match outs[n - 1] {
            Option::Some(m) => rest.push(m@),
            Option::None => rest,
        }
    }
}

/// Tally the positioning outcomes (`None` a success, `Some` an error
/// message) into the final result: every success counts as arranged, every
/// error message is kept in order, and `skipped` is passed through.
pub fn collect_results(outcomes: &Vec<Option<String>>, skipped: usize) -> (r: ArrangeResult)
    ensures
        r.skipped == skipped,
        r.errors@.len() == spec_errors(outcomes@, outcomes@.len() as int).len(),
        forall|k: int|
            0 <= k < r.errors@.len() ==> #[trigger] r.errors@[k]@ == spec_errors(
                outcomes@,
                outcomes@.len() as int,
            )[k],
        r.arranged + r.errors@.len() == outcomes@.len(),
{
    let mut arranged: usize = 0;
    let mut errors: Vec<String> = Vec::new();
    let mut i: usize = 0;
    while i < outcomes.len()
        invariant
            i <= outcomes@.len(),
            errors@.len() == spec_errors(outcomes@, i as int).len(),
            forall|k: int|
                0 <= k < errors@.len() ==> #[trigger] errors@[k]@ == spec_errors(
                    outcomes@,
                    i as int,
                )[k],
            arranged + errors@.len() == i,
        decreases outcomes@.len() - i,
    {
        match &outcomes[i] {
            Some(msg) => {
                errors.push(msg.clone());
            },
            None => {
                arranged = arranged + 1;
            },
        }
        i = i + 1;
    }
    ArrangeResult { arranged, skipped, errors }
}

proof fn lemma_fill_preserves_some(
    a: Seq<Option<int>>,
    pairs: Seq<(int, int)>,
    order: Seq<int>,
    i: int,
    next: int,
    t: int,
)
    requires
        0 <= t < a.len(),
        a[t] is Some,
    ensures
        spec_fill_from(a, pairs, order, i, next).0.len() == a.len(),
        spec_fill_from(a, pairs, order, i, next).0[t] == a[t],
    decreases a.len() - i,
{
    if i < 0 || i >= a.len() {
    } else if a[i] is None && !slot_pinned(pairs, i) && next < order.len() {
        let a2 = a.update(i, Option::Some(order[next]));
        assert(a2[t] == a[t]);
        lemma_fill_preserves_some(a2, pairs, order, i + 1, next + 1, t);
    } else {
        lemma_fill_preserves_some(a, pairs, order, i + 1, next, t);
    }
}

/// A pinned window always lands in its slot: when window `k`'s first
/// matching, in-range pin rule names slot `s` and no other window is pinned,
/// the smart-sort plan assigns window `k` to slot `s`, whatever the usage
/// scores of the other windows and whatever order discovery produced them
/// in.
pub proof fn lemma_pin_lands_in_slot(
    ws: Seq<ManagedWindow>,
    slots_len: int,
    rules: Seq<PinRule>,
    scores: Option<Seq<u64>>,
    k: int,
    s: int,
)
    requires
        rules.len() > 0,
        0 <= k < ws.len(),
        spec_pin_slot(rules, ws[k], slots_len) == Option::Some(s),
        0 <= s < slots_len,
        forall|j: int|
            0 <= j < ws.len() && j != k ==> spec_pin_slot(rules, #[trigger] ws[j], slots_len)
                is None,
    ensures
        spec_plan(ws, slots_len, rules, true, scores).0[s] == Option::Some(k),
{
    lemma_single_pin_pairs(ws, rules, slots_len, ws.len() as int, k, s);
    let pairs = spec_pinned_prefix(ws, rules, slots_len, ws.len() as int);
    assert(pairs =~= seq![(s, k)]);
    let a0 = spec_apply_pins(slots_len, pairs);
    assert(pairs.drop_last() =~= Seq::<(int, int)>::empty());
    assert(a0 == spec_apply_pins(slots_len, pairs.drop_last()).update(s, Option::Some(k)));
    assert(a0[s] == Option::Some(k));
    let unp = spec_unpinned_prefix(ws, rules, slots_len, ws.len() as int);
    let order = match scores {
        Option::Some(sc) => spec_sort_desc(
            unp.len() as int,
            Seq::new(unp.len(), |p: int| sc[unp[p]]),
        ).map_values(|p: int| unp[p]),
        Option::None => unp,
    };
    lemma_fill_preserves_some(a0, pairs, order, 0, 0, s);
}

proof fn lemma_single_pin_pairs(
    ws: Seq<ManagedWindow>,
    rules: Seq<PinRule>,
    slots_len: int,
    n: int,
    k: int,
    s: int,
)
    requires
        0 <= k < ws.len(),
        n <= ws.len(),
        spec_pin_slot(rules, ws[k], slots_len) == Option::Some(s),
        forall|j: int|
            0 <= j < ws.len() && j != k ==> spec_pin_slot(rules, #[trigger] ws[j], slots_len)
                is None,
    ensures
        spec_pinned_prefix(ws, rules, slots_len, n) == (if k < n {
            seq![(s, k)]
        } else {
            Seq::<(int, int)>::empty()
        }),
    decreases n,
{
    if n > 0 {
        lemma_single_pin_pairs(ws, rules, slots_len, n - 1, k, s);
        if n - 1 == k {
            assert(spec_pinned_prefix(ws, rules, slots_len, n) =~= seq![(s, k)]);
        }
    }
}

/// How many slots of the assignment hold a window.
pub open spec fn count_somes(a: Seq<Option<int>>) -> int
    decreases a.len(),
{
    if a.len() == 0 {
        0
    } else {
        (if a[0] is Some {
            1int
        } else {
            0
        }) + count_somes(a.drop_first())
    }
}

proof fn lemma_count_somes_push(a: Seq<Option<int>>, x: Option<int>)
    ensures
        count_somes(a.push(x)) == count_somes(a) + (if x is Some {
            1int
        } else {
            0
        }),
    decreases a.len(),
{
    assert(a.push(x).len() == a.len() + 1);
    assert(count_somes(a.push(x)) == (if a.push(x)[0] is Some {
        1int
    } else {
        0
    }) + count_somes(a.push(x).drop_first()));
    if a.len() == 0 {
        assert(a.push(x)[0] == x);
        assert(a.push(x).drop_first() =~= Seq::<Option<int>>::empty());
        assert(count_somes(a) == 0);
    } else {
        assert(a.push(x)[0] == a[0]);
        assert(a.push(x).drop_first() =~= a.drop_first().push(x));
        lemma_count_somes_push(a.drop_first(), x);
        assert(count_somes(a) == (if a[0] is Some {
            1int
        } else {
            0
        }) + count_somes(a.drop_first()));
    }
}

proof fn lemma_count_somes_update(a: Seq<Option<int>>, i: int, v: int)
    requires
        0 <= i < a.len(),
    ensures
        count_somes(a.update(i, Option::Some(v))) == count_somes(a) + (if a[i] is Some {
            0int
        } else {
            1
        }),
    decreases a.len(),
{
    let b = a.update(i, Option::Some(v));
    if i == 0 {
        assert(b.drop_first() =~= a.drop_first());
    } else {
        assert(b[0] == a[0]);
        assert(b.drop_first() =~= a.drop_first().update(i - 1, Option::Some(v)));
        lemma_count_somes_update(a.drop_first(), i - 1, v);
    }
}

proof fn lemma_displaced_bounds(pairs: Seq<(int, int)>)
    ensures
        0 <= spec_displaced(pairs) <= pairs.len(),
    decreases pairs.len(),
{
    if pairs.len() > 0 {
        lemma_displaced_bounds(pairs.drop_first());
    }
}

proof fn lemma_displaced_push(s: Seq<(int, int)>, p: (int, int))
    ensures
        spec_displaced(s.push(p)) == spec_displaced(s) + (if slot_pinned(s, p.0) {
            1int
        } else {
            0
        }),
    decreases s.len(),
{
    let sp = s.push(p);
    if s.len() == 0 {
        assert(sp[0] == p);
        assert(sp.drop_first() =~= Seq::<(int, int)>::empty());
        assert(!(exists|k: int| 1 <= k < sp.len() && (#[trigger] sp[k]).0 == sp[0].0));
        assert(!slot_pinned(s, p.0));
        reveal_with_fuel(spec_displaced, 2);
        assert(spec_displaced(sp) == 0);
        assert(spec_displaced(s) == 0);
    } else {
        let t = s.drop_first();
        assert(sp[0] == s[0]);
        assert(sp.drop_first() =~= t.push(p));
        lemma_displaced_push(t, p);
        let h_old = exists|k: int| 1 <= k < s.len() && (#[trigger] s[k]).0 == s[0].0;
        let h_new = exists|k: int| 1 <= k < sp.len() && (#[trigger] sp[k]).0 == sp[0].0;
        assert(spec_displaced(sp) == (if h_new {
            1int
        } else {
            0
        }) + spec_displaced(t.push(p)));
        assert(spec_displaced(s) == (if h_old {
            1int
        } else {
            0
        }) + spec_displaced(t));
        assert(h_old ==> h_new) by {
            if h_old {
                let k = choose|k: int| 1 <= k < s.len() && (#[trigger] s[k]).0 == s[0].0;
                assert(sp[k] == s[k]);
                assert((sp[k]).0 == sp[0].0);
            }
        }
        if p.0 == s[0].0 {
            assert(sp[s.len() as int] == p);
            assert(h_new);
            assert(slot_pinned(s, p.0)) by {
                assert((s[0]).0 == p.0);
            }
            // The tail holds the slot exactly when the head had a later twin.
            assert(slot_pinned(t, p.0) == h_old) by {
                if slot_pinned(t, p.0) {
                    let k = choose|k: int| 0 <= k < t.len() && (#[trigger] t[k]).0 == p.0;
                    assert(s[k + 1] == t[k]);
                    assert((s[k + 1]).0 == s[0].0);
                }
                if h_old {
                    let k = choose|k: int| 1 <= k < s.len() && (#[trigger] s[k]).0 == s[0].0;
                    assert(t[k - 1] == s[k]);
                    assert((t[k - 1]).0 == p.0);
                }
            }
        } else {
            assert(h_new == h_old) by {
                if h_new {
                    let k = choose|k: int| 1 <= k < sp.len() && (#[trigger] sp[k]).0 == sp[0].0;
                    if k == s.len() {
                        assert(sp[k] == p);
                        assert(false);
                    }
                    assert(sp[k] == s[k]);
                }
                if h_old {
                    let k = choose|k: int| 1 <= k < s.len() && (#[trigger] s[k]).0 == s[0].0;
                    assert(sp[k] == s[k]);
                    assert((sp[k]).0 == sp[0].0);
                }
            }
            assert(slot_pinned(s, p.0) == slot_pinned(t, p.0)) by {
                if slot_pinned(s, p.0) {
                    let k = choose|k: int| 0 <= k < s.len() && (#[trigger] s[k]).0 == p.0;
                    assert(k >= 1);
                    assert(t[k - 1] == s[k]);
                    assert((t[k - 1]).0 == p.0);
                }
                if slot_pinned(t, p.0) {
                    let k = choose|k: int| 0 <= k < t.len() && (#[trigger] t[k]).0 == p.0;
                    assert(s[k + 1] == t[k]);
                    assert((s[k + 1]).0 == p.0);
                }
            }
        }
        assert(spec_displaced(sp) == spec_displaced(s) + (if slot_pinned(s, p.0) {
            1int
        } else {
            0
        }));
    }
}

proof fn lemma_apply_pins_somes(slots_len: int, pairs: Seq<(int, int)>)
    requires
        slots_len >= 0,
        forall|k: int| 0 <= k < pairs.len() ==> 0 <= (#[trigger] pairs[k]).0 < slots_len,
    ensures
        spec_apply_pins(slots_len, pairs).len() == slots_len,
        forall|i: int|
            0 <= i < slots_len ==> (#[trigger] spec_apply_pins(slots_len, pairs)[i] is Some
                <==> slot_pinned(pairs, i)),
        count_somes(spec_apply_pins(slots_len, pairs)) == pairs.len() - spec_displaced(pairs),
    decreases pairs.len(),
{
    if pairs.len() == 0 {
        let a = spec_apply_pins(slots_len, pairs);
        assert forall|i: int| 0 <= i < slots_len implies !(#[trigger] a[i] is Some) by {}
        lemma_count_somes_none(slots_len);
    } else {
        let init = pairs.drop_last();
        let last = pairs.last();
        assert(forall|k: int| 0 <= k < init.len() ==> init[k] == pairs[k]);
        lemma_apply_pins_somes(slots_len, init);
        let ai = spec_apply_pins(slots_len, init);
        let a = spec_apply_pins(slots_len, pairs);
        assert(a == ai.update(last.0, Option::Some(last.1)));
        assert(0 <= last.0 < slots_len) by {
            assert(pairs[pairs.len() - 1] == last);
        }
        assert forall|i: int| 0 <= i < slots_len implies (#[trigger] a[i] is Some <==> slot_pinned(
            pairs,
            i,
        )) by {
            if i == last.0 {
                assert(a[i] is Some);
                assert((pairs[pairs.len() - 1]).0 == i);
                assert(slot_pinned(pairs, i));
            } else {
                assert(a[i] == ai[i]);
                assert(slot_pinned(pairs, i) == slot_pinned(init, i)) by {
                    if slot_pinned(pairs, i) {
                        let k = choose|k: int|
                            0 <= k < pairs.len() && (#[trigger] pairs[k]).0 == i;
                        assert(k < init.len());
                        assert(init[k] == pairs[k]);
                    }
                    if slot_pinned(init, i) {
                        let k = choose|k: int| 0 <= k < init.len() && (#[trigger] init[k]).0 == i;
                        assert(pairs[k] == init[k]);
                    }
                }
            }
        }
        lemma_count_somes_update(ai, last.0, last.1);
        assert(init.push(last) =~= pairs);
        lemma_displaced_push(init, last);
        assert(ai[last.0] is Some <==> slot_pinned(init, last.0));
    }
}

proof fn lemma_count_somes_none(n: int)
    requires
        n >= 0,
    ensures
        count_somes(Seq::new(n as nat, |i: int| Option::<int>::None)) == 0,
    decreases n,
{
    let a = Seq::new(n as nat, |i: int| Option::<int>::None);
    if n > 0 {
        lemma_count_somes_none(n - 1);
        assert(a.drop_first() =~= Seq::new((n - 1) as nat, |i: int| Option::<int>::None));
    }
}

proof fn lemma_fill_counts(
    a: Seq<Option<int>>,
    pairs: Seq<(int, int)>,
    order: Seq<int>,
    i: int,
    next: int,
)
    requires
        0 <= next <= order.len(),
    ensures
        ({
            let f = spec_fill_from(a, pairs, order, i, next);
            &&& count_somes(f.0) == count_somes(a) + (f.1 - next)
            &&& next <= f.1 <= order.len()
        }),
    decreases a.len() - i,
{
    if i < 0 || i >= a.len() {
    } else if a[i] is None && !slot_pinned(pairs, i) && next < order.len() {
        let a2 = a.update(i, Option::Some(order[next]));
        lemma_count_somes_update(a, i, order[next]);
        lemma_fill_counts(a2, pairs, order, i + 1, next + 1);
    } else {
        lemma_fill_counts(a, pairs, order, i + 1, next);
    }
}

proof fn lemma_pinned_prefix_range(
    ws: Seq<ManagedWindow>,
    rules: Seq<PinRule>,
    slots_len: int,
    n: int,
)
    ensures
        forall|k: int|
            0 <= k < spec_pinned_prefix(ws, rules, slots_len, n).len() ==> 0 <= (
            #[trigger] spec_pinned_prefix(ws, rules, slots_len, n)[k]).0 < slots_len,
    decreases n,
{
    if n > 0 {
        lemma_pinned_prefix_range(ws, rules, slots_len, n - 1);
        lemma_pin_slot_range(rules, ws[n - 1], slots_len);
        let rest = spec_pinned_prefix(ws, rules, slots_len, n - 1);
        let cur = spec_pinned_prefix(ws, rules, slots_len, n);
        assert forall|k: int| 0 <= k < cur.len() implies 0 <= (#[trigger] cur[k]).0
            < slots_len by {
            match spec_pin_slot(rules, ws[n - 1], slots_len) {
                Option::Some(sl) => {
                    assert(cur == rest.push((sl, n - 1)));
                    if k < rest.len() {
                        assert(cur[k] == rest[k]);
                    } else {
                        assert(cur[k] == (sl, n - 1));
                    }
                },
                Option::None => {
                    assert(cur == rest);
                },
            }
        }
    }
}

proof fn lemma_pin_slot_range(rules: Seq<PinRule>, w: ManagedWindow, slots_len: int)
    ensures
        spec_pin_slot(rules, w, slots_len) matches Option::Some(s) ==> 0 <= s < slots_len,
    decreases rules.len(),
{
    if rules.len() > 0 && !(rules[0].spec_matches(
        string_bytes(w.process_name),
        string_bytes(w.title),
    ) && rules[0].slot < slots_len) {
        lemma_pin_slot_range(rules.drop_first(), w, slots_len);
    }
}

proof fn lemma_insert_desc_len(s: Seq<int>, v: int, scores: Seq<u64>)
    ensures
        spec_insert_desc(s, v, scores).len() == s.len() + 1,
    decreases s.len(),
{
    if s.len() > 0 && !score_before(scores, v, s[0]) {
        lemma_insert_desc_len(s.drop_first(), v, scores);
    }
}

proof fn lemma_sort_desc_len(n: int, scores: Seq<u64>)
    requires
        n >= 0,
    ensures
        spec_sort_desc(n, scores).len() == n,
    decreases n,
{
    if n > 0 {
        lemma_sort_desc_len(n - 1, scores);
        lemma_insert_desc_len(spec_sort_desc(n - 1, scores), n - 1, scores);
    }
}

proof fn lemma_count_somes_dense(slots_len: int, order: Seq<int>)
    requires
        slots_len >= 0,
    ensures
        count_somes(
            Seq::new(
                slots_len as nat,
                |i: int| if i < order.len() {
                    Option::Some(order[i])
                } else {
                    Option::<int>::None
                },
            ),
        ) == (if order.len() <= slots_len {
            order.len() as int
        } else {
            slots_len
        }),
    decreases slots_len,
{
    let a = Seq::new(
        slots_len as nat,
        |i: int| if i < order.len() {
            Option::Some(order[i])
        } else {
            Option::<int>::None
        },
    );
    if slots_len > 0 {
        lemma_count_somes_dense(slots_len - 1, order);
        let b = Seq::new(
            (slots_len - 1) as nat,
            |i: int| if i < order.len() {
                Option::Some(order[i])
            } else {
                Option::<int>::None
            },
        );
        assert(a =~= b.push(a[slots_len - 1]));
        lemma_count_somes_push(b, a[slots_len - 1]);
    }
}

/// Every discovered window is accounted for: the slots the plan assigns and
/// the skipped count together cover exactly the discovered windows, so
/// `arranged + errors + skipped` always adds up to the window count once the
/// positioning outcomes are tallied.
pub proof fn lemma_plan_accounts_for_every_window(
    ws: Seq<ManagedWindow>,
    slots_len: int,
    rules: Seq<PinRule>,
    smart_sort: bool,
    scores: Option<Seq<u64>>,
)
    requires
        slots_len >= 0,
        scores matches Option::Some(sc) ==> sc.len() == ws.len(),
    ensures
        count_somes(spec_plan(ws, slots_len, rules, smart_sort, scores).0) + spec_plan(
            ws,
            slots_len,
            rules,
            smart_sort,
            scores,
        ).1 == ws.len(),
{
    let n = ws.len() as int;
    if smart_sort && rules.len() > 0 {
        let pairs = spec_pinned_prefix(ws, rules, slots_len, n);
        let unp = spec_unpinned_prefix(ws, rules, slots_len, n);
        lemma_partition_lens(ws, rules, slots_len, n);
        lemma_pinned_prefix_range(ws, rules, slots_len, n);
        let order = match scores {
            Option::Some(sc) => spec_sort_desc(
                unp.len() as int,
                Seq::new(unp.len(), |p: int| sc[unp[p]]),
            ).map_values(|p: int| unp[p]),
            Option::None => unp,
        };
        match scores {
            Option::Some(sc) => {
                lemma_sort_desc_len(unp.len() as int, Seq::new(unp.len(), |p: int| sc[unp[p]]));
            },
            Option::None => {},
        }
        assert(order.len() == unp.len());
        let a0 = spec_apply_pins(slots_len, pairs);
        lemma_apply_pins_somes(slots_len, pairs);
        lemma_fill_counts(a0, pairs, order, 0, 0);
        lemma_displaced_bounds(pairs);
    } else {
        let order = if smart_sort && scores is Some {
            spec_sort_desc(n, scores->Some_0)
        } else {
            spec_identity(n)
        };
        if smart_sort && scores is Some {
            lemma_sort_desc_len(n, scores->Some_0);
        }
        assert(order.len() == n);
        lemma_count_somes_dense(slots_len, order);
    }
}

} // verus!
