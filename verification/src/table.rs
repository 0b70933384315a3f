//! CSV parsing, table generation, and README update logic.

use vstd::prelude::*;

use crate::duration::{duration_text, format_duration};
use crate::qualify::{
    class_from_text, class_text, lemma_class_roundtrip, lemma_status_roundtrip, recipes_view,
    status_badge_text, status_from_text, status_text, IdempotencyClass, RecipeQualification,
    RecipeStatus, RecipeView,
};
use crate::text::{
    ascii_upper_char, chars_of, contains, decimal, find_chars, first_occurrence, int_error_message, int_error_text,
    is_digit, is_first_occurrence, is_ws, lemma_decimal_digits, lemma_first_occurrence,
    lemma_first_occurrence_at, lemma_parse_decimal, occurs_at, parse_unsigned, parse_unsigned_exec,
    push_decimal_str, push_str, text_result_view, IntErrorKind,
};

verus! {

broadcast use vstd::string::group_string_axioms;

/// Start marker for qualification table in README.
pub const START_MARKER: &'static str = "<!-- QUALIFICATION_TABLE_START -->";

/// End marker for qualification table in README.
pub const END_MARKER: &'static str = "<!-- QUALIFICATION_TABLE_END -->";

// ── Sorting by recipe number ─────────────────────────────────────

/// Index of the first record with the smallest recipe number.
pub open spec fn first_min_index(rs: Seq<RecipeView>) -> int
    decreases rs.len(),
{
    if rs.len() <= 1 {
        0
    } else {
        let j = first_min_index(rs.drop_last());
        if rs.last().recipe_num < rs[j].recipe_num {
            rs.len() - 1
        } else {
            j
        }
    }
}

/// The records in ascending recipe number; records with equal numbers keep
/// their order (a stable sort, as `sort_by_key` does).
pub open spec fn sort_by_num(rs: Seq<RecipeView>) -> Seq<RecipeView>
    decreases rs.len(),
{
    if rs.len() == 0 {
        rs
    } else {
        let i = first_min_index(rs);
        proof {
            lemma_first_min_index_bounds(rs);
        }
        seq![rs[i]] + sort_by_num(rs.remove(i))
    }
}

/// The records at the given positions.
pub open spec fn pick(rs: Seq<RecipeView>, idx: Seq<usize>) -> Seq<RecipeView> {
    idx.map_values(|i: usize| rs[i as int])
}

/// `first_min_index` points into the sequence.
pub proof fn lemma_first_min_index_bounds(rs: Seq<RecipeView>)
    ensures
        rs.len() > 0 ==> 0 <= first_min_index(rs) < rs.len(),
        rs.len() > 0 ==> forall|k: int| 0 <= k < rs.len() ==>
            rs[first_min_index(rs)].recipe_num <= #[trigger] rs[k].recipe_num,
        rs.len() > 0 ==> forall|k: int| 0 <= k < first_min_index(rs) ==>
            rs[first_min_index(rs)].recipe_num < #[trigger] rs[k].recipe_num,
    decreases rs.len(),
{
    if rs.len() > 1 {
        lemma_first_min_index_bounds(rs.drop_last());
        assert forall|k: int| 0 <= k < rs.len() implies
            rs[first_min_index(rs)].recipe_num <= #[trigger] rs[k].recipe_num by {
            if k < rs.len() - 1 {
                assert(rs.drop_last()[k] == rs[k]);
            }
        }
        assert forall|k: int| 0 <= k < first_min_index(rs) implies
            rs[first_min_index(rs)].recipe_num < #[trigger] rs[k].recipe_num by {
            assert(rs.drop_last()[k] == rs[k]);
        }
    }
}

/// Records of which none has number `n` keep none when filtered for `n`.
proof fn lemma_filter_none(rs: Seq<RecipeView>, n: u32)
    requires
        forall|k: int| 0 <= k < rs.len() ==> (#[trigger] rs[k]).recipe_num != n,
    ensures
        rs.filter(|r: RecipeView| r.recipe_num == n) == Seq::<RecipeView>::empty(),
    decreases rs.len(),
{
    reveal(Seq::filter);
    if rs.len() > 0 {
        assert forall|k: int| 0 <= k < rs.drop_last().len() implies (
        #[trigger] rs.drop_last()[k]).recipe_num != n by {
            assert(rs.drop_last()[k] == rs[k]);
        }
        lemma_filter_none(rs.drop_last(), n);
        assert(rs.last() == rs[rs.len() - 1]);
    } else {
        assert(rs.filter(|r: RecipeView| r.recipe_num == n) =~= Seq::<RecipeView>::empty());
    }
}

/// Sorting is stable: the records with any one recipe number come out in the
/// order in which they came in.
pub proof fn lemma_sort_by_num_stable(rs: Seq<RecipeView>, n: u32)
    ensures
        sort_by_num(rs).filter(|r: RecipeView| r.recipe_num == n) == rs.filter(
            |r: RecipeView| r.recipe_num == n,
        ),
    decreases rs.len(),
{
    let p = |r: RecipeView| r.recipe_num == n;
    if rs.len() == 0 {
        assert(sort_by_num(rs) == rs);
    } else {
        lemma_first_min_index_bounds(rs);
        let m = first_min_index(rs);
        let rest = rs.remove(m);
        lemma_sort_by_num_stable(rest, n);
        let t = sort_by_num(rest);
        assert(sort_by_num(rs) == seq![rs[m]] + t);
        t.lemma_filter_prepend(rs[m], p);
        let front = rs.take(m);
        let back = rs.skip(m + 1);
        assert(rs =~= front + seq![rs[m]] + back);
        assert(rest =~= front + back);
        Seq::filter_distributes_over_add(front + seq![rs[m]], back, p);
        Seq::filter_distributes_over_add(front, seq![rs[m]], p);
        Seq::filter_distributes_over_add(front, back, p);
        back.lemma_filter_prepend(rs[m], p);
        if rs[m].recipe_num == n {
            assert forall|k: int| 0 <= k < front.len() implies (#[trigger] front[k]).recipe_num
                != n by {
                assert(front[k] == rs[k]);
            }
            lemma_filter_none(front, n);
            reveal(Seq::filter);
            assert(seq![rs[m]].filter(p) =~= seq![rs[m]]);
            assert(front.filter(p) + seq![rs[m]].filter(p) + back.filter(p) =~= seq![rs[m]]
                + back.filter(p));
        } else {
            reveal(Seq::filter);
            assert(seq![rs[m]].filter(p) =~= Seq::<RecipeView>::empty());
            assert(front.filter(p) + seq![rs[m]].filter(p) + back.filter(p) =~= front.filter(p)
                + back.filter(p));
        }
    }
}

/// Sorting keeps the records, only reordered, and puts them in ascending
/// recipe number.
pub proof fn lemma_sort_by_num(rs: Seq<RecipeView>)
    ensures
        sort_by_num(rs).len() == rs.len(),
        sort_by_num(rs).to_multiset() == rs.to_multiset(),
        forall|a: int, b: int|
            0 <= a < b < rs.len() ==> (#[trigger] sort_by_num(rs)[a]).recipe_num
                <= (#[trigger] sort_by_num(rs)[b]).recipe_num,
    decreases rs.len(),
{
    broadcast use vstd::seq_lib::group_to_multiset_ensures;
    broadcast use vstd::multiset::group_multiset_axioms;

    if rs.len() == 0 {
        assert(sort_by_num(rs) == rs);
    } else {
        lemma_first_min_index_bounds(rs);
        let i = first_min_index(rs);
        let rest = rs.remove(i);
        lemma_sort_by_num(rest);
        let t = sort_by_num(rest);
        let out = seq![rs[i]] + t;
        assert(sort_by_num(rs) == out);
        assert(out =~= t.insert(0, rs[i]));
        assert(out.to_multiset() == t.to_multiset().insert(rs[i]));
        assert(rest.to_multiset() == rs.to_multiset().remove(rs[i]));
        assert(rs.to_multiset().count(rs[i]) > 0) by {
            assert(rs.contains(rs[i]));
        }
        assert(out.to_multiset() =~= rs.to_multiset());
        assert forall|b: int| 0 < b < rs.len() implies rs[i].recipe_num <= (
        #[trigger] out[b]).recipe_num by {
            let y = out[b];
            assert(y == t[b - 1]);
            assert(t.contains(y));
            assert(t.to_multiset().count(y) > 0);
            assert(rest.contains(y));
            let k = choose|k: int| 0 <= k < rest.len() && rest[k] == y;
            if k < i {
                assert(rest[k] == rs[k]);
            } else {
                assert(rest[k] == rs[k + 1]);
            }
        }
        assert forall|a: int, b: int| 0 <= a < b < rs.len() implies (#[trigger] out[a]).recipe_num
            <= (#[trigger] out[b]).recipe_num by {
            if a > 0 {
                assert(out[a] == t[a - 1]);
                assert(out[b] == t[b - 1]);
            } else {
                assert(out[a] == rs[i]);
                assert(rs[i].recipe_num <= out[b].recipe_num);
            }
        }
    }
}

/// The positions of the records in ascending recipe number (stable).
fn sorted_order(rs: &[RecipeQualification]) -> (order: Vec<usize>)
    ensures
        order@.len() == rs@.len(),
        forall|i: int| 0 <= i < order@.len() ==> #[trigger] order@[i] < rs@.len(),
        pick(recipes_view(rs@), order@) == sort_by_num(recipes_view(rs@)),
{
    let ghost all = recipes_view(rs@);
    let n = rs.len();
    let mut rest: Vec<usize> = Vec::new();
    let mut i: usize = 0;
    while i < n
        invariant
            i <= n == rs@.len(),
            all == recipes_view(rs@),
            rest@.len() == i,
            forall|k: int| 0 <= k < i ==> #[trigger] rest@[k] == k,
        decreases n - i,
    {
        rest.push(i);
        i = i + 1;
    }
    assert(pick(all, rest@) =~= all);
    let mut order: Vec<usize> = Vec::new();
    assert(pick(all, order@) + sort_by_num(pick(all, rest@)) =~= sort_by_num(all));
    while rest.len() > 0
        invariant
            n == rs@.len(),
            all == recipes_view(rs@),
            all.len() == n,
            forall|k: int| 0 <= k < rest@.len() ==> #[trigger] rest@[k] < n,
            forall|k: int| 0 <= k < order@.len() ==> #[trigger] order@[k] < n,
            order@.len() + rest@.len() == n,
            pick(all, order@) + sort_by_num(pick(all, rest@)) == sort_by_num(all),
        decreases rest@.len(),
    {
        let ghost t = pick(all, rest@);
        let mut j: usize = 0;
        let mut k: usize = 1;
        assert(t.take(1).drop_last().len() == 0);
        while k < rest.len()
            invariant
                1 <= k <= rest@.len(),
                j < k,
                t == pick(all, rest@),
                all == recipes_view(rs@),
                forall|q: int| 0 <= q < rest@.len() ==> #[trigger] rest@[q] < n,
                n == rs@.len(),
                j == first_min_index(t.take(k as int)),
            decreases rest@.len() - k,
        {
            assert(t.take(k + 1).drop_last() =~= t.take(k as int));
            if rs[rest[k]].recipe_num < rs[rest[j]].recipe_num {
                j = k;
            }
            k = k + 1;
        }
        assert(t.take(rest@.len() as int) =~= t);
        proof {
            lemma_first_min_index_bounds(t);
        }
        let ghost old_rest = rest@;
        let ghost old_order = order@;
        let idx = rest.remove(j);
        order.push(idx);
        proof {
            assert(pick(all, rest@) =~= t.remove(j as int));
            assert(pick(all, order@) =~= pick(all, old_order).push(all[idx as int]));
            assert(sort_by_num(t) == seq![t[j as int]] + sort_by_num(t.remove(j as int)));
            assert(pick(all, order@) + sort_by_num(pick(all, rest@)) =~= pick(all, old_order)
                + sort_by_num(t));
        }
    }
    assert(sort_by_num(pick(all, rest@)) =~= Seq::<RecipeView>::empty());
    assert(pick(all, order@) + Seq::<RecipeView>::empty() =~= pick(all, order@));
    order
}

// ── README update ────────────────────────────────────────────────

/// What `update_readme` gives: the text between the end of the first start
/// marker and the first end marker is replaced by the content on a line of its
/// own; a missing or misplaced marker is an error.
pub open spec fn readme_update(readme: Seq<char>, content: Seq<char>) -> Result<
    Seq<char>,
    Seq<char>,
> {
    match first_occurrence(readme, START_MARKER@) {
        None => Err("missing start marker: "@ + START_MARKER@),
        Some(s) => match first_occurrence(readme, END_MARKER@) {
            None => Err("missing end marker: "@ + END_MARKER@),
            Some(e) => if e <= s {
                Err("end marker appears before start marker"@)
            } else {
                Ok(
                    readme.take(s + START_MARKER@.len()) + seq!['\n'] + content + seq!['\n']
                        + readme.skip(e),
                )
            },
        },
    }
}

/// Replace content between markers in README.
pub fn update_readme(readme: &str, table_content: &str) -> (r: Result<String, String>)
    ensures
        text_result_view(r) == readme_update(readme@, table_content@),
{
    let text = chars_of(readme);
    let start = chars_of(START_MARKER);
    let end = chars_of(END_MARKER);
    let found = find_chars(&text, &start);
    let start_idx = match found {
        Some(i) => i,
        None => {
            let mut e = String::new();
            push_str(&mut e, "missing start marker: ");
            push_str(&mut e, START_MARKER);
            return Err(e);
        },
    };
    let end_idx = match find_chars(&text, &end) {
        Some(i) => i,
        None => {
            let mut e = String::new();
            push_str(&mut e, "missing end marker: ");
            push_str(&mut e, END_MARKER);
            return Err(e);
        },
    };
    if end_idx <= start_idx {
        let mut e = String::new();
        push_str(&mut e, "end marker appears before start marker");
        return Err(e);
    }
    let mut out = String::new();
    let mut i: usize = 0;
    assert(is_first_occurrence(text@, start@, start_idx as int));
    let text_len = text.len();
    assert(start_idx + start@.len() <= text_len);
    let cut = start_idx + start.len();
    while i < cut
        invariant
            cut <= text@.len(),
            i <= cut,
            out@ == text@.take(i as int),
        decreases cut - i,
    {
        out.push(text[i]);
        assert(text@.take(i + 1) =~= text@.take(i as int).push(text@[i as int]));
        i = i + 1;
    }
    out.push('\n');
    push_str(&mut out, table_content);
    out.push('\n');
    let ghost before = out@;
    let mut j: usize = end_idx;
    while j < text.len()
        invariant
            end_idx <= j <= text@.len(),
            out@ == before + text@.subrange(end_idx as int, j as int),
        decreases text@.len() - j,
    {
        out.push(text[j]);
        assert(text@.subrange(end_idx as int, j + 1) =~= text@.subrange(end_idx as int, j as int).push(
            text@[j as int],
        ));
        j = j + 1;
    }
    assert(text@.subrange(end_idx as int, text@.len() as int) =~= text@.skip(end_idx as int));
    assert(out@ =~= text@.take(cut as int) + seq!['\n'] + table_content@ + seq!['\n'] + text@.skip(
        end_idx as int,
    ));
    Ok(out)
}

/// Updating again replaces what the last update wrote: a README updated with
/// `c1` and then with `c2` reads as if updated with `c2` alone, provided
/// `c1` holds no end marker (the second update would stop at it).
pub proof fn lemma_update_readme_twice(readme: Seq<char>, c1: Seq<char>, c2: Seq<char>)
    requires
        readme_update(readme, c1) is Ok,
        !contains(c1, END_MARKER@),
    ensures
        readme_update(readme_update(readme, c1)->Ok_0, c2) == readme_update(readme, c2),
{
    reveal_strlit("<!-- QUALIFICATION_TABLE_START -->");
    reveal_strlit("<!-- QUALIFICATION_TABLE_END -->");
    let st = START_MARKER@;
    let en = END_MARKER@;
    assert(st.len() == 34);
    assert(en.len() == 32);
    assert(forall|k: int| 1 <= k < 34 ==> #[trigger] st[k] != '<');
    assert(forall|k: int| 0 <= k < 32 ==> #[trigger] en[k] != '\n');
    assert(en[0] == '<');
    lemma_first_occurrence(readme, st);
    lemma_first_occurrence(readme, en);
    let s = first_occurrence(readme, st).unwrap();
    let e = first_occurrence(readme, en).unwrap();
    let p = s + 34;
    let u = readme.take(p) + seq!['\n'] + c1 + seq!['\n'] + readme.skip(e);
    let q = p + 2 + c1.len();
    assert(readme_update(readme, c1) == Ok::<Seq<char>, Seq<char>>(u));
    // The end marker lies after the whole start marker.
    if e < p {
        assert(readme.subrange(e, e + 32)[0] == readme[e]);
        assert(readme.subrange(s, s + 34)[e - s] == readme[e]);
        assert(st[e - s] != '<');
    }
    assert(u.len() == q + readme.len() - e);
    assert forall|k: int| 0 <= k < p implies #[trigger] u[k] == readme[k] by {}
    assert(u[p] == '\n');
    assert(u[q - 1] == '\n');
    assert forall|t: int| 0 <= t < c1.len() implies #[trigger] u[p + 1 + t] == c1[t] by {}
    assert forall|t: int| 0 <= t < readme.len() - e implies #[trigger] u[q + t] == readme[e + t] by {}
    // The start marker is still first found where it was.
    assert(u.subrange(s, s + 34) =~= readme.subrange(s, s + 34));
    assert forall|j: int| 0 <= j < s implies !occurs_at(u, st, j) by {
        if occurs_at(u, st, j) {
            assert(u.subrange(j, j + 34) =~= readme.subrange(j, j + 34));
            assert(occurs_at(readme, st, j));
        }
    }
    assert(is_first_occurrence(u, st, s));
    lemma_first_occurrence_at(u, st, s);
    // The end marker is now first found where the old text resumes.
    assert(u.subrange(q, q + 32) =~= readme.subrange(e, e + 32));
    assert forall|j: int| 0 <= j < q implies !occurs_at(u, en, j) by {
        if occurs_at(u, en, j) {
            if j + 32 <= p {
                assert(u.subrange(j, j + 32) =~= readme.subrange(j, j + 32));
                assert(occurs_at(readme, en, j));
            } else if j <= p {
                assert(u.subrange(j, j + 32)[p - j] == u[p]);
            } else if j + 32 <= q - 1 {
                assert(u.subrange(j, j + 32) =~= c1.subrange(j - p - 1, j - p - 1 + 32));
                assert(occurs_at(c1, en, j - p - 1));
            } else {
                assert(u.subrange(j, j + 32)[q - 1 - j] == u[q - 1]);
            }
        }
    }
    assert(is_first_occurrence(u, en, q));
    lemma_first_occurrence_at(u, en, q);
    assert(u.take(p) =~= readme.take(p));
    assert(u.skip(q) =~= readme.skip(e));
}

// ── Summary ──────────────────────────────────────────────────────

/// Number of records with the given status.
pub open spec fn count_status(rs: Seq<RecipeView>, st: RecipeStatus) -> nat
    decreases rs.len(),
{
    if rs.len() == 0 {
        0
    } else {
        count_status(rs.drop_last(), st) + if rs.last().status == st {
            1nat
        } else {
            0nat
        }
    }
}

/// Every record has one of the three statuses: the summary counts add up to
/// the number of records.
pub proof fn lemma_status_counts_total(rs: Seq<RecipeView>)
    ensures
        count_status(rs, RecipeStatus::Qualified) + count_status(rs, RecipeStatus::Blocked)
            + count_status(rs, RecipeStatus::Pending) == rs.len(),
    decreases rs.len(),
{
    if rs.len() > 0 {
        lemma_status_counts_total(rs.drop_last());
    }
}

/// The summary block: the timestamp, then one table row per status with its count.
pub open spec fn summary_text(rs: Seq<RecipeView>, timestamp: Seq<char>) -> Seq<char> {
    "**Qualification Summary** (updated: "@ + timestamp
        + ")\n\n| Status | Count |\n|--------|-------|\n| Qualified | "@ + decimal(
        count_status(rs, RecipeStatus::Qualified),
    ) + " |\n| Blocked   | "@ + decimal(count_status(rs, RecipeStatus::Blocked))
        + " |\n| Pending   | "@ + decimal(count_status(rs, RecipeStatus::Pending)) + " |"@
}

/// The records with status `st`, in order.
pub open spec fn with_status(rs: Seq<RecipeView>, st: RecipeStatus) -> Seq<RecipeView> {
    rs.filter(|r: RecipeView| r.status == st)
}

/// `count_status` counts exactly the records that have the status.
pub proof fn lemma_count_status_is_filter(rs: Seq<RecipeView>, st: RecipeStatus)
    ensures
        count_status(rs, st) == with_status(rs, st).len(),
    decreases rs.len(),
{
    reveal(Seq::filter);
    if rs.len() > 0 {
        lemma_count_status_is_filter(rs.drop_last(), st);
    }
}

/// The summary block names each status on its own row, with the number of
/// records that have that status: qualified, then blocked, then pending.
pub proof fn lemma_summary_rows(rs: Seq<RecipeView>, timestamp: Seq<char>)
    ensures
        summary_text(rs, timestamp) == "**Qualification Summary** (updated: "@ + timestamp
            + ")\n\n| Status | Count |\n|--------|-------|\n| Qualified | "@ + decimal(
            with_status(rs, RecipeStatus::Qualified).len(),
        ) + " |\n| Blocked   | "@ + decimal(with_status(rs, RecipeStatus::Blocked).len())
            + " |\n| Pending   | "@ + decimal(with_status(rs, RecipeStatus::Pending).len())
            + " |"@,
        with_status(rs, RecipeStatus::Qualified).len() + with_status(rs, RecipeStatus::Blocked).len()
            + with_status(rs, RecipeStatus::Pending).len() == rs.len(),
{
    lemma_count_status_is_filter(rs, RecipeStatus::Qualified);
    lemma_count_status_is_filter(rs, RecipeStatus::Blocked);
    lemma_count_status_is_filter(rs, RecipeStatus::Pending);
    lemma_status_counts_total(rs);
}

/// Counts the records with status `st`.
fn count_with_status(recipes: &[RecipeQualification], st: RecipeStatus) -> (c: usize)
    ensures
        c == count_status(recipes_view(recipes@), st),
{
    let ghost all = recipes_view(recipes@);
    let mut c: usize = 0;
    let mut i: usize = 0;
    while i < recipes.len()
        invariant
            i <= recipes@.len(),
            all == recipes_view(recipes@),
            c == count_status(all.take(i as int), st),
            c <= i,
        decreases recipes@.len() - i,
    {
        assert(all.take(i + 1).drop_last() =~= all.take(i as int));
        if recipes[i].status == st {
            c = c + 1;
        }
        i = i + 1;
    }
    assert(all.take(recipes@.len() as int) =~= all);
    c
}

/// Generate summary counts block.
pub fn generate_summary(recipes: &[RecipeQualification], timestamp: &str) -> (s: String)
    ensures
        s@ == summary_text(recipes_view(recipes@), timestamp@),
        s@ == "**Qualification Summary** (updated: "@ + timestamp@
            + ")\n\n| Status | Count |\n|--------|-------|\n| Qualified | "@ + decimal(
            with_status(recipes_view(recipes@), RecipeStatus::Qualified).len(),
        ) + " |\n| Blocked   | "@ + decimal(
            with_status(recipes_view(recipes@), RecipeStatus::Blocked).len(),
        ) + " |\n| Pending   | "@ + decimal(
            with_status(recipes_view(recipes@), RecipeStatus::Pending).len(),
        ) + " |"@,
{
    proof {
        lemma_summary_rows(recipes_view(recipes@), timestamp@);
    }
    let qualified = count_with_status(recipes, RecipeStatus::Qualified);
    let blocked = count_with_status(recipes, RecipeStatus::Blocked);
    let pending = count_with_status(recipes, RecipeStatus::Pending);
    let mut s = String::new();
    push_str(&mut s, "**Qualification Summary** (updated: ");
    push_str(&mut s, timestamp);
    push_str(&mut s, ")\n\n| Status | Count |\n|--------|-------|\n| Qualified | ");
    push_decimal_str(&mut s, qualified as u128);
    push_str(&mut s, " |\n| Blocked   | ");
    push_decimal_str(&mut s, blocked as u128);
    push_str(&mut s, " |\n| Pending   | ");
    push_decimal_str(&mut s, pending as u128);
    push_str(&mut s, " |");
    assert(s@ =~= summary_text(recipes_view(recipes@), timestamp@));
    s
}

// ── Markdown table ───────────────────────────────────────────────

/// First header line of the table.
pub open spec fn table_header() -> Seq<char> {
    "| # | Recipe | Category | Status | Tier | Idempotent | Time (1st) | Time (2nd) | Blocker |"@
}

/// Separator line under the header.
pub open spec fn table_rule() -> Seq<char> {
    "|---|--------|----------|--------|------|------------|------------|------------|---------|"@
}

/// The class word with its first letter in upper case.
pub open spec fn class_title(c: IdempotencyClass) -> Seq<char> {
    match c {
        IdempotencyClass::Strong => "Strong"@,
        IdempotencyClass::Weak => "Weak"@,
        IdempotencyClass::Eventual => "Eventual"@,
    }
}

/// The table's class cell is the CSV class word with its first letter made
/// uppercase.
pub proof fn lemma_class_title_capitalized(c: IdempotencyClass)
    ensures
        class_title(c).len() == class_text(c).len(),
        class_title(c).len() > 0,
        class_title(c)[0] == ascii_upper_char(class_text(c)[0]),
        class_title(c).drop_first() == class_text(c).drop_first(),
{
    reveal_strlit("Strong");
    reveal_strlit("Weak");
    reveal_strlit("Eventual");
    reveal_strlit("strong");
    reveal_strlit("weak");
    reveal_strlit("eventual");
    assert(class_title(c).drop_first() =~= class_text(c).drop_first());
}

/// The blocker cell: an em-dash when there is no ticket, else ticket and description.
pub open spec fn blocker_text(r: RecipeView) -> Seq<char> {
    if r.blocker_ticket.len() == 0 {
        "\u{2014}"@
    } else {
        r.blocker_ticket + ": "@ + r.blocker_description
    }
}

/// One table row for a record.
pub open spec fn row_text(r: RecipeView) -> Seq<char> {
    "| "@ + decimal(r.recipe_num as nat) + " | "@ + r.name + " | "@ + r.category + " | "@
        + status_badge_text(r.status) + " | "@ + r.tier + " | "@ + class_title(
        r.idempotency_class,
    ) + " | "@ + duration_text(r.first_apply_ms as nat) + " | "@ + duration_text(
        r.idempotent_apply_ms as nat,
    ) + " | "@ + blocker_text(r) + " |"@
}

/// Each row on a line of its own, in the given order.
pub open spec fn rows_text(rs: Seq<RecipeView>) -> Seq<char>
    decreases rs.len(),
{
    if rs.len() == 0 {
        Seq::empty()
    } else {
        rows_text(rs.drop_last()) + seq!['\n'] + row_text(rs.last())
    }
}

/// The whole table: header, separator, and the rows in ascending recipe number.
pub open spec fn table_text(rs: Seq<RecipeView>) -> Seq<char> {
    table_header() + seq!['\n'] + table_rule() + rows_text(sort_by_num(rs))
}

/// The idempotency class as it is shown in the table.
fn class_title_str(c: IdempotencyClass) -> (s: &'static str)
    ensures
        s@ == class_title(c),
        s@.len() == class_text(c).len(),
        s@[0] == ascii_upper_char(class_text(c)[0]),
        s@.drop_first() == class_text(c).drop_first(),
{
    proof {
        lemma_class_title_capitalized(c);
    }
    match c {
        IdempotencyClass::Strong => "Strong",
        IdempotencyClass::Weak => "Weak",
        IdempotencyClass::Eventual => "Eventual",
    }
}

/// Appends the table row of `r` to `out`.
#[verifier::rlimit(40)]
fn push_row(out: &mut String, r: &RecipeQualification)
    ensures
        final(out)@ == old(out)@ + row_text(r@),
{
    let ghost start = out@;
    push_str(out, "| ");
    push_decimal_str(out, r.recipe_num as u128);
    push_str(out, " | ");
    push_str(out, r.name.as_str());
    push_str(out, " | ");
    push_str(out, r.category.as_str());
    push_str(out, " | ");
    push_str(out, r.status.badge());
    push_str(out, " | ");
    push_str(out, r.tier.as_str());
    push_str(out, " | ");
    push_str(out, class_title_str(r.idempotency_class));
    push_str(out, " | ");
    let d1 = format_duration(r.first_apply_ms);
    push_str(out, d1.as_str());
    push_str(out, " | ");
    let d2 = format_duration(r.idempotent_apply_ms);
    push_str(out, d2.as_str());
    push_str(out, " | ");
    if r.blocker_ticket.as_str().is_empty() {
        push_str(out, "\u{2014}");
    } else {
        push_str(out, r.blocker_ticket.as_str());
        push_str(out, ": ");
        push_str(out, r.blocker_description.as_str());
    }
    push_str(out, " |");
    assert(out@ =~= start + row_text(r@));
}

/// Generate the full qualification table (sorted by recipe number).
pub fn generate_table(recipes: &[RecipeQualification]) -> (s: String)
    ensures
        s@ == table_text(recipes_view(recipes@)),
{
    let order = sorted_order(recipes);
    let ghost all = recipes_view(recipes@);
    let ghost sorted = pick(all, order@);
    let mut out = String::new();
    push_str(
        &mut out,
        "| # | Recipe | Category | Status | Tier | Idempotent | Time (1st) | Time (2nd) | Blocker |",
    );
    out.push('\n');
    push_str(
        &mut out,
        "|---|--------|----------|--------|------|------------|------------|------------|---------|",
    );
    let ghost head = out@;
    assert(head =~= table_header() + seq!['\n'] + table_rule());
    let mut i: usize = 0;
    assert(sorted.take(0).len() == 0);
    while i < order.len()
        invariant
            i <= order@.len(),
            order@.len() == recipes@.len(),
            forall|k: int| 0 <= k < order@.len() ==> #[trigger] order@[k] < recipes@.len(),
            all == recipes_view(recipes@),
            sorted == pick(all, order@),
            out@ == head + rows_text(sorted.take(i as int)),
        decreases order@.len() - i,
    {
        out.push('\n');
        push_row(&mut out, &recipes[order[i]]);
        assert(sorted.take(i + 1).drop_last() =~= sorted.take(i as int));
        assert(sorted.take(i + 1).last() == recipes@[order@[i as int] as int]@);
        i = i + 1;
    }
    assert(sorted.take(order@.len() as int) =~= sorted);
    out
}

// ── Writing CSV ──────────────────────────────────────────────────

/// The CSV header line.
pub open spec fn csv_header() -> Seq<char> {
    "recipe_num,name,category,status,tier,idempotency_class,first_apply_ms,idempotent_apply_ms,blocker_ticket,blocker_description,last_qualified,qualified_by"@
}

/// A timing cell: empty for 0 (not measured), else the decimal number.
pub open spec fn ms_field(ms: u64) -> Seq<char> {
    if ms == 0 {
        Seq::empty()
    } else {
        decimal(ms as nat)
    }
}

/// The twelve CSV cells of a record, in column order.
pub open spec fn csv_fields(r: RecipeView) -> Seq<Seq<char>> {
    seq![
        decimal(r.recipe_num as nat),
        r.name,
        r.category,
        status_text(r.status),
        r.tier,
        class_text(r.idempotency_class),
        ms_field(r.first_apply_ms),
        ms_field(r.idempotent_apply_ms),
        r.blocker_ticket,
        r.blocker_description,
        r.last_qualified,
        r.qualified_by,
    ]
}

/// Cells joined with commas.
pub open spec fn join_commas(fs: Seq<Seq<char>>) -> Seq<char>
    decreases fs.len(),
{
    if fs.len() == 0 {
        Seq::empty()
    } else if fs.len() == 1 {
        fs[0]
    } else {
        join_commas(fs.drop_last()) + seq![','] + fs.last()
    }
}

/// The CSV line of a record.
pub open spec fn csv_line(r: RecipeView) -> Seq<char> {
    join_commas(csv_fields(r))
}

/// Each record's line, preceded by a line break, in the given order.
pub open spec fn csv_lines(rs: Seq<RecipeView>) -> Seq<char>
    decreases rs.len(),
{
    if rs.len() == 0 {
        Seq::empty()
    } else {
        csv_lines(rs.drop_last()) + seq!['\n'] + csv_line(rs.last())
    }
}

/// The whole CSV text: header, records in ascending recipe number, final line break.
pub open spec fn csv_text(rs: Seq<RecipeView>) -> Seq<char> {
    csv_header() + csv_lines(sort_by_num(rs)) + seq!['\n']
}

/// Appends a timing cell to `out`.
fn push_ms_field(out: &mut String, ms: u64)
    ensures
        final(out)@ == old(out)@ + ms_field(ms),
{
    if ms != 0 {
        push_decimal_str(out, ms as u128);
    } else {
        assert(old(out)@ + ms_field(ms) =~= old(out)@);
    }
}

/// Appends the CSV line of `r` to `out`.
fn push_csv_line(out: &mut String, r: &RecipeQualification)
    ensures
        final(out)@ == old(out)@ + csv_line(r@),
{
    let ghost start = out@;
    push_decimal_str(out, r.recipe_num as u128);
    out.push(',');
    push_str(out, r.name.as_str());
    out.push(',');
    push_str(out, r.category.as_str());
    out.push(',');
    push_str(out, r.status.as_str());
    out.push(',');
    push_str(out, r.tier.as_str());
    out.push(',');
    push_str(out, r.idempotency_class.as_str());
    out.push(',');
    push_ms_field(out, r.first_apply_ms);
    out.push(',');
    push_ms_field(out, r.idempotent_apply_ms);
    out.push(',');
    push_str(out, r.blocker_ticket.as_str());
    out.push(',');
    push_str(out, r.blocker_description.as_str());
    out.push(',');
    push_str(out, r.last_qualified.as_str());
    out.push(',');
    push_str(out, r.qualified_by.as_str());
    proof {
        lemma_csv_line_unfold(r@);
        assert(out@ =~= start + csv_line_flat(r@));
    }
}

/// The CSV line of a record, written out cell by cell.
pub open spec fn csv_line_flat(r: RecipeView) -> Seq<char> {
    decimal(r.recipe_num as nat) + seq![','] + r.name + seq![','] + r.category + seq![',']
        + status_text(r.status) + seq![','] + r.tier + seq![','] + class_text(r.idempotency_class)
        + seq![','] + ms_field(r.first_apply_ms) + seq![','] + ms_field(r.idempotent_apply_ms)
        + seq![','] + r.blocker_ticket + seq![','] + r.blocker_description + seq![',']
        + r.last_qualified + seq![','] + r.qualified_by
}

/// `csv_line` is the cells joined with commas, written out.
proof fn lemma_csv_line_unfold(r: RecipeView)
    ensures
        csv_line(r) == csv_line_flat(r),
{
    let fs = csv_fields(r);
    reveal_with_fuel(join_commas, 13);
    assert(fs.take(1) =~= seq![fs[0]]);
    assert(join_commas(fs.take(1)) == fs[0]);
    assert(fs.take(2).drop_last() =~= fs.take(1));
    assert(fs.take(3).drop_last() =~= fs.take(2));
    assert(fs.take(4).drop_last() =~= fs.take(3));
    assert(fs.take(5).drop_last() =~= fs.take(4));
    assert(fs.take(6).drop_last() =~= fs.take(5));
    assert(fs.take(7).drop_last() =~= fs.take(6));
    assert(fs.take(8).drop_last() =~= fs.take(7));
    assert(fs.take(9).drop_last() =~= fs.take(8));
    assert(fs.take(10).drop_last() =~= fs.take(9));
    assert(fs.take(11).drop_last() =~= fs.take(10));
    assert(fs.take(12).drop_last() =~= fs.take(11));
    assert(fs.take(12) =~= fs);
    assert(join_commas(fs) =~= csv_line_flat(r));
}

/// Serialize recipes back to CSV.
pub fn write_csv(recipes: &[RecipeQualification]) -> (s: String)
    ensures
        s@ == csv_text(recipes_view(recipes@)),
{
    let order = sorted_order(recipes);
    let ghost all = recipes_view(recipes@);
    let ghost sorted = pick(all, order@);
    let mut out = String::new();
    push_str(
        &mut out,
        "recipe_num,name,category,status,tier,idempotency_class,first_apply_ms,idempotent_apply_ms,blocker_ticket,blocker_description,last_qualified,qualified_by",
    );
    let ghost head = out@;
    let mut i: usize = 0;
    while i < order.len()
        invariant
            i <= order@.len(),
            order@.len() == recipes@.len(),
            forall|k: int| 0 <= k < order@.len() ==> #[trigger] order@[k] < recipes@.len(),
            all == recipes_view(recipes@),
            sorted == pick(all, order@),
            out@ == head + csv_lines(sorted.take(i as int)),
        decreases order@.len() - i,
    {
        out.push('\n');
        push_csv_line(&mut out, &recipes[order[i]]);
        assert(sorted.take(i + 1).drop_last() =~= sorted.take(i as int));
        assert(sorted.take(i + 1).last() == recipes@[order@[i as int] as int]@);
        i = i + 1;
    }
    assert(sorted.take(order@.len() as int) =~= sorted);
    out.push('\n');
    out
}

// ── Reading CSV ──────────────────────────────────────────────────

/// What the `csv` crate reads from `content` with a header row and every field
/// trimmed: for each data record in order, its fields, or the text of the error
/// it reported for that record.
pub uninterp spec fn csv_records(content: Seq<char>) -> Seq<Result<Seq<Seq<char>>, Seq<char>>>;

/// Rows as read, with text taken by its characters.
pub open spec fn rows_view(rows: Seq<Result<Vec<String>, String>>) -> Seq<
    Result<Seq<Seq<char>>, Seq<char>>,
> {
    rows.map_values(
        |r: Result<Vec<String>, String>|
            match r {
                Ok(fs) => Ok(fs@.map_values(|f: String| f@)),
                Err(e) => Err(e@),
            },
    )
}

/// A CSV cell that the reader gives back as written: no comma, quote or line
/// break in it, and no whitespace at either end.
pub open spec fn plain_cell(f: Seq<char>) -> bool {
    &&& forall|i: int|
        0 <= i < f.len() ==> #[trigger] f[i] != ',' && f[i] != '"' && f[i] != '\n' && f[i] != '\r'
    &&& f.len() > 0 ==> !is_ws(f[0]) && !is_ws(f.last())
}

/// Every cell that `write_csv` writes for the record is plain.
pub open spec fn cells_plain(r: RecipeView) -> bool {
    forall|j: int| 0 <= j < 12 ==> plain_cell(#[trigger] csv_fields(r)[j])
}

/// The record's own text fields are plain cells (its numbers and words always are).
pub open spec fn text_fields_plain(r: RecipeView) -> bool {
    &&& plain_cell(r.name)
    &&& plain_cell(r.category)
    &&& plain_cell(r.tier)
    &&& plain_cell(r.blocker_ticket)
    &&& plain_cell(r.blocker_description)
    &&& plain_cell(r.last_qualified)
    &&& plain_cell(r.qualified_by)
}

/// Reads the records of `content` with the `csv` crate
/// (`ReaderBuilder::new().has_headers(true).trim(Trim::All)`, then `records()`).
///
/// Claimed of the `csv` crate: the rows are a function of the text alone
/// (`csv_records`); and text that is the header line followed by lines of
/// plain cells joined with commas, each line ended by `\n`, reads back as
/// those cells, line by line (the reader splits records at line ends and
/// fields at commas, trims whitespace that the cells do not have, and needs
/// no unquoting as no cell holds a quote; every line has the header's 12
/// fields). Nothing else is claimed of how it splits, unquotes or trims.
#[verifier::external_body]
fn read_csv_records(content: &str) -> (rows: Vec<Result<Vec<String>, String>>)
    ensures
        rows_view(rows@) == csv_records(content@),
        forall|ls: Seq<RecipeView>|
            #![trigger csv_lines(ls)]
            (forall|i: int| 0 <= i < ls.len() ==> cells_plain(#[trigger] ls[i])) && content@
                == csv_header() + csv_lines(ls) + seq!['\n'] ==> rows_view(rows@)
                == ls.map_values(|r: RecipeView| Ok::<Seq<Seq<char>>, Seq<char>>(csv_fields(r))),
{
    let mut reader = csv::ReaderBuilder::new().has_headers(true).trim(csv::Trim::All).from_reader(
        content.as_bytes(),
    );
    reader.records().map(
        |r| r.map(|rec| rec.iter().map(String::from).collect()).map_err(|e| e.to_string()),
    ).collect()
}

/// `CSV line N: ` for the record at position `i` (the header is line 1).
pub open spec fn line_prefix(i: nat) -> Seq<char> {
    "CSV line "@ + decimal(i + 2) + ": "@
}

/// A timing cell: empty means 0, else an unsigned 64-bit number.
pub open spec fn ms_from_text(t: Seq<char>) -> Result<nat, IntErrorKind> {
    if t.len() == 0 {
        Ok(0)
    } else {
        parse_unsigned(t, u64::MAX as nat)
    }
}

/// How the fields of the record at position `i` become a qualification record.
pub open spec fn parse_row(i: nat, fs: Seq<Seq<char>>) -> Result<RecipeView, Seq<char>> {
    if fs.len() < 12 {
        Err(line_prefix(i) + "expected 12 fields, got "@ + decimal(fs.len()))
    } else {
        match parse_unsigned(fs[0], u32::MAX as nat) {
            Err(k) => Err(line_prefix(i) + "recipe_num: "@ + int_error_text(k)),
            Ok(num) => match status_from_text(fs[3]) {
                Err(e) => Err(line_prefix(i) + e),
                Ok(status) => match class_from_text(fs[5]) {
                    Err(e) => Err(line_prefix(i) + e),
                    Ok(class) => match ms_from_text(fs[6]) {
                        Err(k) => Err(line_prefix(i) + "first_apply_ms: "@ + int_error_text(k)),
                        Ok(first) => match ms_from_text(fs[7]) {
                            Err(k) => Err(
                                line_prefix(i) + "idempotent_apply_ms: "@ + int_error_text(k),
                            ),
                            Ok(idem) => Ok(
                                RecipeView {
                                    recipe_num: num as u32,
                                    name: fs[1],
                                    category: fs[2],
                                    status,
                                    tier: fs[4],
                                    idempotency_class: class,
                                    first_apply_ms: first as u64,
                                    idempotent_apply_ms: idem as u64,
                                    blocker_ticket: fs[8],
                                    blocker_description: fs[9],
                                    last_qualified: fs[10],
                                    qualified_by: fs[11],
                                },
                            ),
                        },
                    },
                },
            },
        }
    }
}

/// How rows become records: in order; the first row that is a reader error or
/// does not make a record decides the error.
pub open spec fn parse_rows(rows: Seq<Result<Seq<Seq<char>>, Seq<char>>>) -> Result<
    Seq<RecipeView>,
    Seq<char>,
>
    decreases rows.len(),
{
    if rows.len() == 0 {
        Ok(Seq::empty())
    } else {
        match parse_rows(rows.drop_last()) {
            Err(e) => Err(e),
            Ok(prev) => match rows.last() {
                Err(e) => Err(line_prefix((rows.len() - 1) as nat) + e),
                Ok(fs) => match parse_row((rows.len() - 1) as nat, fs) {
                    Err(e) => Err(e),
                    Ok(r) => Ok(prev.push(r)),
                },
            },
        }
    }
}

/// The cells that `write_csv` writes for a record read back as that record.
pub proof fn lemma_parse_row_of_fields(i: nat, r: RecipeView)
    ensures
        parse_row(i, csv_fields(r)) == Ok::<RecipeView, Seq<char>>(r),
{
    let fs = csv_fields(r);
    lemma_parse_decimal(r.recipe_num as nat, u32::MAX as nat);
    lemma_status_roundtrip(r.status);
    lemma_class_roundtrip(r.idempotency_class);
    if r.first_apply_ms != 0 {
        lemma_parse_decimal(r.first_apply_ms as nat, u64::MAX as nat);
    }
    if r.idempotent_apply_ms != 0 {
        lemma_parse_decimal(r.idempotent_apply_ms as nat, u64::MAX as nat);
    }
    assert(fs[0] == decimal(r.recipe_num as nat));
    assert(fs[3] == status_text(r.status));
    assert(fs[5] == class_text(r.idempotency_class));
    assert(fs[6] == ms_field(r.first_apply_ms));
    assert(fs[7] == ms_field(r.idempotent_apply_ms));
}

/// Reading back what is written: rows holding the cells that `write_csv`
/// writes, one per record, turn into the same records in the same order.
pub proof fn lemma_csv_fields_roundtrip(rs: Seq<RecipeView>)
    ensures
        parse_rows(rs.map_values(|r: RecipeView| Ok::<Seq<Seq<char>>, Seq<char>>(csv_fields(r))))
            == Ok::<Seq<RecipeView>, Seq<char>>(rs),
    decreases rs.len(),
{
    let rows = rs.map_values(|r: RecipeView| Ok::<Seq<Seq<char>>, Seq<char>>(csv_fields(r)));
    if rs.len() > 0 {
        lemma_csv_fields_roundtrip(rs.drop_last());
        assert(rows.drop_last() =~= rs.drop_last().map_values(
            |r: RecipeView| Ok::<Seq<Seq<char>>, Seq<char>>(csv_fields(r)),
        ));
        lemma_parse_row_of_fields((rs.len() - 1) as nat, rs.last());
        assert(rows.last() == Ok::<Seq<Seq<char>>, Seq<char>>(csv_fields(rs.last())));
        assert(rows.len() == rs.len());
        assert(rs.drop_last().push(rs.last()) =~= rs);
    } else {
        assert(rs =~= Seq::<RecipeView>::empty());
    }
}

/// Records taken by their views; errors by their text.
pub open spec fn recipes_result_view(r: Result<Vec<RecipeQualification>, String>) -> Result<
    Seq<RecipeView>,
    Seq<char>,
> {
    match r {
        Ok(v) => Ok(recipes_view(v@)),
        Err(e) => Err(e@),
    }
}

/// Starts an error message with `CSV line N: ` for the record at position `i`.
fn line_error(i: usize) -> (e: String)
    ensures
        e@ == line_prefix(i as nat),
{
    let mut e = String::new();
    push_str(&mut e, "CSV line ");
    push_decimal_str(&mut e, i as u128 + 2);
    push_str(&mut e, ": ");
    e
}

/// Parses a timing cell.
fn parse_ms(t: &String) -> (r: Result<u64, IntErrorKind>)
    ensures
        match ms_from_text(t@) {
            Ok(v) => r == Ok::<u64, IntErrorKind>(v as u64),
            Err(k) => r == Err::<u64, IntErrorKind>(k),
        },
{
    let v = chars_of(t.as_str());
    if v.len() == 0 {
        Ok(0)
    } else {
        parse_unsigned_exec(&v, u64::MAX)
    }
}

/// Turns the fields of the record at position `i` into a qualification record.
fn parse_fields(i: usize, fs: &Vec<String>) -> (r: Result<RecipeQualification, String>)
    ensures
        match r {
            Ok(q) => parse_row(i as nat, fs@.map_values(|f: String| f@)) == Ok::<
                RecipeView,
                Seq<char>,
            >(q@),
            Err(e) => parse_row(i as nat, fs@.map_values(|f: String| f@)) == Err::<
                RecipeView,
                Seq<char>,
            >(e@),
        },
{
    let ghost fv = fs@.map_values(|f: String| f@);
    if fs.len() < 12 {
        let mut e = line_error(i);
        push_str(&mut e, "expected 12 fields, got ");
        push_decimal_str(&mut e, fs.len() as u128);
        return Err(e);
    }
    let c0 = chars_of(fs[0].as_str());
    let num = match parse_unsigned_exec(&c0, 0xffff_ffff) {
        Ok(n) => n,
        Err(k) => {
            let mut e = line_error(i);
            push_str(&mut e, "recipe_num: ");
            push_str(&mut e, int_error_message(k));
            return Err(e);
        },
    };
    let status = match RecipeStatus::from_csv(fs[3].as_str()) {
        Ok(s) => s,
        Err(m) => {
            let mut e = line_error(i);
            push_str(&mut e, m.as_str());
            return Err(e);
        },
    };
    let class = match IdempotencyClass::from_csv(fs[5].as_str()) {
        Ok(c) => c,
        Err(m) => {
            let mut e = line_error(i);
            push_str(&mut e, m.as_str());
            return Err(e);
        },
    };
    let first = match parse_ms(&fs[6]) {
        Ok(v) => v,
        Err(k) => {
            let mut e = line_error(i);
            push_str(&mut e, "first_apply_ms: ");
            push_str(&mut e, int_error_message(k));
            return Err(e);
        },
    };
    let idem = match parse_ms(&fs[7]) {
        Ok(v) => v,
        Err(k) => {
            let mut e = line_error(i);
            push_str(&mut e, "idempotent_apply_ms: ");
            push_str(&mut e, int_error_message(k));
            return Err(e);
        },
    };
    let q = RecipeQualification {
        recipe_num: num as u32,
        name: fs[1].clone(),
        category: fs[2].clone(),
        status,
        tier: fs[4].clone(),
        idempotency_class: class,
        first_apply_ms: first,
        idempotent_apply_ms: idem,
        blocker_ticket: fs[8].clone(),
        blocker_description: fs[9].clone(),
        last_qualified: fs[10].clone(),
        qualified_by: fs[11].clone(),
    };
    Ok(q)
}

/// Turns the rows that the CSV reader gave into qualification records.
///
/// Rows are taken in order; the first reader error or bad row is the error,
/// prefixed with its line (`CSV line N: `, the header being line 1).
pub fn parse_csv_records(rows: &Vec<Result<Vec<String>, String>>) -> (r: Result<
    Vec<RecipeQualification>,
    String,
>)
    ensures
        recipes_result_view(r) == parse_rows(rows_view(rows@)),
{
    let ghost rv = rows_view(rows@);
    let mut out: Vec<RecipeQualification> = Vec::new();
    let mut i: usize = 0;
    assert(rv.take(0) =~= Seq::<Result<Seq<Seq<char>>, Seq<char>>>::empty());
    assert(recipes_view(out@) =~= Seq::<RecipeView>::empty());
    while i < rows.len()
        invariant
            i <= rows@.len(),
            rv == rows_view(rows@),
            parse_rows(rv.take(i as int)) == Ok::<Seq<RecipeView>, Seq<char>>(
                recipes_view(out@),
            ),
        decreases rows@.len() - i,
    {
        assert(rv.take(i + 1).drop_last() =~= rv.take(i as int));
        assert(rv.take(i + 1).last() == rv[i as int]);
        match &rows[i] {
            Err(m) => {
                let mut e = line_error(i);
                push_str(&mut e, m.as_str());
                proof {
                    lemma_parse_rows_err_sticks(rv, i as int + 1, rv.len() as int);
                    assert(rv.take(rv.len() as int) =~= rv);
                }
                return Err(e);
            },
            Ok(fs) => {
                match parse_fields(i, fs) {
                    Err(e) => {
                        proof {
                            lemma_parse_rows_err_sticks(rv, i as int + 1, rv.len() as int);
                            assert(rv.take(rv.len() as int) =~= rv);
                        }
                        return Err(e);
                    },
                    Ok(q) => {
                        let ghost before = out@;
                        out.push(q);
                        assert(recipes_view(out@) =~= recipes_view(before).push(q@));
                    },
                }
            },
        }
        i = i + 1;
    }
    assert(rv.take(rows@.len() as int) =~= rv);
    Ok(out)
}

/// Once the rows up to some position fail, every longer prefix fails the same way.
proof fn lemma_parse_rows_err_sticks(rows: Seq<Result<Seq<Seq<char>>, Seq<char>>>, k: int, m: int)
    requires
        0 <= k <= m <= rows.len(),
        parse_rows(rows.take(k)) is Err,
    ensures
        parse_rows(rows.take(m)) == parse_rows(rows.take(k)),
    decreases m - k,
{
    if m > k {
        lemma_parse_rows_err_sticks(rows, k, m - 1);
        assert(rows.take(m).drop_last() =~= rows.take(m - 1));
    }
}

/// A record whose text fields are plain has only plain cells.
proof fn lemma_cells_plain(r: RecipeView)
    requires
        text_fields_plain(r),
    ensures
        cells_plain(r),
{
    reveal_strlit("qualified");
    reveal_strlit("blocked");
    reveal_strlit("pending");
    reveal_strlit("strong");
    reveal_strlit("weak");
    reveal_strlit("eventual");
    let fs = csv_fields(r);
    lemma_decimal_digits(r.recipe_num as nat);
    lemma_decimal_digits(r.first_apply_ms as nat);
    lemma_decimal_digits(r.idempotent_apply_ms as nat);
    assert forall|j: int| 0 <= j < 12 implies plain_cell(#[trigger] csv_fields(r)[j]) by {
        let f = fs[j];
        if j == 0 || j == 6 || j == 7 {
            if f.len() > 0 {
                assert(is_digit(f[0]));
                assert(is_digit(f.last()));
            }
            assert forall|i: int| 0 <= i < f.len() implies #[trigger] f[i] != ',' && f[i] != '"'
                && f[i] != '\n' && f[i] != '\r' by {
                assert(is_digit(f[i]));
            }
        }
    }
}

/// Records sorted from records with plain text fields have only plain cells.
proof fn lemma_sorted_cells_plain(rs: Seq<RecipeView>)
    requires
        forall|i: int| 0 <= i < rs.len() ==> text_fields_plain(#[trigger] rs[i]),
    ensures
        forall|i: int|
            0 <= i < sort_by_num(rs).len() ==> cells_plain(#[trigger] sort_by_num(rs)[i]),
{
    broadcast use vstd::seq_lib::group_to_multiset_ensures;

    lemma_sort_by_num(rs);
    let ls = sort_by_num(rs);
    assert forall|i: int| 0 <= i < ls.len() implies cells_plain(#[trigger] ls[i]) by {
        assert(ls.contains(ls[i]));
        assert(ls.to_multiset().count(ls[i]) > 0);
        assert(rs.contains(ls[i]));
        let k = choose|k: int| 0 <= k < rs.len() && rs[k] == ls[i];
        lemma_cells_plain(rs[k]);
    }
}

/// Parse recipes from CSV content.
///
/// The `csv` crate reads the records (header row, trimmed fields); each record
/// then needs at least 12 fields, a `u32` recipe number, a status word, an
/// idempotency class word and, where present, `u64` timings.
///
/// Reading back what `write_csv` wrote gives the records sorted by recipe
/// number, when their text fields are plain cells.
pub fn parse_csv(content: &str) -> (r: Result<Vec<RecipeQualification>, String>)
    ensures
        recipes_result_view(r) == parse_rows(csv_records(content@)),
        forall|rs: Seq<RecipeView>|
            (forall|i: int| 0 <= i < rs.len() ==> text_fields_plain(#[trigger] rs[i])) && content@
                == #[trigger] csv_text(rs) ==> recipes_result_view(r) == Ok::<
                Seq<RecipeView>,
                Seq<char>,
            >(sort_by_num(rs)),
{
    let rows = read_csv_records(content);
    proof {
        assert forall|rs: Seq<RecipeView>|
            (forall|i: int| 0 <= i < rs.len() ==> text_fields_plain(#[trigger] rs[i])) && content@
                == #[trigger] csv_text(rs) implies parse_rows(csv_records(content@)) == Ok::<
            Seq<RecipeView>,
            Seq<char>,
        >(sort_by_num(rs)) by {
            let ls = sort_by_num(rs);
            lemma_sorted_cells_plain(rs);
            assert(content@ == csv_header() + csv_lines(ls) + seq!['\n']);
            lemma_csv_fields_roundtrip(ls);
        }
    }
    parse_csv_records(&rows)
}

} // verus!
