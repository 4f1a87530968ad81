//! The outputs of a run: one row per classified delegate, the list of
//! delegates with both political and business roles, and the count per category.
use vstd::prelude::*;

use crate::category::{Category, all_categories, cn_name, status_name};
use crate::order::text_lt;
use crate::reply::{LlmResult, string_views};
use crate::text::append_str;

verus! {

/// One row of the results table (the confidence, a float, is added by the caller).
#[derive(Debug)]
pub struct OutputRow {
    pub name: String,
    pub province: String,
    pub primary_category: String,
    pub is_political_business_combo: bool,
    pub combo_brief: String,
    pub reason: String,
    pub sources: String,
    pub status: String,
}

/// The texts joined with `sep` between them.
pub open spec fn join_with(parts: Seq<Seq<char>>, sep: Seq<char>) -> Seq<char>
    decreases parts.len(),
{
    if parts.len() == 0 {
        Seq::empty()
    } else if parts.len() == 1 {
        parts[0]
    } else {
        join_with(parts.drop_last(), sep) + sep + parts.last()
    }
}

/// Joins texts with a separator (std's `join` on a slice of strings).
pub fn join_strings(parts: &Vec<String>, sep: &str) -> (r: String)
    ensures
        r@ == join_with(string_views(parts@), sep@),
{
    let mut out = String::new();
    let mut i: usize = 0;
    assert(string_views(parts@).take(0) =~= Seq::<Seq<char>>::empty());
    while i < parts.len()
        invariant
            i <= parts@.len(),
            out@ == join_with(string_views(parts@).take(i as int), sep@),
        decreases parts@.len() - i,
    {
        let ghost prev = out@;
        let ghost taken = string_views(parts@).take(i + 1);
        assert(taken.drop_last() =~= string_views(parts@).take(i as int));
        if i > 0 {
            append_str(&mut out, sep);
        }
        append_str(&mut out, parts[i].as_str());
        if i == 0 {
            assert(out@ =~= taken[0]);
        }
        i = i + 1;
    }
    assert(string_views(parts@).take(parts@.len() as int) =~= string_views(parts@));
    out
}

pub open spec fn source_separator() -> Seq<char> {
    " | "@
}

/// The results-table row of a record: the category by its Chinese name, the
/// sources joined with ` | `, the status by its name.
pub fn output_row(r: &LlmResult) -> (row: OutputRow)
    ensures
        row.name@ == r.name@,
        row.province@ == r.province@,
        row.primary_category@ == cn_name(r.primary_category),
        row.is_political_business_combo == r.is_political_business_combo,
        row.combo_brief@ == r.combo_brief@,
        row.reason@ == r.reason@,
        row.sources@ == join_with(string_views(r.sources@), source_separator()),
        row.status@ == status_name(r.status),
{
    OutputRow {
        name: r.name.clone(),
        province: r.province.clone(),
        primary_category: String::from_str(r.primary_category.as_cn()),
        is_political_business_combo: r.is_political_business_combo,
        combo_brief: r.combo_brief.clone(),
        reason: r.reason.clone(),
        sources: join_strings(&r.sources, " | "),
        status: String::from_str(r.status.as_str()),
    }
}

/// The positions of the records that have both political and business roles, in order.
pub open spec fn combo_positions(rs: Seq<LlmResult>) -> Seq<int>
    decreases rs.len(),
{
    if rs.len() == 0 {
        Seq::empty()
    } else if rs.last().is_political_business_combo {
        combo_positions(rs.drop_last()).push(rs.len() - 1)
    } else {
        combo_positions(rs.drop_last())
    }
}

/// The positions of the records with both political and business roles.
pub fn combo_indices(results: &Vec<LlmResult>) -> (r: Vec<usize>)
    ensures
        r@.map_values(|i: usize| i as int) == combo_positions(results@),
{
    let mut out: Vec<usize> = Vec::new();
    let mut i: usize = 0;
    assert(results@.take(0) =~= Seq::<LlmResult>::empty());
    while i < results.len()
        invariant
            i <= results@.len(),
            out@.map_values(|k: usize| k as int) == combo_positions(results@.take(i as int)),
        decreases results@.len() - i,
    {
        let ghost taken = results@.take(i + 1);
        assert(taken.drop_last() =~= results@.take(i as int));
        let ghost before = out@;
        if results[i].is_political_business_combo {
            out.push(i);
            assert(out@.map_values(|k: usize| k as int) =~= before.map_values(|k: usize| k as int).push(
                i as int,
            ));
        }
        i = i + 1;
    }
    assert(results@.take(results@.len() as int) =~= results@);
    out
}

/// How many records have category `c`.
pub open spec fn count_category(rs: Seq<LlmResult>, c: Category) -> nat
    decreases rs.len(),
{
    if rs.len() == 0 {
        0
    } else {
        count_category(rs.drop_last(), c) + if rs.last().primary_category == c {
            1nat
        } else {
            0nat
        }
    }
}

proof fn lemma_count_bounded(rs: Seq<LlmResult>, c: Category)
    ensures
        count_category(rs, c) <= rs.len(),
    decreases rs.len(),
{
    if rs.len() > 0 {
        lemma_count_bounded(rs.drop_last(), c);
    }
}

/// The categories in the order of their Chinese names (the summary's order).
pub open spec fn summary_order() -> Seq<Category> {
    seq![
        Category::Entrepreneur,
        Category::PartyGovernmentCadre,
        Category::OtherRepresentative,
        Category::GrassrootsWorkerFarmer,
        Category::Unknown,
        Category::MilitaryArmedPolice,
    ]
}

/// Listing one category's count.
pub struct CategoryCount {
    pub category: String,
    pub count: usize,
}

/// The number of records per category: one row for each of the six
/// categories (also those with no record), ordered by their Chinese names.
pub fn category_summary(results: &Vec<LlmResult>) -> (r: Vec<CategoryCount>)
    ensures
        r@.len() == 6,
        forall|i: int|
            0 <= i < 6 ==> (#[trigger] r@[i]).category@ == cn_name(summary_order()[i])
                && r@[i].count == count_category(results@, summary_order()[i]),
        forall|i: int, j: int|
            0 <= i < j < 6 ==> text_lt((#[trigger] r@[i]).category@, (#[trigger] r@[j]).category@),
        forall|i: int|
            0 <= i < 6 ==> (#[trigger] r@[i]).count == results@.filter(
                |x: LlmResult| cn_name(x.primary_category) == r@[i].category@,
            ).len(),
        forall|c: Category|
            #![trigger cn_name(c)]
            exists|i: int| #![trigger r@[i]] 0 <= i < 6 && r@[i].category@ == cn_name(c),
{
    let mut counts: [usize; 6] = [0, 0, 0, 0, 0, 0];
    let mut i: usize = 0;
    assert(results@.take(0) =~= Seq::<LlmResult>::empty());
    while i < results.len()
        invariant
            i <= results@.len(),
            counts[0] == count_category(results@.take(i as int), Category::Entrepreneur),
            counts[1] == count_category(results@.take(i as int), Category::PartyGovernmentCadre),
            counts[2] == count_category(results@.take(i as int), Category::OtherRepresentative),
            counts[3] == count_category(results@.take(i as int), Category::GrassrootsWorkerFarmer),
            counts[4] == count_category(results@.take(i as int), Category::Unknown),
            counts[5] == count_category(results@.take(i as int), Category::MilitaryArmedPolice),
        decreases results@.len() - i,
    {
        let ghost taken = results@.take(i + 1);
        assert(taken.drop_last() =~= results@.take(i as int));
        assert(taken.last() == results@[i as int]);
        proof {
            lemma_count_bounded(results@.take(i as int), results@[i as int].primary_category);
        }
        let k: usize = match results[i].primary_category {
            Category::Entrepreneur => 0,
            Category::PartyGovernmentCadre => 1,
            Category::OtherRepresentative => 2,
            Category::GrassrootsWorkerFarmer => 3,
            Category::Unknown => 4,
            Category::MilitaryArmedPolice => 5,
        };
        let c = counts[k];
        counts[k] = c + 1;
        i = i + 1;
    }
    assert(results@.take(results@.len() as int) =~= results@);
    let mut rows: Vec<CategoryCount> = Vec::new();
    rows.push(CategoryCount { category: String::from_str("企业家"), count: counts[0] });
    rows.push(CategoryCount { category: String::from_str("党政干部"), count: counts[1] });
    rows.push(CategoryCount { category: String::from_str("其他各行业各领域代表"), count: counts[2] });
    rows.push(CategoryCount { category: String::from_str("工农基层代表"), count: counts[3] });
    rows.push(CategoryCount { category: String::from_str("未知"), count: counts[4] });
    rows.push(CategoryCount { category: String::from_str("解放军和武警系统代表"), count: counts[5] });
    proof {
        lemma_summary_order_sorted();
        assert forall|i: int| 0 <= i < 6 implies (#[trigger] rows@[i]).count == results@.filter(
            |x: LlmResult| cn_name(x.primary_category) == rows@[i].category@,
        ).len() by {
            law_count_by_name(results@, summary_order()[i], rows@[i].category@);
        }
        assert forall|c: Category|
            #![trigger cn_name(c)]
            exists|i: int| #![trigger rows@[i]] 0 <= i < 6 && rows@[i].category@ == cn_name(c) by {
            match c {
                Category::Entrepreneur => assert(rows@[0].category@ == cn_name(c)),
                Category::PartyGovernmentCadre => assert(rows@[1].category@ == cn_name(c)),
                Category::OtherRepresentative => assert(rows@[2].category@ == cn_name(c)),
                Category::GrassrootsWorkerFarmer => assert(rows@[3].category@ == cn_name(c)),
                Category::Unknown => assert(rows@[4].category@ == cn_name(c)),
                Category::MilitaryArmedPolice => assert(rows@[5].category@ == cn_name(c)),
            }
        }
    }
    rows
}

/// The summary order is the order of the Chinese names.
pub proof fn lemma_summary_order_sorted()
    ensures
        forall|i: int, j: int|
            0 <= i < j < 6 ==> text_lt(
                cn_name(#[trigger] summary_order()[i]),
                cn_name(#[trigger] summary_order()[j]),
            ),
{
    reveal_strlit("党政干部");
    reveal_strlit("企业家");
    reveal_strlit("工农基层代表");
    reveal_strlit("解放军和武警系统代表");
    reveal_strlit("其他各行业各领域代表");
    reveal_strlit("未知");
    let o = summary_order();
    assert forall|i: int, j: int| 0 <= i < j < 6 implies text_lt(
        cn_name(#[trigger] o[i]),
        cn_name(#[trigger] o[j]),
    ) by {
        assert(cn_name(o[i]).len() > 0 && cn_name(o[j]).len() > 0);
        assert(cn_name(o[i])[0] < cn_name(o[j])[0]);
    }
}

/// A category's count is the number of records of that category.
pub proof fn law_count_is_filter(rs: Seq<LlmResult>, c: Category)
    ensures
        count_category(rs, c) == rs.filter(|x: LlmResult| x.primary_category == c).len(),
    decreases rs.len(),
{
    reveal(Seq::filter);
    if rs.len() > 0 {
        law_count_is_filter(rs.drop_last(), c);
    }
}

/// A category's count is the number of records whose category has its
/// Chinese name (the names tell the categories apart).
pub proof fn law_count_by_name(rs: Seq<LlmResult>, c: Category, name: Seq<char>)
    requires
        name == cn_name(c),
    ensures
        count_category(rs, c) == rs.filter(|x: LlmResult| cn_name(x.primary_category) == name).len(),
    decreases rs.len(),
{
    reveal(Seq::filter);
    crate::category::lemma_names_distinct_and_clean();
    if rs.len() > 0 {
        law_count_by_name(rs.drop_last(), c, name);
        assert((cn_name(rs.last().primary_category) == name) == (rs.last().primary_category == c));
    }
}

/// Every record is counted under exactly one category: the six counts add up
/// to the number of records.
pub proof fn law_counts_add_up(rs: Seq<LlmResult>)
    ensures
        count_category(rs, Category::PartyGovernmentCadre) + count_category(rs, Category::Entrepreneur)
            + count_category(rs, Category::GrassrootsWorkerFarmer) + count_category(
            rs,
            Category::MilitaryArmedPolice,
        ) + count_category(rs, Category::OtherRepresentative) + count_category(rs, Category::Unknown)
            == rs.len(),
    decreases rs.len(),
{
    if rs.len() > 0 {
        law_counts_add_up(rs.drop_last());
    }
}

/// The number of records of each category, in listing order (see `all_categories`).
pub fn listing_counts(results: &Vec<LlmResult>) -> (r: Vec<usize>)
    ensures
        r@.len() == 6,
        forall|i: int| 0 <= i < 6 ==> #[trigger] r@[i] == count_category(results@, all_categories()[i]),
        forall|i: int|
            0 <= i < 6 ==> #[trigger] r@[i] == results@.filter(
                |x: LlmResult| x.primary_category == all_categories()[i],
            ).len(),
{
    let mut counts: Vec<usize> = Vec::new();
    counts.push(0);
    counts.push(0);
    counts.push(0);
    counts.push(0);
    counts.push(0);
    counts.push(0);
    let mut i: usize = 0;
    assert(results@.take(0) =~= Seq::<LlmResult>::empty());
    while i < results.len()
        invariant
            i <= results@.len(),
            counts@.len() == 6,
            forall|k: int|
                0 <= k < 6 ==> #[trigger] counts@[k] == count_category(
                    results@.take(i as int),
                    all_categories()[k],
                ),
        decreases results@.len() - i,
    {
        let ghost taken = results@.take(i + 1);
        assert(taken.drop_last() =~= results@.take(i as int));
        assert(taken.last() == results@[i as int]);
        proof {
            lemma_count_bounded(results@.take(i as int), results@[i as int].primary_category);
        }
        let k: usize = match results[i].primary_category {
            Category::PartyGovernmentCadre => 0,
            Category::Entrepreneur => 1,
            Category::GrassrootsWorkerFarmer => 2,
            Category::MilitaryArmedPolice => 3,
            Category::OtherRepresentative => 4,
            Category::Unknown => 5,
        };
        assert(all_categories()[k as int] == results@[i as int].primary_category);
        let c = counts[k];
        counts.set(k, c + 1);
        assert forall|j: int| 0 <= j < 6 implies #[trigger] counts@[j] == count_category(
            taken,
            all_categories()[j],
        ) by {
            if j != k {
                assert(all_categories()[j] != all_categories()[k as int]);
            }
        }
        i = i + 1;
    }
    assert(results@.take(results@.len() as int) =~= results@);
    proof {
        assert forall|i: int| 0 <= i < 6 implies #[trigger] counts@[i] == results@.filter(
            |x: LlmResult| x.primary_category == all_categories()[i],
        ).len() by {
            law_count_is_filter(results@, all_categories()[i]);
        }
    }
    counts
}

/// The largest of the counts (0 for none).
pub fn largest_count(counts: &Vec<usize>) -> (r: usize)
    ensures
        forall|i: int| 0 <= i < counts@.len() ==> counts@[i] <= r,
        counts@.len() == 0 ==> r == 0,
        counts@.len() > 0 ==> exists|i: int| 0 <= i < counts@.len() && counts@[i] == r,
{
    let mut m: usize = 0;
    let mut i: usize = 0;
    while i < counts.len()
        invariant
            i <= counts@.len(),
            forall|k: int| 0 <= k < i ==> counts@[k] <= m,
            i == 0 ==> m == 0,
            i > 0 ==> exists|k: int| 0 <= k < i && counts@[k] == m,
        decreases counts@.len() - i,
    {
        if i == 0 || counts[i] > m {
            m = counts[i];
        }
        i = i + 1;
    }
    m
}

/// The highest value on the chart's axis: two above the largest count, and at
/// least 5 (the largest count taken as an `i32`).
pub open spec fn axis_top(max_count: usize) -> int {
    let m = (max_count as i32) + 2;
    if m > 5 {
        m
    } else {
        5
    }
}

pub fn chart_y_max(max_count: usize) -> (r: i32)
    requires
        (max_count as i32) + 2 <= i32::MAX,
    ensures
        r == axis_top(max_count),
{
    let m = (max_count as i32) + 2;
    if m > 5 {
        m
    } else {
        5
    }
}

} // verus!
