use delegate_classifier::category::{Category, RecordStatus};
use delegate_classifier::reply::LlmResult;
use delegate_classifier::report::{
    category_summary, chart_y_max, combo_indices, join_strings, largest_count, listing_counts,
    output_row,
};

fn rec(category: Category, combo: bool) -> LlmResult {
    LlmResult {
        name: "n".to_string(),
        province: "p".to_string(),
        primary_category: category,
        is_political_business_combo: combo,
        combo_brief: "c".to_string(),
        reason: "r".to_string(),
        sources: vec!["s1".to_string(), "s2".to_string()],
        status: RecordStatus::InsufficientInfo,
    }
}

#[test]
fn results_row() {
    let row = output_row(&rec(Category::MilitaryArmedPolice, true));
    assert_eq!(row.name, "n");
    assert_eq!(row.primary_category, "解放军和武警系统代表");
    assert!(row.is_political_business_combo);
    assert_eq!(row.sources, "s1 | s2");
    assert_eq!(row.status, "insufficient_info");
    assert_eq!(join_strings(&vec![], " | "), "");
    assert_eq!(join_strings(&vec!["a".to_string()], " | "), "a");
}

#[test]
fn combo_positions() {
    let rs = vec![rec(Category::Entrepreneur, true), rec(Category::Unknown, false), rec(Category::Unknown, true)];
    assert_eq!(combo_indices(&rs), vec![0, 2]);
    assert!(combo_indices(&vec![]).is_empty());
}

#[test]
fn summary_in_name_order_with_all_categories() {
    let rs = vec![
        rec(Category::Entrepreneur, false),
        rec(Category::Entrepreneur, true),
        rec(Category::Unknown, false),
        rec(Category::PartyGovernmentCadre, false),
    ];
    let s = category_summary(&rs);
    let got: Vec<(String, usize)> = s.iter().map(|c| (c.category.clone(), c.count)).collect();
    let mut expected: std::collections::BTreeMap<String, usize> = std::collections::BTreeMap::new();
    for c in Category::all_cn() {
        expected.insert(c.to_string(), 0);
    }
    for r in &rs {
        *expected.entry(r.primary_category.as_cn().to_string()).or_insert(0) += 1;
    }
    let expected: Vec<(String, usize)> = expected.into_iter().collect();
    assert_eq!(got, expected);
    let total: usize = s.iter().map(|c| c.count).sum();
    assert_eq!(total, rs.len());
}

#[test]
fn chart_counts_and_axis() {
    let rs = vec![rec(Category::Unknown, false), rec(Category::Unknown, false), rec(Category::OtherRepresentative, false)];
    let counts = listing_counts(&rs);
    assert_eq!(counts, vec![0, 0, 0, 0, 1, 2]);
    assert_eq!(largest_count(&counts), 2);
    assert_eq!(largest_count(&vec![]), 0);
    assert_eq!(chart_y_max(2), 5);
    assert_eq!(chart_y_max(3), 5);
    assert_eq!(chart_y_max(4), 6);
    assert_eq!(chart_y_max(100), 102);
}
