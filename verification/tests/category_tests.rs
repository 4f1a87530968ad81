use delegate_classifier::category::{
    call_status, is_insufficient_info, normalize_category, Category, RecordStatus,
};

const ALL: [Category; 6] = [
    Category::PartyGovernmentCadre,
    Category::Entrepreneur,
    Category::GrassrootsWorkerFarmer,
    Category::MilitaryArmedPolice,
    Category::OtherRepresentative,
    Category::Unknown,
];

#[test]
fn chinese_names_of_categories() {
    assert_eq!(Category::PartyGovernmentCadre.as_cn(), "党政干部");
    assert_eq!(Category::Entrepreneur.as_cn(), "企业家");
    assert_eq!(Category::GrassrootsWorkerFarmer.as_cn(), "工农基层代表");
    assert_eq!(Category::MilitaryArmedPolice.as_cn(), "解放军和武警系统代表");
    assert_eq!(Category::OtherRepresentative.as_cn(), "其他各行业各领域代表");
    assert_eq!(Category::Unknown.as_cn(), "未知");
}

#[test]
fn all_names_in_listing_order() {
    let names = Category::all_cn();
    let expected: Vec<&str> = ALL.iter().map(|c| c.as_cn()).collect();
    assert_eq!(names, expected);
}

#[test]
fn name_round_trip_for_every_category() {
    for c in ALL {
        assert_eq!(normalize_category(c.as_cn()), c);
        let padded = format!(" \t{}\u{3000}\n", c.as_cn());
        assert_eq!(normalize_category(&padded), c);
    }
}

#[test]
fn unrecognised_names_are_unknown() {
    assert_eq!(normalize_category("科学家"), Category::Unknown);
    assert_eq!(normalize_category(""), Category::Unknown);
    assert_eq!(normalize_category("企业 家"), Category::Unknown);
}

#[test]
fn status_names() {
    assert_eq!(RecordStatus::Success.as_str(), "success");
    assert_eq!(RecordStatus::InsufficientInfo.as_str(), "insufficient_info");
    assert_eq!(RecordStatus::LlmError.as_str(), "llm_error");
}

#[test]
fn insufficient_information_rule() {
    assert!(is_insufficient_info(Category::Unknown, false, true));
    assert!(!is_insufficient_info(Category::Unknown, true, true));
    assert!(!is_insufficient_info(Category::Unknown, false, false));
    assert!(!is_insufficient_info(Category::Entrepreneur, false, true));
    assert_eq!(call_status(Category::Unknown, false, true), RecordStatus::InsufficientInfo);
    assert_eq!(call_status(Category::Entrepreneur, false, true), RecordStatus::Success);
}
