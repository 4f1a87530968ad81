use delegate_classifier::crawl::{
    build_npc_index_url, clean_name, delegates_from_page, links_from_elements, listed_names,
    normalize_rows, page_title, parse_detail_page, parse_index_page, sort_and_dedup,
    strip_name_spacing, DelegateInput, PageError,
};
use delegate_classifier::scrape::SelectedElement;

fn d(name: &str, province: &str) -> DelegateInput {
    DelegateInput { name: name.to_string(), province: province.to_string() }
}

fn pairs(v: &[DelegateInput]) -> Vec<(String, String)> {
    v.iter().map(|x| (x.name.clone(), x.province.clone())).collect()
}

#[test]
fn index_url_of_a_term() {
    assert_eq!(build_npc_index_url(14), "http://www.npc.gov.cn/npc/c191/dbmd/dbmd14/");
    assert_eq!(build_npc_index_url(9), "http://www.npc.gov.cn/npc/c191/dbmd/dbmd9/");
}

#[test]
fn names_lose_notes_and_spaces() {
    assert_eq!(clean_name("张 三（女）").unwrap(), "张三");
    assert_eq!(clean_name("\u{3000}李四(回族)\u{a0}").unwrap(), "李四");
    assert_eq!(clean_name("王\u{2002}五").unwrap(), "王五");
    assert_eq!(clean_name("（空）").unwrap(), "");
    assert_eq!(strip_name_spacing(" 赵 六 "), "赵六");
    for raw in [" 赵\u{3000}六 ", "钱 七（男）", "", "\t"] {
        let once = strip_name_spacing(raw);
        assert_eq!(strip_name_spacing(&once), once);
    }
}

const INDEX_HTML: &str = r#"<html><body><div class="md_all">
<div class="md_zi"><a href="/npc/c191/dbmd/bj.shtml"> 北京市 </a></div>
<div class="md_zi2"><a href="http://example.org/tj.shtml">天津市</a></div>
<div class="md_zi"><a>无链接</a></div>
<div class="md_zi"><a href="  ">   </a></div>
</div></body></html>"#;

#[test]
fn index_page_links() {
    let links = parse_index_page(INDEX_HTML, "http://www.npc.gov.cn/").unwrap();
    assert_eq!(
        links,
        vec![
            ("北京市".to_string(), "http://www.npc.gov.cn/npc/c191/dbmd/bj.shtml".to_string()),
            ("天津市".to_string(), "http://example.org/tj.shtml".to_string()),
        ]
    );
    assert_eq!(parse_index_page("<html></html>", "http://x").unwrap_err(), PageError::NoLinks);
}

#[test]
fn links_from_given_elements() {
    let els = vec![
        SelectedElement { text: " 上海 ".to_string(), attr: Some(" /sh ".to_string()) },
        SelectedElement { text: "重庆".to_string(), attr: Some("https://c.q/".to_string()) },
        SelectedElement { text: "".to_string(), attr: Some("/x".to_string()) },
    ];
    let links = links_from_elements(&els, "http://h//").unwrap();
    assert_eq!(
        links,
        vec![
            ("上海".to_string(), "http://h/sh".to_string()),
            ("重庆".to_string(), "https://c.q/".to_string()),
        ]
    );
    assert_eq!(links_from_elements(&vec![], "http://h").unwrap_err(), PageError::NoLinks);
}

const DETAIL_HTML: &str = r#"<html><body>
<div class="nav_bt2"> 北京市代表团（54名） </div>
<div class="md_all">
<span class="md_zi">张 三（女）</span>
<span class="md_zi">（空）</span>
<span class="md_zi">李四</span>
</div></body></html>"#;

#[test]
fn detail_page_province_and_names() {
    let (province, names) = parse_detail_page(DETAIL_HTML).unwrap();
    assert_eq!(province, "北京市代表团");
    assert_eq!(names, vec!["张三".to_string(), "李四".to_string()]);
}

#[test]
fn detail_page_without_title_or_names() {
    let html = r#"<div class="md_all"><span class="md_zi">王五</span></div>"#;
    let (province, names) = parse_detail_page(html).unwrap();
    assert_eq!(province, "未知");
    assert_eq!(names, vec!["王五".to_string()]);
    let empty = r#"<div class="nav_bt2">天津市</div>"#;
    assert_eq!(parse_detail_page(empty).unwrap_err(), PageError::NoNames);
    assert_eq!(PageError::NoNames.message(), "详情页未解析出任何代表姓名");
}

#[test]
fn page_title_and_listed_names() {
    assert_eq!(page_title(&vec![]), "未知");
    let t = vec![SelectedElement { text: " 河北省 ".to_string(), attr: None }];
    assert_eq!(page_title(&t), "河北省");
    assert_eq!(
        listed_names(vec!["".to_string(), "a".to_string()]).unwrap(),
        vec!["a".to_string()]
    );
    assert_eq!(listed_names(vec!["".to_string()]).unwrap_err(), PageError::NoNames);
}

#[test]
fn page_province_falls_back_to_the_link_text() {
    let names = vec!["甲".to_string(), "乙".to_string()];
    let v = delegates_from_page("山西省", "未知", names.clone());
    assert_eq!(pairs(&v), vec![("甲".into(), "山西省".into()), ("乙".into(), "山西省".into())]);
    let v = delegates_from_page("山西省", "", names.clone());
    assert_eq!(v[0].province, "山西省");
    let v = delegates_from_page("山西省", "山西省代表团", names);
    assert_eq!(v[1].province, "山西省代表团");
}

#[test]
fn delegates_sorted_by_province_then_name_without_duplicates() {
    let input = vec![
        d("b", "P2"),
        d("a", "P2"),
        d("z", "P1"),
        d("a", "P2"),
        d("张三", "北京"),
        d("z", "P1"),
    ];
    let mut expected = pairs(&input);
    expected.sort_by(|x, y| x.1.cmp(&y.1).then(x.0.cmp(&y.0)));
    expected.dedup();
    let out = sort_and_dedup(input);
    assert_eq!(pairs(&out), expected);
    assert!(sort_and_dedup(vec![]).is_empty());
}

#[test]
fn file_rows_are_trimmed_and_nameless_rows_dropped() {
    let rows = vec![d(" 张三 ", " 北京市 "), d("", "上海市"), d("  ", ""), d("李四", "")];
    let out = normalize_rows(rows);
    assert_eq!(pairs(&out), vec![("张三".into(), "北京市".into()), ("李四".into(), "".into())]);
}
