//! The delegate list: the pages of the National People's Congress site that
//! list the delegations and their delegates, read into (name, province) rows.
use vstd::prelude::*;

use crate::order::{
    Order, compare_text, lemma_text_lt_asymmetric, lemma_text_lt_irreflexive,
    lemma_text_lt_total, lemma_text_lt_transitive, text_lt,
};
use crate::reply::string_views;
use crate::scrape::{
    SelectedElement, elements_view, html_select, regex_replace_all, replace_all_matches,
    select_elements,
};
use crate::text::{
    append_str, chars_of, decimal, has_prefix, is_whitespace, is_ws, str_eq, str_starts_with,
    string_of, trim, trim_end_char, trim_end_matches_char, trim_str, u32_decimal,
};

verus! {

/// One delegate: a name and the province or delegation it belongs to.
#[derive(Debug)]
pub struct DelegateInput {
    pub name: String,
    pub province: String,
}

/// A delegate as (name, province).
pub open spec fn delegate_view(d: DelegateInput) -> (Seq<char>, Seq<char>) {
    (d.name@, d.province@)
}

pub open spec fn delegates_view(v: Seq<DelegateInput>) -> Seq<(Seq<char>, Seq<char>)> {
    v.map_values(|d: DelegateInput| delegate_view(d))
}

/// The index page of the delegate lists of the `term`-th National People's Congress.
pub open spec fn index_url(term: u32) -> Seq<char> {
    "http://www.npc.gov.cn/npc/c191/dbmd/dbmd"@ + decimal(term as nat) + "/"@
}

pub fn build_npc_index_url(term: u32) -> (r: String)
    ensures
        r@ == index_url(term),
{
    let mut s = String::from_str("http://www.npc.gov.cn/npc/c191/dbmd/dbmd");
    let d = u32_decimal(term);
    append_str(&mut s, d.as_str());
    append_str(&mut s, "/");
    s
}

/// Parenthesised notes after a name, in full-width or ASCII parentheses.
pub const PAREN_PATTERN: &'static str = r#"(（[^）]*）|\([^)]*\))"#;

/// A delegation's head-count note, such as `(35名)` or `（35名）`.
pub const COUNT_PATTERN: &'static str = r#"(\(\d+名\)|（\d+名）)"#;

/// The delegation links of the index page.
pub const INDEX_SELECTOR: &'static str = ".md_all .md_zi a, .md_all .md_zi2 a";

/// The delegation title of a list page.
pub const PROVINCE_SELECTOR: &'static str = ".nav_bt2";

/// The delegate names of a list page.
pub const NAME_SELECTOR: &'static str = ".md_all .md_zi";

/// A character kept in a name: not whitespace, and none of the wide and
/// non-breaking spaces.
pub open spec fn name_char_kept(c: char) -> bool {
    &&& !is_ws(c)
    &&& c != '\u{00A0}'
    &&& c != '\u{2002}'
    &&& c != '\u{2003}'
    &&& c != '\u{2009}'
    &&& c != '\u{202F}'
    &&& c != '\u{3000}'
}

/// The characters of `s` that a name keeps.
pub open spec fn keep_name_chars(s: Seq<char>) -> Seq<char>
    decreases s.len(),
{
    if s.len() == 0 {
        s
    } else if name_char_kept(s.last()) {
        keep_name_chars(s.drop_last()).push(s.last())
    } else {
        keep_name_chars(s.drop_last())
    }
}

/// A delegate's name as listed: parenthesised notes removed, then every
/// whitespace character, then trimmed; `None` only if regex rejected the pattern.
pub open spec fn cleaned_name(raw: Seq<char>) -> Option<Seq<char>> {
    match regex_replace_all(PAREN_PATTERN@, raw, ""@) {
        Some(t) => Some(trim(keep_name_chars(t))),
        None => None,
    }
}

/// A name with every whitespace character removed, then trimmed.
pub fn strip_name_spacing(t: &str) -> (r: String)
    ensures
        r@ == trim(keep_name_chars(t@)),
        r@ == t@.filter(|c: char| !is_ws(c)),
{
    proof {
        law_name_keeps_all_but_whitespace(t@);
    }
    let v = chars_of(t);
    let mut kept: Vec<char> = Vec::new();
    let mut i: usize = 0;
    assert(v@.take(0) =~= Seq::<char>::empty());
    while i < v.len()
        invariant
            i <= v@.len(),
            kept@ == keep_name_chars(v@.take(i as int)),
        decreases v@.len() - i,
    {
        let c = v[i];
        assert(v@.take(i + 1).drop_last() =~= v@.take(i as int));
        if !is_whitespace(c) && c != '\u{00A0}' && c != '\u{2002}' && c != '\u{2003}' && c
            != '\u{2009}' && c != '\u{202F}' && c != '\u{3000}' {
            kept.push(c);
        }
        i = i + 1;
    }
    assert(v@.take(v@.len() as int) =~= v@);
    let s = string_of(kept.as_slice());
    trim_str(s.as_str())
}

/// Cleans a listed name (see `cleaned_name`).
pub fn clean_name(raw_text: &str) -> (r: Option<String>)
    ensures
        match r {
            Some(s) => cleaned_name(raw_text@) == Some(s@),
            None => cleaned_name(raw_text@) is None,
        },
{
    match replace_all_matches(PAREN_PATTERN, raw_text, "") {
        Some(t) => Some(strip_name_spacing(t.as_str())),
        None => None,
    }
}

/// Why a list page could not be read.
#[derive(Clone, Copy, Debug, PartialEq, Eq, Structural)]
pub enum PageError {
    /// scraper rejected a selector (the selectors are fixed, so this does not happen).
    InvalidSelector,
    /// regex rejected a pattern (the patterns are fixed, so this does not happen).
    InvalidPattern,
    /// The index page has no delegation link.
    NoLinks,
    /// A delegation page has no delegate name.
    NoNames,
}

/// The message reported for a page error.
pub open spec fn page_error_message(e: PageError) -> Seq<char> {
    match e {
        PageError::InvalidSelector => "解析选择器失败"@,
        PageError::InvalidPattern => "正则表达式无效"@,
        PageError::NoLinks => "未从索引页解析出任何代表团链接"@,
        PageError::NoNames => "详情页未解析出任何代表姓名"@,
    }
}

impl PageError {
    /// The message reported for the error.
    pub fn message(&self) -> (r: &'static str)
        ensures
            r@ == page_error_message(*self),
    {
        match self {
            PageError::InvalidSelector => "解析选择器失败",
            PageError::InvalidPattern => "正则表达式无效",
            PageError::NoLinks => "未从索引页解析出任何代表团链接",
            PageError::NoNames => "详情页未解析出任何代表姓名",
        }
    }
}

/// The link an index element gives: its trimmed text as the delegation and its
/// trimmed `href` as the address, made absolute under `base` (without trailing
/// slashes) unless it already starts with `http://` or `https://`; none when
/// either is empty.
pub open spec fn link_of(e: (Seq<char>, Option<Seq<char>>), base: Seq<char>) -> Option<
    (Seq<char>, Seq<char>),
> {
    let province = trim(e.0);
    let href = trim(
        match e.1 {
            Some(h) => h,
            None => Seq::empty(),
        },
    );
    if province.len() == 0 || href.len() == 0 {
        None
    } else if has_prefix(href, "http://"@) || has_prefix(href, "https://"@) {
        Some((province, href))
    } else {
        Some((province, trim_end_char(base, '/') + href))
    }
}

/// The links of the index elements, in page order.
pub open spec fn links_of(es: Seq<(Seq<char>, Option<Seq<char>>)>, base: Seq<char>) -> Seq<
    (Seq<char>, Seq<char>),
>
    decreases es.len(),
{
    if es.len() == 0 {
        Seq::empty()
    } else {
        let rest = links_of(es.drop_last(), base);
        match link_of(es.last(), base) {
            Some(l) => rest.push(l),
            None => rest,
        }
    }
}

pub open spec fn pairs_view(v: Seq<(String, String)>) -> Seq<(Seq<char>, Seq<char>)> {
    v.map_values(|p: (String, String)| (p.0@, p.1@))
}

fn link_of_exec(e: &SelectedElement, base_url: &str) -> (r: Option<(String, String)>)
    ensures
        match r {
            Some(p) => link_of(crate::scrape::element_view(*e), base_url@) == Some((p.0@, p.1@)),
            None => link_of(crate::scrape::element_view(*e), base_url@) is None,
        },
{
    let province = trim_str(e.text.as_str());
    let href = match &e.attr {
        Some(h) => trim_str(h.as_str()),
        None => trim_str(""),
    };
    proof {
        reveal_strlit("");
    }
    if province.as_str().is_empty() || href.as_str().is_empty() {
        return None;
    }
    if str_starts_with(href.as_str(), "http://") || str_starts_with(href.as_str(), "https://") {
        Some((province, href))
    } else {
        let mut url = trim_end_matches_char(base_url, '/');
        append_str(&mut url, href.as_str());
        Some((province, url))
    }
}

/// The delegation links among the selected index elements (see `links_of`);
/// an index without any is an error.
pub fn links_from_elements(elements: &Vec<SelectedElement>, base_url: &str) -> (r: Result<
    Vec<(String, String)>,
    PageError,
>)
    ensures
        if links_of(elements_view(elements@), base_url@).len() == 0 {
            r == Err::<Vec<(String, String)>, PageError>(PageError::NoLinks)
        } else {
            r matches Ok(v) && pairs_view(v@) == links_of(elements_view(elements@), base_url@)
        },
{
    let ghost es = elements_view(elements@);
    let mut out: Vec<(String, String)> = Vec::new();
    let mut i: usize = 0;
    assert(es.take(0) =~= Seq::<(Seq<char>, Option<Seq<char>>)>::empty());
    while i < elements.len()
        invariant
            i <= elements@.len(),
            es == elements_view(elements@),
            pairs_view(out@) == links_of(es.take(i as int), base_url@),
        decreases elements@.len() - i,
    {
        assert(es.take(i + 1).drop_last() =~= es.take(i as int));
        let ghost before = out@;
        match link_of_exec(&elements[i], base_url) {
            Some(p) => {
                out.push(p);
                assert(pairs_view(out@) =~= pairs_view(before).push((p.0@, p.1@)));
            },
            None => {},
        }
        i = i + 1;
    }
    assert(es.take(elements@.len() as int) =~= es);
    if out.len() == 0 {
        return Err(PageError::NoLinks);
    }
    Ok(out)
}

/// The delegation links of the index page, each as (delegation, address).
pub fn parse_index_page(html: &str, base_url: &str) -> (r: Result<Vec<(String, String)>, PageError>)
    ensures
        match html_select(html@, INDEX_SELECTOR@, "href"@) {
            None => r == Err::<Vec<(String, String)>, PageError>(PageError::InvalidSelector),
            Some(es) => if links_of(es, base_url@).len() == 0 {
                r == Err::<Vec<(String, String)>, PageError>(PageError::NoLinks)
            } else {
                r matches Ok(v) && pairs_view(v@) == links_of(es, base_url@)
            },
        },
{
    let elements = match select_elements(html, INDEX_SELECTOR, "href") {
        Some(v) => v,
        None => return Err(PageError::InvalidSelector),
    };
    links_from_elements(&elements, base_url)
}

/// The cleaned names of the name elements, in page order; `None` only if
/// regex rejected the pattern.
pub open spec fn cleaned_names(es: Seq<(Seq<char>, Option<Seq<char>>)>) -> Option<Seq<Seq<char>>>
    decreases es.len(),
{
    if es.len() == 0 {
        Some(Seq::empty())
    } else {
        match (cleaned_names(es.drop_last()), cleaned_name(es.last().0)) {
            (Some(rest), Some(n)) => Some(rest.push(n)),
            _ => None,
        }
    }
}

/// The names that are not empty, in order.
pub open spec fn non_empty(ns: Seq<Seq<char>>) -> Seq<Seq<char>>
    decreases ns.len(),
{
    if ns.len() == 0 {
        Seq::empty()
    } else if ns.last().len() > 0 {
        non_empty(ns.drop_last()).push(ns.last())
    } else {
        non_empty(ns.drop_last())
    }
}

/// The title text of a delegation page: the first title element's text
/// trimmed, or `未知` when there is none.
pub open spec fn title_text(titles: Seq<(Seq<char>, Option<Seq<char>>)>) -> Seq<char> {
    if titles.len() > 0 {
        trim(titles[0].0)
    } else {
        "未知"@
    }
}

/// What a delegation page gives: the delegation title (see `title_text`, with
/// head-count notes removed and trimmed again) and the non-empty cleaned
/// names of its delegates.
pub open spec fn detail_of(html: Seq<char>) -> Result<(Seq<char>, Seq<Seq<char>>), PageError> {
    match (
        html_select(html, PROVINCE_SELECTOR@, "href"@),
        html_select(html, NAME_SELECTOR@, "href"@),
    ) {
        (Some(ps), Some(ns)) => match regex_replace_all(COUNT_PATTERN@, title_text(ps), ""@) {
            None => Err(PageError::InvalidPattern),
            Some(p) => match cleaned_names(ns) {
                None => Err(PageError::InvalidPattern),
                Some(names) => if non_empty(names).len() == 0 {
                    Err(PageError::NoNames)
                } else {
                    Ok((trim(p), non_empty(names)))
                },
            },
        },
        _ => Err(PageError::InvalidSelector),
    }
}


/// The title text of a delegation page (see `title_text`).
pub fn page_title(titles: &Vec<SelectedElement>) -> (r: String)
    ensures
        r@ == title_text(elements_view(titles@)),
{
    if titles.len() > 0 {
        assert(elements_view(titles@)[0].0 == titles@[0].text@);
        trim_str(titles[0].text.as_str())
    } else {
        String::from_str("未知")
    }
}

/// The delegates' names of a page: the cleaned names that are not empty; a
/// page without any is an error.
pub fn listed_names(cleaned: Vec<String>) -> (r: Result<Vec<String>, PageError>)
    ensures
        if non_empty(string_views(cleaned@)).len() == 0 {
            r == Err::<Vec<String>, PageError>(PageError::NoNames)
        } else {
            r matches Ok(v) && string_views(v@) == non_empty(string_views(cleaned@))
        },
{
    let ghost cv = string_views(cleaned@);
    let mut out: Vec<String> = Vec::new();
    let mut i: usize = 0;
    assert(cv.take(0) =~= Seq::<Seq<char>>::empty());
    while i < cleaned.len()
        invariant
            i <= cleaned@.len(),
            cv == string_views(cleaned@),
            string_views(out@) == non_empty(cv.take(i as int)),
        decreases cleaned@.len() - i,
    {
        assert(cv.take(i + 1).drop_last() =~= cv.take(i as int));
        let ghost before = out@;
        if !cleaned[i].as_str().is_empty() {
            out.push(cleaned[i].clone());
            assert(string_views(out@) =~= string_views(before).push(cleaned@[i as int]@));
        }
        i = i + 1;
    }
    assert(cv.take(cleaned@.len() as int) =~= cv);
    if out.len() == 0 {
        return Err(PageError::NoNames);
    }
    Ok(out)
}

/// Reads a delegation page (see `detail_of`).
#[verifier::loop_isolation(false)]
pub fn parse_detail_page(html: &str) -> (r: Result<(String, Vec<String>), PageError>)
    ensures
        match detail_of(html@) {
            Ok((p, names)) => r matches Ok((rp, rn)) && rp@ == p && string_views(rn@) == names,
            Err(e) => r == Err::<(String, Vec<String>), PageError>(e),
        },
{
    let titles = match select_elements(html, PROVINCE_SELECTOR, "href") {
        Some(v) => v,
        None => return Err(PageError::InvalidSelector),
    };
    let name_elements = match select_elements(html, NAME_SELECTOR, "href") {
        Some(v) => v,
        None => return Err(PageError::InvalidSelector),
    };
    let raw = page_title(&titles);
    let province = match replace_all_matches(COUNT_PATTERN, raw.as_str(), "") {
        Some(p) => trim_str(p.as_str()),
        None => return Err(PageError::InvalidPattern),
    };
    let ghost ns = elements_view(name_elements@);
    let mut cleaned: Vec<String> = Vec::new();
    let mut i: usize = 0;
    assert(ns.take(0) =~= Seq::<(Seq<char>, Option<Seq<char>>)>::empty());
    while i < name_elements.len()
        invariant
            i <= name_elements@.len(),
            ns == elements_view(name_elements@),
            cleaned_names(ns.take(i as int)) == Some(string_views(cleaned@)),
        decreases name_elements@.len() - i,
    {
        assert(ns.take(i + 1).drop_last() =~= ns.take(i as int));
        assert(ns[i as int].0 == name_elements@[i as int].text@);
        let ghost before = cleaned@;
        match clean_name(name_elements[i].text.as_str()) {
            Some(n) => {
                cleaned.push(n);
                assert(string_views(cleaned@) =~= string_views(before).push(n@));
            },
            None => {
                proof {
                    lemma_cleaned_names_none(ns, i as int);
                }
                return Err(PageError::InvalidPattern);
            },
        }
        i = i + 1;
    }
    assert(ns.take(name_elements@.len() as int) =~= ns);
    match listed_names(cleaned) {
        Ok(names) => Ok((province, names)),
        Err(e) => Err(e),
    }
}

/// Once a name cannot be cleaned, no longer list of names can be.
proof fn lemma_cleaned_names_none(ns: Seq<(Seq<char>, Option<Seq<char>>)>, i: int)
    requires
        0 <= i < ns.len(),
        cleaned_name(ns[i].0) is None,
    ensures
        cleaned_names(ns) is None,
    decreases ns.len(),
{
    if i < ns.len() - 1 {
        lemma_cleaned_names_none(ns.drop_last(), i);
    }
}

/// The delegates of one delegation page: the page's own title names the
/// province unless it is empty or `未知`, then the index link's text does.
pub open spec fn page_province(hint: Seq<char>, title: Seq<char>) -> Seq<char> {
    if title == "未知"@ || title.len() == 0 {
        hint
    } else {
        title
    }
}

pub fn delegates_from_page(province_hint: &str, title: &str, names: Vec<String>) -> (r: Vec<
    DelegateInput,
>)
    ensures
        r@.len() == names@.len(),
        forall|i: int|
            0 <= i < r@.len() ==> #[trigger] delegate_view(r@[i]) == (
                names@[i]@,
                page_province(province_hint@, title@),
            ),
{
    let use_hint = str_eq(title, "未知") || title.is_empty();
    let mut out: Vec<DelegateInput> = Vec::new();
    let mut i: usize = 0;
    while i < names.len()
        invariant
            i <= names@.len(),
            use_hint == (title@ == "未知"@ || title@.len() == 0),
            out@.len() == i,
            forall|k: int|
                0 <= k < i ==> #[trigger] delegate_view(out@[k]) == (
                    names@[k]@,
                    page_province(province_hint@, title@),
                ),
        decreases names@.len() - i,
    {
        let province = if use_hint {
            String::from_str(province_hint)
        } else {
            String::from_str(title)
        };
        out.push(DelegateInput { name: names[i].clone(), province });
        i = i + 1;
    }
    out
}

/// Delegates are ordered by province, then by name.
pub open spec fn delegate_lt(x: (Seq<char>, Seq<char>), y: (Seq<char>, Seq<char>)) -> bool {
    text_lt(x.1, y.1) || (x.1 == y.1 && text_lt(x.0, y.0))
}

/// Each delegate comes strictly before the next: ordered, and none twice.
pub open spec fn strictly_sorted(v: Seq<(Seq<char>, Seq<char>)>) -> bool {
    forall|i: int, j: int| 0 <= i < j < v.len() ==> delegate_lt(#[trigger] v[i], #[trigger] v[j])
}

proof fn lemma_delegate_lt_facts()
    ensures
        forall|x: (Seq<char>, Seq<char>)| !#[trigger] delegate_lt(x, x),
        forall|x: (Seq<char>, Seq<char>), y: (Seq<char>, Seq<char>), z: (Seq<char>, Seq<char>)|
            #[trigger] delegate_lt(x, y) && #[trigger] delegate_lt(y, z) ==> delegate_lt(x, z),
        forall|x: (Seq<char>, Seq<char>), y: (Seq<char>, Seq<char>)|
            x == y || #[trigger] delegate_lt(x, y) || #[trigger] delegate_lt(y, x),
        forall|x: (Seq<char>, Seq<char>), y: (Seq<char>, Seq<char>)|
            #[trigger] delegate_lt(x, y) ==> !delegate_lt(y, x),
{
    assert forall|x: (Seq<char>, Seq<char>)| !#[trigger] delegate_lt(x, x) by {
        lemma_text_lt_irreflexive(x.0);
        lemma_text_lt_irreflexive(x.1);
    }
    assert forall|x: (Seq<char>, Seq<char>), y: (Seq<char>, Seq<char>), z: (Seq<char>, Seq<char>)|
        #[trigger] delegate_lt(x, y) && #[trigger] delegate_lt(y, z) implies delegate_lt(x, z) by {
        lemma_text_lt_transitive(x.1, y.1, z.1);
        lemma_text_lt_transitive(x.0, y.0, z.0);
    }
    assert forall|x: (Seq<char>, Seq<char>), y: (Seq<char>, Seq<char>)|
        x == y || #[trigger] delegate_lt(x, y) || #[trigger] delegate_lt(y, x) by {
        lemma_text_lt_total(x.0, y.0);
        lemma_text_lt_total(x.1, y.1);
    }
    assert forall|x: (Seq<char>, Seq<char>), y: (Seq<char>, Seq<char>)|
        #[trigger] delegate_lt(x, y) implies !delegate_lt(y, x) by {
        lemma_text_lt_asymmetric(x.0, y.0);
        lemma_text_lt_asymmetric(x.1, y.1);
        lemma_text_lt_irreflexive(x.1);
    }
}

/// Compares two delegates by province, then name.
fn compare_delegate(a: &(Vec<char>, Vec<char>), b: &(Vec<char>, Vec<char>)) -> (r: Order)
    ensures
        (r == Order::Less) == delegate_lt((a.1@, a.0@), (b.1@, b.0@)),
        (r == Order::Equal) == ((a.1@, a.0@) == (b.1@, b.0@)),
        (r == Order::Greater) == delegate_lt((b.1@, b.0@), (a.1@, a.0@)),
{
    proof {
        lemma_delegate_lt_facts();
        lemma_text_lt_irreflexive(a.0@);
        lemma_text_lt_irreflexive(a.1@);
    }
    match compare_text(a.0.as_slice(), b.0.as_slice()) {
        Order::Equal => compare_text(a.1.as_slice(), b.1.as_slice()),
        other => other,
    }
}

/// The delegates ordered by province and then name, each (name, province)
/// pair once: exactly the pairs of the input, strictly increasing.
pub fn sort_and_dedup(delegates: Vec<DelegateInput>) -> (r: Vec<DelegateInput>)
    ensures
        strictly_sorted(delegates_view(r@)),
        forall|x: (Seq<char>, Seq<char>)|
            delegates_view(r@).contains(x) <==> delegates_view(delegates@).contains(x),
{
    proof {
        lemma_delegate_lt_facts();
    }
    let ghost orig = delegates_view(delegates@);
    let mut rest = delegates;
    let mut out: Vec<DelegateInput> = Vec::new();
    // keys[i] is (province, name) of out[i], as characters
    let mut keys: Vec<(Vec<char>, Vec<char>)> = Vec::new();
    while rest.len() > 0
        invariant
            rest@.len() <= orig.len(),
            delegates_view(rest@) == orig.take(rest@.len() as int),
            keys@.len() == out@.len(),
            forall|i: int|
                0 <= i < keys@.len() ==> (#[trigger] keys@[i].1@, keys@[i].0@) == delegate_view(
                    out@[i],
                ),
            strictly_sorted(delegates_view(out@)),
            forall|x: (Seq<char>, Seq<char>)|
                delegates_view(out@).contains(x) <==> orig.skip(rest@.len() as int).contains(x),
        decreases rest@.len(),
    {
        proof {
            lemma_delegate_lt_facts();
        }
        let ghost before_rest = rest@;
        let ghost out_before = delegates_view(out@);
        let d = rest.pop().unwrap();
        assert(delegates_view(rest@) =~= orig.take(rest@.len() as int));
        let ghost x = delegate_view(d);
        assert(orig[rest@.len() as int] == x) by {
            assert(delegates_view(before_rest)[rest@.len() as int] == x);
        }
        assert(orig.skip(rest@.len() as int) =~= seq![x] + orig.skip(before_rest.len() as int));
        assert forall|y: (Seq<char>, Seq<char>)|
            orig.skip(rest@.len() as int).contains(y) <==> (y == x || orig.skip(
                before_rest.len() as int,
            ).contains(y)) by {
            let s = orig.skip(rest@.len() as int);
            let t = orig.skip(before_rest.len() as int);
            if s.contains(y) {
                let k = choose|k: int| 0 <= k < s.len() && s[k] == y;
                if k > 0 {
                    assert(t[k - 1] == y);
                }
            }
            if t.contains(y) {
                let k = choose|k: int| 0 <= k < t.len() && t[k] == y;
                assert(s[k + 1] == y);
            }
            if y == x {
                assert(s[0] == y);
            }
        }
        let key = (chars_of(d.province.as_str()), chars_of(d.name.as_str()));
        // binary search for the first key not below `key`
        let mut lo: usize = 0;
        let mut hi: usize = keys.len();
        while lo < hi
            invariant
                lo <= hi <= keys@.len(),
                keys@.len() == out@.len(),
                forall|i: int|
                    0 <= i < keys@.len() ==> (#[trigger] keys@[i].1@, keys@[i].0@)
                        == delegate_view(out@[i]),
                strictly_sorted(delegates_view(out@)),
                forall|i: int| 0 <= i < lo ==> delegate_lt(#[trigger] delegates_view(out@)[i], x),
                forall|i: int|
                    hi <= i < keys@.len() ==> !delegate_lt(#[trigger] delegates_view(out@)[i], x),
                x == (key.1@, key.0@),
            decreases hi - lo,
        {
            proof {
                lemma_delegate_lt_facts();
            }
            let mid = lo + (hi - lo) / 2;
            let c = compare_delegate(&keys[mid], &key);
            assert(delegates_view(out@)[mid as int] == (keys@[mid as int].1@, keys@[mid as int].0@));
            if c == Order::Less {
                assert forall|i: int| 0 <= i < mid + 1 implies delegate_lt(
                    #[trigger] delegates_view(out@)[i],
                    x,
                ) by {
                    if i < mid {
                        assert(delegate_lt(delegates_view(out@)[i], delegates_view(out@)[mid as int]));
                    }
                }
                lo = mid + 1;
            } else {
                assert forall|i: int| mid <= i < keys@.len() implies !delegate_lt(
                    #[trigger] delegates_view(out@)[i],
                    x,
                ) by {
                    if i > mid {
                        assert(delegate_lt(delegates_view(out@)[mid as int], delegates_view(out@)[i]));
                    }
                }
                hi = mid;
            }
        }
        let duplicate = lo < keys.len() && compare_delegate(&keys[lo], &key) == Order::Equal;
        if duplicate {
            assert(delegates_view(out@)[lo as int] == x);
            assert(delegates_view(out@).contains(x));
            assert forall|y: (Seq<char>, Seq<char>)|
                delegates_view(out@).contains(y) <==> (y == x || out_before.contains(y)) by {}
            assert forall|y: (Seq<char>, Seq<char>)|
                delegates_view(out@).contains(y) <==> orig.skip(rest@.len() as int).contains(y) by {
                assert(out_before.contains(y) <==> orig.skip(before_rest.len() as int).contains(y));
            }
        } else {
            let ghost old_out = delegates_view(out@);
            proof {
                if lo < keys@.len() {
                    assert(old_out[lo as int] == (keys@[lo as int].1@, keys@[lo as int].0@));
                    assert(old_out[lo as int] != x);
                    assert(delegate_lt(x, old_out[lo as int]));
                }
            }
            keys.insert(lo, key);
            out.insert(lo, d);
            assert(delegates_view(out@) =~= old_out.insert(lo as int, x));
            assert forall|i: int, j: int|
                0 <= i < j < delegates_view(out@).len() implies delegate_lt(
                #[trigger] delegates_view(out@)[i],
                #[trigger] delegates_view(out@)[j],
            ) by {
                let v = delegates_view(out@);
                if j < lo {
                    assert(v[i] == old_out[i] && v[j] == old_out[j]);
                } else if j == lo {
                    assert(v[i] == old_out[i]);
                } else if i < lo {
                    assert(v[i] == old_out[i] && v[j] == old_out[j - 1]);
                    assert(delegate_lt(old_out[i], x));
                    assert(delegate_lt(x, old_out[lo as int]));
                    if j - 1 > lo {
                        assert(delegate_lt(old_out[lo as int], old_out[j - 1]));
                    }
                } else if i == lo {
                    assert(v[j] == old_out[j - 1]);
                    if j - 1 > lo {
                        assert(delegate_lt(old_out[lo as int], old_out[j - 1]));
                    }
                } else {
                    assert(v[i] == old_out[i - 1] && v[j] == old_out[j - 1]);
                }
            }
            assert forall|i: int| 0 <= i < keys@.len() implies (
            #[trigger] keys@[i].1@,
            keys@[i].0@,
        ) == delegate_view(out@[i]) by {
                assert(delegate_view(out@[i]) == delegates_view(out@)[i]);
                if i < lo {
                } else if i == lo {
                } else {
                    assert(delegates_view(out@)[i] == old_out[i - 1]);
                }
            }
            assert forall|y: (Seq<char>, Seq<char>)|
                delegates_view(out@).contains(y) <==> (y == x || out_before.contains(y)) by {
                if delegates_view(out@).contains(y) {
                    let k = choose|k: int|
                        0 <= k < delegates_view(out@).len() && delegates_view(out@)[k] == y;
                    if k < lo {
                        assert(old_out[k] == y);
                    } else if k > lo {
                        assert(old_out[k - 1] == y);
                    }
                }
                if old_out.contains(y) {
                    let k = choose|k: int| 0 <= k < old_out.len() && old_out[k] == y;
                    if k < lo {
                        assert(delegates_view(out@)[k] == y);
                    } else {
                        assert(delegates_view(out@)[k + 1] == y);
                    }
                }
                if y == x {
                    assert(delegates_view(out@)[lo as int] == y);
                }
            }
            assert forall|y: (Seq<char>, Seq<char>)|
                delegates_view(out@).contains(y) <==> orig.skip(rest@.len() as int).contains(y) by {
                assert(out_before.contains(y) <==> orig.skip(before_rest.len() as int).contains(y));
            }
        }
    }
    assert(orig.skip(0) =~= orig);
    out
}

/// The rows of a delegate list file: names and provinces trimmed, rows
/// without a name dropped.
pub open spec fn clean_rows(rows: Seq<(Seq<char>, Seq<char>)>) -> Seq<(Seq<char>, Seq<char>)>
    decreases rows.len(),
{
    if rows.len() == 0 {
        Seq::empty()
    } else {
        let rest = clean_rows(rows.drop_last());
        let name = trim(rows.last().0);
        if name.len() == 0 {
            rest
        } else {
            rest.push((name, trim(rows.last().1)))
        }
    }
}

/// Cleans the rows read from a delegate list file (see `clean_rows`).
pub fn normalize_rows(rows: Vec<DelegateInput>) -> (r: Vec<DelegateInput>)
    ensures
        delegates_view(r@) == clean_rows(delegates_view(rows@)),
{
    let ghost rv = delegates_view(rows@);
    let mut out: Vec<DelegateInput> = Vec::new();
    let mut i: usize = 0;
    assert(rv.take(0) =~= Seq::<(Seq<char>, Seq<char>)>::empty());
    while i < rows.len()
        invariant
            i <= rows@.len(),
            rv == delegates_view(rows@),
            delegates_view(out@) == clean_rows(rv.take(i as int)),
        decreases rows@.len() - i,
    {
        assert(rv.take(i + 1).drop_last() =~= rv.take(i as int));
        let name = trim_str(rows[i].name.as_str());
        let province = trim_str(rows[i].province.as_str());
        if !name.as_str().is_empty() {
            let ghost before = delegates_view(out@);
            let d = DelegateInput { name, province };
            out.push(d);
            assert(delegates_view(out@) =~= before.push(delegate_view(d)));
        }
        i = i + 1;
    }
    assert(rv.take(rows@.len() as int) =~= rv);
    out
}

/// The ordered delegate list is determined by the delegates it holds: two
/// strictly ordered lists with the same delegates are the same list.
pub proof fn law_sorted_list_unique(a: Seq<(Seq<char>, Seq<char>)>, b: Seq<(Seq<char>, Seq<char>)>)
    requires
        strictly_sorted(a),
        strictly_sorted(b),
        forall|x: (Seq<char>, Seq<char>)| a.contains(x) <==> b.contains(x),
    ensures
        a == b,
    decreases a.len(),
{
    lemma_delegate_lt_facts();
    if a.len() == 0 {
        if b.len() > 0 {
            assert(b.contains(b[0]));
        }
        assert(a =~= b);
    } else {
        assert(a.contains(a[0]));
        assert(b.len() > 0);
        assert(b.contains(b[0]));
        let k = choose|k: int| 0 <= k < b.len() && b[k] == a[0];
        let m = choose|m: int| 0 <= m < a.len() && a[m] == b[0];
        if k > 0 {
            assert(delegate_lt(b[0], b[k]));
            if m > 0 {
                assert(delegate_lt(a[0], a[m]));
            }
        }
        assert(a[0] == b[0]);
        let ta = a.drop_first();
        let tb = b.drop_first();
        assert forall|x: (Seq<char>, Seq<char>)| ta.contains(x) <==> tb.contains(x) by {
            if ta.contains(x) {
                let i = choose|i: int| 0 <= i < ta.len() && ta[i] == x;
                assert(a[i + 1] == x);
                assert(delegate_lt(a[0], a[i + 1]));
                assert(b.contains(x));
                let j = choose|j: int| 0 <= j < b.len() && b[j] == x;
                assert(j != 0);
                assert(tb[j - 1] == x);
            }
            if tb.contains(x) {
                let i = choose|i: int| 0 <= i < tb.len() && tb[i] == x;
                assert(b[i + 1] == x);
                assert(delegate_lt(b[0], b[i + 1]));
                assert(a.contains(x));
                let j = choose|j: int| 0 <= j < a.len() && a[j] == x;
                assert(j != 0);
                assert(ta[j - 1] == x);
            }
        }
        assert forall|i: int, j: int| 0 <= i < j < ta.len() implies delegate_lt(
            #[trigger] ta[i],
            #[trigger] ta[j],
        ) by {
            assert(delegate_lt(a[i + 1], a[j + 1]));
        }
        assert forall|i: int, j: int| 0 <= i < j < tb.len() implies delegate_lt(
            #[trigger] tb[i],
            #[trigger] tb[j],
        ) by {
            assert(delegate_lt(b[i + 1], b[j + 1]));
        }
        law_sorted_list_unique(ta, tb);
        assert(a =~= seq![a[0]] + ta);
        assert(b =~= seq![b[0]] + tb);
    }
}

/// Every row kept from a delegate list file has a name, and its name and
/// province carry no surrounding whitespace.
pub proof fn law_clean_rows_trimmed(rows: Seq<(Seq<char>, Seq<char>)>)
    ensures
        forall|i: int|
            0 <= i < clean_rows(rows).len() ==> {
                let r = #[trigger] clean_rows(rows)[i];
                &&& r.0.len() > 0
                &&& trim(r.0) == r.0
                &&& trim(r.1) == r.1
            },
    decreases rows.len(),
{
    if rows.len() > 0 {
        law_clean_rows_trimmed(rows.drop_last());
        crate::text::lemma_trim_shape(rows.last().0);
        crate::text::lemma_trim_shape(rows.last().1);
        let rest = clean_rows(rows.drop_last());
        assert forall|i: int| 0 <= i < clean_rows(rows).len() implies {
            let r = #[trigger] clean_rows(rows)[i];
            &&& r.0.len() > 0
            &&& trim(r.0) == r.0
            &&& trim(r.1) == r.1
        } by {
            if i < rest.len() {
                assert(clean_rows(rows)[i] == rest[i]);
            }
        }
    }
}

/// A cleaned name holds no whitespace at all.
pub proof fn law_clean_name_no_whitespace(raw: Seq<char>)
    ensures
        cleaned_name(raw) matches Some(n) ==> forall|k: int| 0 <= k < n.len() ==> !is_ws(#[trigger] n[k]),
{
    if let Some(t) = regex_replace_all(PAREN_PATTERN@, raw, ""@) {
        let kept = keep_name_chars(t);
        lemma_kept_no_whitespace(t);
        lemma_trim_of_clean(kept);
    }
}

proof fn lemma_kept_no_whitespace(s: Seq<char>)
    ensures
        forall|k: int| 0 <= k < keep_name_chars(s).len() ==> !is_ws(#[trigger] keep_name_chars(s)[k]),
    decreases s.len(),
{
    if s.len() > 0 {
        lemma_kept_no_whitespace(s.drop_last());
        let rest = keep_name_chars(s.drop_last());
        assert forall|k: int| 0 <= k < keep_name_chars(s).len() implies !is_ws(
            #[trigger] keep_name_chars(s)[k],
        ) by {
            if k < rest.len() {
                assert(keep_name_chars(s)[k] == rest[k]);
            }
        }
    }
}

proof fn lemma_trim_of_clean(s: Seq<char>)
    requires
        forall|k: int| 0 <= k < s.len() ==> !is_ws(#[trigger] s[k]),
    ensures
        trim(s) == s,
{
    if s.len() > 0 {
        assert(!is_ws(s[0]));
        assert(!is_ws(s.last()));
    }
}

/// Cleaning a name's spacing drops exactly its whitespace characters: every
/// other character (such as the middle dot `·` in a minority name) stays,
/// in order. The listed wide and non-breaking spaces are whitespace too.
pub proof fn law_name_keeps_all_but_whitespace(t: Seq<char>)
    ensures
        trim(keep_name_chars(t)) == t.filter(|c: char| !is_ws(c)),
        forall|c: char| name_char_kept(c) <==> !is_ws(c),
{
    lemma_keep_is_filter(t);
    lemma_kept_no_whitespace(t);
    lemma_trim_of_clean(keep_name_chars(t));
}

proof fn lemma_keep_is_filter(t: Seq<char>)
    ensures
        keep_name_chars(t) == t.filter(|c: char| !is_ws(c)),
    decreases t.len(),
{
    reveal(Seq::filter);
    if t.len() > 0 {
        lemma_keep_is_filter(t.drop_last());
        assert(name_char_kept(t.last()) == !is_ws(t.last()));
        let p = |c: char| !is_ws(c);
        assert(t.filter(p) == if p(t.last()) {
            t.drop_last().filter(p).push(t.last())
        } else {
            t.drop_last().filter(p)
        });
    }
}

/// A listed name keeps every character that is not whitespace, in order,
/// of the text left once the parenthesised notes are removed.
pub proof fn law_clean_name_keeps_characters(raw: Seq<char>)
    ensures
        cleaned_name(raw) == match regex_replace_all(PAREN_PATTERN@, raw, ""@) {
            Some(t) => Some(t.filter(|c: char| !is_ws(c))),
            None => None,
        },
{
    if let Some(t) = regex_replace_all(PAREN_PATTERN@, raw, ""@) {
        law_name_keeps_all_but_whitespace(t);
    }
}

/// Cleaning the spacing of a name twice is cleaning it once.
pub proof fn law_strip_name_spacing_idempotent(t: Seq<char>)
    ensures
        trim(keep_name_chars(trim(keep_name_chars(t)))) == trim(keep_name_chars(t)),
{
    let k = keep_name_chars(t);
    lemma_kept_all_kept(t);
    lemma_kept_no_whitespace(t);
    lemma_trim_of_clean(k);
    lemma_keep_fixed(k);
}

proof fn lemma_kept_all_kept(s: Seq<char>)
    ensures
        forall|k: int| 0 <= k < keep_name_chars(s).len() ==> name_char_kept(#[trigger] keep_name_chars(s)[k]),
    decreases s.len(),
{
    if s.len() > 0 {
        lemma_kept_all_kept(s.drop_last());
        let rest = keep_name_chars(s.drop_last());
        assert forall|k: int| 0 <= k < keep_name_chars(s).len() implies name_char_kept(
            #[trigger] keep_name_chars(s)[k],
        ) by {
            if k < rest.len() {
                assert(keep_name_chars(s)[k] == rest[k]);
            }
        }
    }
}

proof fn lemma_keep_fixed(s: Seq<char>)
    requires
        forall|k: int| 0 <= k < s.len() ==> name_char_kept(#[trigger] s[k]),
    ensures
        keep_name_chars(s) == s,
    decreases s.len(),
{
    if s.len() > 0 {
        lemma_keep_fixed(s.drop_last());
        assert(s.drop_last().push(s.last()) =~= s);
    }
}

} // verus!
