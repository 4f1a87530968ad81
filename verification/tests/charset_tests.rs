use delegate_classifier::charset::{charset_choice, decode_page, DecodeError, Decoding};

const GBK_ZHONGWEN: [u8; 4] = [0xD6, 0xD0, 0xCE, 0xC4];

#[test]
fn header_charset_decides() {
    assert_eq!(decode_page("text/html; charset=UTF-8", "中文".as_bytes()).unwrap(), "中文");
    assert_eq!(decode_page("text/html; Charset=\"utf-8\"", "中文".as_bytes()).unwrap(), "中文");
    assert_eq!(decode_page("text/html; charset=GBK", &GBK_ZHONGWEN).unwrap(), "中文");
    assert_eq!(decode_page("text/html; charset=gb2312", &GBK_ZHONGWEN).unwrap(), "中文");
}

#[test]
fn declared_utf8_with_invalid_bytes_is_an_error() {
    assert_eq!(decode_page("text/html; charset=utf-8", &GBK_ZHONGWEN), Err(DecodeError::InvalidUtf8));
}

#[test]
fn page_head_charset_decides_without_header() {
    let mut page = b"<meta charset=GB18030>".to_vec();
    page.extend_from_slice(&GBK_ZHONGWEN);
    assert_eq!(decode_page("", &page).unwrap(), "<meta charset=GB18030>中文");
    let utf8_page = "<META CHARSET=UTF-8>中文".as_bytes();
    assert_eq!(decode_page("text/html", utf8_page).unwrap(), "<META CHARSET=UTF-8>中文");
}

#[test]
fn bytes_decide_at_last() {
    assert_eq!(decode_page("", "中文".as_bytes()).unwrap(), "中文");
    assert_eq!(decode_page("", &GBK_ZHONGWEN).unwrap(), "中文");
}

#[test]
fn decoding_choice() {
    assert_eq!(charset_choice("charset=utf-8", "charset=gbk"), Decoding::Utf8);
    assert_eq!(charset_choice("charset=gbk", "charset=utf-8"), Decoding::Gbk);
    assert_eq!(charset_choice("", "charset=gb2312"), Decoding::Gbk);
    assert_eq!(charset_choice("", "charset=\"utf-8\""), Decoding::Sniff);
    assert_eq!(charset_choice("", ""), Decoding::Sniff);
}
