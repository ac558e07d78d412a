use linkcheck::extract::{extract, is_web_url, FragmentPolicy, LinkSet};
use linkcheck::resolve::{resolve_base, resolve_link, AbsoluteUrl, LinkError};
use linkcheck::collect_links;

fn url(s: &str) -> AbsoluteUrl {
    AbsoluteUrl::parse(s).unwrap()
}

fn texts(set: &LinkSet) -> Vec<String> {
    let mut out = Vec::new();
    for i in 0..set.len() {
        out.push(set.get(i).to_string());
    }
    out
}

#[test]
fn parse_normalizes_scheme_and_host() {
    let u = url("HTTPS://Example.COM");
    assert_eq!(u.as_str(), "https://example.com/");
}

#[test]
fn parse_rejects_relative_text() {
    assert!(matches!(AbsoluteUrl::parse("docs/a.html"), Err(LinkError::MalformedUrl)));
}

#[test]
fn declared_absolute_base_is_taken_as_it_parses() {
    let b = resolve_base("https://example.com/a/b.html?q=1#f", Some("https://cdn.example.org/base/"))
        .unwrap();
    assert_eq!(b.as_str(), "https://cdn.example.org/base/");
}

#[test]
fn declared_relative_base_resolves_against_document() {
    let b = resolve_base("https://example.com/a/b.html", Some("../docs/")).unwrap();
    assert_eq!(b.as_str(), "https://example.com/docs/");
}

#[test]
fn missing_base_is_document_directory() {
    let b = resolve_base("https://example.com/a/b.html?q=1#frag", None).unwrap();
    assert_eq!(b.as_str(), "https://example.com/a/");
}

#[test]
fn missing_base_keeps_directory_path() {
    let b = resolve_base("https://example.com/a/b/?x=/y", None).unwrap();
    assert_eq!(b.as_str(), "https://example.com/a/b/");
}

#[test]
fn missing_base_of_host_only_url() {
    let b = resolve_base("https://example.com", None).unwrap();
    assert_eq!(b.as_str(), "https://example.com/");
}

#[test]
fn directory_adds_path_where_none() {
    let u = url("https://example.com/x");
    assert_eq!(u.directory().as_str(), "https://example.com/");
}

#[test]
fn malformed_document_url_fails() {
    assert!(matches!(resolve_base("not a url", None), Err(LinkError::MalformedUrl)));
}

#[test]
fn absolute_href_ignores_base() {
    let b1 = url("https://example.com/docs/");
    let b2 = url("http://elsewhere.net/x/y/");
    let r1 = resolve_link(&b1, "HTTPS://Other.com/x").unwrap();
    let r2 = resolve_link(&b2, "HTTPS://Other.com/x").unwrap();
    assert_eq!(r1.as_str(), "https://other.com/x");
    assert_eq!(r2.as_str(), "https://other.com/x");
}

#[test]
fn relative_hrefs_resolve_against_base() {
    let b = url("https://example.com/docs/index.html");
    assert_eq!(resolve_link(&b, "a.html").unwrap().as_str(), "https://example.com/docs/a.html");
    assert_eq!(resolve_link(&b, "/top").unwrap().as_str(), "https://example.com/top");
    assert_eq!(resolve_link(&b, "//cdn.net/x").unwrap().as_str(), "https://cdn.net/x");
    assert_eq!(resolve_link(&b, "#part").unwrap().as_str(), "https://example.com/docs/index.html#part");
    assert_eq!(resolve_link(&b, "../up").unwrap().as_str(), "https://example.com/up");
}

#[test]
fn malformed_href_fails() {
    let b = url("https://example.com/");
    assert!(matches!(resolve_link(&b, "http://[::1"), Err(LinkError::MalformedUrl)));
}

#[test]
fn fragment_is_stripped() {
    assert_eq!(url("https://a.com/p?q#f").strip_fragment().as_str(), "https://a.com/p?q");
    assert_eq!(url("https://a.com/p").strip_fragment().as_str(), "https://a.com/p");
}

#[test]
fn web_urls_are_http_and_https() {
    assert!(is_web_url(&url("http://a.com/")));
    assert!(is_web_url(&url("https://a.com/")));
    assert!(!is_web_url(&url("mailto:foo@bar.com")));
    assert!(!is_web_url(&url("ftp://a.com/")));
}

#[test]
fn same_href_twice_gives_one_link() {
    let base = url("https://example.com/");
    let hrefs = vec![Some("a.html".to_string()), Some("a.html".to_string())];
    let set = extract(&base, &hrefs, FragmentPolicy::Keep);
    assert_eq!(texts(&set), vec!["https://example.com/a.html".to_string()]);
}

#[test]
fn fragments_counted_by_policy() {
    let base = url("https://example.com/");
    let hrefs = vec![Some("a.html#one".to_string()), Some("a.html#two".to_string())];
    let kept = extract(&base, &hrefs, FragmentPolicy::Keep);
    assert_eq!(kept.len(), 2);
    let ignored = extract(&base, &hrefs, FragmentPolicy::Ignore);
    assert_eq!(texts(&ignored), vec!["https://example.com/a.html".to_string()]);
}

#[test]
fn bad_and_absent_hrefs_are_skipped() {
    let base = url("https://example.com/");
    let hrefs = vec![None, Some("http://[::1".to_string()), Some("b".to_string())];
    let set = extract(&base, &hrefs, FragmentPolicy::Keep);
    assert_eq!(texts(&set), vec!["https://example.com/b".to_string()]);
}

#[test]
fn empty_document_gives_empty_set() {
    let (_, set) = collect_links("https://example.com/", "", FragmentPolicy::Keep).unwrap();
    assert_eq!(set.len(), 0);
}

#[test]
fn insertion_order_is_kept() {
    let base = url("https://example.com/");
    let hrefs = vec![Some("c".to_string()), Some("a".to_string()), Some("c".to_string()), Some("b".to_string())];
    let set = extract(&base, &hrefs, FragmentPolicy::Keep);
    assert_eq!(
        texts(&set),
        vec![
            "https://example.com/c".to_string(),
            "https://example.com/a".to_string(),
            "https://example.com/b".to_string()
        ]
    );
}

#[test]
fn link_set_insert_and_contains() {
    let mut set = LinkSet::new();
    assert!(set.insert(url("https://a.com/")));
    assert!(!set.insert(url("https://a.com/")));
    assert!(set.contains(&url("https://a.com/")));
    assert!(!set.contains(&url("https://b.com/")));
    assert_eq!(set.len(), 1);
}

#[test]
fn page_base_tag_is_used() {
    let body = "<html><head><base href=\"/sub/\"></head><body><a href=\"x\">x</a></body></html>";
    let (base, set) = collect_links("https://example.com/a/b.html", body, FragmentPolicy::Keep).unwrap();
    assert_eq!(base.as_str(), "https://example.com/sub/");
    assert_eq!(texts(&set), vec!["https://example.com/sub/x".to_string()]);
}

#[test]
fn page_without_base_tag_uses_directory() {
    let body = "<html><body><a href=\"x\">x</a><a>no href</a></body></html>";
    let (base, set) = collect_links("https://example.com/a/b.html?q", body, FragmentPolicy::Keep).unwrap();
    assert_eq!(base.as_str(), "https://example.com/a/");
    assert_eq!(texts(&set), vec!["https://example.com/a/x".to_string()]);
}

#[test]
fn malformed_page_url_fails() {
    assert!(matches!(collect_links("::", "<a href=\"x\">", FragmentPolicy::Keep), Err(LinkError::MalformedUrl)));
}
