use ncs::events::ActivityType;
use ncs::xml::{data_child, element_kind, element_paths, response_texts, XmlNode};

fn node(tag: &str, text: Option<&str>, children: Vec<XmlNode>) -> XmlNode {
    XmlNode { tag: tag.to_string(), text: text.map(|t| t.to_string()), children }
}

fn path(p: &str) -> XmlNode {
    node("path", Some(p), vec![])
}

#[test]
fn element_lists_paths_by_tag() {
    let el = node(
        "element",
        None,
        vec![
            node("type", Some("file_changed"), vec![]),
            node("newfile", None, vec![path("q")]),
            node("oldfiles", None, vec![node("oldfile", None, vec![path("a")]), node("x", None, vec![path("ab")])]),
            node("file", None, vec![node("path", None, vec![])]),
        ],
    );
    let (files, new_files, old_files) = element_paths(&el);
    assert_eq!(files, vec![""]);
    assert_eq!(new_files, vec!["q"]);
    assert_eq!(old_files, vec!["a", "ab", "a"]);
    assert_eq!(element_kind(&el), Some(ActivityType::FileChanged));
}

#[test]
fn last_type_decides_and_data_is_found() {
    let el = node("element", None, vec![node("type", Some("file_created"), vec![]), node("type", Some("other"), vec![])]);
    assert_eq!(element_kind(&el), None);
    let root = node("ocs", None, vec![node("meta", None, vec![]), node("data", None, vec![el])]);
    assert_eq!(data_child(&root).unwrap().children.len(), 1);
    assert!(data_child(&node("ocs", None, vec![])).is_none());
}

#[test]
fn response_texts_take_last_values() {
    let resp = node(
        "response",
        None,
        vec![
            node("href", Some("/remote.php/dav/files/u/a"), vec![]),
            node("href", None, vec![]),
            node(
                "propstat",
                None,
                vec![node("prop", None, vec![node("getetag", Some("\"e1\""), vec![]), node("getcontenttype", None, vec![])])],
            ),
            node("other", None, vec![node("getetag", Some("ignored"), vec![])]),
        ],
    );
    let t = response_texts(&resp);
    assert_eq!(t.href.as_deref(), Some("/remote.php/dav/files/u/a"));
    assert_eq!(t.etag.as_deref(), Some("\"e1\""));
    assert_eq!(t.content_type.as_deref(), Some(""));
    let bare = response_texts(&node("response", None, vec![]));
    assert!(bare.href.is_none() && bare.etag.is_none() && bare.content_type.is_none());
}
