use app_store_scraper::entry::{take_entries, Entry};
use app_store_scraper::error::ScrapeError;
use app_store_scraper::nodes::{
    get_node_attr, get_node_dt, get_node_or_err, get_node_text, get_node_with_attr, get_text,
};
use app_store_scraper::xml::{parse_document, read_written, Node};

fn node(name: &str, attributes: &[(&str, &str)], children: Vec<Node>, text: Option<&str>) -> Node {
    Node {
        prefix: None,
        namespace: None,
        namespaces: None,
        name: name.to_string(),
        attributes: attributes.iter().map(|(k, v)| (k.to_string(), v.to_string())).collect(),
        children,
        text: text.map(|t| t.to_string()),
    }
}

fn sample() -> Node {
    node(
        "entry",
        &[],
        vec![
            node("title", &[], vec![], Some("first")),
            node("title", &[], vec![], Some("second")),
            node("empty", &[], vec![], None),
            node("image", &[("height", "53")], vec![], Some("small")),
            node("image", &[("height", "100")], vec![], Some("large")),
            node("other", &[("height", "100")], vec![], Some("other")),
            node("updated", &[], vec![], Some("2019-07-01T03:04:05-07:00")),
            node("twice", &[("id", "old"), ("id", "new")], vec![], None),
        ],
        None,
    )
}

#[test]
fn the_first_child_of_a_name_is_found() {
    let entry = sample();
    assert_eq!(get_text(get_node_or_err(&entry, "title").unwrap()), Ok("first".to_string()));
    assert_eq!(get_node_text(&entry, "title"), Ok("first".to_string()));
    assert_eq!(
        get_node_or_err(&entry, "missing"),
        Err(ScrapeError::MissingNode { name: "missing".to_string() }),
    );
    assert_eq!(
        get_node_text(&entry, "missing"),
        Err(ScrapeError::MissingNode { name: "missing".to_string() }),
    );
    assert_eq!(
        get_node_text(&entry, "empty"),
        Err(ScrapeError::NoText { name: "empty".to_string() }),
    );
}

#[test]
fn the_first_child_with_an_attribute_is_found() {
    let entry = sample();
    let large = get_node_with_attr(&entry, "image", "height", "100").unwrap();
    assert_eq!(get_text(large), Ok("large".to_string()));
    let missing = ScrapeError::MissingNodeWithAttr {
        name: "image".to_string(),
        attr: "height".to_string(),
        value: "170".to_string(),
    };
    assert_eq!(get_node_with_attr(&entry, "image", "height", "170"), Err(missing));
    assert!(get_node_with_attr(&entry, "title", "height", "100").is_err());
}

#[test]
fn attributes_and_dates_of_children_are_read() {
    let entry = sample();
    assert_eq!(get_node_attr(&entry, "image", "height"), Ok("53".to_string()));
    assert_eq!(get_node_attr(&entry, "image", "width"), Err(ScrapeError::MissingAttr));
    assert_eq!(get_node_attr(&entry, "twice", "id"), Ok("new".to_string()));
    assert_eq!(get_node_dt(&entry, "updated").unwrap().secs(), 1561975445);
    assert_eq!(get_node_dt(&entry, "title"), Err(ScrapeError::BadDate));
    assert!(get_node_dt(&entry, "missing").is_err());
}

#[test]
fn documents_are_read_as_trees() {
    let text = r#"<?xml version="1.0"?>
        <feed xmlns="http://www.w3.org/2005/Atom" xmlns:im="http://itunes.apple.com/rss">
            <!-- a comment -->
            <id>top</id>
            <entry><im:rating>5</im:rating></entry>
            <entry im:kind="x">tail</entry>
        </feed>"#;
    let feed = parse_document(text).unwrap();
    assert_eq!(feed.name, "feed");
    assert_eq!(feed.namespace, Some("http://www.w3.org/2005/Atom".to_string()));
    assert_eq!(feed.prefix, None);
    assert_eq!(feed.children.len(), 3);
    let entries = take_entries(feed).unwrap();
    assert_eq!(entries.len(), 2);
    let rating = &entries[0].node().children[0];
    assert_eq!(rating.name, "rating");
    assert_eq!(rating.prefix, Some("im".to_string()));
    assert_eq!(rating.text, Some("5".to_string()));
    assert_eq!(entries[1].node().attributes, vec![("kind".to_string(), "x".to_string())]);
    assert_eq!(entries[1].node().text, Some("tail".to_string()));
}

#[test]
fn other_texts_are_no_documents() {
    for text in ["", "not xml", "<a>", "<a></b>", "<a/><b/>junk<"].iter() {
        let expected = xmltree::Element::parse(text.as_bytes()).is_ok();
        match parse_document(text) {
            Ok(_) => assert!(expected, "{}", text),
            Err(error) => {
                assert!(!expected, "{}", text);
                assert_eq!(error, ScrapeError::ParseXml);
            }
        }
    }
    assert_eq!(parse_document("not xml"), Err(ScrapeError::ParseXml));
}

#[test]
fn nodes_are_written_as_documents() {
    let entry = node("entry", &[("a", "1 < 2")], vec![node("b", &[], vec![], Some("x & y"))], None);
    let entry = Entry::new(entry).unwrap();
    assert_eq!(
        entry.xml_raw(),
        r#"<?xml version="1.0" encoding="UTF-8"?><entry a="1 &lt; 2"><b>x &amp; y</b></entry>"#,
    );
}

#[test]
fn written_documents_keep_their_namespaces() {
    let text = r#"<im:feed xmlns:im="urn:im" k="v"><im:a>t</im:a><b /></im:feed>"#;
    let feed = Entry::new(parse_document(text).unwrap()).unwrap();
    assert_eq!(&parse_document(feed.xml_raw()).unwrap(), feed.node());
    assert_eq!(
        feed.xml_raw(),
        r#"<?xml version="1.0" encoding="UTF-8"?><im:feed xmlns:im="urn:im" k="v"><im:a>t</im:a><b /></im:feed>"#,
    );
}

#[test]
fn what_was_written_is_read_as_utf8() {
    assert_eq!(read_written(None), Err(ScrapeError::WriteXml));
    assert_eq!(read_written(Some(vec![0x66, 0xff])), Err(ScrapeError::Utf8));
    assert_eq!(read_written(Some("é".as_bytes().to_vec())), Ok("é".to_string()));
}

#[test]
fn the_last_entry_of_a_repeated_key_is_written() {
    let entry = node("a", &[("id", "old"), ("id", "new")], vec![], None);
    assert_eq!(
        Entry::new(entry).unwrap().xml_raw(),
        r#"<?xml version="1.0" encoding="UTF-8"?><a id="new" />"#,
    );
}

#[test]
fn any_node_can_be_written() {
    let odd = Node {
        prefix: Some("no\u{e9}".to_string()),
        namespace: Some("u".to_string()),
        namespaces: Some(vec![("x".to_string(), "y".to_string())]),
        ..node("", &[("", ""), ("k", "\u{0}\"<&>\u{1f600}")], vec![sample()], Some("]]>"))
    };
    let entry = Entry::new(odd).unwrap();
    assert!(entry.xml_raw().contains("\u{1f600}"));
    assert!(entry.xml_raw().starts_with("<?xml"));
    assert_eq!(entry.node().children.len(), 1);
}
