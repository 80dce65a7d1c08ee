use htmler::Attribute;
use htmler::Html;
use htmler::NodeKind;
use htmler::QuirksMode;
use htmler::Selector;
use htmler::TraversalScope;

// Replays the node tree of an externally parsed document into the library's
// builder, driving the tree-construction contract the way the tokenizer
// would.
fn copy_children(out: &mut Html, parent: usize, node: ego_tree::NodeRef<'_, scraper::Node>) {
    for child in node.children() {
        match child.value() {
            scraper::Node::Document => {}
            scraper::Node::Fragment => {}
            scraper::Node::Doctype(d) => {
                out.append_doctype(
                    d.name().to_string(),
                    d.public_id().to_string(),
                    d.system_id().to_string(),
                );
            }
            scraper::Node::Comment(c) => {
                let id = out.create_comment(c.to_string());
                out.append_child(parent, id);
            }
            scraper::Node::Text(t) => {
                let id = out.create_text(t.to_string());
                out.append_child(parent, id);
            }
            scraper::Node::Element(e) => {
                let mut attrs: Vec<Attribute> = Vec::new();
                for (n, v) in e.attrs() {
                    attrs.push(Attribute {
                        name: n.to_string(),
                        value: v.to_string(),
                    });
                }
                let id = out.create_element(e.name().to_string(), attrs);
                out.append_child(parent, id);
                copy_children(out, id, child);
            }
            scraper::Node::ProcessingInstruction(pi) => {
                let id = out.create_processing_instruction(pi.data.to_string());
                out.append_child(parent, id);
            }
        }
    }
}

fn replay(src: &scraper::Html, document: bool) -> Html {
    let mut out = if document {
        Html::new_document()
    } else {
        Html::new_fragment()
    };
    out.set_quirks_mode(match src.quirks_mode {
        html5ever::tree_builder::QuirksMode::Quirks => QuirksMode::Quirks,
        html5ever::tree_builder::QuirksMode::LimitedQuirks => QuirksMode::LimitedQuirks,
        html5ever::tree_builder::QuirksMode::NoQuirks => QuirksMode::NoQuirks,
    });
    for err in &src.errors {
        out.parse_error(err.to_string());
    }
    copy_children(&mut out, 0, src.tree.root());
    out
}

fn parse_document(text: &str) -> Html {
    replay(&scraper::Html::parse_document(text), true)
}

fn parse_fragment(text: &str) -> Html {
    replay(&scraper::Html::parse_fragment(text), false)
}

fn attr_of(html: &Html, id: usize, name: &str) -> Option<String> {
    match &html.nodes[id].kind {
        NodeKind::Element(e) => e.get_attribute(name).map(|v| v.to_string()),
        _ => None,
    }
}

// The ordered element structure of a tree: each element's tag name with its
// attribute set, sorted by name.
fn element_outline(html: &Html) -> Vec<(String, Vec<(String, String)>)> {
    let mut out = Vec::new();
    for node in &html.nodes {
        if let NodeKind::Element(e) = &node.kind {
            let mut attrs: Vec<(String, String)> = Vec::new();
            for a in &e.attrs {
                attrs.push((a.name.clone(), a.value.clone()));
            }
            attrs.sort();
            out.push((e.name.clone(), attrs));
        }
    }
    out
}

#[test]
fn ready() {
    println!("it works!")
}

#[test]
fn root_element_fragment() {
    let html = parse_fragment(r#"<a href="http://github.com">1</a>"#);
    let root_ref = html.root_element().unwrap();
    let selector = Selector::try_parse("a").unwrap();
    let href = html.select_in(root_ref, &selector).next().unwrap();
    assert_eq!(html.inner_html(href), "1");
    assert_eq!(
        attr_of(&html, href, "href").unwrap(),
        "http://github.com"
    );
}

#[test]
fn root_element_document_doctype() {
    let html = parse_document("<!DOCTYPE html>\n<title>abc</title>");
    let root_ref = html.root_element().unwrap();
    let selector = Selector::try_parse("title").unwrap();
    let title = html.select_in(root_ref, &selector).next().unwrap();
    assert_eq!(html.inner_html(title), "abc");
}

#[test]
fn root_element_document_comment() {
    let html = parse_document("<!-- comment --><title>abc</title>");
    let root_ref = html.root_element().unwrap();
    let selector = Selector::try_parse("title").unwrap();
    let title = html.select_in(root_ref, &selector).next().unwrap();
    assert_eq!(html.inner_html(title), "abc");
}

#[test]
fn select_is_reversible() {
    let html = parse_document("<p>element1</p><p>element2</p><p>element3</p>");
    let selector = Selector::try_parse("p").unwrap();
    let result: Vec<String> = html
        .select(&selector)
        .collect_ids_back()
        .into_iter()
        .map(|id| html.inner_html(id))
        .collect();
    assert_eq!(result, vec!["element3", "element2", "element1"]);
}

#[test]
fn select_has_a_size_hint() {
    let html = parse_document("<p>element1</p><p>element2</p><p>element3</p>");
    let selector = Selector::try_parse("p").unwrap();
    let (lower, upper) = html.select(&selector).size_hint();
    assert_eq!(lower, 0);
    assert_eq!(upper, Some(10));
}

#[test]
fn forward_selection_is_document_order() {
    let html = parse_document("<p>element1</p><p>element2</p><p>element3</p>");
    let selector = Selector::try_parse("p").unwrap();
    let forward: Vec<String> = html
        .select(&selector)
        .collect_ids()
        .into_iter()
        .map(|id| html.inner_html(id))
        .collect();
    assert_eq!(forward, vec!["element1", "element2", "element3"]);
    let mut backward: Vec<String> = html
        .select(&selector)
        .collect_ids_back()
        .into_iter()
        .map(|id| html.inner_html(id))
        .collect();
    backward.reverse();
    assert_eq!(forward, backward);
}

#[test]
fn reparse_of_serialization_keeps_structure() {
    let text = r#"<div id="a" class="x y"><p lang="en">one &amp; two</p><img src="u"></div><p>tail</p>"#;
    let first = parse_document(text);
    let rendered = first.as_html();
    let second = parse_document(&rendered);
    assert_eq!(element_outline(&first), element_outline(&second));
}

#[test]
fn nth_child_odd_positions() {
    let html = parse_document("<ul><li>1</li><li>2</li><li>3</li><li>4</li><li>5</li></ul>");
    let selector = Selector::try_parse("li:nth-child(2n+1)").unwrap();
    let picked: Vec<String> = html
        .select(&selector)
        .collect_ids()
        .into_iter()
        .map(|id| html.inner_html(id))
        .collect();
    assert_eq!(picked, vec!["1", "3", "5"]);
}

#[test]
fn nth_child_exact_position() {
    let html = parse_document("<ul><li>1</li><li>2</li><li>3</li></ul>");
    let selector = Selector::try_parse("li:nth-child(2)").unwrap();
    let picked: Vec<String> = html
        .select(&selector)
        .collect_ids()
        .into_iter()
        .map(|id| html.inner_html(id))
        .collect();
    assert_eq!(picked, vec!["2"]);
}

#[test]
fn first_and_last_child() {
    let html = parse_document("<ul><li>1</li><li>2</li><li>3</li></ul>");
    let first = Selector::try_parse("li:first-child").unwrap();
    let last = Selector::try_parse("li:last-child").unwrap();
    let f: Vec<usize> = html.select(&first).collect_ids();
    let l: Vec<usize> = html.select(&last).collect_ids();
    assert_eq!(f.len(), 1);
    assert_eq!(l.len(), 1);
    assert_eq!(html.inner_html(f[0]), "1");
    assert_eq!(html.inner_html(l[0]), "3");
}

#[test]
fn combinators_match() {
    let html = parse_document(
        r#"<div class="outer"><span id="a">x</span><b>y</b><i>z</i></div><span>free</span>"#,
    );
    let child = Selector::try_parse("div > span").unwrap();
    assert_eq!(html.select(&child).collect_ids().len(), 1);
    let descendant = Selector::try_parse("body span").unwrap();
    assert_eq!(html.select(&descendant).collect_ids().len(), 2);
    let adjacent = Selector::try_parse("span + b").unwrap();
    assert_eq!(html.select(&adjacent).collect_ids().len(), 1);
    let sibling = Selector::try_parse("span ~ i").unwrap();
    assert_eq!(html.select(&sibling).collect_ids().len(), 1);
}

#[test]
fn tag_matching_is_case_insensitive() {
    let html = parse_document("<p>x</p>");
    let upper = Selector::try_parse("P").unwrap();
    assert_eq!(html.select(&upper).collect_ids().len(), 1);
}

#[test]
fn class_and_id_and_attribute_tests() {
    let html = parse_document(r#"<div id="main" class="foo bar" data-k="v">x</div>"#);
    assert_eq!(
        html.select(&Selector::try_parse(".foo").unwrap())
            .collect_ids()
            .len(),
        1
    );
    assert_eq!(
        html.select(&Selector::try_parse(".fo").unwrap())
            .collect_ids()
            .len(),
        0
    );
    assert_eq!(
        html.select(&Selector::try_parse(".FOO").unwrap())
            .collect_ids()
            .len(),
        0
    );
    assert_eq!(
        html.select(&Selector::try_parse("#main").unwrap())
            .collect_ids()
            .len(),
        1
    );
    assert_eq!(
        html.select(&Selector::try_parse("[data-k]").unwrap())
            .collect_ids()
            .len(),
        1
    );
    assert_eq!(
        html.select(&Selector::try_parse("[data-k=v]").unwrap())
            .collect_ids()
            .len(),
        1
    );
    assert_eq!(
        html.select(&Selector::try_parse("[data-k=w]").unwrap())
            .collect_ids()
            .len(),
        0
    );
}

#[test]
fn malformed_selector_is_a_syntax_error() {
    assert!(Selector::try_parse("[unclosed").is_err());
    assert!(Selector::try_parse("").is_err());
    assert!(Selector::try_parse("div >").is_err());
    assert!(Selector::try_parse(":nth-child(2n+)").is_err());
    assert!(Selector::try_parse("p..q").is_err());
}

#[test]
fn selector_error_carries_the_text() {
    match Selector::try_parse("[oops") {
        Ok(_) => panic!("expected a syntax error"),
        Err(e) => assert_eq!(e.text, "[oops"),
    }
}

#[test]
fn builder_coalesces_adjacent_text() {
    let mut html = Html::new_document();
    let p = html.create_element("p".to_string(), Vec::new());
    html.append_child(0, p);
    html.append_text(p, "hello ".to_string());
    html.append_text(p, "world".to_string());
    assert_eq!(html.children(p).len(), 1);
    assert_eq!(html.inner_html(p), "hello world");
}

#[test]
fn builder_append_before_sibling() {
    let mut html = Html::new_document();
    let a = html.create_element("a".to_string(), Vec::new());
    html.append_child(0, a);
    let b = html.create_element("b".to_string(), Vec::new());
    html.append_child(0, b);
    let c = html.create_element("c".to_string(), Vec::new());
    html.append_before_sibling(b, c);
    assert_eq!(html.children(0).as_slice(), &[a, c, b]);
    assert_eq!(html.as_html(), "<a></a><c></c><b></b>");
}

#[test]
fn builder_diagnostics_and_modes() {
    let mut html = Html::new_fragment();
    assert_eq!(html.get_document(), 0);
    assert!(html.same_node(0, 0));
    assert!(!html.same_node(0, 1));
    html.parse_error("bad tag".to_string());
    html.parse_error("worse tag".to_string());
    assert_eq!(html.errors.len(), 2);
    assert_eq!(html.errors[0], "bad tag");
    html.set_quirks_mode(QuirksMode::Quirks);
    assert_eq!(html.quirks_mode, QuirksMode::Quirks);
}

#[test]
fn serializer_escapes_text_and_attributes() {
    let mut html = Html::new_document();
    let p = html.create_element(
        "p".to_string(),
        vec![Attribute {
            name: "t".to_string(),
            value: "a\"b&c".to_string(),
        }],
    );
    html.append_child(0, p);
    html.append_text(p, "1 < 2 & 3 > 0".to_string());
    assert_eq!(
        html.as_html(),
        "<p t=\"a&quot;b&amp;c\">1 &lt; 2 &amp; 3 &gt; 0</p>"
    );
}

#[test]
fn serializer_handles_void_raw_comment_doctype() {
    let html = parse_document("<!DOCTYPE html><script>if (a < b) x();</script><br><!--note-->");
    let rendered = html.as_html();
    assert!(rendered.starts_with("<!DOCTYPE html>"));
    assert!(rendered.contains("<script>if (a < b) x();</script>"));
    assert!(rendered.contains("<br>"));
    assert!(!rendered.contains("</br>"));
    assert!(rendered.contains("<!--note-->"));
}

#[test]
fn serialize_scope_distinguishes_node_and_children() {
    let html = parse_fragment("<p>x</p>");
    let sel = Selector::try_parse("p").unwrap();
    let p = html.select(&sel).next().unwrap();
    assert_eq!(html.serialize(p, TraversalScope::IncludeNode), "<p>x</p>");
    assert_eq!(html.serialize(p, TraversalScope::ChildrenOnly), "x");
}

#[test]
fn descendants_are_in_document_order() {
    let html = parse_document("<div><p>a</p><p>b</p></div>");
    let sel = Selector::try_parse("div").unwrap();
    let div = html.select(&sel).next().unwrap();
    let subtree = html.descendants(div);
    assert_eq!(subtree.len(), 5);
    assert_eq!(subtree[0], div);
    let names: Vec<String> = subtree
        .into_iter()
        .filter_map(|id| match &html.nodes[id].kind {
            NodeKind::Element(e) => Some(e.name.clone()),
            _ => None,
        })
        .collect();
    assert_eq!(names, vec!["div", "p", "p"]);
}

#[test]
fn attribute_value_case_flag() {
    let html = parse_document(r#"<div data-k="Value">x</div>"#);
    assert_eq!(
        html.select(&Selector::try_parse("[data-k=value]").unwrap())
            .collect_ids()
            .len(),
        0
    );
    assert_eq!(
        html.select(&Selector::try_parse("[data-k=value i]").unwrap())
            .collect_ids()
            .len(),
        1
    );
    assert_eq!(
        html.select(&Selector::try_parse("[DATA-K=Value]").unwrap())
            .collect_ids()
            .len(),
        1
    );
}
