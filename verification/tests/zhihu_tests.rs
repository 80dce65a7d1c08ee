use htmler::Attribute;
use htmler::Html;
use htmler::ZhihuAnswer;
use htmler::ZhihuArticle;

fn element(html: &mut Html, parent: usize, name: &str, attrs: &[(&str, &str)]) -> usize {
    let mut list: Vec<Attribute> = Vec::new();
    for (n, v) in attrs {
        list.push(Attribute {
            name: n.to_string(),
            value: v.to_string(),
        });
    }
    let id = html.create_element(name.to_string(), list);
    html.append_child(parent, id);
    id
}

fn text(html: &mut Html, parent: usize, value: &str) -> usize {
    let id = html.create_text(value.to_string());
    html.append_child(parent, id);
    id
}

// A small article page: a post title and one rich-text block.
fn article_page() -> Html {
    let mut html = Html::new_document();
    let h1 = element(&mut html, 0, "h1", &[("class", "Post-Title")]);
    text(&mut html, h1, "My Title");
    let span = element(
        &mut html,
        0,
        "span",
        &[("class", "CopyrightRichText-richText")],
    );
    let p = element(&mut html, span, "p", &[]);
    text(&mut html, p, "  hello world  ");
    element(&mut html, span, "br", &[]);
    let math = element(
        &mut html,
        span,
        "span",
        &[("class", "ztext-math"), ("data-tex", "x^2")],
    );
    text(&mut html, math, "ignored");
    let fig = element(&mut html, span, "figure", &[]);
    element(
        &mut html,
        fig,
        "noscript",
        &[("class", "img"), ("data-original", "http://img")],
    );
    html
}

#[test]
fn article_extracts_title_and_content() {
    let html = article_page();
    let mut article = ZhihuArticle::default();
    assert!(article.do_parse(&html).is_ok());
    assert_eq!(article.title().as_str(), "My Title");
    assert_eq!(
        article.content().as_str(),
        "hello world\n\n\n $$x^2$$ ![](http://img)"
    );
    assert_eq!(
        article.to_markdown(),
        "# My Title\n\nhello world\n\n\n $$x^2$$ ![](http://img)"
    );
}

#[test]
fn article_title_defaults_to_empty() {
    let html = Html::new_document();
    let mut article = ZhihuArticle::default();
    assert!(article.do_parse(&html).is_ok());
    assert_eq!(article.title().as_str(), "");
    assert_eq!(article.content().as_str(), "");
}

#[test]
fn answer_extracts_question_header() {
    let mut html = Html::new_document();
    let h1 = element(&mut html, 0, "h1", &[("class", "QuestionHeader-title")]);
    text(&mut html, h1, "Why?");
    let span = element(
        &mut html,
        0,
        "span",
        &[("class", "CopyrightRichText-richText")],
    );
    let p = element(&mut html, span, "p", &[]);
    text(&mut html, p, "because");
    let mut answer = ZhihuAnswer::new();
    assert!(answer.parse(&html).is_ok());
    assert_eq!(answer.title().as_str(), "Why?");
    assert_eq!(answer.content().as_str(), "because\n\n");
}

#[test]
fn answer_walk_stops_at_unknown_element() {
    let mut html = Html::new_document();
    let span = element(
        &mut html,
        0,
        "span",
        &[("class", "CopyrightRichText-richText")],
    );
    let p = element(&mut html, span, "p", &[]);
    text(&mut html, p, "kept");
    // the answer walker has no rule for line breaks: the walk ends there
    element(&mut html, span, "br", &[]);
    let q = element(&mut html, span, "p", &[]);
    text(&mut html, q, "dropped");
    let mut answer = ZhihuAnswer::new();
    assert!(answer.parse(&html).is_ok());
    assert_eq!(answer.content().as_str(), "kept\n\n");
}

#[test]
fn answer_title_survives_missing_header() {
    let html = Html::new_document();
    let mut answer = ZhihuAnswer::new();
    assert!(answer.parse(&html).is_ok());
    assert_eq!(answer.title().as_str(), "");
    assert_eq!(answer.to_markdown(), "# \n\n");
}
