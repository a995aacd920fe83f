use imgproc::pages::{
    attribute, image_source, image_sources, images_from_html, page_height, scroll_step, HtmlElement,
    ScrollStep,
};

fn el(attrs: &[(&str, &str)]) -> HtmlElement {
    HtmlElement { attrs: attrs.iter().map(|(n, v)| (n.to_string(), v.to_string())).collect() }
}

#[test]
fn reported_height_is_used() {
    assert_eq!(page_height(Some(4500)), 4500);
    assert_eq!(page_height(None), 2000);
    assert_eq!(page_height(Some(u64::MAX)), -1);
}

#[test]
fn scrolling_walks_down_in_steps_then_reaches_bottom() {
    assert_eq!(scroll_step(0, 700), ScrollStep::To { position: 0, next: 300 });
    assert_eq!(scroll_step(600, 700), ScrollStep::To { position: 600, next: 900 });
    assert_eq!(scroll_step(900, 700), ScrollStep::Last { position: 700 });
    assert_eq!(scroll_step(0, 0), ScrollStep::Last { position: 0 });
}

#[test]
fn whole_scroll_of_a_page() {
    let mut current = 0;
    let mut visited = Vec::new();
    loop {
        match scroll_step(current, 650) {
            ScrollStep::To { position, next } => {
                visited.push(position);
                current = next;
            }
            ScrollStep::Last { position } => {
                visited.push(position);
                break;
            }
        }
    }
    assert_eq!(visited, vec![0, 300, 600, 650]);
}

#[test]
fn url_attribute_beats_src() {
    let e = el(&[("alt", "x"), ("data-url", "lazy.jpg"), ("src", "small.jpg")]);
    assert_eq!(image_source(&e), Some("lazy.jpg".to_string()));
}

#[test]
fn url_attribute_name_is_matched_regardless_of_case() {
    let e = el(&[("Data-URL", "big.png")]);
    assert_eq!(image_source(&e), Some("big.png".to_string()));
}

#[test]
fn blank_url_attribute_falls_back_to_src() {
    let e = el(&[("data-url", "  \t"), ("src", "s.jpg")]);
    assert_eq!(image_source(&e), Some("s.jpg".to_string()));
}

#[test]
fn first_url_attribute_wins() {
    let e = el(&[("a-url", "one.png"), ("b-url", "two.png")]);
    assert_eq!(image_source(&e), Some("one.png".to_string()));
}

#[test]
fn element_without_url_gives_none() {
    assert_eq!(image_source(&el(&[("alt", "x")])), None);
    assert_eq!(image_source(&el(&[("src", " ")])), None);
}

#[test]
fn sources_keep_document_order() {
    let es = vec![
        el(&[("src", "a.png")]),
        el(&[]),
        el(&[("data-url", "b.png")]),
    ];
    assert_eq!(image_sources(&es), vec!["a.png".to_string(), "b.png".to_string()]);
}

#[test]
fn images_are_found_in_html() {
    let html = r#"<html><body>
        <img src="a.jpg" alt="first">
        <p>text</p>
        <img data-url="lazy.png" src="placeholder.gif">
        <img src="   ">
        <img alt="none">
        <div><img SRC="c.webp"></div>
    </body></html>"#;
    assert_eq!(
        images_from_html(html),
        vec!["a.jpg".to_string(), "lazy.png".to_string(), "c.webp".to_string()]
    );
}

#[test]
fn page_without_images_gives_none() {
    assert!(images_from_html("<html><body><p>hi</p></body></html>").is_empty());
    assert!(images_from_html("").is_empty());
}

#[test]
fn attribute_is_looked_up_by_exact_name() {
    let e = el(&[("alt", "x"), ("src", "a.png"), ("srcset", "b.png")]);
    assert_eq!(attribute(&e, "src").map(|s| s.as_str()), Some("a.png"));
    assert_eq!(attribute(&e, "SRC"), None);
    assert_eq!(attribute(&e, "title"), None);
}

#[test]
fn src_attribute_is_used_when_no_url_attribute() {
    let e = el(&[("alt", "x"), ("src", "a.png")]);
    assert_eq!(image_source(&e), Some("a.png".to_string()));
}
