//! Discovering the images of a web page: how the page is scrolled so
//! that lazy images load, and which URL each `<img>` element yields.

use vstd::prelude::*;
use crate::text::{blank, contains, contains_seq, is_blank, lowercase, str_eq, unicode_lowercase};

verus! {

/// How far the page is scrolled down between two pauses.
pub const SCROLL_STEP: i64 = 300;

/// The page height assumed when the browser reports none.
pub const DEFAULT_PAGE_HEIGHT: u64 = 2000;

/// The height to scroll through, from the height the browser reported
/// (`None` when it reported no unsigned integer), taken as a signed
/// 64-bit number.
pub fn page_height(reported: Option<u64>) -> (h: i64)
    ensures
        h == match reported {
            Some(v) => v as i64,
            None => DEFAULT_PAGE_HEIGHT as i64,
        },
{
    let v = match reported {
        Some(v) => v,
        None => DEFAULT_PAGE_HEIGHT,
    };
    #[verifier::truncate]
    (v as i64)
}

/// The next scroll of the page, from the current position.
#[derive(PartialEq, Eq, Structural, Debug)]
pub enum ScrollStep {
    /// Scroll to `position`, pause, and continue from `next`.
    To { position: i64, next: i64 },
    /// Scroll to the bottom, `position`, pause longer, and stop.
    Last { position: i64 },
}

/// The positions a page of height `total` is scrolled to, starting at
/// `current`: each position above the bottom, one step apart, then the
/// bottom itself.
pub open spec fn scroll_walk(current: int, total: int) -> Seq<int>
    decreases (if current < total { total - current } else { 0 }),
{
    if current < total {
        seq![current] + scroll_walk(current + SCROLL_STEP, total)
    } else {
        seq![total]
    }
}

/// How many steps are taken before the last scroll, from `current`.
pub open spec fn scroll_count(current: int, total: int) -> int {
    if current < total {
        (total - current + SCROLL_STEP - 1) / SCROLL_STEP as int
    } else {
        0
    }
}

/// The walk from `current` takes one step per multiple of the step size
/// below the bottom, `current`, `current + 300`, …, and then scrolls to the
/// bottom.
pub proof fn lemma_scroll_walk(current: int, total: int)
    ensures
        scroll_walk(current, total).len() == scroll_count(current, total) + 1,
        forall|k: int|
            0 <= k < scroll_count(current, total) ==> #[trigger] scroll_walk(current, total)[k]
                == current + SCROLL_STEP * k && current + SCROLL_STEP * k < total,
        scroll_walk(current, total).last() == total,
    decreases (if current < total { total - current } else { 0 }),
{
    if current < total {
        let next = current + SCROLL_STEP;
        lemma_scroll_walk(next, total);
        assert(scroll_count(current, total) == scroll_count(next, total) + 1) by {
            if next < total {
                assert((total - current + 299) / 300 == (total - next + 299) / 300 + 1) by (nonlinear_arith)
                    requires next == current + 300;
            } else {
                assert((total - current + 299) / 300 == 1) by (nonlinear_arith)
                    requires 0 < total - current <= 300;
            }
        }
        let w = scroll_walk(current, total);
        assert forall|k: int| 0 <= k < scroll_count(current, total) implies #[trigger] w[k]
            == current + SCROLL_STEP * k && current + SCROLL_STEP * k < total by {
            if k > 0 {
                assert(w[k] == scroll_walk(next, total)[k - 1]);
            }
        }
    }
}

/// Scrolling a page of height `total` from the top visits 0, 300, 600, …,
/// every multiple of the step below the height, and then the height.
pub proof fn lemma_scroll_from_top(total: int)
    ensures
        scroll_walk(0, total).len() == scroll_count(0, total) + 1,
        forall|k: int|
            0 <= k < scroll_count(0, total) ==> #[trigger] scroll_walk(0, total)[k] == SCROLL_STEP * k
                && SCROLL_STEP * k < total,
        scroll_walk(0, total).last() == total,
{
    lemma_scroll_walk(0, total);
}

/// One step of scrolling a page of height `total` from `current`: while
/// the position is above the bottom the page is scrolled there and the
/// position moves down by one step; then a last scroll reaches the bottom.
pub fn scroll_step(current: i64, total: i64) -> (s: ScrollStep)
    requires
        current < total ==> current + SCROLL_STEP <= i64::MAX,
    ensures
        current < total ==> s == (ScrollStep::To { position: current, next: (current + SCROLL_STEP) as i64 }),
        current >= total ==> s == (ScrollStep::Last { position: total }),
        match s {
            ScrollStep::To { position, next } => scroll_walk(current as int, total as int)
                == seq![position as int] + scroll_walk(next as int, total as int),
            ScrollStep::Last { position } => scroll_walk(current as int, total as int) == seq![position as int],
        },
{
    if current < total {
        ScrollStep::To { position: current, next: current + SCROLL_STEP }
    } else {
        ScrollStep::Last { position: total }
    }
}

/// An HTML element as the parser reports its attributes: name and value
/// pairs, in the parser's order.
pub struct HtmlElement {
    pub attrs: Vec<(String, String)>,
}

/// An attribute as the characters of its name and value.
pub open spec fn attr_chars(a: (String, String)) -> (Seq<char>, Seq<char>) {
    (a.0@, a.1@)
}

/// An optional string as its characters.
pub open spec fn opt_string_chars(s: Option<String>) -> Option<Seq<char>> {
    match s {
        Some(s) => Some(s@),
        None => None,
    }
}

impl View for HtmlElement {
    type V = Seq<(Seq<char>, Seq<char>)>;

    open spec fn view(&self) -> Self::V {
        self.attrs@.map_values(|a: (String, String)| attr_chars(a))
    }
}

/// The views of a sequence of elements.
pub open spec fn elements_view(es: Seq<HtmlElement>) -> Seq<Seq<(Seq<char>, Seq<char>)>> {
    es.map_values(|e: HtmlElement| e@)
}

/// The elements of an HTML document that a CSS selector matches, in
/// document order, each as its attributes; `None` when the selector does
/// not parse.
pub uninterp spec fn html_selected_elements(html: Seq<char>, selector: Seq<char>) -> Option<Seq<Seq<(Seq<char>, Seq<char>)>>>;

/// Calls `scraper::Selector::parse` on `selector`, `scraper::Html::parse_document`
/// on `html` and `Html::select`, and reads each selected element's
/// `attrs()`. Trusted: the result depends on `html` and `selector` alone
/// (scraper keeps an element's attributes sorted by name) and is named
/// `html_selected_elements`; nothing is claimed of its content.
#[verifier::external_body]
fn selected_elements(html: &str, selector: &str) -> (r: Option<Vec<HtmlElement>>)
    ensures
        r matches Some(es) ==> html_selected_elements(html@, selector@) == Some(elements_view(es@)),
        r is None ==> html_selected_elements(html@, selector@) is None,
{
    let selector = match scraper::Selector::parse(selector) {
        Ok(s) => s,
        Err(_) => return None,
    };
    let document = scraper::Html::parse_document(html);
    Some(document.select(&selector).map(|e| HtmlElement {
        attrs: e.value().attrs().map(|(n, v)| (n.to_string(), v.to_string())).collect(),
    }).collect())
}

/// The value of the first attribute called `name`.
pub open spec fn attr_value(attrs: Seq<(Seq<char>, Seq<char>)>, name: Seq<char>) -> Option<Seq<char>>
    decreases attrs.len(),
{
    if attrs.len() == 0 {
        None
    } else if attrs[0].0 == name {
        Some(attrs[0].1)
    } else {
        attr_value(attrs.drop_first(), name)
    }
}

/// An attribute that gives an image URL: its lowercased name contains
/// `url` and its value is not blank.
pub open spec fn is_url_attribute(a: (Seq<char>, Seq<char>)) -> bool {
    contains_seq(unicode_lowercase(a.0), "url"@) && !is_blank(a.1)
}

/// The value of the first attribute that gives an image URL.
pub open spec fn first_url_attribute(attrs: Seq<(Seq<char>, Seq<char>)>) -> Option<Seq<char>>
    decreases attrs.len(),
{
    if attrs.len() == 0 {
        None
    } else if is_url_attribute(attrs[0]) {
        Some(attrs[0].1)
    } else {
        first_url_attribute(attrs.drop_first())
    }
}

/// The image URL of an `<img>` element: the first attribute that gives a
/// URL, else its `src` when that is not blank.
pub open spec fn element_image(attrs: Seq<(Seq<char>, Seq<char>)>) -> Option<Seq<char>> {
    match first_url_attribute(attrs) {
        Some(u) => Some(u),
        None => match attr_value(attrs, "src"@) {
            Some(s) => if is_blank(s) { None } else { Some(s) },
            None => None,
        },
    }
}

/// The image URLs of a sequence of `<img>` elements, in order, skipping
/// those that give none.
pub open spec fn page_images(es: Seq<Seq<(Seq<char>, Seq<char>)>>) -> Seq<Seq<char>>
    decreases es.len(),
{
    if es.len() == 0 {
        Seq::empty()
    } else {
        let rest = page_images(es.drop_last());
        match element_image(es.last()) {
            Some(u) => rest.push(u),
            None => rest,
        }
    }
}

/// The first attribute that gives an image URL is the one taken: if the
/// attribute at `j` gives one and none before it does, its value is the
/// element's first URL attribute; if none does, there is none.
pub proof fn lemma_first_url_attribute(attrs: Seq<(Seq<char>, Seq<char>)>)
    ensures
        forall|j: int|
            0 <= j < attrs.len() && is_url_attribute(#[trigger] attrs[j])
                && (forall|i: int| 0 <= i < j ==> !is_url_attribute(attrs[i]))
                ==> first_url_attribute(attrs) == Some(attrs[j].1),
        (forall|i: int| 0 <= i < attrs.len() ==> !is_url_attribute(#[trigger] attrs[i]))
            ==> first_url_attribute(attrs) is None,
    decreases attrs.len(),
{
    if attrs.len() > 0 {
        let t = attrs.drop_first();
        lemma_first_url_attribute(t);
        assert forall|j: int|
            0 <= j < attrs.len() && is_url_attribute(#[trigger] attrs[j])
                && (forall|i: int| 0 <= i < j ==> !is_url_attribute(attrs[i]))
                implies first_url_attribute(attrs) == Some(attrs[j].1) by {
            if j > 0 {
                assert(!is_url_attribute(attrs[0]));
                assert(t[j - 1] == attrs[j]);
                assert forall|i: int| 0 <= i < j - 1 implies !is_url_attribute(t[i]) by {
                    assert(t[i] == attrs[i + 1]);
                }
            }
        }
        if forall|i: int| 0 <= i < attrs.len() ==> !is_url_attribute(#[trigger] attrs[i]) {
            assert(!is_url_attribute(attrs[0]));
            assert forall|i: int| 0 <= i < t.len() implies !is_url_attribute(#[trigger] t[i]) by {
                assert(t[i] == attrs[i + 1]);
            }
        }
    }
}

/// An attribute is looked up by its first occurrence: if the attribute at
/// `j` is called `name` and none before it is, its value is the one found;
/// if none is called `name`, nothing is found.
pub proof fn lemma_attr_value(attrs: Seq<(Seq<char>, Seq<char>)>, name: Seq<char>)
    ensures
        forall|j: int|
            0 <= j < attrs.len() && (#[trigger] attrs[j]).0 == name
                && (forall|i: int| 0 <= i < j ==> attrs[i].0 != name)
                ==> attr_value(attrs, name) == Some(attrs[j].1),
        (forall|i: int| 0 <= i < attrs.len() ==> (#[trigger] attrs[i]).0 != name)
            ==> attr_value(attrs, name) is None,
    decreases attrs.len(),
{
    if attrs.len() > 0 {
        let t = attrs.drop_first();
        lemma_attr_value(t, name);
        assert forall|j: int|
            0 <= j < attrs.len() && (#[trigger] attrs[j]).0 == name
                && (forall|i: int| 0 <= i < j ==> attrs[i].0 != name)
                implies attr_value(attrs, name) == Some(attrs[j].1) by {
            if j > 0 {
                assert(attrs[0].0 != name);
                assert(t[j - 1] == attrs[j]);
                assert forall|i: int| 0 <= i < j - 1 implies t[i].0 != name by {
                    assert(t[i] == attrs[i + 1]);
                }
            }
        }
        if forall|i: int| 0 <= i < attrs.len() ==> (#[trigger] attrs[i]).0 != name {
            assert(attrs[0].0 != name);
            assert forall|i: int| 0 <= i < t.len() implies (#[trigger] t[i]).0 != name by {
                assert(t[i] == attrs[i + 1]);
            }
        }
    }
}

/// The image URL of an element: the value of its first attribute whose
/// lowercased name contains `url` and whose value is not blank; when it has
/// none, the value of its first `src` attribute unless that is blank.
pub proof fn lemma_element_image_rule(attrs: Seq<(Seq<char>, Seq<char>)>)
    ensures
        forall|j: int|
            0 <= j < attrs.len() && is_url_attribute(#[trigger] attrs[j])
                && (forall|i: int| 0 <= i < j ==> !is_url_attribute(attrs[i]))
                ==> element_image(attrs) == Some(attrs[j].1),
        forall|j: int|
            0 <= j < attrs.len() && (#[trigger] attrs[j]).0 == "src"@
                && (forall|i: int| 0 <= i < j ==> attrs[i].0 != "src"@)
                && (forall|i: int| 0 <= i < attrs.len() ==> !is_url_attribute(attrs[i]))
                ==> element_image(attrs) == if is_blank(attrs[j].1) { None } else { Some(attrs[j].1) },
        (forall|i: int| 0 <= i < attrs.len() ==> !is_url_attribute(#[trigger] attrs[i]) && attrs[i].0 != "src"@)
            ==> element_image(attrs) is None,
{
    lemma_first_url_attribute(attrs);
    lemma_attr_value(attrs, "src"@);
}

/// The elements of `es` that give an image URL, in order.
pub open spec fn elements_with_images(es: Seq<Seq<(Seq<char>, Seq<char>)>>) -> Seq<Seq<(Seq<char>, Seq<char>)>> {
    es.filter(|e: Seq<(Seq<char>, Seq<char>)>| element_image(e) is Some)
}

/// Adding an element to the end of a page adds its image URL, if it gives
/// one, to the end of the page's image URLs, however many there are.
pub proof fn lemma_page_images_push(es: Seq<Seq<(Seq<char>, Seq<char>)>>, e: Seq<(Seq<char>, Seq<char>)>)
    ensures
        page_images(es.push(e)) == match element_image(e) {
            Some(u) => page_images(es).push(u),
            None => page_images(es),
        },
{
    assert(es.push(e).drop_last() =~= es);
}

/// A page's image URLs are one per element that gives an image, with no
/// limit: every element's URL is among them, and each of them is some
/// element's URL.
pub proof fn lemma_page_images_complete(es: Seq<Seq<(Seq<char>, Seq<char>)>>)
    ensures
        page_images(es).len() == elements_with_images(es).len(),
        page_images(es).len() <= es.len(),
        forall|k: int|
            0 <= k < es.len() && (#[trigger] element_image(es[k])) is Some
                ==> page_images(es).contains(element_image(es[k])->0),
        forall|j: int|
            0 <= j < page_images(es).len() ==> exists|k: int|
                0 <= k < es.len() && #[trigger] element_image(es[k]) == Some(#[trigger] page_images(es)[j]),
    decreases es.len(),
{
    reveal_with_fuel(Seq::<_>::filter, 1);
    if es.len() > 0 {
        let d = es.drop_last();
        lemma_page_images_complete(d);
        let rest = page_images(d);
        let all = page_images(es);
        assert forall|k: int|
            0 <= k < es.len() && (#[trigger] element_image(es[k])) is Some
                implies all.contains(element_image(es[k])->0) by {
            if k < es.len() - 1 {
                assert(d[k] == es[k]);
                let i = choose|i: int| 0 <= i < rest.len() && rest[i] == element_image(d[k])->0;
                assert(all[i] == rest[i]);
            } else {
                assert(all[all.len() - 1] == element_image(es[k])->0);
            }
        }
        assert forall|j: int| 0 <= j < all.len() implies exists|k: int|
            0 <= k < es.len() && #[trigger] element_image(es[k]) == Some(#[trigger] all[j]) by {
            if j < rest.len() {
                assert(all[j] == rest[j]);
                let k = choose|k: int| 0 <= k < d.len() && #[trigger] element_image(d[k]) == Some(rest[j]);
                assert(es[k] == d[k]);
            } else {
                assert(element_image(es[es.len() - 1]) == Some(all[j]));
            }
        }
    }
}

/// The value of the first attribute of `element` called `name`.
pub fn attribute<'a>(element: &'a HtmlElement, name: &str) -> (r: Option<&'a String>)
    ensures
        match r {
            Some(v) => attr_value(element@, name@) == Some(v@),
            None => attr_value(element@, name@) is None,
        },
{
    let ghost attrs = element@;
    let n = element.attrs.len();
    let mut i: usize = 0;
    assert(attrs.skip(0) =~= attrs);
    while i < n
        invariant
            n == element.attrs@.len(),
            attrs == element@,
            i <= n,
            attr_value(attrs, name@) == attr_value(attrs.skip(i as int), name@),
        decreases n - i,
    {
        assert(attrs.skip(i as int)[0] == attrs[i as int]);
        assert(attrs.skip(i as int).drop_first() =~= attrs.skip(i + 1));
        if str_eq(element.attrs[i].0.as_str(), name) {
            return Some(&element.attrs[i].1);
        }
        i = i + 1;
    }
    assert(attrs.skip(n as int).len() == 0);
    None
}

/// The image URL an `<img>` element gives, if any.
pub fn image_source(element: &HtmlElement) -> (r: Option<String>)
    ensures
        opt_string_chars(r) == element_image(element@),
{
    let ghost attrs = element@;
    let n = element.attrs.len();
    let mut i: usize = 0;
    assert(attrs.skip(0) =~= attrs);
    while i < n
        invariant
            n == element.attrs@.len(),
            attrs == element@,
            i <= n,
            first_url_attribute(attrs) == first_url_attribute(attrs.skip(i as int)),
        decreases n - i,
    {
        assert(attrs.skip(i as int)[0] == attrs[i as int]);
        assert(attrs.skip(i as int).drop_first() =~= attrs.skip(i + 1));
        let name = lowercase(element.attrs[i].0.as_str());
        if contains(name.as_str(), "url") && !blank(element.attrs[i].1.as_str()) {
            return Some(element.attrs[i].1.clone());
        }
        i = i + 1;
    }
    assert(attrs.skip(n as int).len() == 0);
    match attribute(element, "src") {
        Some(s) => if blank(s.as_str()) {
            None
        } else {
            Some(s.clone())
        },
        None => None,
    }
}

/// The image URLs that a sequence of `<img>` elements gives, in order.
pub fn image_sources(elements: &Vec<HtmlElement>) -> (r: Vec<String>)
    ensures
        r@.map_values(|s: String| s@) == page_images(elements_view(elements@)),
        r@.len() == elements_with_images(elements_view(elements@)).len(),
        forall|k: int|
            0 <= k < elements@.len() && (#[trigger] element_image(elements@[k]@)) is Some
                ==> r@.map_values(|s: String| s@).contains(element_image(elements@[k]@)->0),
{
    let ghost es = elements_view(elements@);
    let mut out: Vec<String> = Vec::new();
    let mut i: usize = 0;
    while i < elements.len()
        invariant
            i <= elements.len(),
            es == elements_view(elements@),
            out@.map_values(|s: String| s@) == page_images(es.take(i as int)),
        decreases elements.len() - i,
    {
        assert(es.take(i + 1).drop_last() =~= es.take(i as int));
        assert(es.take(i + 1).last() == elements@[i as int]@);
        match image_source(&elements[i]) {
            Some(u) => {
                out.push(u);
                assert(out@.map_values(|s: String| s@) =~= page_images(es.take(i as int)).push(u@));
            },
            None => {},
        }
        i = i + 1;
    }
    assert(es.take(elements.len() as int) =~= es);
    proof {
        lemma_page_images_complete(es);
        assert forall|k: int|
            0 <= k < elements@.len() && (#[trigger] element_image(elements@[k]@)) is Some
                implies out@.map_values(|s: String| s@).contains(element_image(elements@[k]@)->0) by {
            assert(es[k] == elements@[k]@);
        }
    }
    out
}

/// The image URLs of an HTML page: one per `<img>` element that gives
/// one, in document order.
pub fn images_from_html(html: &str) -> (r: Vec<String>)
    ensures
        r@.map_values(|s: String| s@) == match html_selected_elements(html@, "img"@) {
            Some(es) => page_images(es),
            None => Seq::empty(),
        },
{
    match selected_elements(html, "img") {
        Some(elements) => image_sources(&elements),
        None => {
            let v: Vec<String> = Vec::new();
            assert(v@.map_values(|s: String| s@) =~= Seq::empty());
            v
        },
    }
}

} // verus!
