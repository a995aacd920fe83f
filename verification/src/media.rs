//! Media-type and file-name rules: which extension a content type gets,
//! which URLs look like images, and what a downloaded file is called.

use vstd::prelude::*;
use crate::text::{chars_of, occurs_at, contains_seq, ends_with, find, has_suffix, is_first_occurrence, lowercase, str_eq, unicode_lowercase};

verus! {

/// The file extension that a MIME content type is stored under; `"bin"`
/// for a type outside the table.
pub open spec fn content_type_extension(ct: Seq<char>) -> Seq<char> {
    if ct == "image/jpeg"@ { "jpg"@ }
    else if ct == "image/pjpeg"@ { "jpg"@ }
    else if ct == "image/png"@ { "png"@ }
    else if ct == "image/gif"@ { "gif"@ }
    else if ct == "image/bmp"@ { "bmp"@ }
    else if ct == "image/webp"@ { "webp"@ }
    else if ct == "image/tiff"@ { "tiff"@ }
    else if ct == "image/x-tiff"@ { "tiff"@ }
    else if ct == "image/x-icon"@ { "ico"@ }
    else if ct == "image/vnd.microsoft.icon"@ { "ico"@ }
    else if ct == "image/heif"@ { "heif"@ }
    else if ct == "image/heic"@ { "heic"@ }
    else if ct == "image/avif"@ { "avif"@ }
    else if ct == "image/svg+xml"@ { "svg"@ }
    else if ct == "image/x-canon-cr2"@ { "cr2"@ }
    else if ct == "image/x-nikon-nef"@ { "nef"@ }
    else if ct == "application/pdf"@ { "pdf"@ }
    else if ct == "text/plain"@ { "txt"@ }
    else if ct == "application/zip"@ { "zip"@ }
    else { "bin"@ }
}

/// Maps a MIME content type to the extension a file of that type is
/// saved with; unknown types give `"bin"`.
pub fn extension_from_content_type(content_type: &str) -> (ext: &'static str)
    ensures
        ext@ == content_type_extension(content_type@),
        !known_content_types().contains(content_type@) ==> ext@ == "bin"@,
{
    proof {
        if !known_content_types().contains(content_type@) {
            lemma_unknown_content_type_is_bin(content_type@);
        }
    }
    if str_eq(content_type, "image/jpeg") { "jpg" }
    else if str_eq(content_type, "image/pjpeg") { "jpg" }
    else if str_eq(content_type, "image/png") { "png" }
    else if str_eq(content_type, "image/gif") { "gif" }
    else if str_eq(content_type, "image/bmp") { "bmp" }
    else if str_eq(content_type, "image/webp") { "webp" }
    else if str_eq(content_type, "image/tiff") { "tiff" }
    else if str_eq(content_type, "image/x-tiff") { "tiff" }
    else if str_eq(content_type, "image/x-icon") { "ico" }
    else if str_eq(content_type, "image/vnd.microsoft.icon") { "ico" }
    else if str_eq(content_type, "image/heif") { "heif" }
    else if str_eq(content_type, "image/heic") { "heic" }
    else if str_eq(content_type, "image/avif") { "avif" }
    else if str_eq(content_type, "image/svg+xml") { "svg" }
    else if str_eq(content_type, "image/x-canon-cr2") { "cr2" }
    else if str_eq(content_type, "image/x-nikon-nef") { "nef" }
    else if str_eq(content_type, "application/pdf") { "pdf" }
    else if str_eq(content_type, "text/plain") { "txt" }
    else if str_eq(content_type, "application/zip") { "zip" }
    else { "bin" }
}

/// `s` ends with one of the image file extensions the service recognises.
pub open spec fn has_image_suffix(s: Seq<char>) -> bool {
    ||| has_suffix(s, ".png"@)
    ||| has_suffix(s, ".jpg"@)
    ||| has_suffix(s, ".jpeg"@)
    ||| has_suffix(s, ".gif"@)
    ||| has_suffix(s, ".webp"@)
    ||| has_suffix(s, ".bmp"@)
    ||| has_suffix(s, ".svg"@)
    ||| has_suffix(s, ".tiff"@)
    ||| has_suffix(s, ".tif"@)
    ||| has_suffix(s, ".ico"@)
    ||| has_suffix(s, ".heic"@)
    ||| has_suffix(s, ".avif"@)
    ||| has_suffix(s, ".jfif"@)
    ||| has_suffix(s, ".apng"@)
}

/// Whether an already lowercased URL ends with an image extension.
pub fn has_image_extension(lowered: &str) -> (r: bool)
    ensures
        r == has_image_suffix(lowered@),
        r <==> exists|i: int|
            0 <= i < image_extensions().len() && has_suffix(lowered@, #[trigger] image_extensions()[i]),
{
    proof {
        lemma_image_suffix_is_listed(lowered@);
    }
    ends_with(lowered, ".png")
        || ends_with(lowered, ".jpg")
        || ends_with(lowered, ".jpeg")
        || ends_with(lowered, ".gif")
        || ends_with(lowered, ".webp")
        || ends_with(lowered, ".bmp")
        || ends_with(lowered, ".svg")
        || ends_with(lowered, ".tiff")
        || ends_with(lowered, ".tif")
        || ends_with(lowered, ".ico")
        || ends_with(lowered, ".heic")
        || ends_with(lowered, ".avif")
        || ends_with(lowered, ".jfif")
        || ends_with(lowered, ".apng")
}

/// Whether a URL names an image file, judged by its extension regardless
/// of letter case.
pub fn is_image_url(url: &str) -> (r: bool)
    ensures
        r == has_image_suffix(unicode_lowercase(url@)),
        r <==> exists|i: int|
            0 <= i < image_extensions().len()
                && has_suffix(unicode_lowercase(url@), #[trigger] image_extensions()[i]),
{
    let lowered = lowercase(url);
    has_image_extension(lowered.as_str())
}

} // verus!

verus! {

/// A quotation mark stripped from around a disposition file name.
pub open spec fn is_quote(c: char) -> bool {
    c == '"' || c == '\''
}

/// `s` without its leading quotation marks.
pub open spec fn trim_quotes_start(s: Seq<char>) -> Seq<char>
    decreases s.len(),
{
    if s.len() > 0 && is_quote(s[0]) {
        trim_quotes_start(s.drop_first())
    } else {
        s
    }
}

/// `s` without its trailing quotation marks.
pub open spec fn trim_quotes_end(s: Seq<char>) -> Seq<char>
    decreases s.len(),
{
    if s.len() > 0 && is_quote(s.last()) {
        trim_quotes_end(s.drop_last())
    } else {
        s
    }
}

/// `s` without quotation marks at either end.
pub open spec fn trim_quotes(s: Seq<char>) -> Seq<char> {
    trim_quotes_end(trim_quotes_start(s))
}

/// The file name that a `Content-Disposition` value gives: what follows
/// the first `filename=`, quotation marks trimmed, when that is not empty.
pub open spec fn disposition_filename(cd: Seq<char>) -> Option<Seq<char>> {
    if contains_seq(cd, "filename="@) {
        let start = choose|i: int| is_first_occurrence(cd, "filename="@, i);
        let name = trim_quotes(cd.skip(start + "filename="@.len()));
        if name.len() > 0 {
            Some(name)
        } else {
            None
        }
    } else {
        None
    }
}

/// The characters of an optional string.
pub open spec fn opt_chars(s: Option<&str>) -> Option<Seq<char>> {
    match s {
        Some(s) => Some(s@),
        None => None,
    }
}

/// The name of a downloaded file: the `Content-Disposition` file name when
/// there is one, else the last segment of the URL's path when that is not
/// empty, else `downloaded_file.` followed by the extension.
pub open spec fn chosen_filename(
    disposition: Option<Seq<char>>,
    url_segment: Option<Seq<char>>,
    ext: Seq<char>,
) -> Seq<char> {
    if disposition is Some && disposition_filename(disposition->0) is Some {
        disposition_filename(disposition->0)->0
    } else if url_segment is Some && url_segment->0.len() > 0 {
        url_segment->0
    } else {
        "downloaded_file."@ + ext
    }
}

/// The `/`-separated segments of the path of the URL that `url` parses
/// to; `None` when `url` does not parse or its path is opaque.
pub uninterp spec fn url_path_segments(url: Seq<char>) -> Option<Seq<Seq<char>>>;

/// The characters of each string.
pub open spec fn strings_chars(v: Seq<String>) -> Seq<Seq<char>> {
    v.map_values(|s: String| s@)
}

/// Calls `url::Url::parse`, then `path_segments` on the result, and
/// collects the segments. Trusted: the result depends on `url` alone and is
/// named `url_path_segments`; nothing is claimed of its shape.
#[verifier::external_body]
fn path_segments(url: &str) -> (r: Option<Vec<String>>)
    ensures
        r matches Some(segs) ==> url_path_segments(url@) == Some(strings_chars(segs@)),
        r is None ==> url_path_segments(url@) is None,
{
    match url::Url::parse(url) {
        Ok(parsed) => parsed.path_segments().map(|segs| segs.map(|s| s.to_string()).collect()),
        Err(_) => None,
    }
}

/// The last of the path segments, when there are any.
pub open spec fn last_segment(segments: Option<Seq<Seq<char>>>) -> Option<Seq<char>> {
    match segments {
        Some(segs) => if segs.len() > 0 { Some(segs.last()) } else { None },
        None => None,
    }
}

/// The file name that a `Content-Disposition` value gives, if any.
pub fn filename_from_disposition(cd: &str) -> (r: Option<String>)
    ensures
        r matches Some(name) ==> disposition_filename(cd@) == Some(name@),
        r is None ==> disposition_filename(cd@) is None,
{
    let start = match find(cd, "filename=") {
        Some(i) => i,
        None => {
            return None;
        },
    };
    proof {
        reveal_strlit("filename=");
        let c = choose|i: int| is_first_occurrence(cd@, "filename="@, i);
        assert(c == start as int) by {
            if c < start as int {
            } else if c > start as int {
            }
        }
    }
    let v = chars_of(cd);
    let n = v.len();
    let mut a: usize = start + 9;
    let ghost rest = cd@.skip(start + 9);
    assert(rest == v@.subrange(a as int, n as int));
    while a < n && (v[a] == '"' || v[a] == '\'')
        invariant
            v@ == cd@,
            n == v@.len(),
            start + 9 <= a <= n,
            rest == cd@.skip(start + 9),
            trim_quotes_start(rest) == trim_quotes_start(v@.subrange(a as int, n as int)),
        decreases n - a,
    {
        assert(v@.subrange(a as int, n as int).drop_first() =~= v@.subrange(a + 1, n as int));
        a = a + 1;
    }
    assert(trim_quotes_start(rest) == v@.subrange(a as int, n as int));
    let mut b: usize = n;
    while b > a && (v[b - 1] == '"' || v[b - 1] == '\'')
        invariant
            v@ == cd@,
            n == v@.len(),
            a <= b <= n,
            trim_quotes(rest) == trim_quotes_end(v@.subrange(a as int, b as int)),
        decreases b - a,
    {
        assert(v@.subrange(a as int, b as int).drop_last() =~= v@.subrange(a as int, b - 1));
        b = b - 1;
    }
    assert(trim_quotes(rest) == v@.subrange(a as int, b as int));
    if a == b {
        None
    } else {
        Some(cd.substring_char(a, b).to_owned())
    }
}

/// The name of a downloaded file, given the `Content-Disposition` value,
/// the last segment of the URL's path as the URL parser reported it, and
/// the extension for the file's content type.
pub fn choose_filename(
    content_disposition: Option<&str>,
    url_segment: Option<&str>,
    ext: &str,
) -> (r: String)
    ensures
        r@ == chosen_filename(opt_chars(content_disposition), opt_chars(url_segment), ext@),
        r@.len() > 0,
        content_disposition is Some && disposition_filename(content_disposition->0@) is Some
            ==> r@ == disposition_filename(content_disposition->0@)->0,
        (content_disposition is None || disposition_filename(content_disposition->0@) is None)
            && url_segment is Some && url_segment->0@.len() > 0 ==> r@ == url_segment->0@,
{
    if let Some(cd) = content_disposition {
        if let Some(name) = filename_from_disposition(cd) {
            return name;
        }
    }
    if let Some(seg) = url_segment {
        if seg.unicode_len() > 0 {
            return seg.to_owned();
        }
    }
    proof {
        reveal_strlit("downloaded_file.");
    }
    String::from_str("downloaded_file.").concat(ext)
}

/// Works out the file name for a download from `url`, from its
/// `Content-Disposition` header, its URL or, failing both, its extension.
/// The result is never empty.
pub fn extract_filename(url: &str, content_disposition: Option<&str>, ext: &str) -> (r: String)
    ensures
        r@ == chosen_filename(opt_chars(content_disposition), last_segment(url_path_segments(url@)), ext@),
        r@.len() > 0,
        content_disposition is Some && disposition_filename(content_disposition->0@) is Some
            ==> r@ == disposition_filename(content_disposition->0@)->0,
        (content_disposition is None || disposition_filename(content_disposition->0@) is None)
            && url_path_segments(url@) is Some && url_path_segments(url@)->0.len() > 0
            && url_path_segments(url@)->0.last().len() > 0
            ==> r@ == url_path_segments(url@)->0[url_path_segments(url@)->0.len() - 1],
{
    match path_segments(url) {
        Some(segs) => {
            if segs.len() > 0 {
                choose_filename(content_disposition, Some(segs[segs.len() - 1].as_str()), ext)
            } else {
                choose_filename(content_disposition, None, ext)
            }
        },
        None => choose_filename(content_disposition, None, ext),
    }
}

/// The name a download is saved under, from the URL and the response's
/// `Content-Type` and `Content-Disposition` headers (an absent content
/// type counts as `application/octet-stream`).
pub fn download_file_name(
    url: &str,
    content_type: Option<&str>,
    content_disposition: Option<&str>,
) -> (r: String)
    ensures
        r@ == chosen_filename(
            opt_chars(content_disposition),
            last_segment(url_path_segments(url@)),
            content_type_extension(
                match content_type {
                    Some(ct) => ct@,
                    None => "application/octet-stream"@,
                },
            ),
        ),
        r@.len() > 0,
{
    let ct = match content_type {
        Some(ct) => ct,
        None => "application/octet-stream",
    };
    let ext = extension_from_content_type(ct);
    extract_filename(url, content_disposition, ext)
}

} // verus!

verus! {

/// The URLs among `urls` that name image files, in their order.
pub open spec fn image_urls_of(urls: Seq<Seq<char>>) -> Seq<Seq<char>> {
    urls.filter(|u: Seq<char>| has_image_suffix(unicode_lowercase(u)))
}

/// The URLs among `urls` that name image files, in their order, with
/// repetitions and letter case kept.
pub fn image_urls_among(urls: &Vec<String>) -> (r: Vec<String>)
    ensures
        strings_chars(r@) == image_urls_of(strings_chars(urls@)),
{
    let ghost all = strings_chars(urls@);
    let mut out: Vec<String> = Vec::new();
    let mut i: usize = 0;
    while i < urls.len()
        invariant
            i <= urls.len(),
            all == strings_chars(urls@),
            strings_chars(out@) == image_urls_of(all.take(i as int)),
        decreases urls.len() - i,
    {
        proof {
            reveal_with_fuel(Seq::<_>::filter, 1);
            assert(all.take(i + 1).drop_last() =~= all.take(i as int));
            assert(all.take(i + 1).last() == urls@[i as int]@);
        }
        if is_image_url(urls[i].as_str()) {
            out.push(urls[i].clone());
            assert(strings_chars(out@) =~= image_urls_of(all.take(i as int)).push(urls@[i as int]@));
        }
        i = i + 1;
    }
    assert(all.take(urls.len() as int) =~= all);
    out
}

} // verus!

verus! {

/// The MIME types that have an extension of their own.
pub open spec fn known_content_types() -> Seq<Seq<char>> {
    seq![
        "image/jpeg"@, "image/pjpeg"@, "image/png"@, "image/gif"@, "image/bmp"@,
        "image/webp"@, "image/tiff"@, "image/x-tiff"@, "image/x-icon"@,
        "image/vnd.microsoft.icon"@, "image/heif"@, "image/heic"@, "image/avif"@,
        "image/svg+xml"@, "image/x-canon-cr2"@, "image/x-nikon-nef"@,
        "application/pdf"@, "text/plain"@, "application/zip"@,
    ]
}

/// Every content type outside the table of known types is saved as `bin`.
pub proof fn lemma_unknown_content_type_is_bin(ct: Seq<char>)
    requires
        !known_content_types().contains(ct),
    ensures
        content_type_extension(ct) == "bin"@,
{
    let k = known_content_types();
    assert(k[0] == "image/jpeg"@);
    assert(k[1] == "image/pjpeg"@);
    assert(k[2] == "image/png"@);
    assert(k[3] == "image/gif"@);
    assert(k[4] == "image/bmp"@);
    assert(k[5] == "image/webp"@);
    assert(k[6] == "image/tiff"@);
    assert(k[7] == "image/x-tiff"@);
    assert(k[8] == "image/x-icon"@);
    assert(k[9] == "image/vnd.microsoft.icon"@);
    assert(k[10] == "image/heif"@);
    assert(k[11] == "image/heic"@);
    assert(k[12] == "image/avif"@);
    assert(k[13] == "image/svg+xml"@);
    assert(k[14] == "image/x-canon-cr2"@);
    assert(k[15] == "image/x-nikon-nef"@);
    assert(k[16] == "application/pdf"@);
    assert(k[17] == "text/plain"@);
    assert(k[18] == "application/zip"@);
}

/// The extensions by which a URL is recognised as naming an image.
pub open spec fn image_extensions() -> Seq<Seq<char>> {
    seq![
        ".png"@, ".jpg"@, ".jpeg"@, ".gif"@, ".webp"@, ".bmp"@, ".svg"@,
        ".tiff"@, ".tif"@, ".ico"@, ".heic"@, ".avif"@, ".jfif"@, ".apng"@,
    ]
}

/// A string counts as naming an image exactly when it ends with one of
/// the listed image extensions.
pub proof fn lemma_image_suffix_is_listed(s: Seq<char>)
    ensures
        has_image_suffix(s) <==> exists|i: int|
            0 <= i < image_extensions().len() && has_suffix(s, #[trigger] image_extensions()[i]),
{
    let e = image_extensions();
    assert(e[0] == ".png"@);
    assert(e[1] == ".jpg"@);
    assert(e[2] == ".jpeg"@);
    assert(e[3] == ".gif"@);
    assert(e[4] == ".webp"@);
    assert(e[5] == ".bmp"@);
    assert(e[6] == ".svg"@);
    assert(e[7] == ".tiff"@);
    assert(e[8] == ".tif"@);
    assert(e[9] == ".ico"@);
    assert(e[10] == ".heic"@);
    assert(e[11] == ".avif"@);
    assert(e[12] == ".jfif"@);
    assert(e[13] == ".apng"@);
}

/// A string ending with `e` ends with the last character of `e` and is at
/// least as long.
proof fn lemma_suffix_last(s: Seq<char>, e: Seq<char>)
    requires
        has_suffix(s, e),
        e.len() > 0,
    ensures
        s.len() >= e.len(),
        s[s.len() - 1] == e[e.len() - 1],
{
    assert(s.subrange(s.len() - e.len(), s.len() as int)[e.len() - 1] == s[s.len() - 1]);
}

/// What an image URL looks like at its end: at least four characters, the
/// last of them one of `g`, `f`, `p`, `o` or `c`. So, for instance, no URL
/// ending in `.js`, `.html` or `/` counts as an image.
pub proof fn lemma_image_suffix_ending(s: Seq<char>)
    requires
        has_image_suffix(s),
    ensures
        s.len() >= 4,
        s[s.len() - 1] == 'g' || s[s.len() - 1] == 'f' || s[s.len() - 1] == 'p'
            || s[s.len() - 1] == 'o' || s[s.len() - 1] == 'c',
{
    reveal_strlit(".png");
    reveal_strlit(".jpg");
    reveal_strlit(".jpeg");
    reveal_strlit(".gif");
    reveal_strlit(".webp");
    reveal_strlit(".bmp");
    reveal_strlit(".svg");
    reveal_strlit(".tiff");
    reveal_strlit(".tif");
    reveal_strlit(".ico");
    reveal_strlit(".heic");
    reveal_strlit(".avif");
    reveal_strlit(".jfif");
    reveal_strlit(".apng");
    if has_suffix(s, ".png"@) { lemma_suffix_last(s, ".png"@); }
    else if has_suffix(s, ".jpg"@) { lemma_suffix_last(s, ".jpg"@); }
    else if has_suffix(s, ".jpeg"@) { lemma_suffix_last(s, ".jpeg"@); }
    else if has_suffix(s, ".gif"@) { lemma_suffix_last(s, ".gif"@); }
    else if has_suffix(s, ".webp"@) { lemma_suffix_last(s, ".webp"@); }
    else if has_suffix(s, ".bmp"@) { lemma_suffix_last(s, ".bmp"@); }
    else if has_suffix(s, ".svg"@) { lemma_suffix_last(s, ".svg"@); }
    else if has_suffix(s, ".tiff"@) { lemma_suffix_last(s, ".tiff"@); }
    else if has_suffix(s, ".tif"@) { lemma_suffix_last(s, ".tif"@); }
    else if has_suffix(s, ".ico"@) { lemma_suffix_last(s, ".ico"@); }
    else if has_suffix(s, ".heic"@) { lemma_suffix_last(s, ".heic"@); }
    else if has_suffix(s, ".avif"@) { lemma_suffix_last(s, ".avif"@); }
    else if has_suffix(s, ".jfif"@) { lemma_suffix_last(s, ".jfif"@); }
    else { lemma_suffix_last(s, ".apng"@); }
}

/// A file name given by the `Content-Disposition` header always wins.
pub proof fn lemma_disposition_name_wins(cd: Seq<char>, url_segment: Option<Seq<char>>, ext: Seq<char>)
    requires
        disposition_filename(cd) is Some,
    ensures
        chosen_filename(Some(cd), url_segment, ext) == disposition_filename(cd)->0,
{
}

/// Without a disposition file name, a URL whose path has a non-empty last
/// segment names the file after that segment.
pub proof fn lemma_url_segment_names_file(cd: Option<Seq<char>>, segs: Seq<Seq<char>>, ext: Seq<char>)
    requires
        cd is None || disposition_filename(cd->0) is None,
        segs.len() > 0,
        segs[segs.len() - 1].len() > 0,
    ensures
        chosen_filename(cd, last_segment(Some(segs)), ext) == segs[segs.len() - 1],
{
}

/// Without a disposition file name and without a usable path segment,
/// the file is called `downloaded_file.` followed by the extension.
pub proof fn lemma_fallback_file_name(cd: Option<Seq<char>>, segs: Option<Seq<Seq<char>>>, ext: Seq<char>)
    requires
        cd is None || disposition_filename(cd->0) is None,
        segs is None || segs->0.len() == 0 || segs->0[segs->0.len() - 1].len() == 0,
    ensures
        chosen_filename(cd, last_segment(segs), ext) == "downloaded_file."@ + ext,
{
}

} // verus!

verus! {

/// A pattern that occurs somewhere has a leftmost occurrence.
proof fn lemma_first_occurrence_exists(s: Seq<char>, p: Seq<char>, i: int)
    requires
        occurs_at(s, p, i),
    ensures
        exists|j: int| is_first_occurrence(s, p, j),
    decreases i,
{
    if exists|j: int| 0 <= j < i && occurs_at(s, p, j) {
        let j = choose|j: int| 0 <= j < i && occurs_at(s, p, j);
        lemma_first_occurrence_exists(s, p, j);
    } else {
        assert(is_first_occurrence(s, p, i));
    }
}

/// Where the leading quotation marks of `s` end.
proof fn lemma_trim_quotes_start(s: Seq<char>) -> (a: int)
    ensures
        0 <= a <= s.len(),
        forall|i: int| 0 <= i < a ==> is_quote(#[trigger] s[i]),
        a < s.len() ==> !is_quote(s[a]),
        trim_quotes_start(s) == s.skip(a),
    decreases s.len(),
{
    if s.len() > 0 && is_quote(s[0]) {
        let t = s.drop_first();
        let a1 = lemma_trim_quotes_start(t);
        assert(t.skip(a1) =~= s.skip(a1 + 1));
        assert forall|i: int| 0 <= i < a1 + 1 implies is_quote(#[trigger] s[i]) by {
            if i > 0 {
                assert(s[i] == t[i - 1]);
            }
        }
        a1 + 1
    } else {
        assert(s.skip(0) =~= s);
        0
    }
}

/// Where the trailing quotation marks of `s` begin.
proof fn lemma_trim_quotes_end(s: Seq<char>) -> (b: int)
    ensures
        0 <= b <= s.len(),
        forall|i: int| b <= i < s.len() ==> is_quote(#[trigger] s[i]),
        b > 0 ==> !is_quote(s[b - 1]),
        trim_quotes_end(s) == s.take(b),
    decreases s.len(),
{
    if s.len() > 0 && is_quote(s.last()) {
        let t = s.drop_last();
        let b1 = lemma_trim_quotes_end(t);
        assert(t.take(b1) =~= s.take(b1));
        assert forall|i: int| b1 <= i < s.len() implies is_quote(#[trigger] s[i]) by {
            if i < s.len() - 1 {
                assert(s[i] == t[i]);
            }
        }
        b1
    } else {
        assert(s.take(s.len() as int) =~= s);
        s.len() as int
    }
}

/// Trimming quotation marks removes a run of them from each end and
/// nothing else: what is left is a contiguous part of `s` that is empty or
/// neither starts nor ends with a quotation mark, and everything of `s`
/// around it is a quotation mark.
pub proof fn lemma_trim_quotes(s: Seq<char>)
    ensures
        exists|a: int, b: int|
            #![trigger s.subrange(a, b)]
            0 <= a <= b <= s.len() && trim_quotes(s) == s.subrange(a, b)
                && (forall|i: int| 0 <= i < a ==> is_quote(#[trigger] s[i]))
                && (forall|i: int| b <= i < s.len() ==> is_quote(#[trigger] s[i]))
                && (a < b ==> !is_quote(s[a]) && !is_quote(s[b - 1])),
{
    let a = lemma_trim_quotes_start(s);
    let t = s.skip(a);
    let b1 = lemma_trim_quotes_end(t);
    let b = a + b1;
    assert(t.take(b1) =~= s.subrange(a, b));
    assert forall|i: int| b <= i < s.len() implies is_quote(#[trigger] s[i]) by {
        assert(s[i] == t[i - a]);
    }
    if a < b {
        assert(s[b - 1] == t[b1 - 1]);
    }
    assert(trim_quotes(s) == s.subrange(a, b));
}

/// A file name taken from a `Content-Disposition` value is never empty,
/// neither starts nor ends with a quotation mark, and is what follows the
/// first `filename=` once the quotation marks around it are removed.
pub proof fn lemma_disposition_name_shape(cd: Seq<char>)
    ensures
        !contains_seq(cd, "filename="@) ==> disposition_filename(cd) is None,
        disposition_filename(cd) matches Some(n) ==> {
            &&& n.len() > 0
            &&& !is_quote(n[0])
            &&& !is_quote(n[n.len() - 1])
            &&& exists|i: int, a: int, b: int|
                #![trigger is_first_occurrence(cd, "filename="@, i), cd.subrange(a, b)]
                is_first_occurrence(cd, "filename="@, i) && i + "filename="@.len() <= a <= b <= cd.len()
                    && n == cd.subrange(a, b)
                    && (forall|k: int| i + "filename="@.len() <= k < a ==> is_quote(#[trigger] cd[k]))
                    && (forall|k: int| b <= k < cd.len() ==> is_quote(#[trigger] cd[k]))
        },
{
    if contains_seq(cd, "filename="@) {
        let w = choose|i: int| occurs_at(cd, "filename="@, i);
        lemma_first_occurrence_exists(cd, "filename="@, w);
        let start = choose|i: int| is_first_occurrence(cd, "filename="@, i);
        if disposition_filename(cd) is Some {
            let p = "filename="@.len() as int;
            let rest = cd.skip(start + p);
            lemma_trim_quotes(rest);
            let (a, b) = choose|a: int, b: int|
                #![trigger rest.subrange(a, b)]
                0 <= a <= b <= rest.len() && trim_quotes(rest) == rest.subrange(a, b)
                    && (forall|i: int| 0 <= i < a ==> is_quote(#[trigger] rest[i]))
                    && (forall|i: int| b <= i < rest.len() ==> is_quote(#[trigger] rest[i]))
                    && (a < b ==> !is_quote(rest[a]) && !is_quote(rest[b - 1]));
            let n = disposition_filename(cd)->0;
            assert(n == rest.subrange(a, b));
            assert(rest.subrange(a, b) =~= cd.subrange(start + p + a, start + p + b));
            assert(n[0] == rest[a]);
            assert(n[n.len() - 1] == rest[b - 1]);
            assert forall|k: int| start + p <= k < start + p + a implies is_quote(#[trigger] cd[k]) by {
                assert(cd[k] == rest[k - start - p]);
            }
            assert forall|k: int| start + p + b <= k < cd.len() implies is_quote(#[trigger] cd[k]) by {
                assert(cd[k] == rest[k - start - p]);
            }
            assert(is_first_occurrence(cd, "filename="@, start));
            assert(cd.subrange(start + p + a, start + p + b) == n);
        }
    }
}

} // verus!
