//! Deciding what kind of content a captured HTTP response carries.

use vstd::prelude::*;

verus! {

/// One header line of a parsed HTTP response, as raw bytes.
#[derive(Debug, Clone)]
pub struct HttpHeader {
    pub name: Vec<u8>,
    pub value: Vec<u8>,
}

/// The parts of a parsed HTTP response that classification reads.
#[derive(Debug, Clone)]
pub struct HttpResponse {
    pub headers: Vec<HttpHeader>,
    pub body: Option<Vec<u8>>,
}

/// The kind of a response body, as its `Content-Type` header declares it.
#[derive(Debug, Clone, Copy, PartialEq, Eq, Structural)]
pub enum ContentType {
    Html,
    Json,
    Other,
}

/// What a received buffer holds, ready to be shown.
#[derive(Debug, Clone, PartialEq, Eq)]
pub enum ClassifiedContent {
    /// An HTML body, as text.
    Html(String),
    /// A JSON body, pretty-printed when it parses and unchanged otherwise.
    Structured(String),
    /// Anything else, as bytes.
    Opaque(Vec<u8>),
}

/// The text that `String::from_utf8_lossy` makes of some bytes.
pub uninterp spec fn utf8_lossy(b: Seq<u8>) -> Seq<char>;

/// The pretty-printed form of a JSON text, or `None` when it is not JSON.
pub uninterp spec fn json_pretty(s: Seq<char>) -> Option<Seq<char>>;

/// Relies on `String::from_utf8_lossy`: the text depends on the bytes alone,
/// and no bytes give no text.
#[verifier::external_body]
pub(crate) fn lossy_text(b: &[u8]) -> (r: String)
    ensures
        r@ == utf8_lossy(b@),
        b@.len() == 0 ==> r@.len() == 0,
{
    String::from_utf8_lossy(b).into_owned()
}

/// Relies on `serde_json::from_str` into a `serde_json::Value` and on
/// `serde_json::to_string_pretty` of that value: together they turn a JSON
/// text into its pretty form, which depends on the text alone, and fail
/// exactly when the text does not parse.
#[verifier::external_body]
fn pretty_json(s: &str) -> (r: Option<String>)
    ensures
        match r {
            Some(t) => json_pretty(s@) == Some(t@),
            None => json_pretty(s@) is None,
        },
{
    match serde_json::from_str::<serde_json::Value>(s) {
        Ok(v) => serde_json::to_string_pretty(&v).ok(),
        Err(_) => None,
    }
}

/// ASCII lower case of one byte; other bytes are kept.
pub open spec fn lower(b: u8) -> u8 {
    if 65 <= b <= 90 {
        (b + 32) as u8
    } else {
        b
    }
}

/// `a` and `b` are equal up to ASCII case.
pub open spec fn eq_ignore_case(a: Seq<u8>, b: Seq<u8>) -> bool {
    a.len() == b.len() && forall|i: int| 0 <= i < a.len() ==> lower(#[trigger] a[i]) == lower(b[i])
}

/// `needle` occurs in `hay` at some position.
pub open spec fn contains(hay: Seq<u8>, needle: Seq<u8>) -> bool {
    exists|i: int|
        0 <= i <= hay.len() - needle.len() && #[trigger] hay.subrange(i, i + needle.len())
            == needle
}

/// The header name `Content-Type`, in lower case.
pub open spec fn content_type_name() -> Seq<u8> {
    seq![99u8, 111, 110, 116, 101, 110, 116, 45, 116, 121, 112, 101]
}

/// The media type `text/html`.
pub open spec fn html_type() -> Seq<u8> {
    seq![116u8, 101, 120, 116, 47, 104, 116, 109, 108]
}

/// The media type `application/json`.
pub open spec fn json_type() -> Seq<u8> {
    seq![97u8, 112, 112, 108, 105, 99, 97, 116, 105, 111, 110, 47, 106, 115, 111, 110]
}

/// The kind a `Content-Type` value declares.
pub open spec fn kind_of_value(v: Seq<u8>) -> ContentType {
    if contains(v, html_type()) {
        ContentType::Html
    } else if contains(v, json_type()) {
        ContentType::Json
    } else {
        ContentType::Other
    }
}

/// The kind declared by the first `Content-Type` header, or `Other` when there
/// is none.
pub open spec fn declared_kind(headers: Seq<HttpHeader>) -> ContentType
    decreases headers.len(),
{
    if headers.len() == 0 {
        ContentType::Other
    } else if eq_ignore_case(headers[0].name@, content_type_name()) {
        kind_of_value(headers[0].value@)
    } else {
        declared_kind(headers.drop_first())
    }
}

fn lower_byte(b: u8) -> (r: u8)
    ensures
        r == lower(b),
{
    if 65 <= b && b <= 90 {
        b + 32
    } else {
        b
    }
}

/// Compares two byte strings up to ASCII case.
pub fn equals_ignore_case(a: &[u8], b: &[u8]) -> (r: bool)
    ensures
        r == eq_ignore_case(a@, b@),
{
    if a.len() != b.len() {
        return false;
    }
    let mut i: usize = 0;
    while i < a.len()
        invariant
            a@.len() == b@.len(),
            i <= a@.len(),
            forall|j: int| 0 <= j < i ==> lower(#[trigger] a@[j]) == lower(b@[j]),
        decreases a.len() - i,
    {
        if lower_byte(a[i]) != lower_byte(b[i]) {
            return false;
        }
        i = i + 1;
    }
    true
}

/// Tells whether `needle` occurs in `hay`.
pub fn contains_bytes(hay: &[u8], needle: &[u8]) -> (r: bool)
    ensures
        r == contains(hay@, needle@),
{
    if needle.len() > hay.len() {
        return false;
    }
    let last = hay.len() - needle.len();
    assert(hay@.len() <= usize::MAX);
    let mut i: usize = 0;
    while i <= last
        invariant
            i <= last,
            needle@.len() <= hay@.len() <= usize::MAX,
            last == hay@.len() - needle@.len(),
            forall|k: int|
                0 <= k < i ==> #[trigger] hay@.subrange(k, k + needle@.len()) != needle@,
        ensures
            forall|k: int|
                0 <= k <= last ==> #[trigger] hay@.subrange(k, k + needle@.len()) != needle@,
        decreases last + 1 - i,
    {
        let mut j: usize = 0;
        let mut same = true;
        while j < needle.len()
            invariant
                i <= last,
                needle@.len() <= hay@.len() <= usize::MAX,
                last == hay@.len() - needle@.len(),
                j <= needle@.len(),
                same == (forall|m: int| 0 <= m < j ==> hay@[i + m] == #[trigger] needle@[m]),
            decreases needle.len() - j,
        {
            if hay[i + j] != needle[j] {
                same = false;
            }
            j = j + 1;
        }
        if same {
            assert(hay@.subrange(i as int, i + needle@.len()) == needle@);
            return true;
        }
        assert(hay@.subrange(i as int, i + needle@.len()) != needle@) by {
            let m = choose|m: int| 0 <= m < needle@.len() && hay@[i + m] != #[trigger] needle@[m];
            assert(hay@.subrange(i as int, i + needle@.len())[m] == hay@[i + m]);
        }
        if i == last {
            break;
        }
        i = i + 1;
    }
    false
}

fn content_type_bytes() -> (r: Vec<u8>)
    ensures
        r@ == content_type_name(),
{
    let r = vec![99u8, 111, 110, 116, 101, 110, 116, 45, 116, 121, 112, 101];
    assert(r@ == content_type_name());
    r
}

fn html_type_bytes() -> (r: Vec<u8>)
    ensures
        r@ == html_type(),
{
    let r = vec![116u8, 101, 120, 116, 47, 104, 116, 109, 108];
    assert(r@ == html_type());
    r
}

fn json_type_bytes() -> (r: Vec<u8>)
    ensures
        r@ == json_type(),
{
    let r = vec![97u8, 112, 112, 108, 105, 99, 97, 116, 105, 111, 110, 47, 106, 115, 111, 110];
    assert(r@ == json_type());
    r
}

/// The kind that a `Content-Type` value declares: HTML when it mentions
/// `text/html`, else JSON when it mentions `application/json`, else other.
pub fn kind_of(value: &[u8]) -> (r: ContentType)
    ensures
        r == kind_of_value(value@),
{
    let html = html_type_bytes();
    if contains_bytes(value, html.as_slice()) {
        return ContentType::Html;
    }
    let json = json_type_bytes();
    if contains_bytes(value, json.as_slice()) {
        ContentType::Json
    } else {
        ContentType::Other
    }
}

/// The kind declared by the first header named `Content-Type` (in any case),
/// or `Other` when no header has that name.
pub fn declared_content_type(headers: &Vec<HttpHeader>) -> (r: ContentType)
    ensures
        r == declared_kind(headers@),
{
    let name = content_type_bytes();
    let mut i: usize = 0;
    assert(headers@.subrange(0, headers@.len() as int) == headers@);
    while i < headers.len()
        invariant
            i <= headers@.len(),
            name@ == content_type_name(),
            declared_kind(headers@.subrange(i as int, headers@.len() as int)) == declared_kind(
                headers@,
            ),
        decreases headers.len() - i,
    {
        let ghost rest = headers@.subrange(i as int, headers@.len() as int);
        assert(rest[0] == headers@[i as int]);
        if equals_ignore_case(headers[i].name.as_slice(), name.as_slice()) {
            return kind_of(headers[i].value.as_slice());
        }
        assert(rest.drop_first() == headers@.subrange(i + 1, headers@.len() as int));
        i = i + 1;
    }
    ContentType::Other
}

/// The body of a response, empty when it has none.
pub open spec fn body_of(resp: HttpResponse) -> Seq<u8> {
    match resp.body {
        Some(b) => b@,
        None => seq![],
    }
}

/// A JSON text in its pretty form, or unchanged when it does not parse.
pub open spec fn json_shown(s: Seq<char>) -> Seq<char> {
    match json_pretty(s) {
        Some(p) => p,
        None => s,
    }
}

/// The declared kind of a parsed response and its body as text; when parsing
/// failed, `Other` and the parser's message.
pub fn get_content_type(parsed: &Result<HttpResponse, String>) -> (r: (ContentType, String))
    ensures
        match parsed {
            Ok(resp) => r.0 == declared_kind(resp.headers@) && r.1@ == utf8_lossy(body_of(*resp)),
            Err(e) => r.0 == ContentType::Other && r.1@ == e@,
        },
{
    match parsed {
        Ok(resp) => {
            let kind = declared_content_type(&resp.headers);
            let body = match &resp.body {
                Some(b) => lossy_text(b.as_slice()),
                None => {
                    let empty: Vec<u8> = Vec::new();
                    lossy_text(empty.as_slice())
                },
            };
            (kind, body)
        },
        Err(e) => (ContentType::Other, e.clone()),
    }
}

/// Pretty-prints a JSON text; a text that is not JSON is returned unchanged.
pub fn render_json(content: String) -> (r: String)
    ensures
        r@ == json_shown(content@),
{
    match pretty_json(content.as_str()) {
        Some(p) => p,
        None => content,
    }
}

/// The mathematical form of [`ClassifiedContent`].
pub ghost enum ClassifiedView {
    Html(Seq<char>),
    Structured(Seq<char>),
    Opaque(Seq<u8>),
}

impl View for ClassifiedContent {
    type V = ClassifiedView;

    open spec fn view(&self) -> ClassifiedView {
        match self {
            ClassifiedContent::Html(t) => ClassifiedView::Html(t@),
            ClassifiedContent::Structured(t) => ClassifiedView::Structured(t@),
            ClassifiedContent::Opaque(b) => ClassifiedView::Opaque(b@),
        }
    }
}

/// What a buffer holds, given what the HTTP response parser made of it: the
/// buffer itself when it is not a response; otherwise the body, as text for
/// HTML, as pretty-printed (or unchanged) text for JSON, and as bytes for any
/// other kind.
pub open spec fn classification(buffer: Seq<u8>, parsed: Result<HttpResponse, String>) -> ClassifiedView {
    match parsed {
        Err(_) => ClassifiedView::Opaque(buffer),
        Ok(resp) => match declared_kind(resp.headers@) {
            ContentType::Html => ClassifiedView::Html(utf8_lossy(body_of(resp))),
            ContentType::Json => ClassifiedView::Structured(json_shown(utf8_lossy(body_of(resp)))),
            ContentType::Other => ClassifiedView::Opaque(body_of(resp)),
        },
    }
}

fn copy_bytes(b: &[u8]) -> (r: Vec<u8>)
    ensures
        r@ == b@,
{
    let mut out: Vec<u8> = Vec::new();
    let mut i: usize = 0;
    while i < b.len()
        invariant
            i <= b@.len(),
            out@ == b@.subrange(0, i as int),
        decreases b.len() - i,
    {
        out.push(b[i]);
        i = i + 1;
        assert(out@ == b@.subrange(0, i as int));
    }
    assert(b@.subrange(0, b@.len() as int) == b@);
    out
}

/// Classifies a buffer believed to hold an HTTP response, given the outcome
/// of parsing it. Never fails: what is not understood is returned as bytes.
pub fn classify(buffer: &[u8], parsed: &Result<HttpResponse, String>) -> (r: ClassifiedContent)
    ensures
        r@ == classification(buffer@, *parsed),
{
    match parsed {
        Err(_) => ClassifiedContent::Opaque(copy_bytes(buffer)),
        Ok(resp) => {
            let (kind, text) = get_content_type(parsed);
            match kind {
                ContentType::Html => ClassifiedContent::Html(text),
                ContentType::Json => ClassifiedContent::Structured(render_json(text)),
                ContentType::Other => match &resp.body {
                    Some(b) => ClassifiedContent::Opaque(copy_bytes(b.as_slice())),
                    None => ClassifiedContent::Opaque(Vec::new()),
                },
            }
        },
    }
}

} // verus!
