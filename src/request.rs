use vstd::prelude::*;
use crate::text::chars_of;

verus! {

/// The HTTP methods that a request can use.
#[derive(Debug, Clone, Copy, PartialEq, Eq, Structural)]
pub enum HttpMethod {
    GET,
    POST,
    PUT,
    DELETE,
    PATCH,
}

/// How the body of a request is encoded.
#[derive(Debug, Clone, Copy, PartialEq, Eq, Structural)]
pub enum ContentType {
    Json,
    FormData,
    XWWWFormUrlEncoded,
}

/// What a form field carries: text, or files.
#[derive(Debug, Clone, Copy, PartialEq, Eq, Structural)]
pub enum FormFieldType {
    Text,
    File,
}

/// How a request is authorised.
#[derive(Debug, Clone, Copy, PartialEq, Eq, Structural)]
pub enum AuthType {
    NoAuth,
    Bearer,
}

impl HttpMethod {
    pub open spec fn spec_name(self) -> Seq<char> {
        match self {
            HttpMethod::GET => "GET"@,
            HttpMethod::POST => "POST"@,
            HttpMethod::PUT => "PUT"@,
            HttpMethod::DELETE => "DELETE"@,
            HttpMethod::PATCH => "PATCH"@,
        }
    }

    /// The methods offered for selection.
    pub fn all() -> (v: Vec<HttpMethod>)
        ensures
            v@ == seq![
                HttpMethod::GET,
                HttpMethod::POST,
                HttpMethod::PUT,
                HttpMethod::DELETE,
                HttpMethod::PATCH,
            ],
    {
        let v = vec![
            HttpMethod::GET,
            HttpMethod::POST,
            HttpMethod::PUT,
            HttpMethod::DELETE,
            HttpMethod::PATCH,
        ];
        assert(v@ =~= seq![
            HttpMethod::GET,
            HttpMethod::POST,
            HttpMethod::PUT,
            HttpMethod::DELETE,
            HttpMethod::PATCH,
        ]);
        v
    }

    /// The name of the method, as it is shown.
    pub fn name(&self) -> (s: String)
        ensures
            s@ == self.spec_name(),
    {
        match self {
            HttpMethod::GET => String::from_str("GET"),
            HttpMethod::POST => String::from_str("POST"),
            HttpMethod::PUT => String::from_str("PUT"),
            HttpMethod::DELETE => String::from_str("DELETE"),
            HttpMethod::PATCH => String::from_str("PATCH"),
        }
    }
}

impl ContentType {
    pub open spec fn spec_name(self) -> Seq<char> {
        match self {
            ContentType::Json => "JSON"@,
            ContentType::FormData => "Form Data"@,
            ContentType::XWWWFormUrlEncoded => "x-www-form"@,
        }
    }

    /// The body encodings offered for selection.
    pub fn all() -> (v: Vec<ContentType>)
        ensures
            v@ == seq![ContentType::Json, ContentType::FormData, ContentType::XWWWFormUrlEncoded],
    {
        let v = vec![ContentType::Json, ContentType::FormData, ContentType::XWWWFormUrlEncoded];
        assert(v@ =~= seq![
            ContentType::Json,
            ContentType::FormData,
            ContentType::XWWWFormUrlEncoded,
        ]);
        v
    }

    /// The name of the encoding, as it is shown.
    pub fn name(&self) -> (s: String)
        ensures
            s@ == self.spec_name(),
    {
        match self {
            ContentType::Json => String::from_str("JSON"),
            ContentType::FormData => String::from_str("Form Data"),
            ContentType::XWWWFormUrlEncoded => String::from_str("x-www-form"),
        }
    }
}

impl FormFieldType {
    pub open spec fn spec_name(self) -> Seq<char> {
        match self {
            FormFieldType::Text => "Text"@,
            FormFieldType::File => "File"@,
        }
    }

    /// The field kinds offered for selection.
    pub fn all() -> (v: Vec<FormFieldType>)
        ensures
            v@ == seq![FormFieldType::Text, FormFieldType::File],
    {
        let v = vec![FormFieldType::Text, FormFieldType::File];
        assert(v@ =~= seq![FormFieldType::Text, FormFieldType::File]);
        v
    }

    /// The name of the field kind, as it is shown.
    pub fn name(&self) -> (s: String)
        ensures
            s@ == self.spec_name(),
    {
        match self {
            FormFieldType::Text => String::from_str("Text"),
            FormFieldType::File => String::from_str("File"),
        }
    }
}

impl AuthType {
    pub open spec fn spec_name(self) -> Seq<char> {
        match self {
            AuthType::NoAuth => "No Auth"@,
            AuthType::Bearer => "Bearer Token"@,
        }
    }

    /// The authorisation kinds offered for selection.
    pub fn all() -> (v: Vec<AuthType>)
        ensures
            v@ == seq![AuthType::NoAuth, AuthType::Bearer],
    {
        let v = vec![AuthType::NoAuth, AuthType::Bearer];
        assert(v@ =~= seq![AuthType::NoAuth, AuthType::Bearer]);
        v
    }

    /// The name of the authorisation kind, as it is shown.
    pub fn name(&self) -> (s: String)
        ensures
            s@ == self.spec_name(),
    {
        match self {
            AuthType::NoAuth => String::from_str("No Auth"),
            AuthType::Bearer => String::from_str("Bearer Token"),
        }
    }
}

/// One entry of a request's form body.
#[derive(Debug, Clone)]
pub struct FormField {
    pub enabled: bool,
    pub key: String,
    pub value: String,
    pub files: Vec<String>,
    pub field_type: FormFieldType,
}

impl FormField {
    /// The field takes part in a request: it is enabled and its key is not
    /// empty.
    pub open spec fn spec_active(&self) -> bool {
        self.enabled && self.key@.len() > 0
    }

    /// Whether the field takes part in a request.
    pub fn is_active(&self) -> (r: bool)
        ensures
            r == self.spec_active(),
    {
        self.enabled && self.key.as_str().unicode_len() > 0
    }

    /// An enabled text field with empty key and value and no files.
    pub fn new() -> (f: FormField)
        ensures
            f.enabled,
            f.key@ == Seq::<char>::empty(),
            f.value@ == Seq::<char>::empty(),
            f.files@.len() == 0,
            f.field_type == FormFieldType::Text,
    {
        FormField {
            enabled: true,
            key: String::new(),
            value: String::new(),
            files: Vec::new(),
            field_type: FormFieldType::Text,
        }
    }
}

/// One query parameter of a request URL.
#[derive(Debug, Clone)]
pub struct QueryParam {
    pub key: String,
    pub value: String,
    pub enabled: bool,
}

impl QueryParam {
    /// An enabled parameter with empty key and value.
    pub fn new() -> (p: QueryParam)
        ensures
            p.enabled,
            p.key@ == Seq::<char>::empty(),
            p.value@ == Seq::<char>::empty(),
    {
        QueryParam { key: String::new(), value: String::new(), enabled: true }
    }
}

/// What `urlencoding::encode` gives for a text.
pub uninterp spec fn url_encoded(s: Seq<char>) -> Seq<char>;

/// Relies on `urlencoding::encode`: the percent-encoded form of a text, which
/// depends on that text alone.
#[verifier::external_body]
fn encode(s: &str) -> (r: String)
    ensures
        r@ == url_encoded(s@),
{
    urlencoding::encode(s).into_owned()
}

/// The text `key=value`.
pub open spec fn pair_item(key: Seq<char>, value: Seq<char>) -> Seq<char> {
    key + "="@ + value
}

/// The items joined with `&` between each two.
pub open spec fn join_amp(items: Seq<Seq<char>>) -> Seq<char>
    decreases items.len(),
{
    if items.len() == 0 {
        Seq::empty()
    } else if items.len() == 1 {
        items[0]
    } else {
        join_amp(items.drop_last()) + "&"@ + items.last()
    }
}

/// A query string made of the items: empty where there are none, else `?`
/// followed by the items joined with `&`.
pub open spec fn query_text(items: Seq<Seq<char>>) -> Seq<char> {
    if items.len() == 0 {
        Seq::empty()
    } else {
        "?"@ + join_amp(items)
    }
}

/// A parameter takes part in the query: it is enabled and its key is not empty.
pub open spec fn param_active(p: QueryParam) -> bool {
    p.enabled && p.key@.len() > 0
}

/// The `key=value` items of the parameters that take part, in order; with
/// `encoded`, key and value are percent-encoded.
pub open spec fn active_items(ps: Seq<QueryParam>, encoded: bool) -> Seq<Seq<char>>
    decreases ps.len(),
{
    if ps.len() == 0 {
        seq![]
    } else {
        let prev = active_items(ps.drop_last(), encoded);
        let p = ps.last();
        if param_active(p) {
            prev.push(
                if encoded {
                    pair_item(url_encoded(p.key@), url_encoded(p.value@))
                } else {
                    pair_item(p.key@, p.value@)
                },
            )
        } else {
            prev
        }
    }
}

/// `s` without the `?` characters at its end.
pub open spec fn trim_question_marks(s: Seq<char>) -> Seq<char>
    decreases s.len(),
{
    if s.len() > 0 && s.last() == '?' {
        trim_question_marks(s.drop_last())
    } else {
        s
    }
}

/// The URL made of a base URL and the parameters that take part, unencoded.
pub open spec fn url_model(base: Seq<char>, ps: Seq<QueryParam>) -> Seq<char> {
    trim_question_marks(base) + query_text(active_items(ps, false))
}

/// Joins the items into a query string: empty where there are none, else `?`
/// followed by the items with `&` between each two.
pub fn join_query(items: &Vec<String>) -> (r: String)
    ensures
        r@ == query_text(items@.map_values(|s: String| s@)),
{
    let ghost iv = items@.map_values(|s: String| s@);
    let n = items.len();
    if n == 0 {
        return String::new();
    }
    let mut r = String::from_str("?");
    r.append(items[0].as_str());
    assert(iv.take(1).drop_last() =~= seq![]);
    assert(join_amp(iv.take(1)) == iv[0]);
    let mut i: usize = 1;
    while i < n
        invariant
            n == items@.len(),
            iv == items@.map_values(|s: String| s@),
            1 <= i <= n,
            r@ == "?"@ + join_amp(iv.take(i as int)),
        decreases n - i,
    {
        r.append("&");
        r.append(items[i].as_str());
        assert(iv.take(i + 1).drop_last() =~= iv.take(i as int));
        assert(r@ =~= "?"@ + join_amp(iv.take(i + 1)));
        i = i + 1;
    }
    assert(iv.take(n as int) =~= iv);
    r
}

/// The `key=value` items of the parameters that take part.
fn param_items(params: &Vec<QueryParam>, encoded: bool) -> (r: Vec<String>)
    ensures
        r@.map_values(|s: String| s@) == active_items(params@, encoded),
{
    let mut r: Vec<String> = Vec::new();
    let mut i: usize = 0;
    while i < params.len()
        invariant
            i <= params@.len(),
            r@.map_values(|s: String| s@) == active_items(params@.take(i as int), encoded),
        decreases params@.len() - i,
    {
        let p = &params[i];
        assert(params@.take(i + 1).drop_last() =~= params@.take(i as int));
        assert(params@.take(i + 1).last() == *p);
        if p.enabled && p.key.as_str().unicode_len() > 0 {
            let mut item = if encoded {
                encode(p.key.as_str())
            } else {
                p.key.clone()
            };
            item.append("=");
            let v = if encoded {
                encode(p.value.as_str())
            } else {
                p.value.clone()
            };
            item.append(v.as_str());
            let ghost before = r@;
            r.push(item);
            assert(r@.map_values(|s: String| s@) =~= before.map_values(|s: String| s@).push(item@));
        }
        i = i + 1;
    }
    assert(params@.take(i as int) =~= params@);
    r
}

/// The query string of the parameters that are enabled and have a key, with
/// keys and values percent-encoded: empty where there are none, else `?` and
/// the `key=value` items joined with `&`.
pub fn build_query_string(params: &Vec<QueryParam>) -> (r: String)
    ensures
        r@ == query_text(active_items(params@, true)),
{
    let items = param_items(params, true);
    join_query(&items)
}

proof fn lemma_trim_at(s: Seq<char>, e: int)
    requires
        0 <= e <= s.len(),
        forall|j: int| e <= j < s.len() ==> s[j] == '?',
        e == 0 || s[e - 1] != '?',
    ensures
        trim_question_marks(s) == s.subrange(0, e),
    decreases s.len(),
{
    if e < s.len() {
        lemma_trim_at(s.drop_last(), e);
        assert(s.drop_last().subrange(0, e) =~= s.subrange(0, e));
    } else {
        assert(s.subrange(0, e) =~= s);
    }
}

/// The request URL: the base URL without its trailing `?` characters, then the
/// query of the parameters that are enabled and have a key, unencoded.
pub fn rebuild_url(base_url: &str, params: &Vec<QueryParam>) -> (r: String)
    ensures
        r@ == url_model(base_url@, params@),
{
    let chars = chars_of(base_url);
    let mut e = chars.len();
    while e > 0 && chars[e - 1] == '?'
        invariant
            e <= chars@.len(),
            forall|j: int| e <= j < chars@.len() ==> chars@[j] == '?',
        decreases e,
    {
        e = e - 1;
    }
    proof {
        lemma_trim_at(base_url@, e as int);
    }
    let mut r = String::from_str(base_url.substring_char(0, e));
    let items = param_items(params, false);
    let q = join_query(&items);
    r.append(q.as_str());
    r
}

} // verus!
