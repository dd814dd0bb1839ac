//! A script's fetch: where it goes, what is sent, and what the script gets back.
#[allow(unused_imports)]
use crate::headers::{
    all_header_names, header_entries, sent_headers, visible_headers, SURE_ENTRIES,
};
use crate::headers::{request_headers, visible_headers_of, HeaderTable};
use fire_http::header::Uri;
use reqwest::header::HeaderMap;
use reqwest::{Method, Url};
use vstd::prelude::*;
use vstd::string::*;
#[allow(unused_imports)]
use vstd::utf8::is_ascii_chars;

verus! {

/// What a script asks for.
pub struct FetchRequest {
    pub url: String,
    pub method: String,
    pub headers: HeaderTable,
    pub body: String,
}

/// What a script gets back.
pub struct FetchResponse {
    pub status: u16,
    pub headers: HeaderTable,
    pub body: String,
}

/// Where a fetch goes: out to a URL, or to the router of this server.
pub enum FetchTarget {
    Remote(String),
    Local(String),
}

/// Why a fetch is not even tried.
pub enum FetchError {
    TooManyHeaders,
    InvalidUrl(String),
    InvalidUri(String),
}

/// A fetch that is ready to go.
pub struct FetchPlan {
    pub method: String,
    pub headers: HeaderMap,
    pub target: FetchTarget,
    pub body: String,
}

/// The status of an answer to a request that no route takes.
pub const NOT_FOUND: u16 = 404;

/// What became of parsing a text: another text, or an error message.
pub open spec fn outcome_text(outcome: Result<String, String>) -> Result<Seq<char>, Seq<char>> {
    match outcome {
        Ok(text) => Ok(text@),
        Err(message) => Err(message@),
    }
}

/// The URL that a text stands for, written out, or the message that says why it stands for none.
pub uninterp spec fn url_parsed(text: Seq<char>) -> Result<Seq<char>, Seq<char>>;

/// `reqwest::Url::parse`, the URL and the error as text.
#[verifier::external_body]
fn parse_url(text: &str) -> (r: Result<String, String>)
    ensures
        outcome_text(r) == url_parsed(text@),
{
    Url::parse(text).map(String::from).map_err(|error| error.to_string())
}

/// The URI that a text stands for, written out, or the message that says why it stands for none.
pub uninterp spec fn uri_parsed(text: Seq<char>) -> Result<Seq<char>, Seq<char>>;

/// `str::parse` of a `fire_http::header::Uri`, the URI and the error as text.
#[verifier::external_body]
fn parse_uri(text: &str) -> (r: Result<String, String>)
    ensures
        outcome_text(r) == uri_parsed(text@),
{
    match text.parse::<Uri>() {
        Ok(uri) => Ok(uri.to_string()),
        Err(error) => Err(error.to_string()),
    }
}

/// A text in upper case, as Unicode has it.
pub uninterp spec fn uppercase(text: Seq<char>) -> Seq<char>;

/// `c` in upper case, where it is a letter of ASCII.
pub open spec fn upper_char(c: char) -> char {
    if 'a' <= c <= 'z' {
        (c as u32 - 32) as char
    } else {
        c
    }
}

/// `text` with the letters of ASCII in upper case.
pub open spec fn upper(text: Seq<char>) -> Seq<char> {
    text.map_values(|c: char| upper_char(c))
}

/// `str::to_uppercase` follows Unicode; of a text that is all ASCII it changes the letters from a
/// to z alone.
pub assume_specification[ str::to_uppercase ](text: &str) -> (r: String)
    ensures
        r@ == uppercase(text@),
        is_ascii_chars(text@) ==> r@ == upper(text@),
;

/// Whether the name of a method may hold `c`.
pub open spec fn is_method_char(c: char) -> bool {
    ||| '0' <= c <= '9'
    ||| 'A' <= c <= 'Z'
    ||| 'a' <= c <= 'z'
    ||| c == '!' || c == '*' || c == '+' || c == '-' || c == '.'
    ||| c == '^' || c == '_' || c == '`' || c == '|' || c == '~'
}

/// Whether `name` is the name of a method.
pub open spec fn is_method(name: Seq<char>) -> bool {
    &&& name.len() > 0
    &&& forall|i: int| 0 <= i < name.len() ==> is_method_char(#[trigger] name[i])
}

/// `reqwest::Method::from_bytes` accepts a name of one or more of the characters that
/// [`is_method_char`] lists, and keeps it as it is.
#[verifier::external_body]
fn parse_method(name: &str) -> (r: Option<String>)
    ensures
        r is Some == is_method(name@),
        r matches Some(parsed) ==> parsed@ == name@,
{
    Method::from_bytes(name.as_bytes()).ok().map(|method| method.as_str().to_string())
}

/// The method that a name in upper case stands for: GET where it is none.
pub open spec fn method_named(name: Seq<char>) -> Seq<char> {
    if is_method(name) {
        name
    } else {
        "GET"@
    }
}

/// The method that `name` stands for, its letters in any case.
pub fn fetch_method(name: &str) -> (r: String)
    ensures
        r@ == method_named(uppercase(name@)),
        is_ascii_chars(name@) ==> r@ == method_named(upper(name@)),
{
    match parse_method(name.to_uppercase().as_str()) {
        Some(method) => method,
        None => "GET".to_owned(),
    }
}

/// Whether a fetch of `url` stays on this server.
pub open spec fn is_local(url: Seq<char>) -> bool {
    url.len() > 0 && url[0] == '/'
}

/// Whether a fetch of `url` stays on this server.
pub fn stays_local(url: &str) -> (r: bool)
    ensures
        r == is_local(url@),
        r <==> seq!['/'].is_prefix_of(url@),
{
    proof {
        if url@.len() > 0 && url@[0] == '/' {
            assert(url@.subrange(0, 1) =~= seq!['/']);
        } else if url@.len() > 0 {
            assert(url@.subrange(0, 1)[0] != seq!['/'][0]);
        }
    }
    !url.is_empty() && url.get_char(0) == '/'
}

/// The target that a URL outside this server is, its text having been parsed.
pub fn remote_target(parsed: Result<String, String>) -> (r: Result<FetchTarget, FetchError>)
    ensures
        parsed matches Ok(url) ==> r == Ok::<FetchTarget, FetchError>(FetchTarget::Remote(url)),
        parsed matches Err(message) ==> r == Err::<FetchTarget, FetchError>(
            FetchError::InvalidUrl(message),
        ),
{
    match parsed {
        Ok(url) => Ok(FetchTarget::Remote(url)),
        Err(message) => Err(FetchError::InvalidUrl(message)),
    }
}

/// The target that a URI on this server is, its text having been parsed.
pub fn local_target(parsed: Result<String, String>) -> (r: Result<FetchTarget, FetchError>)
    ensures
        parsed matches Ok(uri) ==> r == Ok::<FetchTarget, FetchError>(FetchTarget::Local(uri)),
        parsed matches Err(message) ==> r == Err::<FetchTarget, FetchError>(
            FetchError::InvalidUri(message),
        ),
{
    match parsed {
        Ok(uri) => Ok(FetchTarget::Local(uri)),
        Err(message) => Err(FetchError::InvalidUri(message)),
    }
}

/// Whether `r` is what a fetch of `url` leads to.
pub open spec fn leads_to(url: Seq<char>, r: Result<FetchTarget, FetchError>) -> bool {
    if is_local(url) {
        match uri_parsed(url) {
            Ok(uri) => r matches Ok(FetchTarget::Local(text)) && text@ == uri,
            Err(message) => r matches Err(FetchError::InvalidUri(text)) && text@ == message,
        }
    } else {
        match url_parsed(url) {
            Ok(parsed) => r matches Ok(FetchTarget::Remote(text)) && text@ == parsed,
            Err(message) => r matches Err(FetchError::InvalidUrl(text)) && text@ == message,
        }
    }
}

/// Where a fetch of `url` goes.
pub fn fetch_target(url: &str) -> (r: Result<FetchTarget, FetchError>)
    ensures
        leads_to(url@, r),
        seq!['/'].is_prefix_of(url@) ==> (r matches Ok(FetchTarget::Local(_)) || r matches Err(
            FetchError::InvalidUri(_),
        )),
        !seq!['/'].is_prefix_of(url@) ==> (r matches Ok(FetchTarget::Remote(_)) || r matches Err(
            FetchError::InvalidUrl(_),
        )),
{
    if stays_local(url) {
        local_target(parse_uri(url))
    } else {
        remote_target(parse_url(url))
    }
}

/// The target of a plan, where there is a plan.
pub open spec fn planned_target(plan: Result<FetchPlan, FetchError>) -> Result<
    FetchTarget,
    FetchError,
> {
    match plan {
        Ok(plan) => Ok(plan.target),
        Err(error) => Err(error),
    }
}

impl FetchRequest {
    /// Makes the fetch ready to go.
    pub fn plan(self) -> (r: Result<FetchPlan, FetchError>)
        requires
            all_header_names(self.headers.pairs()),
        ensures
            sent_headers(self.headers.pairs()).len() < SURE_ENTRIES ==> !(r matches Err(
                FetchError::TooManyHeaders,
            )),
            r matches Err(FetchError::TooManyHeaders) || leads_to(self.url@, planned_target(r)),
            r matches Ok(plan) ==> leads_to(self.url@, Ok(plan.target)),
            r matches Ok(plan) ==> {
                &&& plan.method@ == method_named(uppercase(self.method@))
                &&& is_ascii_chars(self.method@) ==> plan.method@ == method_named(
                    upper(self.method@),
                )
                &&& header_entries(plan.headers) == sent_headers(self.headers.pairs())
                &&& plan.body@ == self.body@
            },
    {
        let headers = match request_headers(&self.headers) {
            Some(headers) => headers,
            None => {
                return Err(FetchError::TooManyHeaders);
            },
        };
        let method = fetch_method(self.method.as_str());
        match fetch_target(self.url.as_str()) {
            Ok(target) => Ok(FetchPlan { method, headers, target, body: self.body }),
            Err(error) => Err(error),
        }
    }
}

/// The answer to a local fetch. `routed` is what the router made of it, where there is a router,
/// and where the router knows a route; without either the answer is `not_found`.
pub fn answer_or_not_found<T, E>(routed: Option<Option<Result<T, E>>>, not_found: T) -> (r: Result<
    T,
    E,
>)
    ensures
        r == (match routed {
            Some(Some(answer)) => answer,
            _ => Ok(not_found),
        }),
{
    match routed {
        Some(Some(answer)) => answer,
        _ => Ok(not_found),
    }
}

/// What a script gets back from outside.
pub fn remote_response(status: u16, headers: &HeaderMap, body: String) -> (r: FetchResponse)
    ensures
        r.status == status,
        r.headers.wf(),
        r.headers@ == visible_headers(header_entries(*headers)),
        r.body == body,
{
    FetchResponse { status, headers: visible_headers_of(headers), body }
}

/// What a script gets back from this server: the headers with the content type among them, and
/// an empty body where there is none that is text.
pub fn local_response(
    status: u16,
    headers: &HeaderMap,
    content_type: String,
    body: Option<String>,
) -> (r: FetchResponse)
    ensures
        r.status == status,
        r.headers.wf(),
        r.headers@ == visible_headers(header_entries(*headers)).insert(
            "content-type"@,
            content_type@,
        ),
        body matches Some(text) ==> r.body == text,
        body is None ==> r.body@ == Seq::<char>::empty(),
{
    let mut table = visible_headers_of(headers);
    table.insert("content-type".to_owned(), content_type);
    let body = match body {
        Some(text) => text,
        None => String::new(),
    };
    FetchResponse { status, headers: table, body }
}

/// The case in which a method is written makes no difference, as far as ASCII goes.
pub proof fn methods_ignore_case(one: Seq<char>, other: Seq<char>)
    requires
        one.len() == other.len(),
        forall|i: int|
            0 <= i < one.len() ==> upper_char(#[trigger] one[i]) == upper_char(other[i]),
    ensures
        method_named(upper(one)) == method_named(upper(other)),
{
    assert(upper(one) =~= upper(other));
}

/// A fetch of a slash and any text is answered from that text as a URI, and never leaves this
/// server.
pub proof fn a_slash_leads_to_this_server(path: Seq<char>, r: Result<FetchTarget, FetchError>)
    requires
        leads_to(seq!['/'] + path, r),
    ensures
        r matches Ok(FetchTarget::Local(uri)) ==> uri_parsed(seq!['/'] + path) == Ok::<
            Seq<char>,
            Seq<char>,
        >(uri@),
        r matches Err(FetchError::InvalidUri(message)) ==> uri_parsed(seq!['/'] + path) == Err::<
            Seq<char>,
            Seq<char>,
        >(message@),
        r matches Ok(FetchTarget::Local(_)) || r matches Err(FetchError::InvalidUri(_)),
{
}

/// A fetch of a text that does not begin with a slash is answered from that text as a URL, and
/// never reaches the router of this server.
pub proof fn all_else_leads_to_the_network(url: Seq<char>, r: Result<FetchTarget, FetchError>)
    requires
        url.len() == 0 || url.first() != '/',
        leads_to(url, r),
    ensures
        r matches Ok(FetchTarget::Remote(parsed)) ==> url_parsed(url) == Ok::<Seq<char>, Seq<char>>(
            parsed@,
        ),
        r matches Err(FetchError::InvalidUrl(message)) ==> url_parsed(url) == Err::<
            Seq<char>,
            Seq<char>,
        >(message@),
        r matches Ok(FetchTarget::Remote(_)) || r matches Err(FetchError::InvalidUrl(_)),
{
}

/// Whether a fetch stays on this server depends on the first character alone: what comes after it
/// makes no difference.
pub proof fn the_first_character_decides(first: char, one: Seq<char>, other: Seq<char>)
    ensures
        is_local(seq![first] + one) == is_local(seq![first] + other),
        is_local(seq![first] + one) <==> first == '/',
        !is_local(Seq::<char>::empty()),
{
}

/// The target of a plan is that of the fetch, and so is the error where there is no plan.
pub proof fn a_plan_keeps_its_target(plan: FetchPlan, error: FetchError)
    ensures
        planned_target(Ok(plan)) == Ok::<FetchTarget, FetchError>(plan.target),
        planned_target(Err(error)) == Err::<FetchTarget, FetchError>(error),
{
}

/// Whether a number is that of a letter or a digit of ASCII, or of one of the signs that the name
/// of a method may hold.
pub open spec fn is_method_code(code: int) -> bool {
    ||| 48 <= code <= 57
    ||| 65 <= code <= 90
    ||| 94 <= code <= 122
    ||| code == 33 || code == 42 || code == 43 || code == 45 || code == 46
    ||| code == 124 || code == 126
}

/// Upper case changes the letters from a to z and nothing else, each in its place.
pub proof fn upper_case_changes_small_letters_alone(text: Seq<char>)
    ensures
        upper(text).len() == text.len(),
        forall|i: int|
            0 <= i < text.len() && 97 <= (#[trigger] text[i]) as int <= 122 ==> upper(text)[i]
                as int == text[i] as int - 32,
        forall|i: int|
            0 <= i < text.len() && !(97 <= (#[trigger] text[i]) as int <= 122) ==> upper(text)[i]
                == text[i],
        upper(upper(text)) == upper(text),
{
    assert forall|i: int| 0 <= i < text.len() && 97 <= (#[trigger] text[i]) as int <= 122 implies
        upper(text)[i] as int == text[i] as int - 32 by {
        assert('a' <= text[i] <= 'z');
    }
    assert forall|i: int|
        0 <= i < text.len() && !(97 <= (#[trigger] text[i]) as int <= 122) implies upper(text)[i]
        == text[i] by {
        assert(!('a' <= text[i] <= 'z'));
    }
    assert(upper(upper(text)) =~= upper(text));
}

/// A name of one or more method characters is a method, and it is sent as it is.
pub proof fn a_method_is_sent_as_it_is_named(name: Seq<char>)
    requires
        name.len() > 0,
        forall|i: int| 0 <= i < name.len() ==> is_method_code((#[trigger] name[i]) as int),
    ensures
        method_named(name) == name,
{
    assert forall|i: int| 0 <= i < name.len() implies is_method_char(#[trigger] name[i]) by {
        assert(is_method_code(name[i] as int));
    }
}

/// A name of ASCII that is made of one or more method characters is sent with its letters in
/// upper case and nothing else changed: a name in upper case is sent as it is, and GET is sent
/// only for GET.
pub proof fn a_method_is_sent_in_upper_case(name: Seq<char>)
    requires
        name.len() > 0,
        forall|i: int| 0 <= i < name.len() ==> is_method_code((#[trigger] name[i]) as int),
    ensures
        method_named(upper(name)).len() == name.len(),
        forall|i: int|
            0 <= i < name.len() && 97 <= (#[trigger] name[i]) as int <= 122 ==> method_named(
                upper(name),
            )[i] as int == name[i] as int - 32,
        forall|i: int|
            0 <= i < name.len() && !(97 <= (#[trigger] name[i]) as int <= 122) ==> method_named(
                upper(name),
            )[i] == name[i],
        method_named(upper(name)) == "GET"@ ==> upper(name) == "GET"@,
{
    upper_case_changes_small_letters_alone(name);
    let capital = upper(name);
    assert forall|i: int| 0 <= i < capital.len() implies is_method_code(
        (#[trigger] capital[i]) as int,
    ) by {
        assert(is_method_code(name[i] as int));
    }
    a_method_is_sent_as_it_is_named(capital);
}

/// No name at all, and a name with a character that no method has, is sent as GET.
pub proof fn what_is_no_method_is_sent_as_get(name: Seq<char>, i: int)
    requires
        name.len() == 0 || (0 <= i < name.len() && !is_method_code(name[i] as int)),
    ensures
        method_named(name) == "GET"@,
{
    if name.len() > 0 {
        assert(!is_method_char(name[i]));
    }
}

/// Whatever was named, the method that is sent is one, and naming it again gives the same.
pub proof fn the_method_that_is_sent_is_one(name: Seq<char>)
    ensures
        method_named(name).len() > 0,
        forall|i: int|
            0 <= i < method_named(name).len() ==> is_method_code(
                (#[trigger] method_named(name)[i]) as int,
            ),
        method_named(method_named(name)) == method_named(name),
{
    reveal_strlit("GET");
    assert forall|i: int| 0 <= i < method_named(name).len() implies is_method_code(
        (#[trigger] method_named(name)[i]) as int,
    ) by {
        if is_method(name) {
            assert(is_method_char(name[i]));
        }
    }
    a_method_is_sent_as_it_is_named(method_named(name));
}

/// What became of parsing a text is seen as it is: success as success and failure as failure, each
/// with its text.
pub proof fn an_outcome_is_seen_as_it_is(outcome: Result<String, String>)
    ensures
        outcome_text(outcome) is Ok <==> outcome is Ok,
        outcome matches Ok(text) ==> outcome_text(outcome)->Ok_0 == text@,
        outcome matches Err(message) ==> outcome_text(outcome)->Err_0 == message@,
{
}

} // verus!
