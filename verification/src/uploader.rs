//! The resolver used for upload configuration fields, and the assembly of
//! the upload result from the response.
//!
//! An upload evaluates templates twice: once before the request, with no
//! response data available, and once after it, against the response text
//! and headers.  [`UploadResolver`] covers both: built by
//! [`UploadResolver::pre_request`] it rejects the response-dependent
//! functions with a named error, built by [`UploadResolver::post_request`]
//! it serves them from the captured response.

use crate::config::Config;
use crate::resolver::Resolver;
use crate::strutil::str_eq;
use crate::syntax::spec_process;
use crate::syntax::trace_deterministic;
use crate::syntax::process;
use vstd::prelude::*;
use vstd::string::StringExecFns;

verus! {

broadcast use vstd::string::group_string_axioms;

/// What a template evaluation error is, mathematically: the message text.
pub ghost struct ErrorV {
    pub msg: Seq<char>,
}

/// An error raised while evaluating a template of the upload configuration:
/// a function was unknown, unavailable in the current context, or called
/// with the wrong arity.
#[derive(Debug)]
pub enum Error {
    Syntax(String),
}

impl View for Error {
    type V = ErrorV;

    open spec fn view(&self) -> ErrorV {
        match self {
            Error::Syntax(m) => ErrorV { msg: m@ },
        }
    }
}

impl Error {
    /// The human-readable message of this error.
    pub fn message(&self) -> (m: &String)
        ensures
            m@ == self@.msg,
    {
        match self {
            Error::Syntax(m) => m,
        }
    }
}

/// The name given to what `base64::encode` returns on the UTF-8 bytes of a
/// text.
pub uninterp spec fn base64_of(s: Seq<char>) -> Seq<char>;

/// Relies on `base64::encode` (standard alphabet, with padding): its output
/// is a function of the input bytes, and hence of the input characters,
/// alone.
#[verifier::external_body]
fn base64_encode(s: &str) -> (r: String)
    ensures
        r@ == base64_of(s@),
{
    base64::encode(s.as_bytes())
}

/// Relies on `rand::random`: draws a value of a type with a standard
/// distribution.  Nothing is promised of the value.
pub assume_specification<T>[ rand::random::<T> ]() -> (r: T)
    where
        rand::distributions::Standard: rand::distributions::Distribution<T>,
;

/// A header list, seen abstractly: the key and value character sequences,
/// in order.
pub open spec fn headers_view(h: Seq<(String, String)>) -> Seq<(Seq<char>, Seq<char>)> {
    h.map_values(|p: (String, String)| (p.0@, p.1@))
}

/// The value of the first header whose name matches, scanning from `j`.
pub open spec fn header_lookup(
    h: Seq<(Seq<char>, Seq<char>)>,
    name: Seq<char>,
    j: int,
) -> Option<Seq<char>>
    decreases h.len() - j,
    when 0 <= j <= h.len()
{
    if j == h.len() {
        Option::None
    } else if h[j].0 == name {
        Option::Some(h[j].1)
    } else {
        header_lookup(h, name, j + 1)
    }
}

/// Finds the first header of the given name, if any.
fn lookup_header(headers: &Vec<(String, String)>, name: &String) -> (r: Option<String>)
    ensures
        match header_lookup(headers_view(headers@), name@, 0) {
            Option::Some(v) => r is Some && r->0@ == v,
            Option::None => r is None,
        },
{
    let ghost hv = headers_view(headers@);
    let mut j: usize = 0;
    while j < headers.len()
        invariant
            j <= headers.len(),
            hv == headers_view(headers@),
            header_lookup(hv, name@, 0) == header_lookup(hv, name@, j as int),
        decreases headers.len() - j,
    {
        if headers[j].0 == *name {
            return Option::Some(headers[j].1.clone());
        }
        j = j + 1;
    }
    Option::None
}

/// The resolver for upload configuration fields.
///
/// Its functions: `base64(text)` encodes its argument; `random(v1, ...)`
/// picks one of its arguments uniformly; `response()` is the response body
/// and `header(name)` a response header value (empty when absent), both
/// available only once a response has been captured.  `select` and `prompt`
/// are recognized but unsupported, and any other name is rejected, each
/// with an error naming the function.
pub struct UploadResolver {
    pub response_text: Option<String>,
    pub response_headers: Vec<(String, String)>,
}

impl UploadResolver {
    /// The resolver for fields evaluated before the request is sent:
    /// response-dependent functions are unavailable.
    pub fn pre_request() -> (r: UploadResolver)
        ensures
            r.response_text is None,
            r.response_headers@.len() == 0,
    {
        UploadResolver { response_text: Option::None, response_headers: Vec::new() }
    }

    /// The resolver for fields evaluated against the captured response.
    pub fn post_request(response_text: String, response_headers: Vec<(String, String)>) -> (r:
        UploadResolver)
        ensures
            r.response_text == Option::Some(response_text),
            r.response_headers == response_headers,
    {
        UploadResolver { response_text: Option::Some(response_text), response_headers }
    }

    /// What each call answers; the one non-deterministic answer, `random`
    /// over at least one argument, is left unspecified here.
    pub open spec fn spec_resolve(&self, name: Seq<char>, args: Seq<Seq<char>>) -> Result<
        Seq<char>,
        ErrorV,
    > {
        if name == "response"@ {
            match self.response_text {
                Option::Some(t) => Result::Ok(t@),
                Option::None => Result::Err(
                    ErrorV { msg: "{response} is not available in current context"@ },
                ),
            }
        } else if name == "base64"@ {
            if args.len() >= 1 {
                Result::Ok(base64_of(args[0]))
            } else {
                Result::Err(ErrorV { msg: "base64 needs exactly 1 argument"@ })
            }
        } else if name == "random"@ {
            if args.len() < 1 {
                Result::Err(ErrorV { msg: "{random} needs at least 1 argument"@ })
            } else {
                Result::Ok(arbitrary())
            }
        } else if name == "header"@ {
            match self.response_text {
                Option::None => Result::Err(
                    ErrorV { msg: "{header} is not available in current context"@ },
                ),
                Option::Some(_) => {
                    if args.len() >= 1 {
                        match header_lookup(headers_view(self.response_headers@), args[0], 0) {
                            Option::Some(v) => Result::Ok(v),
                            Option::None => Result::Ok(Seq::empty()),
                        }
                    } else {
                        Result::Err(ErrorV { msg: "{header} needs 1 argument"@ })
                    }
                },
            }
        } else if name == "select"@ || name == "prompt"@ {
            Result::Err(ErrorV { msg: "unsupported function {"@ + name + "}"@ })
        } else {
            Result::Err(ErrorV { msg: "invalid function {"@ + name + "}"@ })
        }
    }
}

/// The six recognized function names are pairwise distinct.
proof fn lemma_distinct_names()
    ensures
        "response"@ != "base64"@,
        "response"@ != "random"@,
        "response"@ != "header"@,
        "response"@ != "select"@,
        "response"@ != "prompt"@,
        "base64"@ != "random"@,
        "base64"@ != "header"@,
        "base64"@ != "select"@,
        "base64"@ != "prompt"@,
        "random"@ != "header"@,
        "random"@ != "select"@,
        "random"@ != "prompt"@,
        "header"@ != "select"@,
        "header"@ != "prompt"@,
        "select"@ != "prompt"@,
{
    reveal_strlit("response");
    reveal_strlit("base64");
    reveal_strlit("random");
    reveal_strlit("header");
    reveal_strlit("select");
    reveal_strlit("prompt");
    assert("response"@.len() == 8);
    assert("base64"@[0] == 'b');
    assert("random"@[0] == 'r');
    assert("header"@[0] == 'h');
    assert("select"@[0] == 's');
    assert("prompt"@[0] == 'p');
}

impl Resolver for UploadResolver {
    type Ctx = ();

    type E = Error;

    open spec fn model(&self, name: Seq<char>, args: Seq<Seq<char>>, ctx: ()) -> Result<
        Seq<char>,
        ErrorV,
    > {
        self.spec_resolve(name, args)
    }

    /// Every call but `random` over at least one argument is a function of
    /// the call alone.
    open spec fn deterministic_at(&self, name: Seq<char>, args: Seq<Seq<char>>, ctx: ()) -> bool {
        !(name == "random"@ && args.len() >= 1)
    }

    fn resolve(&self, name: &String, args: &Vec<String>, ctx: &()) -> (r: Result<String, Error>)
        ensures
            (name@ == "random"@ && args@.len() >= 1) ==> r is Ok && (exists|k: int|
                0 <= k < args@.len() && r->Ok_0@ == (#[trigger] args@[k])@),
    {
        proof {
            lemma_distinct_names();
        }
        if str_eq(name.as_str(), "response") {
            match &self.response_text {
                Option::Some(t) => Result::Ok(t.clone()),
                Option::None => Result::Err(
                    Error::Syntax(
                        String::from_str("{response} is not available in current context"),
                    ),
                ),
            }
        } else if str_eq(name.as_str(), "base64") {
            if args.len() >= 1 {
                Result::Ok(base64_encode(args[0].as_str()))
            } else {
                Result::Err(Error::Syntax(String::from_str("base64 needs exactly 1 argument")))
            }
        } else if str_eq(name.as_str(), "random") {
            if args.len() < 1 {
                Result::Err(Error::Syntax(String::from_str("{random} needs at least 1 argument")))
            } else {
                let n: usize = rand::random::<usize>();
                let idx: usize = n % args.len();
                let picked = args[idx].clone();
                proof {
                    assert(0 <= idx < args@.len() && picked@ == (args@[idx as int])@);
                    assert(exists|k: int|
                        0 <= k < args@.len() && picked@ == (#[trigger] args@[k])@);
                }
                Result::Ok(picked)
            }
        } else if str_eq(name.as_str(), "header") {
            match &self.response_text {
                Option::None => Result::Err(
                    Error::Syntax(String::from_str("{header} is not available in current context")),
                ),
                Option::Some(_) => {
                    if args.len() >= 1 {
                        match lookup_header(&self.response_headers, &args[0]) {
                            Option::Some(v) => Result::Ok(v),
                            Option::None => Result::Ok(String::new()),
                        }
                    } else {
                        Result::Err(Error::Syntax(String::from_str("{header} needs 1 argument")))
                    }
                },
            }
        } else if str_eq(name.as_str(), "select") || str_eq(name.as_str(), "prompt") {
            let mut m = String::from_str("unsupported function {");
            m.append(name.as_str());
            m.append("}");
            Result::Err(Error::Syntax(m))
        } else {
            let mut m = String::from_str("invalid function {");
            m.append(name.as_str());
            m.append("}");
            Result::Err(Error::Syntax(m))
        }
    }
}

/// The fields extracted from one upload, mathematically.
pub ghost struct OutputV {
    pub response: Option<Seq<char>>,
    pub url: Option<Seq<char>>,
    pub deletion_url: Option<Seq<char>>,
    pub thumbnail_url: Option<Seq<char>>,
    pub error_message: Option<Seq<char>>,
}

/// The fields extracted from one upload: the raw response text and the
/// templated result fields of the configuration, evaluated against it.
#[derive(Debug)]
pub struct Output {
    pub response: Option<String>,
    pub url: Option<String>,
    pub deletion_url: Option<String>,
    pub thumbnail_url: Option<String>,
    pub error_message: Option<String>,
}

/// A string option, seen abstractly.
pub open spec fn opt_view(o: Option<String>) -> Option<Seq<char>> {
    match o {
        Option::Some(s) => Option::Some(s@),
        Option::None => Option::None,
    }
}

impl View for Output {
    type V = OutputV;

    open spec fn view(&self) -> OutputV {
        OutputV {
            response: opt_view(self.response),
            url: opt_view(self.url),
            deletion_url: opt_view(self.deletion_url),
            thumbnail_url: opt_view(self.thumbnail_url),
            error_message: opt_view(self.error_message),
        }
    }
}

/// An optional response field: absent stays absent, present is evaluated.
pub open spec fn spec_opt_field(o: Option<String>, rsv: UploadResolver) -> Result<
    Option<Seq<char>>,
    ErrorV,
> {
    match o {
        Option::None => Result::Ok(Option::None),
        Option::Some(u) => match spec_process(u@, rsv, ()).0 {
            Result::Ok(v) => Result::Ok(Option::Some(v)),
            Result::Err(e) => Result::Err(e),
        },
    }
}

/// What assembling the upload output means: the response text is kept; the
/// url falls back to the response text when the configuration has no url
/// template; fields are evaluated in configuration order (url, deletion
/// url, thumbnail url, error message) and the first error wins.
pub open spec fn spec_output(c: Config, rsv: UploadResolver, text: Seq<char>) -> Result<
    OutputV,
    ErrorV,
> {
    let url_r: Result<Seq<char>, ErrorV> = match c.url {
        Option::Some(u) => spec_process(u@, rsv, ()).0,
        Option::None => Result::Ok(text),
    };
    match url_r {
        Result::Err(e) => Result::Err(e),
        Result::Ok(url_v) => match spec_opt_field(c.deletion_url, rsv) {
            Result::Err(e) => Result::Err(e),
            Result::Ok(del_v) => match spec_opt_field(c.thumbnail_url, rsv) {
                Result::Err(e) => Result::Err(e),
                Result::Ok(tmb_v) => match spec_opt_field(c.error_message, rsv) {
                    Result::Err(e) => Result::Err(e),
                    Result::Ok(msg_v) => Result::Ok(
                        OutputV {
                            response: Option::Some(text),
                            url: Option::Some(url_v),
                            deletion_url: del_v,
                            thumbnail_url: tmb_v,
                            error_message: msg_v,
                        },
                    ),
                },
            },
        },
    }
}

/// Whether the resolver answers deterministically throughout the
/// evaluation of every response field of the configuration.
pub open spec fn output_deterministic(c: Config, rsv: UploadResolver) -> bool {
    &&& (c.url is Some ==> trace_deterministic(rsv, (), spec_process(c.url->0@, rsv, ()).1))
    &&& (c.deletion_url is Some ==> trace_deterministic(
        rsv,
        (),
        spec_process(c.deletion_url->0@, rsv, ()).1,
    ))
    &&& (c.thumbnail_url is Some ==> trace_deterministic(
        rsv,
        (),
        spec_process(c.thumbnail_url->0@, rsv, ()).1,
    ))
    &&& (c.error_message is Some ==> trace_deterministic(
        rsv,
        (),
        spec_process(c.error_message->0@, rsv, ()).1,
    ))
}

/// Evaluates the response-derived fields of the configuration against the
/// captured response text and headers, and assembles the upload output.
///
/// Wherever the resolver answers deterministically the result is exactly
/// [`spec_output`]; the first field whose template fails aborts the
/// assembly with that error, unchanged.
pub fn build_output(config: &Config, response_text: &String, response_headers: Vec<
    (String, String),
>) -> (r: Result<Output, Error>)
    ensures
        ({
            let rsv = (UploadResolver {
                response_text: Option::Some(*response_text),
                response_headers,
            });
            output_deterministic(*config, rsv) ==> match (r, spec_output(
                *config,
                rsv,
                response_text@,
            )) {
                (Result::Ok(o), Result::Ok(ov)) => o@ == ov,
                (Result::Err(a), Result::Err(b)) => a@ == b,
                _ => false,
            }
        }),
        r is Ok ==> ({
            let o = r->Ok_0@;
            &&& o.response == Option::Some(response_text@)
            &&& o.url is Some
            &&& (config.url is None ==> o.url == Option::Some(response_text@))
            &&& (config.deletion_url is None <==> o.deletion_url is None)
            &&& (config.thumbnail_url is None <==> o.thumbnail_url is None)
            &&& (config.error_message is None <==> o.error_message is None)
        }),
{
    let resolver = UploadResolver::post_request(response_text.clone(), response_headers);
    let ghost rsv = resolver;
    let url: Option<String> = match &config.url {
        Option::Some(u) => match process(u.as_str(), &resolver, &()) {
            Result::Ok(s) => Option::Some(s),
            Result::Err(e) => {
                return Result::Err(e);
            },
        },
        Option::None => Option::Some(response_text.clone()),
    };
    let deletion_url: Option<String> = match &config.deletion_url {
        Option::Some(u) => match process(u.as_str(), &resolver, &()) {
            Result::Ok(s) => Option::Some(s),
            Result::Err(e) => {
                return Result::Err(e);
            },
        },
        Option::None => Option::None,
    };
    let thumbnail_url: Option<String> = match &config.thumbnail_url {
        Option::Some(u) => match process(u.as_str(), &resolver, &()) {
            Result::Ok(s) => Option::Some(s),
            Result::Err(e) => {
                return Result::Err(e);
            },
        },
        Option::None => Option::None,
    };
    let error_message: Option<String> = match &config.error_message {
        Option::Some(u) => match process(u.as_str(), &resolver, &()) {
            Result::Ok(s) => Option::Some(s),
            Result::Err(e) => {
                return Result::Err(e);
            },
        },
        Option::None => Option::None,
    };
    Result::Ok(
        Output {
            response: Option::Some(response_text.clone()),
            url,
            deletion_url,
            thumbnail_url,
            error_message,
        },
    )
}

/// One entry list of the configuration (headers, query parameters or body
/// arguments), seen abstractly.
pub open spec fn entries_view(s: Seq<(String, String)>) -> Seq<(Seq<char>, Seq<char>)> {
    s.map_values(|p: (String, String)| (p.0@, p.1@))
}

/// Evaluating every value of an entry list, from `j` on: keys are kept,
/// values are run through the engine, and the first error wins.
pub open spec fn spec_eval_entries_from<R: Resolver>(
    entries: Seq<(Seq<char>, Seq<char>)>,
    j: int,
    r: R,
    ctx: R::Ctx,
) -> Result<Seq<(Seq<char>, Seq<char>)>, <R::E as View>::V>
    decreases entries.len() - j,
    when 0 <= j <= entries.len()
{
    if j == entries.len() {
        Result::Ok(Seq::empty())
    } else {
        match spec_process(entries[j].1, r, ctx).0 {
            Result::Err(e) => Result::Err(e),
            Result::Ok(v) => match spec_eval_entries_from(entries, j + 1, r, ctx) {
                Result::Err(e) => Result::Err(e),
                Result::Ok(t) => Result::Ok(seq![(entries[j].0, v)] + t),
            },
        }
    }
}

/// Whether the resolver answers deterministically throughout the
/// evaluation of every value of the entry list.
pub open spec fn entries_deterministic<R: Resolver>(
    entries: Seq<(Seq<char>, Seq<char>)>,
    r: R,
    ctx: R::Ctx,
) -> bool {
    forall|k: int|
        0 <= k < entries.len() ==> trace_deterministic(
            r,
            ctx,
            spec_process((#[trigger] entries[k]).1, r, ctx).1,
        )
}

/// Evaluates every value of an entry list (headers, query parameters or
/// body arguments) through the template engine, keeping the keys and the
/// order.  Wherever the resolver answers deterministically the result is
/// exactly [`spec_eval_entries_from`] applied to the whole list.
pub fn evaluate_map_values<R: Resolver>(
    entries: &Vec<(String, String)>,
    resolver: &R,
    ctx: &R::Ctx,
) -> (r: Result<Vec<(String, String)>, R::E>)
    ensures
        entries_deterministic(entries_view(entries@), *resolver, *ctx) ==> match (r,
        spec_eval_entries_from(entries_view(entries@), 0, *resolver, *ctx)) {
            (Result::Ok(o), Result::Ok(m)) => entries_view(o@) == m,
            (Result::Err(a), Result::Err(b)) => a@ == b,
            _ => false,
        },
        r is Ok ==> r->Ok_0@.len() == entries@.len() && (forall|k: int|
            0 <= k < entries@.len() ==> (#[trigger] r->Ok_0@[k]).0@ == entries@[k].0@),
{
    let ghost ev = entries_view(entries@);
    let ghost hyp = entries_deterministic(ev, *resolver, *ctx);
    let mut out: Vec<(String, String)> = Vec::new();
    let mut j: usize = 0;
    proof {
        assert(entries_view(out@) =~= Seq::<(Seq<char>, Seq<char>)>::empty());
    }
    while j < entries.len()
        invariant
            j <= entries.len(),
            ev == entries_view(entries@),
            hyp == entries_deterministic(ev, *resolver, *ctx),
            out@.len() == j,
            forall|k: int| 0 <= k < j ==> (#[trigger] out@[k]).0@ == entries@[k].0@,
            hyp ==> match spec_eval_entries_from(ev, j as int, *resolver, *ctx) {
                Result::Ok(t) => spec_eval_entries_from(ev, 0, *resolver, *ctx) == Result::<
                    Seq<(Seq<char>, Seq<char>)>,
                    <R::E as View>::V,
                >::Ok(entries_view(out@) + t),
                Result::Err(e) => spec_eval_entries_from(ev, 0, *resolver, *ctx) == Result::<
                    Seq<(Seq<char>, Seq<char>)>,
                    <R::E as View>::V,
                >::Err(e),
            },
        decreases entries.len() - j,
    {
        proof {
            if hyp {
                assert(trace_deterministic(
                    *resolver,
                    *ctx,
                    spec_process((ev[j as int]).1, *resolver, *ctx).1,
                ));
            }
        }
        let key = entries[j].0.clone();
        match process(entries[j].1.as_str(), resolver, ctx) {
            Result::Ok(v) => {
                let ghost out_old = entries_view(out@);
                let ghost pair = (ev[j as int].0, v@);
                out.push((key, v));
                j = j + 1;
                proof {
                    assert(entries_view(out@) =~= out_old.push(pair));
                    if hyp {
                        match spec_eval_entries_from(ev, j as int, *resolver, *ctx) {
                            Result::Ok(t) => {
                                assert(out_old + (seq![pair] + t) =~= entries_view(out@) + t);
                            },
                            Result::Err(e) => {},
                        }
                    }
                }
            },
            Result::Err(e) => {
                return Result::Err(e);
            },
        }
    }
    proof {
        if hyp {
            assert(entries_view(out@) + Seq::<(Seq<char>, Seq<char>)>::empty() =~= entries_view(
                out@,
            ));
        }
    }
    Result::Ok(out)
}

/// An uploader bound to one configuration.
pub struct CustomUploader {
    pub config: Config,
}

impl CustomUploader {
    pub fn new(config: Config) -> (u: CustomUploader)
        ensures
            u.config == config,
    {
        CustomUploader { config }
    }
}

} // verus!
