//! The declarative upload configuration.
//!
//! String-valued fields are template strings: they are run through the
//! template engine before (or, for the response fields, after) the request.
//! Loading this structure from JSON is left to the surrounding application;
//! the crate only fixes the shape of the data and the parsing of the
//! destination-type list.

use crate::strutil::str_eq;
use vstd::string::StringExecFns;
use vstd::prelude::*;

verus! {

#[derive(Clone, Copy, PartialEq, Eq, Structural, Debug)]
pub enum RequestMethod {
    POST,
    GET,
    PUT,
    PATCH,
    DELETE,
}

#[derive(Clone, Copy, PartialEq, Eq, Structural, Debug)]
pub enum DestinationType {
    ImageUploader,
    TextUploader,
    FileUploader,
    URLShortener,
}

/// How the body of the outgoing request is assembled.
#[derive(Clone, Copy, PartialEq, Eq, Structural, Debug)]
pub enum Body {
    MultipartFormData,
    JSON,
    XML,
    Binary,
    FormURLEncoded,
    NoBody,
}

/// The method used when a configuration names none.
pub fn default_request_method() -> (m: RequestMethod)
    ensures
        m == RequestMethod::POST,
{
    RequestMethod::POST
}

/// The form field name used for the file when a configuration names none.
pub fn default_file_form_name() -> (s: String)
    ensures
        s@ == "file"@,
{
    String::from_str("file")
}

/// The response interpretation mode used when a configuration names none.
pub fn default_response_type() -> (s: String)
    ensures
        s@ == "Text"@,
{
    String::from_str("Text")
}

/// The destination type named by one entry of the comma-separated list.
/// `URLSharingService` is an accepted alias of `URLShortener`.
pub open spec fn spec_destination_of_name(s: Seq<char>) -> Option<DestinationType> {
    if s == "ImageUploader"@ {
        Option::Some(DestinationType::ImageUploader)
    } else if s == "TextUploader"@ {
        Option::Some(DestinationType::TextUploader)
    } else if s == "FileUploader"@ {
        Option::Some(DestinationType::FileUploader)
    } else if s == "URLShortener"@ || s == "URLSharingService"@ {
        Option::Some(DestinationType::URLShortener)
    } else {
        Option::None
    }
}

impl DestinationType {
    /// Parses one destination-type name; `None` on an unknown name.
    pub fn parse(s: &str) -> (r: Option<DestinationType>)
        ensures
            r == spec_destination_of_name(s@),
    {
        if str_eq(s, "ImageUploader") {
            Option::Some(DestinationType::ImageUploader)
        } else if str_eq(s, "TextUploader") {
            Option::Some(DestinationType::TextUploader)
        } else if str_eq(s, "FileUploader") {
            Option::Some(DestinationType::FileUploader)
        } else if str_eq(s, "URLShortener") {
            Option::Some(DestinationType::URLShortener)
        } else if str_eq(s, "URLSharingService") {
            Option::Some(DestinationType::URLShortener)
        } else {
            Option::None
        }
    }
}

/// The comma-separated pieces of a text, scanning from `j` with `cur` the
/// piece accumulated so far.  A trailing comma yields a final empty piece,
/// and an empty text is one empty piece.
pub open spec fn split_from(s: Seq<char>, j: int, cur: Seq<char>) -> Seq<Seq<char>>
    decreases s.len() - j,
    when 0 <= j <= s.len()
{
    if j == s.len() {
        seq![cur]
    } else if s[j] == ',' {
        seq![cur] + split_from(s, j + 1, Seq::empty())
    } else {
        split_from(s, j + 1, cur.push(s[j]))
    }
}

/// The comma-separated pieces of a text.
pub open spec fn comma_pieces(s: Seq<char>) -> Seq<Seq<char>> {
    split_from(s, 0, Seq::empty())
}

/// The text with its leading spaces removed.
pub open spec fn trim_front(t: Seq<char>) -> Seq<char>
    decreases t.len(),
{
    if t.len() > 0 && t[0] == ' ' {
        trim_front(t.drop_first())
    } else {
        t
    }
}

/// The text with its trailing spaces removed.
pub open spec fn trim_back(t: Seq<char>) -> Seq<char>
    decreases t.len(),
{
    if t.len() > 0 && t.last() == ' ' {
        trim_back(t.drop_last())
    } else {
        t
    }
}

/// The text with leading and trailing spaces removed.
pub open spec fn trim_spaces(t: Seq<char>) -> Seq<char> {
    trim_back(trim_front(t))
}

/// Parsing the pieces from `j` on: every piece must name a destination
/// type once trimmed, else nothing is parsed.
pub open spec fn parse_pieces(ps: Seq<Seq<char>>, j: int) -> Option<Seq<DestinationType>>
    decreases ps.len() - j,
    when 0 <= j <= ps.len()
{
    if j == ps.len() {
        Option::Some(Seq::empty())
    } else {
        match spec_destination_of_name(trim_spaces(ps[j])) {
            Option::None => Option::None,
            Option::Some(d) => match parse_pieces(ps, j + 1) {
                Option::None => Option::None,
                Option::Some(t) => Option::Some(seq![d] + t),
            },
        }
    }
}

/// What parsing a comma-separated destination-type list means.
pub open spec fn spec_parse_destinations(s: Seq<char>) -> Option<Seq<DestinationType>> {
    parse_pieces(comma_pieces(s), 0)
}

proof fn lemma_trim_front_skip(t: Seq<char>, k: int)
    requires
        0 <= k <= t.len(),
        forall|i: int| 0 <= i < k ==> t[i] == ' ',
        k == t.len() || t[k] != ' ',
    ensures
        trim_front(t) == t.skip(k),
    decreases k,
{
    if k == 0 {
        assert(t.skip(0) =~= t);
    } else {
        assert(t[0] == ' ');
        lemma_trim_front_skip(t.drop_first(), k - 1);
        assert(t.drop_first().skip(k - 1) =~= t.skip(k));
    }
}

proof fn lemma_trim_back_take(t: Seq<char>, h: int)
    requires
        0 <= h <= t.len(),
        forall|i: int| h <= i < t.len() ==> t[i] == ' ',
        h == 0 || t[h - 1] != ' ',
    ensures
        trim_back(t) == t.take(h),
    decreases t.len(),
{
    if h == t.len() {
        assert(t.take(h) =~= t);
    } else {
        assert(t.last() == ' ');
        lemma_trim_back_take(t.drop_last(), h);
        assert(t.drop_last().take(h) =~= t.take(h));
    }
}

/// Removes leading and trailing spaces.
fn trim_char_vec(t: &Vec<char>) -> (r: Vec<char>)
    ensures
        r@ == trim_spaces(t@),
{
    let mut lo: usize = 0;
    while lo < t.len() && t[lo] == ' '
        invariant
            lo <= t.len(),
            forall|i: int| 0 <= i < lo ==> t@[i] == ' ',
        decreases t.len() - lo,
    {
        lo = lo + 1;
    }
    let mut hi: usize = t.len();
    while hi > lo && t[hi - 1] == ' '
        invariant
            lo <= hi <= t.len(),
            forall|i: int| hi <= i < t@.len() ==> t@[i] == ' ',
        decreases hi,
    {
        hi = hi - 1;
    }
    let mut out: Vec<char> = Vec::new();
    let mut k: usize = lo;
    while k < hi
        invariant
            lo <= k <= hi,
            hi <= t@.len(),
            out@ == t@.subrange(lo as int, k as int),
        decreases hi - k,
    {
        out.push(t[k]);
        k = k + 1;
        proof {
            assert(out@ =~= t@.subrange(lo as int, k as int));
        }
    }
    proof {
        lemma_trim_front_skip(t@, lo as int);
        let u = t@.skip(lo as int);
        assert forall|i: int| hi - lo <= i < u.len() implies u[i] == ' ' by {
            assert(t@[lo + i] == ' ');
        }
        lemma_trim_back_take(u, hi as int - lo as int);
        assert(u.take(hi as int - lo as int) =~= t@.subrange(lo as int, hi as int));
    }
    out
}

/// Parses a comma-separated destination-type list: each piece is trimmed
/// of surrounding spaces and must name a destination type (or its alias);
/// one unknown name rejects the whole list.
pub fn parse_destination_types(s: &str) -> (r: Option<Vec<DestinationType>>)
    ensures
        match (r, spec_parse_destinations(s@)) {
            (Option::Some(v), Option::Some(m)) => v@ == m,
            (Option::None, Option::None) => true,
            _ => false,
        },
{
    let owned = String::from_str(s);
    let chars = crate::strutil::string_to_char_vec(&owned);
    let ghost full_pieces = comma_pieces(s@);
    let mut pieces: Vec<Vec<char>> = Vec::new();
    let mut cur: Vec<char> = Vec::new();
    let mut j: usize = 0;
    proof {
        assert(pieces.deep_view() =~~= Seq::<Seq<char>>::empty());
        assert(Seq::<Seq<char>>::empty() + split_from(s@, 0, Seq::empty()) =~= split_from(
            s@,
            0,
            Seq::empty(),
        ));
    }
    while j < chars.len()
        invariant
            j <= chars.len(),
            chars@ == s@,
            full_pieces == comma_pieces(s@),
            full_pieces == pieces.deep_view() + split_from(s@, j as int, cur@),
        decreases chars.len() - j,
    {
        let c = chars[j];
        if c == ',' {
            let ghost old_pieces = pieces.deep_view();
            let ghost old_cur = cur@;
            pieces.push(cur);
            cur = Vec::new();
            j = j + 1;
            proof {
                assert(pieces.deep_view() =~~= old_pieces.push(old_cur));
                assert(old_pieces + (seq![old_cur] + split_from(s@, j as int, cur@))
                    =~= pieces.deep_view() + split_from(s@, j as int, cur@));
            }
        } else {
            cur.push(c);
            j = j + 1;
        }
    }
    let ghost old_pieces = pieces.deep_view();
    let ghost old_cur = cur@;
    pieces.push(cur);
    proof {
        assert(pieces.deep_view() =~~= old_pieces.push(old_cur));
        assert(old_pieces + seq![old_cur] =~= pieces.deep_view());
        assert(full_pieces == pieces.deep_view());
    }
    let mut out: Vec<DestinationType> = Vec::new();
    let mut k: usize = 0;
    while k < pieces.len()
        invariant
            k <= pieces.len(),
            full_pieces == comma_pieces(s@),
            full_pieces == pieces.deep_view(),
            match parse_pieces(full_pieces, k as int) {
                Option::Some(t) => parse_pieces(full_pieces, 0) == Option::Some(out@ + t),
                Option::None => parse_pieces(full_pieces, 0) is None,
            },
        decreases pieces.len() - k,
    {
        let trimmed = trim_char_vec(&pieces[k]);
        let name = crate::strutil::char_vec_to_string(&trimmed);
        proof {
            assert(pieces[k as int].deep_view() =~~= pieces[k as int]@);
            assert(name@ == trim_spaces(full_pieces[k as int]));
        }
        match DestinationType::parse(name.as_str()) {
            Option::Some(d) => {
                let ghost old_out = out@;
                out.push(d);
                k = k + 1;
                proof {
                    match parse_pieces(full_pieces, k as int) {
                        Option::Some(t) => {
                            assert(old_out + (seq![d] + t) =~= out@ + t);
                        },
                        Option::None => {},
                    }
                }
            },
            Option::None => {
                return Option::None;
            },
        }
    }
    proof {
        assert(out@ + Seq::<DestinationType>::empty() =~= out@);
    }
    Option::Some(out)
}

/// A custom-uploader configuration.
///
/// The key-value collections are kept as vectors of pairs in the order the
/// surrounding application supplies them.
pub struct Config {
    pub version: Option<String>,
    pub name: Option<String>,
    pub regex_list: Option<Vec<String>>,
    pub body: Option<Body>,
    pub arguments: Option<Vec<(String, String)>>,
    pub headers: Option<Vec<(String, String)>>,
    pub parameters: Option<Vec<(String, String)>>,
    pub data: Option<String>,
    pub error_message: Option<String>,
    pub destination_type: Option<Vec<DestinationType>>,
    pub file_form_name: String,
    pub response_type: String,
    pub url: Option<String>,
    pub thumbnail_url: Option<String>,
    pub deletion_url: Option<String>,
    pub request_method: RequestMethod,
    pub request_url: String,
}

} // verus!
