//! The request parser: raw request text in, structured request out.

use crate::text::{
    cut_all, cut_once, lemma_cut_once_char, lemma_find_is_first, split, split_once,
    split_whitespace, views, words,
};
use vstd::hash_map::StringHashMap;
use vstd::prelude::*;
use vstd::string::StringExecFns;

verus! {

/// A mapping from text to text, as the contracts see it.
pub type TextMap = Map<Seq<char>, Seq<char>>;

/// Why a request could not be parsed.
#[derive(Clone, Copy, Debug, PartialEq, Eq)]
pub enum ParseError {
    /// A header line holds no `:`.
    MalformedHeader,
}

/// A parsed request.
///
/// `path_params` is empty until a route has matched the request.
pub struct HttpRequest {
    pub method: String,
    pub uri: String,
    pub headers: StringHashMap<String>,
    pub post_body: String,
    pub query_params: StringHashMap<String>,
    pub path_params: StringHashMap<String>,
}

/// The mathematical model of a request.
pub struct RequestModel {
    pub method: Seq<char>,
    pub uri: Seq<char>,
    pub headers: TextMap,
    pub post_body: Seq<char>,
    pub query_params: TextMap,
    pub path_params: TextMap,
}

/// What a walk over a header block leaves behind.
pub struct HeaderWalk {
    /// The headers known when the walk ended.
    pub headers: TextMap,
    /// The body known when the walk ended.
    pub body: Seq<char>,
    /// Whether the walk ended without meeting a header line that holds no
    /// `:`.
    pub complete: bool,
}

/// The line terminator.
pub open spec fn crlf() -> Seq<char> {
    seq!['\r', '\n']
}

/// The model of a map from text to text: each value is taken by its view.
pub open spec fn texts(m: Map<Seq<char>, String>) -> TextMap {
    Map::new(|k: Seq<char>| m.contains_key(k), |k: Seq<char>| m[k]@)
}

/// The request in which every part is empty.
pub open spec fn blank_request() -> RequestModel {
    RequestModel {
        method: Seq::empty(),
        uri: Seq::empty(),
        headers: Map::empty(),
        post_body: Seq::empty(),
        query_params: Map::empty(),
        path_params: Map::empty(),
    }
}

/// Walks the lines of `data`, each ended by CRLF, starting from the headers
/// and the body given.
///
/// A line that is not empty is a header: what stands before its first `:`
/// is the name, what stands after it the value, and a later header of the
/// same name replaces an earlier one. A header line without `:` ends the
/// walk as incomplete. The first empty line ends the walk: all that follows
/// it is appended to the body. What stands after the last CRLF of a block
/// without an empty line is not looked at.
pub open spec fn header_walk(data: Seq<char>, headers: TextMap, body: Seq<char>) -> HeaderWalk
    decreases data.len(),
{
    match cut_once(data, crlf()) {
        None => HeaderWalk { headers, body, complete: true },
        Some((line, rest)) => {
            if line.len() == 0 {
                HeaderWalk { headers, body: body + rest, complete: true }
            } else {
                match cut_once(line, seq![':']) {
                    None => HeaderWalk { headers, body, complete: false },
                    Some((name, value)) => {
                        proof {
                            lemma_find_is_first(data, crlf());
                        }
                        header_walk(rest, headers.insert(name, value), body)
                    },
                }
            }
        },
    }
}

/// The header lines of a block: its lines, each ended by CRLF, that stand
/// before the first empty line.
pub open spec fn header_lines(data: Seq<char>) -> Seq<Seq<char>>
    decreases data.len(),
{
    match cut_once(data, crlf()) {
        None => Seq::empty(),
        Some((line, rest)) => {
            if line.len() == 0 {
                Seq::empty()
            } else {
                proof {
                    lemma_find_is_first(data, crlf());
                }
                seq![line] + header_lines(rest)
            }
        },
    }
}

/// The path of a request target: what stands before its first `?`, or all
/// of it.
pub open spec fn target_path(target: Seq<char>) -> Seq<char> {
    match cut_once(target, seq!['?']) {
        Some((path, _)) => path,
        None => target,
    }
}

/// The parameters that a list of query entries gives. An entry `key=value`
/// is split at its first `=`; an entry without `=` is left out; a later
/// entry replaces an earlier one of the same key.
pub open spec fn query_map(entries: Seq<Seq<char>>) -> TextMap
    decreases entries.len(),
{
    if entries.len() == 0 {
        Map::empty()
    } else {
        let before = query_map(entries.drop_last());
        match cut_once(entries.last(), seq!['=']) {
            Some((key, value)) => before.insert(key, value),
            None => before,
        }
    }
}

/// The query parameters of a request target: the entries, separated by `&`,
/// of what follows its first `?`.
pub open spec fn target_query(target: Seq<char>) -> TextMap {
    match cut_once(target, seq!['?']) {
        Some((_, query)) => query_map(cut_all(query, seq!['&'])),
        None => Map::empty(),
    }
}

/// What parsing `data` gives.
///
/// The request line ends at the first CRLF and must hold exactly three
/// words: method, target and version. Where it does not, or where there is
/// no CRLF at all, the result is the blank request. Otherwise the rest is
/// walked as a header block, and a header line without `:` is an error.
pub open spec fn parse_request(data: Seq<char>) -> Result<RequestModel, ParseError> {
    match cut_once(data, crlf()) {
        None => Ok(blank_request()),
        Some((line, rest)) => {
            let tokens = words(line);
            if tokens.len() != 3 {
                Ok(blank_request())
            } else {
                let walk = header_walk(rest, Map::empty(), Seq::empty());
                if walk.complete {
                    Ok(
                        RequestModel {
                            method: tokens[0],
                            uri: target_path(tokens[1]),
                            headers: walk.headers,
                            post_body: walk.body,
                            query_params: target_query(tokens[1]),
                            path_params: Map::empty(),
                        },
                    )
                } else {
                    Err(ParseError::MalformedHeader)
                }
            }
        },
    }
}

impl View for HttpRequest {
    type V = RequestModel;

    open spec fn view(&self) -> RequestModel {
        RequestModel {
            method: self.method@,
            uri: self.uri@,
            headers: texts(self.headers@),
            post_body: self.post_body@,
            query_params: texts(self.query_params@),
            path_params: texts(self.path_params@),
        }
    }
}

impl Default for HttpRequest {
    /// The blank request.
    fn default() -> (r: Self)
        ensures
            r@ == blank_request(),
    {
        let r = HttpRequest {
            method: String::new(),
            uri: String::new(),
            headers: StringHashMap::new(),
            post_body: String::new(),
            query_params: StringHashMap::new(),
            path_params: StringHashMap::new(),
        };
        assert(texts(r.headers@) =~= Map::empty());
        assert(texts(r.query_params@) =~= Map::empty());
        assert(texts(r.path_params@) =~= Map::empty());
        r
    }
}

impl HttpRequest {
    /// Parses the text of one request.
    ///
    /// A request line that does not hold exactly three words gives the blank
    /// request, whose empty method marks it as unparsable. A header line
    /// without `:` gives `MalformedHeader`.
    pub fn new(request_data: String) -> (r: Result<Self, ParseError>)
        ensures
            match r {
                Ok(request) => parse_request(request_data@) == Ok::<RequestModel, ParseError>(
                    request@,
                ),
                Err(e) => parse_request(request_data@) == Err::<RequestModel, ParseError>(e),
            },
    {
        proof {
            reveal_strlit("\r\n");
            assert("\r\n"@ =~= crlf());
        }
        match split_once(request_data.as_str(), "\r\n") {
            Some((request_line, rest)) => {
                let segments = split_whitespace(request_line);
                if segments.len() == 3 {
                    assert(views(segments@)[0] == segments@[0]@);
                    assert(views(segments@)[1] == segments@[1]@);
                    let mut headers: StringHashMap<String> = StringHashMap::new();
                    let mut post_body = String::new();
                    assert(texts(headers@) =~= Map::empty());
                    match Self::extract(rest, &mut headers, &mut post_body) {
                        Err(e) => {
                            return Err(e);
                        },
                        Ok(()) => {},
                    }
                    let (path, query_params) = Self::parse_uri(segments[1]);
                    let path_params: StringHashMap<String> = StringHashMap::new();
                    assert(texts(path_params@) =~= Map::empty());
                    Ok(
                        HttpRequest {
                            method: String::from_str(segments[0]),
                            uri: path,
                            headers,
                            post_body,
                            query_params,
                            path_params,
                        },
                    )
                } else {
                    Ok(Self::default())
                }
            },
            None => Ok(Self::default()),
        }
    }

    /// Walks the header block `request_data`, adding each header to
    /// `headers` and what follows the first empty line to `post_body`.
    ///
    /// On `MalformedHeader` the headers read before the offending line stay
    /// in `headers`.
    pub fn extract(
        request_data: &str,
        headers: &mut StringHashMap<String>,
        post_body: &mut String,
    ) -> (r: Result<(), ParseError>)
        ensures
            ({
                let walk = header_walk(request_data@, texts(old(headers)@), old(post_body)@);
                &&& texts(final(headers)@) == walk.headers
                &&& final(post_body)@ == walk.body
                &&& r is Ok <==> walk.complete
                &&& r is Err ==> r == Err::<(), ParseError>(ParseError::MalformedHeader)
            }),
    {
        proof {
            reveal_strlit("\r\n");
            reveal_strlit(":");
            assert("\r\n"@ =~= crlf());
            assert(":"@ =~= seq![':']);
        }
        let mut rest: &str = request_data;
        loop
            invariant
                "\r\n"@ == crlf(),
                ":"@ == seq![':'],
                header_walk(request_data@, texts(old(headers)@), old(post_body)@) == header_walk(
                    rest@,
                    texts(headers@),
                    post_body@,
                ),
            decreases rest@.len(),
        {
            match split_once(rest, "\r\n") {
                None => {
                    return Ok(());
                },
                Some((line, tail)) => {
                    proof {
                        lemma_find_is_first(rest@, crlf());
                    }
                    if line.is_empty() {
                        post_body.append(tail);
                        return Ok(());
                    }
                    match split_once(line, ":") {
                        None => {
                            return Err(ParseError::MalformedHeader);
                        },
                        Some((name, value)) => {
                            let ghost before = texts(headers@);
                            headers.insert(String::from_str(name), String::from_str(value));
                            assert(texts(headers@) =~= before.insert(name@, value@));
                            rest = tail;
                        },
                    }
                },
            }
        }
    }

    /// Splits a request target into its path and its query parameters.
    pub fn parse_uri(uri: &str) -> (r: (String, StringHashMap<String>))
        ensures
            r.0@ == target_path(uri@),
            texts(r.1@) == target_query(uri@),
    {
        proof {
            reveal_strlit("?");
            reveal_strlit("&");
            reveal_strlit("=");
            assert("?"@ =~= seq!['?']);
            assert("&"@ =~= seq!['&']);
            assert("="@ =~= seq!['=']);
        }
        let mut h: StringHashMap<String> = StringHashMap::new();
        assert(texts(h@) =~= Map::empty());
        match split_once(uri, "?") {
            Some((path, query_string)) => {
                let entries = split(query_string, "&");
                let n: usize = entries.len();
                let mut i: usize = 0;
                while i < n
                    invariant
                        "="@ == seq!['='],
                        n == entries.len(),
                        i <= n,
                        texts(h@) == query_map(views(entries@).take(i as int)),
                    decreases n - i,
                {
                    let ghost before = texts(h@);
                    let ghost done = views(entries@).take(i as int);
                    let ghost next = views(entries@).take(i + 1);
                    assert(next.drop_last() =~= done);
                    assert(next.last() == entries@[i as int]@);
                    match split_once(entries[i], "=") {
                        Some((key, value)) => {
                            h.insert(String::from_str(key), String::from_str(value));
                            assert(texts(h@) =~= before.insert(key@, value@));
                        },
                        None => {},
                    }
                    i = i + 1;
                }
                assert(views(entries@).take(n as int) =~= views(entries@));
                (String::from_str(path), h)
            },
            None => (String::from_str(uri), h),
        }
    }

    /// The path parameter bound to `key`.
    pub fn get_path_param(&self, key: &str) -> (r: Option<&String>)
        ensures
            match r {
                Some(value) => self@.path_params.contains_key(key@) && value@
                    == self@.path_params[key@],
                None => !self@.path_params.contains_key(key@),
            },
    {
        self.path_params.get(key)
    }

    /// The path parameter bound to `key`, read as a `T`.
    ///
    /// `None` where no parameter is bound to `key`. Where one is, its text
    /// is handed to `T`'s `FromStr`, and the result is `None` where that
    /// fails.
    pub fn get_path_param_as<T>(&self, key: &str) -> (r: Option<T>) where T: std::str::FromStr
        ensures
            !self@.path_params.contains_key(key@) ==> r is None,
    {
        match self.path_params.get(key) {
            Some(value) => parse_text::<T>(value.as_str()),
            None => None,
        }
    }

    /// The query parameter of key `key`.
    pub fn get_query_param(&self, key: &str) -> (r: Option<&String>)
        ensures
            match r {
                Some(value) => self@.query_params.contains_key(key@) && value@
                    == self@.query_params[key@],
                None => !self@.query_params.contains_key(key@),
            },
    {
        self.query_params.get(key)
    }

    /// The query parameter of key `key`, read as a `T`.
    ///
    /// `None` where there is no parameter of key `key`. Where there is one,
    /// its text is handed to `T`'s `FromStr`, and the result is `None` where
    /// that fails.
    pub fn get_query_param_as<T>(&self, key: &str) -> (r: Option<T>) where T: std::str::FromStr
        ensures
            !self@.query_params.contains_key(key@) ==> r is None,
    {
        match self.query_params.get(key) {
            Some(value) => parse_text::<T>(value.as_str()),
            None => None,
        }
    }
}

/// Reads `text` as a `T` with `str::parse`, giving `None` where `parse`
/// gives an error.
///
/// Not verified, and nothing is claimed of the result: what `parse` returns
/// for a text is up to `T`'s implementation of `FromStr`.
#[verifier::external_body]
fn parse_text<T: std::str::FromStr>(text: &str) -> (r: Option<T>) {
    text.parse::<T>().ok()
}

/// A walk over a header block is complete exactly when each of the block's
/// header lines holds a `:`.
pub proof fn lemma_walk_complete_iff_headers_hold_colon(
    data: Seq<char>,
    headers: TextMap,
    body: Seq<char>,
)
    ensures
        header_walk(data, headers, body).complete <==> forall|k: int|
            0 <= k < header_lines(data).len() ==> (#[trigger] header_lines(data)[k]).contains(':'),
    decreases data.len(),
{
    match cut_once(data, crlf()) {
        None => {},
        Some((line, rest)) => {
            if line.len() > 0 {
                lemma_find_is_first(data, crlf());
                lemma_cut_once_char(line, ':');
                let lines = header_lines(data);
                assert(lines[0] == line);
                match cut_once(line, seq![':']) {
                    None => {},
                    Some((name, value)) => {
                        let later = headers.insert(name, value);
                        lemma_walk_complete_iff_headers_hold_colon(rest, later, body);
                        if header_walk(rest, later, body).complete {
                            assert forall|k: int| 0 <= k < lines.len() implies (#[trigger] lines[k]).contains(
                                ':',
                            ) by {
                                if k > 0 {
                                    assert(lines[k] == header_lines(rest)[k - 1]);
                                }
                            }
                        } else {
                            let k = choose|k: int|
                                0 <= k < header_lines(rest).len() && !(#[trigger] header_lines(
                                    rest,
                                )[k]).contains(':');
                            assert(lines[k + 1] == header_lines(rest)[k]);
                        }
                    },
                }
            }
        },
    }
}

/// Parsing fails exactly on a request whose request line holds three words
/// and one of whose header lines holds no `:`; the failure is
/// `MalformedHeader`.
pub proof fn lemma_parse_fails_iff_header_without_colon(data: Seq<char>)
    ensures
        parse_request(data) is Err <==> (cut_once(data, crlf()) matches Some((line, rest))
            && words(line).len() == 3 && exists|k: int|
            0 <= k < header_lines(rest).len() && !(#[trigger] header_lines(rest)[k]).contains(':')),
        parse_request(data) is Err ==> parse_request(data) == Err::<RequestModel, ParseError>(
            ParseError::MalformedHeader,
        ),
{
    match cut_once(data, crlf()) {
        None => {},
        Some((line, rest)) => {
            lemma_walk_complete_iff_headers_hold_colon(rest, Map::empty(), Seq::empty());
        },
    }
}

/// A query entry without `=` adds no parameter, and an entry with one binds
/// what stands before its first `=` to what stands after it, in place of an
/// earlier binding of the same key.
pub proof fn lemma_query_entry(entries: Seq<Seq<char>>, entry: Seq<char>)
    ensures
        match cut_once(entry, seq!['=']) {
            Some((key, value)) => entry.contains('=') && query_map(entries.push(entry))
                == query_map(entries).insert(key, value),
            None => !entry.contains('=') && query_map(entries.push(entry)) == query_map(entries),
        },
{
    lemma_cut_once_char(entry, '=');
    assert(entries.push(entry).drop_last() =~= entries);
}

/// A request, as parsed, binds no path parameter.
pub proof fn lemma_parsed_request_has_no_path_params(data: Seq<char>)
    ensures
        parse_request(data) matches Ok(request) ==> request.path_params == Map::<
            Seq<char>,
            Seq<char>,
        >::empty(),
{
}

} // verus!
