//! The path router: an ordered table of routes, and the resolution of a
//! request to the first route that matches it.

use crate::http::{parse_request, texts, HttpRequest, RequestModel, TextMap};
use crate::text::{cut_all, same_text, split, views};
use vstd::hash_map::StringHashMap;
use vstd::prelude::*;
use vstd::string::{StrSliceExecFns, StringExecFns};

verus! {

/// One segment of a route pattern.
#[derive(Clone, Debug, PartialEq, Eq)]
pub enum RouteSegment {
    /// Matches the request segment that equals it.
    Static(String),
    /// Matches any request segment and binds it to this name.
    Parameter(String),
}

/// The mathematical model of a route segment.
pub enum SegmentModel {
    Static(Seq<char>),
    Parameter(Seq<char>),
}

/// The mathematical model of a route: what was registered.
pub struct RouteModel<H> {
    pub method: Seq<char>,
    pub pattern: Seq<char>,
    pub handler: H,
}

/// The mathematical model of a router.
pub struct RouterModel<H> {
    pub host: Seq<char>,
    pub port: u16,
    /// The routes, in the order of their registration.
    pub routes: Seq<RouteModel<H>>,
    /// The handler for requests that no route matches.
    pub fallback: Option<H>,
}

/// What is to be done with a request, as the contracts see it.
pub enum Decision<H> {
    Handle(H, RequestModel),
    Fallback(H, RequestModel),
    NotFound,
    BadRequest,
}

/// A route: a method, a pattern and the handler bound to them.
pub struct Route<H> {
    method: String,
    route: String,
    handler: H,
    route_segments: Vec<RouteSegment>,
}

/// An ordered table of routes with an optional fallback handler.
///
/// `H` is the type of a handler. The router stores handlers and hands out
/// references to them; it never calls one.
pub struct Router<H> {
    host: String,
    port: u16,
    routes: Vec<Route<H>>,
    error_handler: Option<H>,
}

/// What is to be done with one request.
pub enum Dispatch<'a, H> {
    /// A route matched: its handler is to run on the request, whose path
    /// parameters are bound.
    Handle(&'a H, HttpRequest),
    /// No route matched: the fallback handler is to run on the request.
    Fallback(&'a H, HttpRequest),
    /// No route matched and there is no fallback handler: the default
    /// "not found" response is to be sent.
    NotFound,
    /// The request could not be parsed: a client-error response is to be
    /// sent.
    BadRequest,
}

/// The test that keeps the pieces of a path that are segments.
pub open spec fn nonempty() -> spec_fn(Seq<char>) -> bool {
    |piece: Seq<char>| piece.len() > 0
}

/// The segments of a path: its pieces between `/`, without the empty ones.
pub open spec fn path_segments(path: Seq<char>) -> Seq<Seq<char>> {
    cut_all(path, seq!['/']).filter(nonempty())
}

/// The pattern segment that a segment of a pattern's text stands for: a
/// parameter named by what follows a leading `:`, or else a literal.
pub open spec fn pattern_segment(segment: Seq<char>) -> SegmentModel {
    if segment.len() > 0 && segment[0] == ':' {
        SegmentModel::Parameter(segment.skip(1))
    } else {
        SegmentModel::Static(segment)
    }
}

/// The segments of a route pattern.
pub open spec fn pattern_segments(pattern: Seq<char>) -> Seq<SegmentModel> {
    path_segments(pattern).map_values(|segment: Seq<char>| pattern_segment(segment))
}

/// The models of a list of route segments.
pub open spec fn segment_models(segments: Seq<RouteSegment>) -> Seq<SegmentModel> {
    Seq::new(segments.len(), |i: int| segments[i]@)
}

/// Whether a pattern and a path have as many segments and each literal of
/// the pattern equals the path segment in its place.
pub open spec fn shape_matches(pattern: Seq<SegmentModel>, segments: Seq<Seq<char>>) -> bool {
    &&& pattern.len() == segments.len()
    &&& forall|k: int|
        0 <= k < pattern.len() ==> (#[trigger] pattern[k] matches SegmentModel::Static(literal)
            ==> literal == segments[k])
}

/// The path parameters that a pattern binds on a path of the same length:
/// each parameter's name is bound to the path segment in its place, a later
/// parameter replacing an earlier one of the same name.
pub open spec fn bindings(pattern: Seq<SegmentModel>, segments: Seq<Seq<char>>) -> TextMap
    decreases pattern.len(),
{
    if pattern.len() == 0 {
        Map::empty()
    } else {
        let before = bindings(pattern.drop_last(), segments);
        match pattern.last() {
            SegmentModel::Parameter(name) => before.insert(name, segments[pattern.len() - 1]),
            SegmentModel::Static(_) => before,
        }
    }
}

/// Whether the segment of `pattern` at index `k` is a parameter named
/// `name`.
pub open spec fn binds_at(pattern: Seq<SegmentModel>, k: int, name: Seq<char>) -> bool {
    0 <= k < pattern.len() && pattern[k] == SegmentModel::Parameter(name)
}

impl<H> RouteModel<H> {
    /// The segments of the route's pattern.
    pub open spec fn segments(self) -> Seq<SegmentModel> {
        pattern_segments(self.pattern)
    }

    /// Whether the route matches a request of method `method` whose path
    /// has the segments `segments`.
    pub open spec fn accepts(self, method: Seq<char>, segments: Seq<Seq<char>>) -> bool {
        self.method == method && shape_matches(self.segments(), segments)
    }
}

/// The index of the first route at or after `from` that matches.
pub open spec fn first_match_from<H>(
    routes: Seq<RouteModel<H>>,
    method: Seq<char>,
    segments: Seq<Seq<char>>,
    from: int,
) -> Option<int>
    decreases routes.len() - from,
{
    if from < 0 || from >= routes.len() {
        None
    } else if routes[from].accepts(method, segments) {
        Some(from)
    } else {
        first_match_from(routes, method, segments, from + 1)
    }
}

/// The index of the first route, in registration order, that matches.
pub open spec fn first_match<H>(
    routes: Seq<RouteModel<H>>,
    method: Seq<char>,
    segments: Seq<Seq<char>>,
) -> Option<int> {
    first_match_from(routes, method, segments, 0)
}

/// What is to be done with the request text `data`.
///
/// A request that does not parse, or that parses to an empty method, is a
/// bad request. Otherwise the first matching route handles the request,
/// with its bindings as path parameters; where none matches, the fallback
/// handler does, and without one the request is not found.
pub open spec fn decision<H>(router: RouterModel<H>, data: Seq<char>) -> Decision<H> {
    match parse_request(data) {
        Err(_) => Decision::BadRequest,
        Ok(request) => {
            if request.method.len() == 0 {
                Decision::BadRequest
            } else {
                let segments = path_segments(request.uri);
                match first_match(router.routes, request.method, segments) {
                    Some(i) => Decision::Handle(
                        router.routes[i].handler,
                        RequestModel {
                            path_params: bindings(router.routes[i].segments(), segments),
                            ..request
                        },
                    ),
                    None => match router.fallback {
                        Some(handler) => Decision::Fallback(handler, request),
                        None => Decision::NotFound,
                    },
                }
            }
        },
    }
}

impl View for RouteSegment {
    type V = SegmentModel;

    open spec fn view(&self) -> SegmentModel {
        match self {
            RouteSegment::Static(literal) => SegmentModel::Static(literal@),
            RouteSegment::Parameter(name) => SegmentModel::Parameter(name@),
        }
    }
}

impl<H> View for Route<H> {
    type V = RouteModel<H>;

    closed spec fn view(&self) -> RouteModel<H> {
        RouteModel { method: self.method@, pattern: self.route@, handler: self.handler }
    }
}

impl<H> View for Router<H> {
    type V = RouterModel<H>;

    closed spec fn view(&self) -> RouterModel<H> {
        RouterModel {
            host: self.host@,
            port: self.port,
            routes: Seq::new(self.routes@.len(), |i: int| self.routes@[i]@),
            fallback: self.error_handler,
        }
    }
}

impl<'a, H> View for Dispatch<'a, H> {
    type V = Decision<H>;

    open spec fn view(&self) -> Decision<H> {
        match self {
            Dispatch::Handle(handler, request) => Decision::Handle(**handler, request@),
            Dispatch::Fallback(handler, request) => Decision::Fallback(**handler, request@),
            Dispatch::NotFound => Decision::NotFound,
            Dispatch::BadRequest => Decision::BadRequest,
        }
    }
}

/// The segments of `path`.
pub fn segments_of<'a>(path: &'a str) -> (segments: Vec<&'a str>)
    ensures
        views(segments@) == path_segments(path@),
{
    proof {
        reveal_strlit("/");
        assert("/"@ =~= seq!['/']);
    }
    let pieces = split(path, "/");
    let n: usize = pieces.len();
    let mut segments: Vec<&'a str> = Vec::new();
    let mut i: usize = 0;
    assert(views(pieces@).take(0) =~= Seq::<Seq<char>>::empty());
    assert(views(segments@) =~= Seq::<Seq<char>>::empty());
    assert(Seq::<Seq<char>>::empty().filter(nonempty()) =~= Seq::<Seq<char>>::empty()) by {
        reveal(Seq::filter);
    }
    while i < n
        invariant
            n == pieces.len(),
            i <= n,
            views(segments@) == views(pieces@).take(i as int).filter(nonempty()),
        decreases n - i,
    {
        let piece = pieces[i];
        let ghost kept = views(segments@);
        proof {
            let done = views(pieces@).take(i as int);
            assert(views(pieces@).take(i + 1) =~= done.push(piece@));
            done.lemma_filter_push(piece@, nonempty());
        }
        if !piece.is_empty() {
            segments.push(piece);
            assert(views(segments@) =~= kept.push(piece@));
        }
        i = i + 1;
    }
    assert(views(pieces@).take(n as int) =~= views(pieces@));
    segments
}

impl<H> Route<H> {
    #[verifier::type_invariant]
    spec fn well_formed(self) -> bool {
        segment_models(self.route_segments@) == pattern_segments(self.route@)
    }

    /// A route for `method` and the pattern `route`, bound to `handler`.
    pub fn new(method: String, route: String, handler: H) -> (r: Self)
        ensures
            r@ == (RouteModel { method: method@, pattern: route@, handler }),
    {
        let route_segments = Self::parse_route(route.as_str());
        Route { method, route, handler, route_segments }
    }

    /// The segments of the pattern `route`: its pieces between `/`, without
    /// the empty ones, where a piece that begins with `:` is a parameter
    /// named by the rest of the piece and any other piece is a literal.
    pub fn parse_route(route: &str) -> (r: Vec<RouteSegment>)
        ensures
            segment_models(r@) == pattern_segments(route@),
    {
        let parts = segments_of(route);
        let n: usize = parts.len();
        let mut segments: Vec<RouteSegment> = Vec::new();
        let mut i: usize = 0;
        while i < n
            invariant
                n == parts.len(),
                i <= n,
                views(parts@) == path_segments(route@),
                segments.len() == i,
                forall|k: int|
                    0 <= k < i ==> (#[trigger] segments@[k])@ == pattern_segment(parts@[k]@),
            decreases n - i,
        {
            let part = parts[i];
            let len: usize = part.unicode_len();
            if len > 0 && part.get_char(0) == ':' {
                segments.push(RouteSegment::Parameter(String::from_str(part.substring_char(1, len))));
            } else {
                segments.push(RouteSegment::Static(String::from_str(part)));
            }
            i = i + 1;
        }
        assert(segment_models(segments@) =~= pattern_segments(route@)) by {
            assert forall|k: int| 0 <= k < n implies segment_models(segments@)[k]
                == pattern_segments(route@)[k] by {
                assert(views(parts@)[k] == parts@[k]@);
            }
        }
        segments
    }

    /// Matches the segments of `path` against the route's pattern.
    ///
    /// Returns the path parameters that the pattern binds where path and
    /// pattern have as many segments and every literal of the pattern equals
    /// the path segment in its place, and `None` otherwise.
    pub fn matches(&self, path: &str) -> (r: Option<StringHashMap<String>>)
        ensures
            match r {
                Some(params) => shape_matches(self@.segments(), path_segments(path@)) && texts(
                    params@,
                ) == bindings(self@.segments(), path_segments(path@)),
                None => !shape_matches(self@.segments(), path_segments(path@)),
            },
    {
        proof {
            use_type_invariant(self);
        }
        let path_parts = segments_of(path);
        let n: usize = self.route_segments.len();
        if path_parts.len() != n {
            return None;
        }
        let ghost pattern = self@.segments();
        let ghost segments = path_segments(path@);
        let mut params: StringHashMap<String> = StringHashMap::new();
        let mut k: usize = 0;
        assert(texts(params@) =~= bindings(pattern.take(0), segments));
        while k < n
            invariant
                n == self.route_segments.len(),
                n == path_parts.len(),
                k <= n,
                pattern == self@.segments(),
                pattern == segment_models(self.route_segments@),
                segments == path_segments(path@),
                segments == views(path_parts@),
                forall|j: int|
                    0 <= j < k ==> (#[trigger] pattern[j] matches SegmentModel::Static(literal)
                        ==> literal == segments[j]),
                texts(params@) == bindings(pattern.take(k as int), segments),
            decreases n - k,
        {
            let ghost before = texts(params@);
            proof {
                assert(pattern.take(k + 1).drop_last() =~= pattern.take(k as int));
                assert(pattern.take(k + 1).last() == pattern[k as int]);
                assert(pattern[k as int] == self.route_segments@[k as int]@);
                assert(segments[k as int] == path_parts@[k as int]@);
            }
            match &self.route_segments[k] {
                RouteSegment::Static(literal) => {
                    if !same_text(literal.as_str(), path_parts[k]) {
                        assert(pattern[k as int] == SegmentModel::Static(literal@));
                        return None;
                    }
                },
                RouteSegment::Parameter(name) => {
                    params.insert(name.clone(), String::from_str(path_parts[k]));
                    assert(texts(params@) =~= before.insert(name@, segments[k as int]));
                },
            }
            k = k + 1;
        }
        assert(pattern.take(n as int) =~= pattern);
        Some(params)
    }
}

impl<H> Router<H> {
    /// A router for the address `host`:`port`, with no route and no
    /// fallback handler.
    pub fn new(host: &str, port: u16) -> (r: Self)
        ensures
            r@ == (RouterModel::<H> { host: host@, port, routes: Seq::empty(), fallback: None }),
    {
        let r = Router {
            host: String::from_str(host),
            port,
            routes: Vec::new(),
            error_handler: None,
        };
        assert(r@.routes =~= Seq::empty());
        r
    }

    /// The host that the router was made for.
    pub fn host(&self) -> (r: &str)
        ensures
            r@ == self@.host,
    {
        self.host.as_str()
    }

    /// The port that the router was made for.
    pub fn port(&self) -> (r: u16)
        ensures
            r == self@.port,
    {
        self.port
    }

    /// Adds a route for `method` and the pattern `route` after the routes
    /// that are there.
    pub fn register(&mut self, method: &str, route: &str, handler: H)
        ensures
            final(self)@ == (RouterModel {
                routes: old(self)@.routes.push(
                    RouteModel { method: method@, pattern: route@, handler },
                ),
                ..old(self)@
            }),
    {
        let entry = Route::new(String::from_str(method), String::from_str(route), handler);
        self.routes.push(entry);
        assert(self@.routes =~= old(self)@.routes.push(
            RouteModel { method: method@, pattern: route@, handler },
        ));
    }

    /// Adds a route for the method `GET`.
    pub fn get(&mut self, route: &str, handler: H)
        ensures
            final(self)@ == (RouterModel {
                routes: old(self)@.routes.push(
                    RouteModel { method: "GET"@, pattern: route@, handler },
                ),
                ..old(self)@
            }),
    {
        self.register("GET", route, handler);
    }

    /// Adds a route for the method `POST`.
    pub fn post(&mut self, route: &str, handler: H)
        ensures
            final(self)@ == (RouterModel {
                routes: old(self)@.routes.push(
                    RouteModel { method: "POST"@, pattern: route@, handler },
                ),
                ..old(self)@
            }),
    {
        self.register("POST", route, handler);
    }

    /// Sets the handler for requests that no route matches.
    pub fn error(&mut self, handler: H)
        ensures
            final(self)@ == (RouterModel { fallback: Some(handler), ..old(self)@ }),
    {
        self.error_handler = Some(handler);
    }

    /// Resolves a method and a path to the handler of the first route, in
    /// registration order, that matches them, with the path parameters that
    /// the route binds; `None` where no route matches.
    pub fn resolve<'a>(&'a self, method: &str, path: &str) -> (r: Option<
        (&'a H, StringHashMap<String>),
    >)
        ensures
            match first_match(self@.routes, method@, path_segments(path@)) {
                Some(i) => r matches Some((handler, params)) && *handler == self@.routes[i].handler
                    && texts(params@) == bindings(
                    self@.routes[i].segments(),
                    path_segments(path@),
                ),
                None => r is None,
            },
    {
        let ghost segments = path_segments(path@);
        let n: usize = self.routes.len();
        let mut i: usize = 0;
        while i < n
            invariant
                n == self.routes.len(),
                i <= n,
                segments == path_segments(path@),
                first_match(self@.routes, method@, segments) == first_match_from(
                    self@.routes,
                    method@,
                    segments,
                    i as int,
                ),
            decreases n - i,
        {
            let route = &self.routes[i];
            assert(self@.routes[i as int] == route@);
            if same_text(route.method.as_str(), method) {
                match route.matches(path) {
                    Some(params) => {
                        return Some((&route.handler, params));
                    },
                    None => {},
                }
            }
            i = i + 1;
        }
        None
    }

    /// Decides what is to be done with the request text of one connection.
    pub fn dispatch<'a>(&'a self, request_data: String) -> (r: Dispatch<'a, H>)
        ensures
            r@ == decision(self@, request_data@),
    {
        let mut request = match HttpRequest::new(request_data) {
            Ok(request) => request,
            Err(_) => {
                return Dispatch::BadRequest;
            },
        };
        if request.method.as_str().is_empty() {
            return Dispatch::BadRequest;
        }
        let ghost parsed = request@;
        match self.resolve(request.method.as_str(), request.uri.as_str()) {
            Some((handler, params)) => {
                request.path_params = params;
                assert(request@ == (RequestModel { path_params: texts(params@), ..parsed }));
                Dispatch::Handle(handler, request)
            },
            None => match &self.error_handler {
                Some(handler) => Dispatch::Fallback(handler, request),
                None => Dispatch::NotFound,
            },
        }
    }
}

/// `first_match_from` returns the index of a matching route at or after
/// `from` before which, from `from` on, no route matches; `None` means that
/// no route at or after `from` matches.
pub proof fn lemma_first_match_from_is_least<H>(
    routes: Seq<RouteModel<H>>,
    method: Seq<char>,
    segments: Seq<Seq<char>>,
    from: int,
)
    requires
        0 <= from,
    ensures
        match first_match_from(routes, method, segments, from) {
            Some(i) => from <= i < routes.len() && routes[i].accepts(method, segments)
                && forall|j: int| from <= j < i ==> !(#[trigger] routes[j]).accepts(method, segments),
            None => forall|j: int|
                from <= j < routes.len() ==> !(#[trigger] routes[j]).accepts(method, segments),
        },
    decreases routes.len() - from,
{
    if from >= routes.len() {
    } else if routes[from].accepts(method, segments) {
    } else {
        lemma_first_match_from_is_least(routes, method, segments, from + 1);
    }
}

/// Resolution picks the first route that matches: a route that matches,
/// with no matching route registered before it, is the one resolved.
pub proof fn lemma_first_match_is_least<H>(
    routes: Seq<RouteModel<H>>,
    method: Seq<char>,
    segments: Seq<Seq<char>>,
    i: int,
)
    requires
        0 <= i < routes.len(),
        routes[i].accepts(method, segments),
        forall|j: int| 0 <= j < i ==> !(#[trigger] routes[j]).accepts(method, segments),
    ensures
        first_match(routes, method, segments) == Some(i),
{
    lemma_first_match_from_is_least(routes, method, segments, 0);
}

/// The names that a pattern binds are the names of its parameter segments.
pub proof fn lemma_bound_names(
    pattern: Seq<SegmentModel>,
    segments: Seq<Seq<char>>,
    name: Seq<char>,
)
    ensures
        bindings(pattern, segments).contains_key(name) <==> exists|k: int|
            binds_at(pattern, k, name),
    decreases pattern.len(),
{
    if pattern.len() > 0 {
        let shorter = pattern.drop_last();
        let last = pattern.len() - 1;
        lemma_bound_names(shorter, segments, name);
        if binds_at(pattern, last, name) {
        } else {
            if exists|k: int| binds_at(shorter, k, name) {
                let k = choose|k: int| binds_at(shorter, k, name);
                assert(binds_at(pattern, k, name));
            }
            if exists|k: int| binds_at(pattern, k, name) {
                let k = choose|k: int| binds_at(pattern, k, name);
                assert(binds_at(shorter, k, name));
            }
        }
    }
}

/// A name is bound to the path segment at the last place where the pattern
/// holds a parameter of that name.
pub proof fn lemma_binding_value(
    pattern: Seq<SegmentModel>,
    segments: Seq<Seq<char>>,
    name: Seq<char>,
    k: int,
)
    requires
        binds_at(pattern, k, name),
        forall|l: int| k < l ==> !binds_at(pattern, l, name),
    ensures
        bindings(pattern, segments).contains_key(name),
        bindings(pattern, segments)[name] == segments[k],
    decreases pattern.len(),
{
    let last = pattern.len() - 1;
    if k != last {
        let shorter = pattern.drop_last();
        assert(binds_at(shorter, k, name));
        assert forall|l: int| k < l implies !binds_at(shorter, l, name) by {
            if binds_at(shorter, l, name) {
                assert(binds_at(pattern, l, name));
            }
        }
        lemma_binding_value(shorter, segments, name, k);
        assert(!binds_at(pattern, last, name));
    }
}

/// A route that matches a request, with no matching route registered before
/// it, is the route that resolution picks, and a name that its pattern
/// binds is bound to the path segment in the place of the last parameter of
/// that name.
pub proof fn lemma_matching_route_resolves<H>(
    routes: Seq<RouteModel<H>>,
    method: Seq<char>,
    segments: Seq<Seq<char>>,
    i: int,
    k: int,
    name: Seq<char>,
)
    requires
        0 <= i < routes.len(),
        routes[i].accepts(method, segments),
        forall|j: int| 0 <= j < i ==> !(#[trigger] routes[j]).accepts(method, segments),
        binds_at(routes[i].segments(), k, name),
        forall|l: int| k < l ==> !binds_at(routes[i].segments(), l, name),
    ensures
        first_match(routes, method, segments) == Some(i),
        bindings(routes[i].segments(), segments).contains_key(name),
        bindings(routes[i].segments(), segments)[name] == segments[k],
{
    lemma_first_match_is_least(routes, method, segments, i);
    lemma_binding_value(routes[i].segments(), segments, name, k);
}

/// A path whose number of segments differs from that of every registered
/// pattern resolves to nothing.
pub proof fn lemma_other_length_never_resolves<H>(
    routes: Seq<RouteModel<H>>,
    method: Seq<char>,
    segments: Seq<Seq<char>>,
)
    requires
        forall|i: int|
            0 <= i < routes.len() ==> (#[trigger] routes[i]).segments().len() != segments.len(),
    ensures
        first_match(routes, method, segments) is None,
{
    lemma_first_match_from_is_least(routes, method, segments, 0);
}

/// Of two routes that both match a request, the one registered later is
/// never the one resolved: resolution picks a route registered no later
/// than the earlier of the two.
pub proof fn lemma_first_registered_wins<H>(
    routes: Seq<RouteModel<H>>,
    method: Seq<char>,
    segments: Seq<Seq<char>>,
    earlier: int,
    later: int,
)
    requires
        0 <= earlier < later < routes.len(),
        routes[earlier].accepts(method, segments),
        routes[later].accepts(method, segments),
    ensures
        first_match(routes, method, segments) is Some,
        first_match(routes, method, segments)->0 <= earlier,
        first_match(routes, method, segments) != Some(later),
{
    lemma_first_match_from_is_least(routes, method, segments, 0);
}

} // verus!
