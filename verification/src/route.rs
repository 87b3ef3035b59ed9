//! Route matching: which route a request line selects, and whether the
//! parameters of the request are those that the route declares.

use crate::entity::api_views;
use crate::entity::Api;
use crate::entity::ApiView;
use crate::entity::Request;
use crate::entity::RequestView;
use crate::query::QueryParams;
use crate::text::chars_of;
use crate::text::cut;
use crate::text::same_text;
use vstd::prelude::*;

verus! {

/// A path without its trailing slash. At most one slash is taken away, and
/// the path `/` is left as it is.
pub open spec fn normalize(path: Seq<char>) -> Seq<char> {
    if path.len() > 1 && path.last() == '/' {
        path.drop_last()
    } else {
        path
    }
}

/// Takes the trailing slash off a path.
pub fn normalize_path(path: &str) -> (normal: String)
    ensures
        normal@ == normalize(path@),
{
    let chars = chars_of(path);
    let n: usize = chars.len();
    if n > 1 && chars[n - 1] == '/' {
        cut(path, 0, n - 1)
    } else {
        path.to_owned()
    }
}

/// Whether a request with the method token `method` and the path `path`
/// addresses the route `request` of a server with the base path `base`: the
/// token is the name of the route's method, and the path is, up to a trailing
/// slash on either side, the base path followed by the route's own.
///
/// The base path is a plain prefix. Nothing is put in or left out where it
/// meets the route's path: below the base `/b` the routes `/x` and `/` are
/// addressed as `/b/x` and `/b`, below the empty base as `/x` and `/`, and
/// below the base `/` as `//x` and `/`.
pub open spec fn addresses(
    base: Seq<char>,
    request: RequestView,
    method: Seq<char>,
    path: Seq<char>,
) -> bool {
    request.method.name() == method && normalize(base + request.url) == normalize(path)
}

/// The position of the first route that the request addresses, if there is one.
pub open spec fn first_match(
    base: Seq<char>,
    apis: Seq<ApiView>,
    method: Seq<char>,
    path: Seq<char>,
) -> Option<int>
    decreases apis.len(),
{
    if apis.len() == 0 {
        None
    } else {
        match first_match(base, apis.drop_last(), method, path) {
            Some(i) => Some(i),
            None => if addresses(base, apis.last().request, method, path) {
                Some(apis.len() - 1)
            } else {
                None
            },
        }
    }
}

/// `first_match` is a route that the request addresses, and none before it
/// is; it is `None` only where the request addresses no route.
pub proof fn lemma_first_match(
    base: Seq<char>,
    apis: Seq<ApiView>,
    method: Seq<char>,
    path: Seq<char>,
)
    ensures
        match first_match(base, apis, method, path) {
            Some(i) => {
                &&& 0 <= i < apis.len()
                &&& addresses(base, apis[i].request, method, path)
                &&& forall|j: int|
                    0 <= j < i ==> !addresses(base, (#[trigger] apis[j]).request, method, path)
            },
            None => forall|j: int|
                0 <= j < apis.len() ==> !addresses(base, (#[trigger] apis[j]).request, method, path),
        },
    decreases apis.len(),
{
    if apis.len() > 0 {
        let front = apis.drop_last();
        lemma_first_match(base, front, method, path);
        match first_match(base, front, method, path) {
            Some(i) => {
                assert forall|j: int| 0 <= j < i implies !addresses(
                    base,
                    (#[trigger] apis[j]).request,
                    method,
                    path,
                ) by {
                    assert(front[j] == apis[j]);
                }
            },
            None => {
                assert forall|j: int| 0 <= j < front.len() implies !addresses(
                    base,
                    (#[trigger] apis[j]).request,
                    method,
                    path,
                ) by {
                    assert(front[j] == apis[j]);
                }
            },
        }
    }
}

/// Whether the parameters of a request are those that a route declares. A
/// route that declares none accepts any. A route that declares a list of
/// names accepts the requests whose parameters bear exactly those names: the
/// two are held against each other as sets, so neither the order of the
/// parameters in the request nor a name declared twice counts.
pub open spec fn query_accepted(
    declared: Option<Seq<Seq<char>>>,
    params: Map<Seq<char>, Seq<char>>,
) -> bool {
    match declared {
        Some(names) => names.to_set() == params.dom(),
        None => true,
    }
}

/// Whether `name` is among `names`.
fn is_among(name: &str, names: &Vec<String>) -> (r: bool)
    ensures
        r == names.deep_view().contains(name@),
{
    let mut i: usize = 0;
    while i < names.len()
        invariant
            i <= names.len(),
            forall|j: int| 0 <= j < i ==> (#[trigger] names.deep_view()[j]) != name@,
        decreases names.len() - i,
    {
        assert(names.deep_view()[i as int] == names@[i as int]@);
        if same_text(names[i].as_str(), name) {
            return true;
        }
        i += 1;
    }
    false
}

/// Holds the parameters of a request against what a route declares.
pub fn query_matches(declared: &Option<Vec<String>>, params: &QueryParams) -> (r: bool)
    ensures
        r == query_accepted(declared.deep_view(), params@),
{
    match declared {
        None => true,
        Some(names) => {
            let ghost wanted = names.deep_view();
            let mut i: usize = 0;
            while i < names.len()
                invariant
                    i <= names.len(),
                    wanted == names.deep_view(),
                    declared.deep_view() == Some(wanted),
                    forall|j: int| 0 <= j < i ==> params@.dom().contains(#[trigger] wanted[j]),
                decreases names.len() - i,
            {
                if !params.contains_key(names[i].as_str()) {
                    assert(wanted.to_set().contains(wanted[i as int]));
                    return false;
                }
                i += 1;
            }
            let seen = params.names();
            let ghost given = seen.deep_view();
            let mut k: usize = 0;
            while k < seen.len()
                invariant
                    k <= seen.len(),
                    given == seen.deep_view(),
                    given.to_set() == params@.dom(),
                    wanted == names.deep_view(),
                    declared.deep_view() == Some(wanted),
                    forall|j: int| 0 <= j < k ==> wanted.contains(#[trigger] given[j]),
                decreases seen.len() - k,
            {
                if !is_among(seen[k].as_str(), names) {
                    assert(!wanted.to_set().contains(given[k as int]));
                    return false;
                }
                k += 1;
            }
            assert(wanted.to_set() =~= params@.dom());
            true
        },
    }
}

/// Whether a request addresses one route.
fn route_matches(base: &str, request: &Request, method: &str, normal_path: &str) -> (r: bool)
    ensures
        r == (request@.method.name() == method@ && normalize(base@ + request@.url)
            == normal_path@),
{
    if !same_text(request.method.to_string(), method) {
        return false;
    }
    let mut full = String::new();
    full.append(base);
    full.append(request.url.as_str());
    let normal = normalize_path(full.as_str());
    same_text(normal.as_str(), normal_path)
}

/// Finds the first of `apis` that a request addresses.
pub fn find_route(base: &str, apis: &Vec<Api>, method: &str, path: &str) -> (found: Option<usize>)
    ensures
        match found {
            Some(i) => first_match(base@, api_views(apis@), method@, path@) == Some(i as int),
            None => first_match(base@, api_views(apis@), method@, path@) is None,
        },
{
    let normal = normalize_path(path);
    let ghost views = api_views(apis@);
    let mut i: usize = 0;
    while i < apis.len()
        invariant
            i <= apis.len(),
            normal@ == normalize(path@),
            views == api_views(apis@),
            first_match(base@, views.take(i as int), method@, path@) is None,
        decreases apis.len() - i,
    {
        assert(views.take(i + 1).drop_last() =~= views.take(i as int));
        if route_matches(base, &apis[i].request, method, normal.as_str()) {
            proof {
                lemma_first_match_prefix(base@, views, method@, path@, i + 1);
            }
            return Some(i);
        }
        i += 1;
    }
    assert(views.take(i as int) =~= views);
    None
}

/// A match among the first `n` routes is the match among all of them.
pub proof fn lemma_first_match_prefix(
    base: Seq<char>,
    apis: Seq<ApiView>,
    method: Seq<char>,
    path: Seq<char>,
    n: int,
)
    requires
        0 <= n <= apis.len(),
        first_match(base, apis.take(n), method, path) is Some,
    ensures
        first_match(base, apis, method, path) == first_match(base, apis.take(n), method, path),
    decreases apis.len() - n,
{
    if n < apis.len() {
        assert(apis.take(n + 1).drop_last() =~= apis.take(n));
        lemma_first_match_prefix(base, apis, method, path, n + 1);
    } else {
        assert(apis.take(n) =~= apis);
    }
}

/// Which route a request selects depends on the request patterns alone,
/// not on the responses.
pub proof fn lemma_first_match_requests(
    base: Seq<char>,
    apis: Seq<ApiView>,
    others: Seq<ApiView>,
    method: Seq<char>,
    path: Seq<char>,
)
    requires
        apis.len() == others.len(),
        forall|i: int| 0 <= i < apis.len() ==> apis[i].request == others[i].request,
    ensures
        first_match(base, apis, method, path) == first_match(base, others, method, path),
    decreases apis.len(),
{
    if apis.len() > 0 {
        lemma_first_match_requests(base, apis.drop_last(), others.drop_last(), method, path);
    }
}

/// The route selected is the only one that the request addresses while it
/// addresses none before it.
pub proof fn lemma_first_match_unique(
    base: Seq<char>,
    apis: Seq<ApiView>,
    method: Seq<char>,
    path: Seq<char>,
    i: int,
)
    requires
        0 <= i < apis.len(),
        addresses(base, apis[i].request, method, path),
        forall|j: int| 0 <= j < i ==> !addresses(base, (#[trigger] apis[j]).request, method, path),
    ensures
        first_match(base, apis, method, path) == Some(i),
{
    lemma_first_match(base, apis, method, path);
}

/// A path that does not end in a slash and the same path with a slash after
/// it address the same routes.
pub proof fn lemma_trailing_slash(
    base: Seq<char>,
    request: RequestView,
    method: Seq<char>,
    path: Seq<char>,
)
    requires
        path.len() > 0,
        path.last() != '/',
    ensures
        addresses(base, request, method, path.push('/')) == addresses(base, request, method, path),
{
    assert(path.push('/').drop_last() =~= path);
}

} // verus!
