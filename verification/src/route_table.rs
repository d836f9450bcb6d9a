//! The table of routes, as the `matchit` crate keeps it.
use vstd::prelude::*;

use crate::path;

verus! {

/// The router of the `matchit` crate.
#[verifier::external_type_specification]
#[verifier::external_body]
#[verifier::reject_recursive_types(T)]
pub struct ExRouter<T>(matchit::Router<T>);

/// The routes of a router with their values, in the order in which they were inserted.
pub uninterp spec fn router_routes(router: matchit::Router<usize>) -> Seq<(Seq<char>, usize)>;

/// The text of the error with which a router that holds `routes` refuses a further route.
pub uninterp spec fn route_error(routes: Seq<(Seq<char>, usize)>, route: Seq<char>) -> Option<
    Seq<char>,
>;

/// The value and the parameters, as names and values in order, that a router which holds
/// `routes` finds for a path.
pub uninterp spec fn route_lookup(routes: Seq<(Seq<char>, usize)>, path: Seq<char>) -> Option<
    (usize, Seq<(Seq<char>, Seq<char>)>),
>;

/// A router without routes.
pub open spec fn no_routes() -> Seq<(Seq<char>, usize)> {
    Seq::empty()
}

/// The most parameters of a route: a router panics on one more.
pub const MAX_PARAMS: usize = 25;

/// Whether every route is a template without a fault.
pub open spec fn well_formed_routes(routes: Seq<(Seq<char>, usize)>) -> bool {
    forall|i: int| 0 <= i < routes.len() ==> path::template_fault((#[trigger] routes[i]).0) is None
}

/// Pairs of strings, taken by their views.
pub open spec fn pair_texts(params: Seq<(String, String)>) -> Seq<(Seq<char>, Seq<char>)> {
    Seq::new(params.len(), |i: int| (params[i].0@, params[i].1@))
}

/// The view of a found route.
pub open spec fn found_view(found: Option<(usize, Vec<(String, String)>)>) -> Option<
    (usize, Seq<(Seq<char>, Seq<char>)>),
> {
    match found {
        Some(f) => Some((f.0, pair_texts(f.1@))),
        None => None,
    }
}

/// Whether a found value is that of a route which the path fits with the found parameters.
pub open spec fn found_fits(
    routes: Seq<(Seq<char>, usize)>,
    path: Seq<char>,
    found: Option<(usize, Vec<(String, String)>)>,
) -> bool {
    found matches Some(f) ==> exists|i: int|
        0 <= i < routes.len() && (#[trigger] routes[i]).1 == f.0 && path::fits(
            routes[i].0,
            pair_texts(f.1@),
            path,
        )
}

/// `matchit::Router::new` returns a router without routes.
#[verifier::external_body]
pub(crate) fn router_new() -> (r: matchit::Router<usize>)
    ensures
        router_routes(r) == no_routes(),
{
    matchit::Router::new()
}

/// `matchit::Router::insert` adds a route, or refuses it: where it is not one that the router
/// can hold, or where it conflicts with a route that is there. The error is the text that its
/// error displays. Nothing is claimed of a router that refused a route.
#[verifier::external_body]
pub(crate) fn router_insert(router: matchit::Router<usize>, route: &str, value: usize) -> (r:
    Result<matchit::Router<usize>, String>)
    requires
        path::template_fault(route@) is None,
        path::param_count(route@) <= MAX_PARAMS,
    ensures
        r is Ok <==> route_error(router_routes(router), route@) is None,
        r matches Ok(n) ==> router_routes(n) == router_routes(router).push((route@, value)),
        r matches Err(e) ==> route_error(router_routes(router), route@) == Some(e@),
{
    let mut router = router;
    match router.insert(route, value) {
        Ok(()) => Ok(router),
        Err(e) => Err(e.to_string()),
    }
}

/// `matchit::Router::at` finds a route for a path, with the values of its parameters. The path
/// is the route with these values in the place of the parameters. Which of several routes that
/// a path fits is found, and that one is found, is left to the name.
#[verifier::external_body]
pub(crate) fn router_at(router: &matchit::Router<usize>, path: &str) -> (r: Option<
    (usize, Vec<(String, String)>),
>)
    requires
        well_formed_routes(router_routes(*router)),
    ensures
        found_view(r) == route_lookup(router_routes(*router), path@),
        found_fits(router_routes(*router), path@, r),
{
    let found = router.at(path).ok()?;
    let params = found.params.iter().map(|(k, v)| (k.to_string(), v.to_string())).collect();
    Some((*found.value, params))
}

} // verus!
