//! What the operations of a document become, and which of them a request gets.
use vstd::prelude::*;

use crate::http_types;
use crate::laws::headers;
use crate::path;
use crate::route_table;
use crate::spec;
use crate::spec::DynamicWaitConfig;
use crate::spec::Operation;
use crate::spec::OperationView;
use crate::spec::PathItem;
use crate::spec::RouteView;
use crate::str_map;
use crate::text;

verus! {

/// The operation that a path item declares for a method.
pub open spec fn declared(item: PathItem, method: Seq<char>) -> Option<Operation> {
    if method == "GET"@ {
        item.get
    } else if method == "POST"@ {
        item.post
    } else if method == "PUT"@ {
        item.put
    } else if method == "DELETE"@ {
        item.delete
    } else if method == "PATCH"@ {
        item.patch
    } else if method == "HEAD"@ {
        item.head
    } else if method == "OPTIONS"@ {
        item.options
    } else {
        None
    }
}

/// Whether a configuration says what a document says of an operation, field by field.
pub open spec fn says(
    view: OperationView,
    route: Seq<char>,
    method: Seq<char>,
    op: Operation,
    default_timeout_ms: u64,
) -> bool {
    &&& view.route_template == route
    &&& view.method == method
    &&& view.operation_id is Some <==> op.operation_id is Some
    &&& op.operation_id matches Some(id) ==> view.operation_id == Some(id@)
    &&& view.target_lambda == op.target_lambda@
    &&& view.max_wait_ms == op.lpr.max_wait_ms
    &&& view.max_batch_size == op.lpr.max_batch_size
    &&& op.lpr.timeout_ms matches Some(t) ==> view.timeout_ms == t
    &&& op.lpr.timeout_ms is None ==> view.timeout_ms == default_timeout_ms
    &&& view.invoke_mode == op.lpr.invoke_mode
    &&& view.dynamic_wait == op.lpr.dynamic_wait
    &&& spec::parsed_key(text::texts(op.lpr.key@), Seq::empty()) == Ok::<_, Seq<char>>(view.key)
}

/// Whether a dynamic wait can be followed. The rates are finite; the target rate is not negative,
/// and the steepness is above zero.
pub open spec fn can_be_followed(cfg: DynamicWaitConfig, max_wait_ms: u64) -> bool {
    &&& cfg.min_wait_ms <= max_wait_ms
    &&& cfg.target_rps_bits < 0x7ff0_0000_0000_0000u64 || cfg.target_rps_bits
        == 0x8000_0000_0000_0000u64
    &&& 0 < cfg.steepness_bits < 0x7ff0_0000_0000_0000u64
    &&& cfg.sampling_interval_ms > 0
    &&& cfg.smoothing_samples > 0
}

/// Whether an operation can be batched.
pub open spec fn can_be_batched(op: Operation) -> bool {
    &&& op.lpr.max_batch_size > 0
    &&& spec::parsed_key(text::texts(op.lpr.key@), Seq::empty()) is Ok
    &&& op.lpr.dynamic_wait matches Some(d) ==> can_be_followed(d, op.lpr.max_wait_ms)
}

/// An operation is refused only where it cannot be batched, and its configuration says what the
/// document says.
pub proof fn lemma_operations_are_taken_over(
    route: Seq<char>,
    method: Seq<char>,
    op: Operation,
    default_timeout_ms: u64,
)
    ensures
        spec::resolved_operation(route, method, op, default_timeout_ms) is Ok <==> can_be_batched(op),
        spec::resolved_operation(route, method, op, default_timeout_ms) matches Ok(v) ==> says(
            v,
            route,
            method,
            op,
            default_timeout_ms,
        ),
{
}

/// The error of an operation names the operation.
pub proof fn lemma_errors_name_the_operation(
    route: Seq<char>,
    method: Seq<char>,
    op: Operation,
    default_timeout_ms: u64,
)
    ensures
        spec::resolved_operation(route, method, op, default_timeout_ms) matches Err(e) ==> exists|
            reason: Seq<char>,
        |
            e == #[trigger] (reason + (" for "@ + method + " "@ + route)),
        op.lpr.max_batch_size == 0 ==> spec::resolved_operation(
            route,
            method,
            op,
            default_timeout_ms,
        ) == Err::<OperationView, _>(
            "x-lpr.max_batch_size must be > 0"@ + (" for "@ + method + " "@ + route),
        ),
{
}

/// What an entry of `key` adds to the dimensions: nothing where it names what every key holds, a
/// header by its name in lower case, or a query parameter by its name. Anything else is an error,
/// and so is a dimension that is there.
pub proof fn lemma_key_entries(entry: Seq<char>, name: Seq<char>, acc: Seq<spec::DimensionView>)
    ensures
        seq![
            "method"@,
            "route"@,
            "lambda"@,
            "target_lambda"@,
            "target-lambda"@,
        ].contains(entry) ==> spec::parsed_key(seq![entry], acc) == Ok::<_, Seq<char>>(acc),
        ({
            let d = spec::DimensionView::Header(text::lower_text(name));
            let out = spec::parsed_key(seq!["header:"@ + name], acc);
            if http_types::valid_header_name(name) && !acc.contains(d) {
                out == Ok::<_, Seq<char>>(acc.push(d))
            } else {
                out is Err
            }
        }),
        ({
            let d = spec::DimensionView::Query(name);
            let out = spec::parsed_key(seq!["query:"@ + name], acc);
            if !acc.contains(d) {
                out == Ok::<_, Seq<char>>(acc.push(d))
            } else {
                out is Err
            }
        }),
        ({
            &&& !seq![
                "method"@,
                "route"@,
                "lambda"@,
                "target_lambda"@,
                "target-lambda"@,
            ].contains(entry)
            &&& forall|n: Seq<char>| entry != #[trigger] ("header:"@ + n)
            &&& forall|n: Seq<char>| entry != #[trigger] ("query:"@ + n)
        }) ==> spec::parsed_key(seq![entry], acc) is Err,
{
    reveal_with_fuel(spec::parsed_key, 2);
    let implied = seq!["method"@, "route"@, "lambda"@, "target_lambda"@, "target-lambda"@];
    assert(implied[0] == "method"@ && implied[1] == "route"@ && implied[2] == "lambda"@
        && implied[3] == "target_lambda"@ && implied[4] == "target-lambda"@);
    reveal_strlit("header:");
    reveal_strlit("query:");
    reveal_strlit("method");
    reveal_strlit("route");
    reveal_strlit("lambda");
    reveal_strlit("target_lambda");
    reveal_strlit("target-lambda");
    let h = "header:"@ + name;
    let q = "query:"@ + name;
    assert(h[6] == ':');
    assert(q[5] == ':' && q[0] == 'q');
    assert(h[0] == 'h');
    assert(!spec::is_implied_dimension(h)) by {
        assert("method"@[0] == 'm' && "route"@[0] == 'r' && "lambda"@[0] == 'l'
            && "target_lambda"@[0] == 't' && "target-lambda"@[0] == 't');
    }
    assert(!spec::is_implied_dimension(q)) by {
        assert("method"@[0] == 'm' && "route"@[0] == 'r' && "lambda"@[0] == 'l'
            && "target_lambda"@[0] == 't' && "target-lambda"@[0] == 't');
    }
    assert(h.skip(7) =~= name);
    assert(q.skip(6) =~= name);
    assert(h.take(7) =~= "header:"@);
    assert(q.take(6) =~= "query:"@);
    assert("header:"@[0] == 'h' && "query:"@[0] == 'q');
    assert(!text::has_prefix(q, "header:"@)) by {
        if text::has_prefix(q, "header:"@) {
            assert(q.take(7)[0] == 'h');
        }
    }
    if text::has_prefix(entry, "header:"@) {
        assert(entry =~= "header:"@ + entry.skip(7));
    }
    if text::has_prefix(entry, "query:"@) {
        assert(entry =~= "query:"@ + entry.skip(6));
    }
}

/// The entries of `key` are read one after another.
pub proof fn lemma_keys_are_read_in_order(
    a: Seq<Seq<char>>,
    b: Seq<Seq<char>>,
    acc: Seq<spec::DimensionView>,
)
    ensures
        spec::parsed_key(Seq::empty(), acc) == Ok::<_, Seq<char>>(acc),
        spec::parsed_key(a + b, acc) == match spec::parsed_key(a, acc) {
            Ok(k) => spec::parsed_key(b, k),
            Err(e) => Err(e),
        },
    decreases a.len(),
{
    if a.len() == 0 {
        assert(a + b =~= b);
    } else {
        assert((a + b).drop_first() =~= a.drop_first() + b);
        lemma_keys_are_read_in_order(a.drop_first(), b, acc);
        if let Ok(Some(d)) = spec::parsed_dimension(a[0]) {
            lemma_keys_are_read_in_order(a.drop_first(), b, acc.push(d));
        }
    }
}

/// What operations that were read say of a method: there is one exactly where it was declared, and
/// it says what was declared.
spec fn holds(
    ops: Seq<OperationView>,
    method: Seq<char>,
    op: Option<Operation>,
    route: Seq<char>,
    t: u64,
) -> bool {
    &&& spec::has_method(ops, method) <==> op is Some
    &&& op matches Some(o) ==> says(
        ops[spec::method_index(ops, method) as int],
        route,
        method,
        o,
        t,
    )
}

/// An operation that is added is found under its method, and the others as before.
proof fn lemma_added(
    ops: Seq<OperationView>,
    route: Seq<char>,
    method: Seq<char>,
    op: Option<Operation>,
    t: u64,
    other: Seq<char>,
)
    requires
        spec::with_operation(ops, route, method, op, t) is Ok,
        !spec::has_method(ops, method),
    ensures
        ({
            let all = spec::with_operation(ops, route, method, op, t)->Ok_0;
            &&& holds(all, method, op, route, t)
            &&& other != method ==> {
                &&& spec::has_method(all, other) <==> spec::has_method(ops, other)
                &&& spec::has_method(ops, other) ==> all[spec::method_index(all, other) as int]
                    == ops[spec::method_index(ops, other) as int]
            }
            &&& forall|i: int| 0 <= i < ops.len() ==> all[i] == ops[i]
            &&& all.len() == ops.len() + (if op is Some { 1int } else { 0int })
        }),
{
    let all = spec::with_operation(ops, route, method, op, t)->Ok_0;
    spec::lemma_method_index(ops, method);
    spec::lemma_method_index(all, method);
    spec::lemma_method_index(ops, other);
    spec::lemma_method_index(all, other);
    if let Some(o) = op {
        let v = spec::resolved_operation(route, method, o, t)->Ok_0;
        assert(all[ops.len() as int] == v);
        lemma_operations_are_taken_over(route, method, o, t);
        let n = spec::method_index(all, method) as int;
        if n < ops.len() {
            assert(all[n] == ops[n]);
        }
        assert(n == ops.len());
        if other != method {
            let k = spec::method_index(all, other) as int;
            let m = spec::method_index(ops, other) as int;
            if m < ops.len() {
                assert(all[m] == ops[m]);
            }
            if k < ops.len() {
                assert(all[k] == ops[k]);
            }
        }
    }
}

/// The methods of a document are told apart.
proof fn lemma_methods_differ()
    ensures
        "GET"@ != "POST"@,
        "GET"@ != "PUT"@,
        "GET"@ != "DELETE"@,
        "GET"@ != "PATCH"@,
        "GET"@ != "HEAD"@,
        "GET"@ != "OPTIONS"@,
        "POST"@ != "PUT"@,
        "POST"@ != "DELETE"@,
        "POST"@ != "PATCH"@,
        "POST"@ != "HEAD"@,
        "POST"@ != "OPTIONS"@,
        "PUT"@ != "DELETE"@,
        "PUT"@ != "PATCH"@,
        "PUT"@ != "HEAD"@,
        "PUT"@ != "OPTIONS"@,
        "DELETE"@ != "PATCH"@,
        "DELETE"@ != "HEAD"@,
        "DELETE"@ != "OPTIONS"@,
        "PATCH"@ != "HEAD"@,
        "PATCH"@ != "OPTIONS"@,
        "HEAD"@ != "OPTIONS"@,
{
    reveal_strlit("GET");
    reveal_strlit("POST");
    reveal_strlit("PUT");
    reveal_strlit("DELETE");
    reveal_strlit("PATCH");
    reveal_strlit("HEAD");
    reveal_strlit("OPTIONS");
    assert("GET"@[0] == 'G' && "POST"@[1] == 'O' && "PUT"@[1] == 'U' && "PATCH"@[1] == 'A'
        && "DELETE"@[0] == 'D' && "HEAD"@[0] == 'H' && "OPTIONS"@[0] == 'O' && "POST"@[0] == 'P'
        && "PUT"@[0] == 'P' && "PATCH"@[0] == 'P');
}

/// Reading operations one after another gives each method what was declared for it, behind those
/// read so far, and stops at the first that cannot be batched.
proof fn lemma_entries_are_taken_over(
    entries: Seq<(Seq<char>, Option<Operation>)>,
    route: Seq<char>,
    t: u64,
    acc: Seq<OperationView>,
)
    requires
        forall|i: int, j: int|
            0 <= i < j < entries.len() ==> (#[trigger] entries[i]).0 != (#[trigger] entries[j]).0,
        forall|i: int| 0 <= i < entries.len() ==> !spec::has_method(acc, (#[trigger] entries[i]).0),
    ensures
        spec::resolved_operations(entries, route, t, acc) is Ok <==> forall|i: int|
            0 <= i < entries.len() ==> ((#[trigger] entries[i]).1 matches Some(o)
                ==> can_be_batched(o)),
        spec::resolved_operations(entries, route, t, acc) matches Ok(all) ==> {
            &&& forall|i: int|
                0 <= i < entries.len() ==> holds(
                    all,
                    (#[trigger] entries[i]).0,
                    entries[i].1,
                    route,
                    t,
                )
            &&& forall|m: Seq<char>|
                (forall|i: int| 0 <= i < entries.len() ==> (#[trigger] entries[i]).0 != m) ==> {
                    &&& #[trigger] spec::has_method(all, m) <==> spec::has_method(acc, m)
                    &&& spec::has_method(acc, m) ==> all[spec::method_index(all, m) as int]
                        == acc[spec::method_index(acc, m) as int]
                }
        },
    decreases entries.len(),
{
    if entries.len() > 0 {
        let (method, op) = entries[0];
        let rest = entries.drop_first();
        assert forall|i: int| 0 <= i < rest.len() implies (#[trigger] rest[i]) == entries[i + 1] by {
        }
        if let Some(o) = op {
            lemma_operations_are_taken_over(route, method, o, t);
        }
        match spec::with_operation(acc, route, method, op, t) {
            Err(_) => {
                assert(entries[0].1 matches Some(o) && !can_be_batched(o));
            },
            Ok(next) => {
                assert forall|i: int, j: int| 0 <= i < j < rest.len() implies (
                #[trigger] rest[i]).0 != (#[trigger] rest[j]).0 by {
                    assert(rest[i] == entries[i + 1] && rest[j] == entries[j + 1]);
                }
                assert forall|i: int| 0 <= i < rest.len() implies !spec::has_method(
                    next,
                    (#[trigger] rest[i]).0,
                ) by {
                    assert(rest[i] == entries[i + 1]);
                    assert(entries[0].0 != entries[i + 1].0);
                    lemma_added(acc, route, method, op, t, rest[i].0);
                }
                lemma_entries_are_taken_over(rest, route, t, next);
                if let Ok(all) = spec::resolved_operations(rest, route, t, next) {
                    lemma_added(acc, route, method, op, t, method);
                    assert forall|i: int| 0 <= i < rest.len() implies (#[trigger] rest[i]).0
                        != method by {
                        assert(rest[i] == entries[i + 1]);
                        assert(entries[0].0 != entries[i + 1].0);
                    }
                    assert(spec::has_method(all, method) <==> spec::has_method(next, method));
                    assert(holds(all, method, op, route, t));
                    assert forall|i: int| 0 <= i < entries.len() implies holds(
                        all,
                        (#[trigger] entries[i]).0,
                        entries[i].1,
                        route,
                        t,
                    ) by {
                        if i > 0 {
                            assert(rest[i - 1] == entries[i]);
                        }
                    }
                    assert forall|m: Seq<char>|
                        (forall|i: int|
                            0 <= i < entries.len() ==> (#[trigger] entries[i]).0 != m) implies {
                        &&& #[trigger] spec::has_method(all, m) <==> spec::has_method(acc, m)
                        &&& spec::has_method(acc, m) ==> all[spec::method_index(all, m) as int]
                            == acc[spec::method_index(acc, m) as int]
                    } by {
                        assert(entries[0].0 != m);
                        assert forall|i: int| 0 <= i < rest.len() implies (#[trigger] rest[i]).0
                            != m by {
                            assert(rest[i] == entries[i + 1]);
                        }
                        lemma_added(acc, route, method, op, t, m);
                        assert(spec::has_method(all, m) <==> spec::has_method(next, m));
                    }
                    assert forall|i: int| 0 <= i < entries.len() implies ((
                    #[trigger] entries[i]).1 matches Some(o) ==> can_be_batched(o)) by {
                        if i > 0 {
                            assert(rest[i - 1] == entries[i]);
                        }
                    }
                } else {
                    let i = choose|i: int|
                        0 <= i < rest.len() && !((#[trigger] rest[i]).1 matches Some(o)
                            ==> can_be_batched(o));
                    assert(rest[i] == entries[i + 1]);
                }
            },
        }
    }
}

/// The operations of a path are those that it declares, each under its own method and with what
/// the document says of it. A path is refused only for an operation that cannot be batched.
pub proof fn lemma_paths_are_taken_over(
    route: Seq<char>,
    item: PathItem,
    default_timeout_ms: u64,
    method: Seq<char>,
)
    ensures
        spec::resolved_item(route, item, default_timeout_ms) is Ok <==> (forall|m: Seq<char>|
            #[trigger] declared(item, m) matches Some(o) ==> can_be_batched(o)),
        spec::resolved_item(route, item, default_timeout_ms) matches Ok(ops) ==> {
            &&& spec::has_method(ops, method) <==> declared(item, method) is Some
            &&& declared(item, method) matches Some(op) ==> says(
                ops[spec::method_index(ops, method) as int],
                route,
                method,
                op,
                default_timeout_ms,
            )
        },
{
    let t = default_timeout_ms;
    let entries = spec::item_operations(item);
    lemma_methods_differ();
    assert(entries[0].0 == "GET"@ && entries[1].0 == "POST"@ && entries[2].0 == "PUT"@
        && entries[3].0 == "DELETE"@ && entries[4].0 == "PATCH"@ && entries[5].0 == "HEAD"@
        && entries[6].0 == "OPTIONS"@);
    lemma_entries_are_taken_over(entries, route, t, Seq::empty());
    assert forall|i: int| 0 <= i < entries.len() implies (#[trigger] entries[i]).1 == declared(
        item,
        entries[i].0,
    ) by {
    }
    let good = forall|i: int|
        0 <= i < entries.len() ==> ((#[trigger] entries[i]).1 matches Some(o) ==> can_be_batched(
            o,
        ));
    if good {
        assert forall|m: Seq<char>| #[trigger] declared(item, m) matches Some(o) implies
            can_be_batched(declared(item, m)->0) by {
            let i = if m == "GET"@ {
                0int
            } else if m == "POST"@ {
                1
            } else if m == "PUT"@ {
                2
            } else if m == "DELETE"@ {
                3
            } else if m == "PATCH"@ {
                4
            } else if m == "HEAD"@ {
                5
            } else {
                6
            };
            assert(entries[i].1 == declared(item, m));
        }
    } else {
        let i = choose|i: int|
            0 <= i < entries.len() && !((#[trigger] entries[i]).1 matches Some(o)
                ==> can_be_batched(o));
        assert(declared(item, entries[i].0) == entries[i].1);
    }
    if let Ok(ops) = spec::resolved_item(route, item, t) {
        if exists|i: int| 0 <= i < entries.len() && (#[trigger] entries[i]).0 == method {
            let i = choose|i: int| 0 <= i < entries.len() && (#[trigger] entries[i]).0 == method;
            assert(holds(ops, entries[i].0, entries[i].1, route, t));
        } else {
            assert(entries[0].0 != method && entries[1].0 != method && entries[2].0 != method
                && entries[3].0 != method && entries[4].0 != method && entries[5].0 != method
                && entries[6].0 != method);
            assert(!spec::has_method(Seq::<OperationView>::empty(), method));
            assert(!spec::has_method(ops, method));
        }
    }
}

/// Whether a route is that of a path of a document.
pub open spec fn is_route_of(route: RouteView, entry: (String, PathItem), t: u64) -> bool {
    &&& route.0 == entry.0@
    &&& spec::resolved_item(entry.0@, entry.1, t) == Ok::<_, Seq<char>>(route.1)
}

/// Whether a path of a document is among some routes.
pub open spec fn is_among(entry: (String, PathItem), routes: Seq<RouteView>, t: u64) -> bool {
    exists|r: int| 0 <= r < routes.len() && is_route_of(#[trigger] routes[r], entry, t)
}

/// Whether a route stems from a path of a document or was there before.
pub open spec fn stems_from(
    route: RouteView,
    paths: Seq<(String, PathItem)>,
    acc: Seq<RouteView>,
    t: u64,
) -> bool {
    ||| acc.contains(route)
    ||| exists|i: int| 0 <= i < paths.len() && is_route_of(route, #[trigger] paths[i], t)
}

/// Every path with an operation becomes a route of its own, and there are no others. A document
/// that compiles has no path with a fault.
pub proof fn lemma_every_path_becomes_a_route(
    paths: Seq<(String, PathItem)>,
    t: u64,
    acc: Seq<RouteView>,
)
    ensures
        spec::compiled_routes(paths, t, acc) matches Ok(routes) ==> {
            &&& forall|r: int| 0 <= r < acc.len() ==> r < routes.len() && #[trigger] routes[r]
                == acc[r]
            &&& acc.len() <= routes.len()
            &&& forall|i: int|
                0 <= i < paths.len() ==> {
                    &&& path::template_fault((#[trigger] paths[i]).0@) is None
                    &&& spec::resolved_item(paths[i].0@, paths[i].1, t) is Ok
                    &&& spec::resolved_item(paths[i].0@, paths[i].1, t)->Ok_0.len() > 0
                        ==> is_among(paths[i], routes, t)
                }
            &&& forall|r: int|
                0 <= r < routes.len() ==> stems_from(#[trigger] routes[r], paths, acc, t)
        },
    decreases paths.len(),
{
    if paths.len() == 0 {
        if let Ok(routes) = spec::compiled_routes(paths, t, acc) {
            assert forall|r: int| 0 <= r < routes.len() implies stems_from(
                #[trigger] routes[r],
                paths,
                acc,
                t,
            ) by {
                assert(acc[r] == routes[r]);
            }
        }
    } else if let Ok(routes) = spec::compiled_routes(paths, t, acc) {
        let template = paths[0].0@;
        let rest = paths.drop_first();
        let ops = spec::resolved_item(template, paths[0].1, t)->Ok_0;
        let next = if ops.len() == 0 {
            acc
        } else {
            acc.push((template, ops))
        };
        lemma_every_path_becomes_a_route(rest, t, next);
        assert(spec::compiled_routes(rest, t, next) == Ok::<_, Seq<char>>(routes));
        assert forall|r: int| 0 <= r < acc.len() implies r < routes.len() && #[trigger] routes[r]
            == acc[r] by {
            assert(next[r] == acc[r]);
            assert(routes[r] == next[r]);
        }
        if ops.len() > 0 {
            let n = acc.len() as int;
            assert(next[n] == (template, ops));
            assert(routes[n] == next[n]);
            assert(is_route_of(routes[n], paths[0], t));
        }
        assert forall|i: int| 0 <= i < paths.len() implies {
            &&& path::template_fault((#[trigger] paths[i]).0@) is None
            &&& spec::resolved_item(paths[i].0@, paths[i].1, t) is Ok
            &&& spec::resolved_item(paths[i].0@, paths[i].1, t)->Ok_0.len() > 0 ==> is_among(
                paths[i],
                routes,
                t,
            )
        } by {
            if i > 0 {
                assert(rest[i - 1] == paths[i]);
            }
        }
        assert forall|r: int| 0 <= r < routes.len() implies stems_from(
            #[trigger] routes[r],
            paths,
            acc,
            t,
        ) by {
            assert(stems_from(routes[r], rest, next, t));
            if next.contains(routes[r]) {
                let k = next.index_of(routes[r]);
                if k < acc.len() {
                    assert(acc[k] == routes[r]);
                } else {
                    assert(is_route_of(routes[r], paths[0], t));
                }
            } else {
                let i = choose|i: int|
                    0 <= i < rest.len() && is_route_of(routes[r], #[trigger] rest[i], t);
                assert(paths[i + 1] == rest[i]);
            }
        }
    }
}

/// Whether a request for a method gets an operation that says what a document says.
pub open spec fn gets(
    routes: Seq<RouteView>,
    r: int,
    method: Seq<char>,
    params: Seq<(Seq<char>, Seq<char>)>,
    template: Seq<char>,
    op: Operation,
    t: u64,
) -> bool {
    &&& 0 <= r < routes.len()
    &&& routes[r].0 == template
    &&& spec::matched_at(routes, method, Some((r as usize, params))) matches
        spec::RouteMatchView::Matched { op: v, .. } && says(v, template, method, op, t)
}

/// Every operation of a document that compiles is matched for its method under its template, and
/// what is matched has, field by field, what the document says.
pub proof fn lemma_operations_are_matched(
    paths: Seq<(String, PathItem)>,
    default_timeout_ms: u64,
    i: int,
    method: Seq<char>,
    params: Seq<(Seq<char>, Seq<char>)>,
)
    requires
        0 <= i < paths.len() <= usize::MAX,
        declared(paths[i].1, method) is Some,
        spec::compiled_routes(paths, default_timeout_ms, Seq::empty()) is Ok,
    ensures
        exists|r: int|
            #[trigger] gets(
                spec::compiled_routes(paths, default_timeout_ms, Seq::empty())->Ok_0,
                r,
                method,
                params,
                paths[i].0@,
                declared(paths[i].1, method)->0,
                default_timeout_ms,
            ),
{
    let t = default_timeout_ms;
    let routes = spec::compiled_routes(paths, t, Seq::empty())->Ok_0;
    lemma_every_path_becomes_a_route(paths, t, Seq::empty());
    lemma_paths_are_taken_over(paths[i].0@, paths[i].1, t, method);
    let ops = spec::resolved_item(paths[i].0@, paths[i].1, t)->Ok_0;
    spec::lemma_method_index(ops, method);
    assert(is_among(paths[i], routes, t));
    let r = choose|r: int| 0 <= r < routes.len() && is_route_of(#[trigger] routes[r], paths[i], t);
    lemma_no_more_routes_than_paths(paths, t, Seq::empty());
    assert(gets(routes, r, method, params, paths[i].0@, declared(paths[i].1, method)->0, t));
}

/// A document has no more routes than paths.
pub proof fn lemma_no_more_routes_than_paths(
    paths: Seq<(String, PathItem)>,
    t: u64,
    acc: Seq<RouteView>,
)
    ensures
        spec::compiled_routes(paths, t, acc) matches Ok(routes) ==> routes.len() <= acc.len()
            + paths.len(),
    decreases paths.len(),
{
    if paths.len() > 0 {
        lemma_no_more_routes_than_paths(paths.drop_first(), t, acc);
        if let Ok(ops) = spec::resolved_item(paths[0].0@, paths[0].1, t) {
            lemma_no_more_routes_than_paths(paths.drop_first(), t, acc.push((paths[0].0@, ops)));
        }
    }
}

/// Whether a document declares for a method under a template what an operation says.
pub open spec fn is_declared(
    entry: (String, PathItem),
    template: Seq<char>,
    method: Seq<char>,
    v: OperationView,
    t: u64,
) -> bool {
    &&& entry.0@ == template
    &&& declared(entry.1, method) matches Some(op) && says(v, template, method, op, t)
}

/// What a request gets was declared: an operation for its method under the template that it
/// matched. A method that was not declared there is not allowed, and those that were are named.
pub proof fn lemma_only_declared_operations_are_matched(
    paths: Seq<(String, PathItem)>,
    default_timeout_ms: u64,
    r: usize,
    method: Seq<char>,
    params: Seq<(Seq<char>, Seq<char>)>,
)
    requires
        spec::compiled_routes(paths, default_timeout_ms, Seq::empty()) matches Ok(routes) && r
            < routes.len(),
    ensures
        ({
            let routes = spec::compiled_routes(paths, default_timeout_ms, Seq::empty())->Ok_0;
            match spec::matched_at(routes, method, Some((r, params))) {
                spec::RouteMatchView::NotFound => false,
                spec::RouteMatchView::Matched { op: v, .. } => exists|i: int|
                    0 <= i < paths.len() && is_declared(
                        #[trigger] paths[i],
                        routes[r as int].0,
                        method,
                        v,
                        default_timeout_ms,
                    ),
                spec::RouteMatchView::MethodNotAllowed { allowed } => exists|i: int|
                    0 <= i < paths.len() && (#[trigger] paths[i]).0@ == routes[r as int].0
                        && declared(paths[i].1, method) is None && forall|m: Seq<char>|
                        allowed.contains(m) <==> #[trigger] declared(paths[i].1, m) is Some,
            }
        }),
        spec::matched_at(
            spec::compiled_routes(paths, default_timeout_ms, Seq::empty())->Ok_0,
            method,
            None,
        ) is NotFound,
{
    let t = default_timeout_ms;
    let routes = spec::compiled_routes(paths, t, Seq::empty())->Ok_0;
    lemma_every_path_becomes_a_route(paths, t, Seq::empty());
    assert(stems_from(routes[r as int], paths, Seq::empty(), t));
    let i = choose|i: int|
        0 <= i < paths.len() && is_route_of(routes[r as int], #[trigger] paths[i], t);
    let (template, item) = paths[i];
    let ops = routes[r as int].1;
    lemma_paths_are_taken_over(template@, item, t, method);
    spec::lemma_method_index(ops, method);
    if spec::has_method(ops, method) {
        assert(is_declared(
            paths[i],
            routes[r as int].0,
            method,
            ops[spec::method_index(ops, method) as int],
            t,
        ));
    } else {
        let allowed = spec::allowed_methods(ops);
        assert forall|m: Seq<char>| allowed.contains(m) <==> #[trigger] declared(
            item,
            m,
        ) is Some by {
            lemma_paths_are_taken_over(template@, item, t, m);
            lemma_allowed(ops, item, m);
        }
        assert(paths[i].0@ == routes[r as int].0);
    }
}

/// A request that is matched gets the values of its path parameters by their names, and no others.
pub proof fn lemma_path_parameters(
    routes: Seq<RouteView>,
    r: usize,
    method: Seq<char>,
    params: Seq<(Seq<char>, Seq<char>)>,
    key: Seq<char>,
)
    ensures
        spec::matched_at(routes, method, Some((r, params))) matches spec::RouteMatchView::Matched {
            path_params,
            ..
        } ==> {
            &&& (forall|j: int| 0 <= j < params.len() ==> (#[trigger] params[j]).0 != key)
                ==> str_map::lookup(path_params, key) is None
            &&& forall|i: int|
                0 <= i < params.len() && (#[trigger] params[i]).0 == key && (forall|j: int|
                    i < j < params.len() ==> (#[trigger] params[j]).0 != key) ==> str_map::lookup(
                    path_params,
                    key,
                ) == Some(params[i].1)
        },
{
    headers::lemma_the_last_of_a_name_counts(params, Seq::empty(), key);
    assert(!str_map::has_key(Seq::<(Seq<char>, Seq<char>)>::empty(), key));
}

/// The methods that are allowed are those of the operations.
proof fn lemma_allowed(ops: Seq<OperationView>, item: PathItem, m: Seq<char>)
    requires
        spec::has_method(ops, m) <==> declared(item, m) is Some,
    ensures
        spec::allowed_methods(ops).contains(m) <==> declared(item, m) is Some,
{
    broadcast use vstd::seq_lib::group_filter_ensures;

    let pred = |k: Seq<char>| spec::has_method(ops, k);
    let all = spec::sorted_methods();
    assert(all[0] == "DELETE"@ && all[1] == "GET"@ && all[2] == "HEAD"@ && all[3] == "OPTIONS"@
        && all[4] == "PATCH"@ && all[5] == "POST"@ && all[6] == "PUT"@);
    if declared(item, m) is Some {
        assert(all.contains(m));
        let k = all.index_of(m);
        assert(pred(all[k]));
        assert(all.filter(pred).contains(all[k]));
    }
    if spec::allowed_methods(ops).contains(m) {
        let k = all.filter(pred).index_of(m);
        assert(pred(all.filter(pred)[k]));
    }
}

/// A document is refused only for a path with a fault, or for one that the route table refuses.
pub proof fn lemma_documents_are_refused_for_a_path(
    paths: Seq<(String, PathItem)>,
    t: u64,
    acc: Seq<RouteView>,
)
    requires
        spec::compiled_routes(paths, t, acc) is Err,
    ensures
        exists|i: int|
            0 <= i < paths.len() && ({
                ||| path::template_fault((#[trigger] paths[i]).0@) is Some
                ||| spec::resolved_item(paths[i].0@, paths[i].1, t) is Err
                ||| exists|routes: Seq<RouteView>|
                    route_table::route_error(#[trigger] spec::table(routes), paths[i].0@) is Some
            }),
    decreases paths.len(),
{
    if paths.len() > 0 {
        let first = paths[0];
        let rest = paths.drop_first();
        if path::template_fault(paths[0].0@) is None {
            if let Ok(ops) = spec::resolved_item(paths[0].0@, paths[0].1, t) {
                let next = if ops.len() == 0 {
                    acc
                } else {
                    acc.push((paths[0].0@, ops))
                };
                if ops.len() == 0 || route_table::route_error(spec::table(acc), paths[0].0@) is None {
                    lemma_documents_are_refused_for_a_path(rest, t, next);
                    let i = choose|i: int|
                        0 <= i < rest.len() && ({
                            ||| path::template_fault((#[trigger] rest[i]).0@) is Some
                            ||| spec::resolved_item(rest[i].0@, rest[i].1, t) is Err
                            ||| exists|routes: Seq<RouteView>|
                                route_table::route_error(
                                    #[trigger] spec::table(routes),
                                    rest[i].0@,
                                ) is Some
                        });
                    assert(paths[i + 1] == rest[i]);
                }
            }
        }
    }
}

/// What is wrong with a template: no slash at its start, or the first brace that belongs to no
/// parameter with a name. A parameter with a name is none of it.
pub proof fn lemma_faults_of_templates(before: Seq<char>, name: Seq<char>, after: Seq<char>)
    requires
        forall|i: int| 0 <= i < before.len() ==> before[i] != '{' && before[i] != '}',
        forall|i: int| 0 <= i < name.len() ==> name[i] != '{' && name[i] != '}',
    ensures
        after.len() == 0 || after[0] != '/' ==> path::template_fault(after) == Some(
            path::TemplateFault::NoSlash,
        ),
        after.len() > 0 && after[0] == '/' ==> path::template_fault(after) == path::brace_fault(
            after,
            None,
        ),
        path::brace_fault(before, None) is None,
        path::brace_fault(before + seq!['}'] + after, None) == Some(path::TemplateFault::Unmatched),
        path::brace_fault(before + seq!['{', '}'] + after, None) == Some(
            path::TemplateFault::EmptyName,
        ),
        path::brace_fault(before + seq!['{'] + name, None) == Some(path::TemplateFault::Unclosed),
        path::brace_fault(before + seq!['{'] + name + seq!['{'] + after, None) == Some(
            path::TemplateFault::Nested,
        ),
        name.len() > 0 ==> path::brace_fault(before + seq!['{'] + name + seq!['}'] + after, None)
            == path::brace_fault(after, None),
    decreases before.len(),
{
    reveal_with_fuel(path::brace_fault, 3);
    let a = before + seq!['}'] + after;
    let b = before + seq!['{', '}'] + after;
    let c = before + seq!['{'] + name;
    let d = before + seq!['{'] + name + seq!['{'] + after;
    let e = before + seq!['{'] + name + seq!['}'] + after;
    if before.len() == 0 {
        assert(a[0] == '}');
        assert(b[0] == '{' && b.drop_first()[0] == '}');
        assert(c[0] == '{' && d[0] == '{' && e[0] == '{');
        assert(c.drop_first() =~= name);
        assert(d.drop_first() =~= name + seq!['{'] + after);
        assert(e.drop_first() =~= name + seq!['}'] + after);
        lemma_inside_a_parameter(name, after, 0);
        assert(before =~= Seq::<char>::empty());
    } else {
        let rest = before.drop_first();
        assert forall|i: int| 0 <= i < rest.len() implies rest[i] != '{' && rest[i] != '}' by {
            assert(rest[i] == before[i + 1]);
        }
        lemma_faults_of_templates(rest, name, after);
        assert(a.drop_first() =~= rest + seq!['}'] + after);
        assert(b.drop_first() =~= rest + seq!['{', '}'] + after);
        assert(c.drop_first() =~= rest + seq!['{'] + name);
        assert(d.drop_first() =~= rest + seq!['{'] + name + seq!['{'] + after);
        assert(e.drop_first() =~= rest + seq!['{'] + name + seq!['}'] + after);
        assert(a[0] == before[0] && b[0] == before[0] && c[0] == before[0] && d[0] == before[0]
            && e[0] == before[0]);
    }
}

/// What comes of a parameter of which some characters have been read.
proof fn lemma_inside_a_parameter(name: Seq<char>, after: Seq<char>, n: nat)
    requires
        forall|i: int| 0 <= i < name.len() ==> name[i] != '{' && name[i] != '}',
    ensures
        path::brace_fault(name, Some(n)) == Some(path::TemplateFault::Unclosed),
        path::brace_fault(name + seq!['{'] + after, Some(n)) == Some(path::TemplateFault::Nested),
        name.len() + n > 0 ==> path::brace_fault(name + seq!['}'] + after, Some(n))
            == path::brace_fault(after, None),
    decreases name.len(),
{
    let d = name + seq!['{'] + after;
    let e = name + seq!['}'] + after;
    if name.len() == 0 {
        assert(d[0] == '{');
        assert(e[0] == '}');
        assert(e.drop_first() =~= after);
    } else {
        let rest = name.drop_first();
        assert forall|i: int| 0 <= i < rest.len() implies rest[i] != '{' && rest[i] != '}' by {
            assert(rest[i] == name[i + 1]);
        }
        lemma_inside_a_parameter(rest, after, n + 1);
        assert(d.drop_first() =~= rest + seq!['{'] + after);
        assert(e.drop_first() =~= rest + seq!['}'] + after);
        assert(d[0] == name[0] && e[0] == name[0]);
    }
}

/// The route table leads each template to its route.
pub proof fn lemma_templates_lead_to_their_routes(routes: Seq<RouteView>, r: int)
    requires
        0 <= r < routes.len() <= usize::MAX,
    ensures
        spec::table(routes).len() == routes.len(),
        spec::table(routes)[r].0 == routes[r].0,
        spec::table(routes)[r].1 == r,
{
}

} // verus!
