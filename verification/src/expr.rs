//! The precondition language of interactive titles.
//!
//! An expression is a JSON array `[op, arg, ...]` whose first element names
//! the operation; any other value is a literal and evaluates to itself.
//! `["persistentState", key]` and `["globalState", key]` read the two state
//! scopes (a missing key reads as `null`); `not`, `and`, `or` combine
//! truthiness; `eql` compares two values; `lt`, `lte`, `gt`, `gte` compare
//! two values read as numbers; `sum` and `mult` fold their arguments read as
//! numbers into a floating-point number. An unknown operation, or an array
//! that does not start with a string, evaluates to `null`.

use vstd::prelude::*;
use crate::json::{json_views, lemma_json_views, num_spec, truthy_spec, Json, JsonValue};
use crate::state::StateMap;
use crate::text::str_eq;

verus! {

/// Value of expression `e` over the global state `g` and persistent state `p`.
pub open spec fn eval_spec(e: Json, g: Map<Seq<char>, Json>, p: Map<Seq<char>, Json>) -> Json
    decreases e, 0int,
{
    match e {
        Json::Array(items) => {
            if items.len() == 0 {
                Json::Null
            } else {
                match items[0] {
                    Json::Str(op) => {
                        let n = items.len();
                        if op == "persistentState"@ {
                            state_read(items, p)
                        } else if op == "globalState"@ {
                            state_read(items, g)
                        } else if op == "not"@ {
                            Json::Bool(!(n >= 2 && truthy_spec(eval_spec(items[1], g, p))))
                        } else if op == "and"@ {
                            Json::Bool(all_truthy(items, n as int, g, p))
                        } else if op == "or"@ {
                            Json::Bool(any_truthy(items, n as int, g, p))
                        } else if op == "eql"@ {
                            Json::Bool(n == 3 && eval_spec(items[1], g, p) == eval_spec(items[2], g, p))
                        } else if op == "lt"@ {
                            Json::Bool(n == 3 && num_spec(eval_spec(items[1], g, p)) < num_spec(eval_spec(items[2], g, p)))
                        } else if op == "lte"@ {
                            Json::Bool(n == 3 && num_spec(eval_spec(items[1], g, p)) <= num_spec(eval_spec(items[2], g, p)))
                        } else if op == "gt"@ {
                            Json::Bool(n == 3 && num_spec(eval_spec(items[1], g, p)) > num_spec(eval_spec(items[2], g, p)))
                        } else if op == "gte"@ {
                            Json::Bool(n == 3 && num_spec(eval_spec(items[1], g, p)) >= num_spec(eval_spec(items[2], g, p)))
                        } else if op == "sum"@ {
                            number_or_null(sum_upto(items, n as int, g, p))
                        } else if op == "mult"@ {
                            number_or_null(prod_upto(items, n as int, g, p))
                        } else {
                            Json::Null
                        }
                    },
                    _ => Json::Null,
                }
            }
        },
        _ => e,
    }
}

/// `[_, key, ...]` read from `scope`: the value under the string `key`, else
/// `null`.
pub open spec fn state_read(items: Seq<Json>, scope: Map<Seq<char>, Json>) -> Json {
    if items.len() >= 2 {
        match items[1] {
            Json::Str(k) => if scope.contains_key(k) {
                scope[k]
            } else {
                Json::Null
            },
            _ => Json::Null,
        }
    } else {
        Json::Null
    }
}

/// A computed number as a floating-point JSON number; `null` when it leaves
/// the 64-bit range the library holds numbers in.
pub open spec fn number_or_null(v: int) -> Json {
    if i64::MIN <= v <= i64::MAX {
        Json::Float(v)
    } else {
        Json::Null
    }
}

/// Every argument among `items[1..n]` evaluates truthy.
pub open spec fn all_truthy(items: Seq<Json>, n: int, g: Map<Seq<char>, Json>, p: Map<Seq<char>, Json>) -> bool
    decreases items, n,
{
    if n <= 1 || n > items.len() {
        true
    } else {
        all_truthy(items, n - 1, g, p) && truthy_spec(eval_spec(items[n - 1], g, p))
    }
}

/// Some argument among `items[1..n]` evaluates truthy.
pub open spec fn any_truthy(items: Seq<Json>, n: int, g: Map<Seq<char>, Json>, p: Map<Seq<char>, Json>) -> bool
    decreases items, n,
{
    if n <= 1 || n > items.len() {
        false
    } else {
        any_truthy(items, n - 1, g, p) || truthy_spec(eval_spec(items[n - 1], g, p))
    }
}

/// Sum of the arguments among `items[1..n]`, read as numbers.
pub open spec fn sum_upto(items: Seq<Json>, n: int, g: Map<Seq<char>, Json>, p: Map<Seq<char>, Json>) -> int
    decreases items, n,
{
    if n <= 1 || n > items.len() {
        0
    } else {
        sum_upto(items, n - 1, g, p) + num_spec(eval_spec(items[n - 1], g, p))
    }
}

/// Product of the arguments among `items[1..n]`, read as numbers.
pub open spec fn prod_upto(items: Seq<Json>, n: int, g: Map<Seq<char>, Json>, p: Map<Seq<char>, Json>) -> int
    decreases items, n,
{
    if n <= 1 || n > items.len() {
        1
    } else {
        prod_upto(items, n - 1, g, p) * num_spec(eval_spec(items[n - 1], g, p))
    }
}

pub open spec fn abs(v: int) -> int {
    if v < 0 {
        -v
    } else {
        v
    }
}

proof fn lemma_abs_mul(a: int, b: int)
    ensures
        abs(a * b) == abs(a) * abs(b),
        b != 0 ==> abs(a * b) >= abs(a),
        a * b == 0 <==> (a == 0 || b == 0),
{
    assert(abs(a * b) == abs(a) * abs(b)) by (nonlinear_arith);
    assert(b != 0 ==> abs(a) * abs(b) >= abs(a)) by (nonlinear_arith);
    assert(a * b == 0 <==> (a == 0 || b == 0)) by (nonlinear_arith);
}

proof fn lemma_mul_bound(a: int, b: int)
    requires
        abs(a) <= 0x8000_0000_0000_0000,
        abs(b) <= 0x8000_0000_0000_0000,
    ensures
        abs(a * b) <= 0x4000_0000_0000_0000_0000_0000_0000_0000,
{
    lemma_abs_mul(a, b);
    assert(abs(a) * abs(b) <= 0x8000_0000_0000_0000 * 0x8000_0000_0000_0000) by (nonlinear_arith)
        requires
            0 <= abs(a) <= 0x8000_0000_0000_0000,
            0 <= abs(b) <= 0x8000_0000_0000_0000,
    ;
}

/// `items[k]` of an array expression lies below it, for recursion.
proof fn lemma_items_below(e: &JsonValue, items: &Vec<JsonValue>)
    requires
        *e == JsonValue::Array(*items),
    ensures
        forall|k: int| 0 <= k < items@.len() ==> decreases_to!(*e => items@[k]),
        e@ == Json::Array(json_views(items@)),
        json_views(items@).len() == items@.len(),
        forall|k: int| 0 <= k < items@.len() ==> #[trigger] json_views(items@)[k] == items@[k]@,
{
    lemma_json_views(items@);
    assert forall|k: int| 0 <= k < items@.len() implies decreases_to!(*e => items@[k]) by {
        assert(decreases_to!(*e => (*e)->Array_0));
        assert(decreases_to!(items => items@));
        assert(decreases_to!(items@ => items@[k]));
    }
}

/// `[_, key, ...]` looked up in `scope`.
fn read_state(items: &Vec<JsonValue>, scope: &StateMap) -> (r: JsonValue)
    ensures
        r@ == state_read(json_views(items@), scope@),
{
    proof {
        lemma_json_views(items@);
    }
    if items.len() >= 2 {
        match items[1].as_str() {
            Some(k) => match scope.get(k) {
                Some(v) => v.deep_copy(),
                None => JsonValue::Null,
            },
            None => JsonValue::Null,
        }
    } else {
        JsonValue::Null
    }
}

/// Evaluate `expr` over the global and persistent state.
pub fn eval_expr(expr: &JsonValue, global: &StateMap, persistent: &StateMap) -> (r: JsonValue)
    ensures
        r@ == eval_spec(expr@, global@, persistent@),
    decreases expr,
{
    let items = match expr {
        JsonValue::Array(items) => items,
        _ => {
            return expr.deep_copy();
        },
    };
    proof {
        lemma_items_below(expr, items);
    }
    let ghost views = json_views(items@);
    let ghost g = global@;
    let ghost p = persistent@;
    if items.len() == 0 {
        return JsonValue::Null;
    }
    let op = match items[0].as_str() {
        Some(op) => op,
        None => {
            return JsonValue::Null;
        },
    };
    let n = items.len();
    if str_eq(op, "persistentState") {
        read_state(items, persistent)
    } else if str_eq(op, "globalState") {
        read_state(items, global)
    } else if str_eq(op, "not") {
        let b = n >= 2 && eval_expr(&items[1], global, persistent).truthy();
        JsonValue::Bool(!b)
    } else if str_eq(op, "and") {
        let mut acc = true;
        let mut k: usize = 1;
        while k < n
            invariant
                1 <= k <= n,
                n == items@.len(),
                views == json_views(items@),
                views.len() == n,
                forall|j: int| 0 <= j < n ==> #[trigger] views[j] == items@[j]@,
                forall|j: int| 0 <= j < n ==> decreases_to!(*expr => items@[j]),
                g == global@,
                p == persistent@,
                acc == all_truthy(views, k as int, g, p),
            decreases n - k,
        {
            let t = eval_expr(&items[k], global, persistent).truthy();
            acc = acc && t;
            k += 1;
        }
        JsonValue::Bool(acc)
    } else if str_eq(op, "or") {
        let mut acc = false;
        let mut k: usize = 1;
        while k < n
            invariant
                1 <= k <= n,
                n == items@.len(),
                views == json_views(items@),
                views.len() == n,
                forall|j: int| 0 <= j < n ==> #[trigger] views[j] == items@[j]@,
                forall|j: int| 0 <= j < n ==> decreases_to!(*expr => items@[j]),
                g == global@,
                p == persistent@,
                acc == any_truthy(views, k as int, g, p),
            decreases n - k,
        {
            let t = eval_expr(&items[k], global, persistent).truthy();
            acc = acc || t;
            k += 1;
        }
        JsonValue::Bool(acc)
    } else if str_eq(op, "eql") {
        if n == 3 {
            let a = eval_expr(&items[1], global, persistent);
            let b = eval_expr(&items[2], global, persistent);
            JsonValue::Bool(a.json_eq(&b))
        } else {
            JsonValue::Bool(false)
        }
    } else if str_eq(op, "lt") || str_eq(op, "lte") || str_eq(op, "gt") || str_eq(op, "gte") {
        if n == 3 {
            let a = eval_expr(&items[1], global, persistent).num();
            let b = eval_expr(&items[2], global, persistent).num();
            if str_eq(op, "lt") {
                JsonValue::Bool(a < b)
            } else if str_eq(op, "lte") {
                JsonValue::Bool(a <= b)
            } else if str_eq(op, "gt") {
                JsonValue::Bool(a > b)
            } else {
                JsonValue::Bool(a >= b)
            }
        } else {
            JsonValue::Bool(false)
        }
    } else if str_eq(op, "sum") {
        let mut acc: i128 = 0;
        let mut k: usize = 1;
        while k < n
            invariant
                1 <= k <= n,
                n == items@.len(),
                views == json_views(items@),
                views.len() == n,
                forall|j: int| 0 <= j < n ==> #[trigger] views[j] == items@[j]@,
                forall|j: int| 0 <= j < n ==> decreases_to!(*expr => items@[j]),
                g == global@,
                p == persistent@,
                acc == sum_upto(views, k as int, g, p),
                abs(acc as int) <= k * 0x8000_0000_0000_0000,
            decreases n - k,
        {
            let x = eval_expr(&items[k], global, persistent).num();
            assert(k + 1 <= usize::MAX);
            acc = acc + x as i128;
            k += 1;
        }
        if acc >= i64::MIN as i128 && acc <= i64::MAX as i128 {
            JsonValue::Float(acc as i64)
        } else {
            JsonValue::Null
        }
    } else if str_eq(op, "mult") {
        let mut acc: i128 = 1;
        let mut zero = false;
        let mut big = false;
        let mut k: usize = 1;
        while k < n
            invariant
                1 <= k <= n,
                n == items@.len(),
                views == json_views(items@),
                views.len() == n,
                forall|j: int| 0 <= j < n ==> #[trigger] views[j] == items@[j]@,
                forall|j: int| 0 <= j < n ==> decreases_to!(*expr => items@[j]),
                g == global@,
                p == persistent@,
                zero ==> prod_upto(views, k as int, g, p) == 0,
                !zero && !big ==> acc == prod_upto(views, k as int, g, p) && abs(acc as int)
                    <= 0x8000_0000_0000_0000,
                !zero && big ==> abs(prod_upto(views, k as int, g, p)) > 0x8000_0000_0000_0000,
            decreases n - k,
        {
            let x = eval_expr(&items[k], global, persistent).num();
            let ghost before = prod_upto(views, k as int, g, p);
            proof {
                lemma_abs_mul(before, x as int);
            }
            if x == 0 {
                zero = true;
            } else if !zero && !big {
                proof {
                    lemma_mul_bound(acc as int, x as int);
                }
                let next = acc * (x as i128);
                if next > 0x8000_0000_0000_0000i128 || next < -0x8000_0000_0000_0000i128 {
                    big = true;
                } else {
                    acc = next;
                }
            }
            k += 1;
        }
        if zero {
            JsonValue::Float(0)
        } else if big || acc > i64::MAX as i128 {
            JsonValue::Null
        } else {
            JsonValue::Float(acc as i64)
        }
    } else {
        JsonValue::Null
    }
}

/// Truthiness of the value of `expr`.
pub fn eval_truthy(expr: &JsonValue, global: &StateMap, persistent: &StateMap) -> (b: bool)
    ensures
        b == truthy_spec(eval_spec(expr@, global@, persistent@)),
{
    eval_expr(expr, global, persistent).truthy()
}

/// The expression `[op, a, b]`.
pub open spec fn call2(op: Seq<char>, a: Json, b: Json) -> Json {
    Json::Array(seq![Json::Str(op), a, b])
}

proof fn lemma_comparison_ops()
    ensures
        "lt"@ != "persistentState"@ && "lt"@ != "globalState"@ && "lt"@ != "not"@ && "lt"@ != "and"@ && "lt"@ != "or"@
            && "lt"@ != "eql"@,
        "lte"@ != "persistentState"@ && "lte"@ != "globalState"@ && "lte"@ != "not"@ && "lte"@ != "and"@ && "lte"@ != "or"@
            && "lte"@ != "eql"@ && "lte"@ != "lt"@,
        "gt"@ != "persistentState"@ && "gt"@ != "globalState"@ && "gt"@ != "not"@ && "gt"@ != "and"@ && "gt"@ != "or"@
            && "gt"@ != "eql"@ && "gt"@ != "lt"@ && "gt"@ != "lte"@,
        "gte"@ != "persistentState"@ && "gte"@ != "globalState"@ && "gte"@ != "not"@ && "gte"@ != "and"@ && "gte"@ != "or"@
            && "gte"@ != "eql"@ && "gte"@ != "lt"@ && "gte"@ != "lte"@ && "gte"@ != "gt"@,
{
    reveal_strlit("lt");
    reveal_strlit("lte");
    reveal_strlit("gt");
    reveal_strlit("gte");
    reveal_strlit("persistentState");
    reveal_strlit("globalState");
    reveal_strlit("not");
    reveal_strlit("and");
    reveal_strlit("or");
    reveal_strlit("eql");
    assert("lt"@.len() == 2 && "lte"@.len() == 3 && "gt"@.len() == 2 && "gte"@.len() == 3);
    assert("persistentState"@.len() == 15 && "globalState"@.len() == 11 && "not"@.len() == 3 && "and"@.len() == 3);
    assert("or"@.len() == 2 && "eql"@.len() == 3);
    assert("lt"@[0] != "or"@[0]);
    assert("lte"@[0] != "not"@[0] && "lte"@[0] != "and"@[0] && "lte"@[0] != "eql"@[0]);
    assert("gt"@[0] != "or"@[0] && "gt"@[0] != "lt"@[0]);
    assert("gte"@[0] != "not"@[0] && "gte"@[0] != "and"@[0] && "gte"@[0] != "eql"@[0] && "gte"@[0] != "lte"@[0]);
}

/// Numeric comparisons read both sides as numbers and give a boolean:
/// `lt` is strict (a value is never less than itself) and holds exactly
/// when `gte` does not, `gt` exactly when `lte` does not; `lt a b` is
/// `gt b a` and `lte a b` is `gte b a`; on integer literals they compare the
/// integers.
pub proof fn law_comparisons(a: Json, b: Json, x: int, y: int, g: Map<Seq<char>, Json>, p: Map<Seq<char>, Json>)
    ensures
        eval_spec(call2("lt"@, a, a), g, p) == Json::Bool(false),
        eval_spec(call2("gt"@, a, a), g, p) == Json::Bool(false),
        eval_spec(call2("lte"@, a, a), g, p) == Json::Bool(true),
        eval_spec(call2("gte"@, a, a), g, p) == Json::Bool(true),
        eval_spec(call2("lt"@, a, b), g, p) is Bool,
        eval_spec(call2("lt"@, a, b), g, p) == Json::Bool(!(eval_spec(call2("gte"@, a, b), g, p)->Bool_0)),
        eval_spec(call2("gt"@, a, b), g, p) == Json::Bool(!(eval_spec(call2("lte"@, a, b), g, p)->Bool_0)),
        eval_spec(call2("lt"@, a, b), g, p) == eval_spec(call2("gt"@, b, a), g, p),
        eval_spec(call2("lte"@, a, b), g, p) == eval_spec(call2("gte"@, b, a), g, p),
        eval_spec(call2("lt"@, Json::Int(x), Json::Int(y)), g, p) == Json::Bool(x < y),
        eval_spec(call2("lte"@, Json::Int(x), Json::Int(y)), g, p) == Json::Bool(x <= y),
        eval_spec(call2("gt"@, Json::Int(x), Json::Int(y)), g, p) == Json::Bool(x > y),
        eval_spec(call2("gte"@, Json::Int(x), Json::Int(y)), g, p) == Json::Bool(x >= y),
{
    lemma_comparison_ops();
    let ops = seq!["lt"@, "lte"@, "gt"@, "gte"@];
    assert forall|k: int, u: Json, v: Json| 0 <= k < 4 implies (#[trigger] call2(ops[k], u, v)->Array_0).len() == 3
        && call2(ops[k], u, v)->Array_0[0] == Json::Str(ops[k]) && call2(ops[k], u, v)->Array_0[1] == u
        && call2(ops[k], u, v)->Array_0[2] == v by {
    }
    assert(call2("lt"@, a, a)->Array_0[1] == a);
    assert(call2("lt"@, a, b)->Array_0[1] == a && call2("lt"@, a, b)->Array_0[2] == b);
    assert(call2("gte"@, a, b)->Array_0[1] == a && call2("gte"@, a, b)->Array_0[2] == b);
    assert(call2("gt"@, a, b)->Array_0[1] == a && call2("gt"@, a, b)->Array_0[2] == b);
    assert(call2("lte"@, a, b)->Array_0[1] == a && call2("lte"@, a, b)->Array_0[2] == b);
    assert(call2("gt"@, b, a)->Array_0[1] == b && call2("gt"@, b, a)->Array_0[2] == a);
    assert(call2("gte"@, b, a)->Array_0[1] == b && call2("gte"@, b, a)->Array_0[2] == a);
    assert(call2("gt"@, a, a)->Array_0[1] == a && call2("lte"@, a, a)->Array_0[1] == a && call2("gte"@, a, a)->Array_0[1] == a);
    assert(call2("gt"@, a, a)->Array_0[2] == a && call2("lte"@, a, a)->Array_0[2] == a && call2("gte"@, a, a)->Array_0[2] == a);
    assert(call2("lt"@, a, a)->Array_0[2] == a);
    let ix = Json::Int(x);
    let iy = Json::Int(y);
    assert(call2("lt"@, ix, iy)->Array_0[1] == ix && call2("lt"@, ix, iy)->Array_0[2] == iy);
    assert(call2("lte"@, ix, iy)->Array_0[1] == ix && call2("lte"@, ix, iy)->Array_0[2] == iy);
    assert(call2("gt"@, ix, iy)->Array_0[1] == ix && call2("gt"@, ix, iy)->Array_0[2] == iy);
    assert(call2("gte"@, ix, iy)->Array_0[1] == ix && call2("gte"@, ix, iy)->Array_0[2] == iy);
    assert(eval_spec(ix, g, p) == ix && eval_spec(iy, g, p) == iy);
}

} // verus!
