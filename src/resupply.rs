//! The resupply stage: the plain cost, or a mutator that charges for each
//! resupply call once the starting nitra has run out.

use crate::decimal::{dec_of, fits, gap, min_exp, Decimal, from_scaled, MAX_EXPONENT_GAP};
use crate::tree::{lemma_object_view, lemma_set_get, Json, JsonV};
use crate::diagnostics::ErrorKind;
use vstd::prelude::*;

verus! {

/// The cost that applies where the source gives none.
pub const DEFAULT_RESUPPLY_COST: u64 = 80;

pub open spec fn default_cost() -> Decimal {
    dec_of(DEFAULT_RESUPPLY_COST as int, 0)
}

/// The costs of the successive resupply calls, in units of a common power of
/// ten, for a starting nitra `nitra` and a cost `cost`.
pub open spec fn supply_values(nitra: int, cost: int) -> Seq<int> {
    if nitra <= cost {
        seq![cost - nitra, cost]
    } else {
        Seq::new((nitra / cost) as nat, |i: int| 0int) + seq![cost - nitra % cost, cost]
    }
}

/// Whether the resupply vector of `nitra` and `cost` can be computed exactly.
pub open spec fn supply_fits(nitra: Decimal, cost: Decimal) -> bool {
    let e = min_exp(nitra, cost);
    let n = nitra.scaled(e);
    let c = cost.scaled(e);
    gap(nitra, cost) <= MAX_EXPONENT_GAP && (n <= c || c > 0) && forall|i: int|
        0 <= i < supply_values(n, c).len() ==> fits(#[trigger] supply_values(n, c)[i], e)
}

/// The resupply vector, each cost at the smaller of the two exponents.
pub open spec fn supply_vector(nitra: Decimal, cost: Decimal) -> Seq<Decimal> {
    let e = min_exp(nitra, cost);
    supply_values(nitra.scaled(e), cost.scaled(e)).map_values(|x: int| dec_of(x, e))
}

/// The tagged mutator object that charges `values[i]` on call `i`, and the last
/// value on every later call.
pub open spec fn mutator(values: Seq<Decimal>) -> JsonV {
    JsonV::Object(
        seq![
            ("Mutate"@, JsonV::Str("ByResuppliesCalled"@)),
            ("Values"@, JsonV::Array(values.map_values(|d: Decimal| JsonV::Number(d)))),
        ],
    )
}

/// The original cost in force: the source's `ResupplyCost`, or the default.
pub open spec fn effective_cost(original: JsonV) -> Result<Decimal, ErrorKind> {
    match original.get("ResupplyCost"@) {
        JsonV::Null => Ok(default_cost()),
        JsonV::Number(d) => if d.same_value(default_cost()) {
            Ok(default_cost())
        } else {
            Ok(d)
        },
        _ => Err(ErrorKind::NotANumber),
    }
}

/// The target's resupply cost node.
pub open spec fn resupply_cost_node(original: JsonV) -> Result<JsonV, ErrorKind> {
    match effective_cost(original) {
        Err(k) => Err(k),
        Ok(cost) => match original.get("StartingNitra"@) {
            JsonV::Null => Ok(JsonV::Number(cost)),
            JsonV::Number(n) => if n.mantissa == 0 {
                Ok(JsonV::Number(cost))
            } else if supply_fits(n, cost) {
                Ok(mutator(supply_vector(n, cost)))
            } else {
                Err(ErrorKind::NumberOutOfRange)
            },
            _ => Err(ErrorKind::NotANumber),
        },
    }
}

/// The target after the resupply stage.
pub open spec fn resupply_stage(original: JsonV, new: JsonV) -> Result<JsonV, ErrorKind> {
    match resupply_cost_node(original) {
        Ok(node) => Ok(new.set_in("Resupply"@, "Cost"@, node)),
        Err(k) => Err(k),
    }
}

/// The cost charged on each resupply call.
pub fn compute_supply_vector(starting_nitra: Decimal, original_cost: Decimal) -> (r: Result<
    Vec<Decimal>,
    ErrorKind,
>)
    ensures
        match r {
            Ok(v) => supply_fits(starting_nitra, original_cost) && v@ == supply_vector(
                starting_nitra,
                original_cost,
            ),
            Err(k) => !supply_fits(starting_nitra, original_cost) && k == ErrorKind::NumberOutOfRange,
        },
{
    let e: i16 = if starting_nitra.exponent <= original_cost.exponent {
        starting_nitra.exponent
    } else {
        original_cost.exponent
    };
    let g: i32 = if starting_nitra.exponent <= original_cost.exponent {
        original_cost.exponent as i32 - starting_nitra.exponent as i32
    } else {
        starting_nitra.exponent as i32 - original_cost.exponent as i32
    };
    if g > MAX_EXPONENT_GAP as i32 {
        return Err(ErrorKind::NumberOutOfRange);
    }
    let n = starting_nitra.scale_to(e);
    let c = original_cost.scale_to(e);
    let ghost vals = supply_values(n as int, c as int);
    if n <= c {
        let first = from_scaled(c - n, e);
        let last = from_scaled(c, e);
        match (first, last) {
            (Some(a), Some(b)) => {
                let v = vec![a, b];
                assert(v@ =~= supply_vector(starting_nitra, original_cost));
                Ok(v)
            },
            _ => {
                assert(!fits(vals[0], e as int) || !fits(vals[1], e as int));
                Err(ErrorKind::NumberOutOfRange)
            },
        }
    } else if c <= 0 {
        Err(ErrorKind::NumberOutOfRange)
    } else {
        let count = n / c;
        let rem = n % c;
        let first = from_scaled(c - rem, e);
        let last = from_scaled(c, e);
        match (first, last) {
            (Some(a), Some(b)) => {
                let mut v: Vec<Decimal> = Vec::new();
                let mut i: i128 = 0;
                while i < count
                    invariant
                        0 <= i <= count,
                        v@.len() == i,
                        forall|j: int| 0 <= j < i ==> v@[j] == dec_of(0, e as int),
                    decreases count - i,
                {
                    v.push(Decimal { positive: true, mantissa: 0, exponent: e });
                    i = i + 1;
                }
                v.push(a);
                v.push(b);
                proof {
                    assert(vals.len() == count + 2);
                    assert forall|j: int| 0 <= j < vals.len() implies fits(
                        #[trigger] vals[j],
                        e as int,
                    ) by {
                        if j < count {
                            assert(vals[j] == 0);
                        }
                    }
                    assert(v@ =~= supply_vector(starting_nitra, original_cost));
                }
                Ok(v)
            },
            _ => {
                assert(vals[count as int] == c - rem);
                assert(vals[count + 1] == c);
                Err(ErrorKind::NumberOutOfRange)
            },
        }
    }
}

fn number_node(d: Decimal) -> (r: Json)
    ensures
        r@ == JsonV::Number(d),
{
    Json::Number(d)
}

/// The mutator node holding `values`.
pub fn mutator_node(values: &Vec<Decimal>) -> (r: Json)
    ensures
        r@ == mutator(values@),
{
    let mut items: Vec<Json> = Vec::new();
    let mut i: usize = 0;
    while i < values.len()
        invariant
            i <= values@.len(),
            items@.len() == i,
            forall|j: int| 0 <= j < i ==> items@[j]@ == JsonV::Number(values@[j]),
        decreases values@.len() - i,
    {
        items.push(number_node(values[i]));
        i = i + 1;
    }
    let arr = Json::Array(items);
    assert(arr@->Array_0 =~= values@.map_values(|d: Decimal| JsonV::Number(d)));
    let entries = vec![
        ("Mutate".to_string(), Json::Str("ByResuppliesCalled".to_string())),
        ("Values".to_string(), arr),
    ];
    let r = Json::Object(entries);
    proof {
        lemma_object_view(entries);
    }
    assert(r@->Object_0 =~= mutator(values@)->Object_0);
    r
}


/// The source's number under `key`, if it holds one; `Err` where it holds
/// something else.
fn number_at(original: &Json, key: &str) -> (r: Result<Option<Decimal>, ErrorKind>)
    ensures
        r == (match original@.get(key@) {
            JsonV::Null => Ok(None),
            JsonV::Number(d) => Ok(Some(d)),
            _ => Err::<Option<Decimal>, ErrorKind>(ErrorKind::NotANumber),
        }),
{
    match original.get(key) {
        None => Ok(None),
        Some(Json::Null) => Ok(None),
        Some(Json::Number(d)) => Ok(Some(*d)),
        Some(_) => Err(ErrorKind::NotANumber),
    }
}

/// Sets the target's resupply cost: the effective original cost, or where the
/// source starts with nitra, the mutator that charges for each call.
pub fn build_resupply_module(original: &Json, new: Json) -> (r: Result<Json, ErrorKind>)
    ensures
        match r {
            Ok(t) => resupply_stage(original@, new@) == Ok::<JsonV, ErrorKind>(t@),
            Err(k) => resupply_stage(original@, new@) == Err::<JsonV, ErrorKind>(k),
        },
{
    let default = Decimal::from_u64(DEFAULT_RESUPPLY_COST);
    let cost = match number_at(original, "ResupplyCost") {
        Err(k) => return Err(k),
        Ok(None) => default,
        Ok(Some(d)) => if d.same_value_as(&default) {
            default
        } else {
            d
        },
    };
    let node = match number_at(original, "StartingNitra") {
        Err(k) => return Err(k),
        Ok(None) => number_node(cost),
        Ok(Some(n)) => if n.mantissa == 0 {
            number_node(cost)
        } else {
            match compute_supply_vector(n, cost) {
                Ok(values) => mutator_node(&values),
                Err(k) => return Err(k),
            }
        },
    };
    let mut new = new;
    new.set_in("Resupply", "Cost", node);
    Ok(new)
}

/// Where the source has no starting nitra, or zero of it, the target's
/// resupply cost is the effective original cost as a plain number.
pub proof fn lemma_no_nitra_plain_cost(original: JsonV, new: JsonV)
    requires
        original.get("StartingNitra"@) is Null || (original.get("StartingNitra"@) is Number
            && original.get("StartingNitra"@)->Number_0.mantissa == 0),
        effective_cost(original) is Ok,
    ensures
        resupply_stage(original, new) is Ok,
        resupply_stage(original, new)->Ok_0.get("Resupply"@).get("Cost"@) == JsonV::Number(
            effective_cost(original)->Ok_0,
        ),
{
    let node = JsonV::Number(effective_cost(original)->Ok_0);
    let inner = new.get("Resupply"@).set("Cost"@, node);
    lemma_set_get(new.get("Resupply"@), "Cost"@, node);
    lemma_set_get(new, "Resupply"@, inner);
}

} // verus!
