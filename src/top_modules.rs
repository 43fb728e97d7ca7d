//! The top-module stage: each top-level field of the source is relocated
//! under its target module, reported, or dropped, as the field table says.

use crate::diagnostics::{diag, views, Diagnostic, DiagnosticKind, DiagnosticV};
use crate::tables::{lookup, FieldStatus, FieldStatusV, Tables, TablesV};
use crate::tree::{
    entries_view, lemma_object_view, lemma_remove_absent, lemma_set_get, lemma_set_other, without_key,
    Json, JsonV,
};
use vstd::prelude::*;

verus! {

/// A weighted bin `{weight, range: {min, max}}` made flat: `{weight, min, max}`.
pub open spec fn flatten_bin(e: JsonV) -> JsonV {
    JsonV::Object(
        seq![
            ("weight"@, e.get("weight"@)),
            ("min"@, e.get("range"@).get("min"@)),
            ("max"@, e.get("range"@).get("max"@)),
        ],
    )
}

/// An array whose first element has a weight is read as weighted bins and
/// flattened; any other value is kept.
pub open spec fn update_if_range_array(v: JsonV) -> JsonV {
    match v {
        JsonV::Array(items) => if items.len() > 0 && !items[0].get("weight"@).is_null() {
            JsonV::Array(items.map_values(|e: JsonV| flatten_bin(e)))
        } else {
            v
        },
        _ => v,
    }
}

/// One top-level field applied to the target.
pub open spec fn top_step(new: JsonV, key: Seq<char>, value: JsonV, tables: TablesV) -> JsonV {
    match lookup(tables.top_modules, key) {
        Some(FieldStatusV::Valid(m)) => new.set_in(m, key, update_if_range_array(value)),
        _ => new,
    }
}

/// The source's top-level fields applied in order.
pub open spec fn relocate(es: Seq<(Seq<char>, JsonV)>, new: JsonV, tables: TablesV) -> JsonV
    decreases es.len(),
{
    if es.len() == 0 {
        new
    } else {
        top_step(relocate(es.drop_last(), new, tables), es.last().0, es.last().1, tables)
    }
}

/// The diagnostics for the source's top-level fields, in order.
pub open spec fn top_diags(es: Seq<(Seq<char>, JsonV)>, tables: TablesV) -> Seq<DiagnosticV>
    decreases es.len(),
{
    if es.len() == 0 {
        Seq::empty()
    } else {
        let rest = top_diags(es.drop_last(), tables);
        let key = es.last().0;
        match lookup(tables.top_modules, key) {
            None => rest.push(diag(DiagnosticKind::UnsupportedField, key, Seq::empty())),
            Some(FieldStatusV::Deprecated) => rest.push(
                diag(DiagnosticKind::DeprecatedField, key, Seq::empty()),
            ),
            _ => rest,
        }
    }
}

pub open spec fn entries_of(v: JsonV) -> Seq<(Seq<char>, JsonV)> {
    match v {
        JsonV::Object(es) => es,
        _ => Seq::empty(),
    }
}

/// `Pools.StationaryEnemies` renamed to `Pools.StationaryPool`, where it is.
pub open spec fn rename_stationary(new: JsonV) -> JsonV {
    let pools = new.get("Pools"@);
    if pools.has_key("StationaryEnemies"@) {
        let v = pools.get("StationaryEnemies"@);
        let rest = pools.remove("StationaryEnemies"@);
        new.set(
            "Pools"@,
            if v.is_null() {
                rest
            } else {
                rest.set("StationaryPool"@, v)
            },
        )
    } else {
        new
    }
}

/// The target after the top-module stage.
pub open spec fn top_stage(original: JsonV, new: JsonV, tables: TablesV) -> JsonV {
    rename_stationary(
        relocate(entries_of(original), new, tables).set_in(
            "DifficultySetting"@,
            "BaseHazard"@,
            JsonV::Str("Hazard 5"@),
        ),
    )
}

/// The value under `k`, or `Null`.
pub fn get_or_null(j: &Json, k: &str) -> (r: Json)
    ensures
        r@ == j@.get(k@),
{
    match j.get(k) {
        Some(v) => v.deep_clone(),
        None => Json::Null,
    }
}

fn flatten_bin_node(e: &Json) -> (r: Json)
    ensures
        r@ == flatten_bin(e@),
{
    let range = get_or_null(e, "range");
    let entries = vec![
        ("weight".to_string(), get_or_null(e, "weight")),
        ("min".to_string(), get_or_null(&range, "min")),
        ("max".to_string(), get_or_null(&range, "max")),
    ];
    let r = Json::Object(entries);
    proof {
        lemma_object_view(entries);
    }
    assert(r@->Object_0 =~= flatten_bin(e@)->Object_0);
    r
}

/// Flattens an array of weighted bins; copies any other value.
pub fn update_if_range_array_node(v: &Json) -> (r: Json)
    ensures
        r@ == update_if_range_array(v@),
{
    match v {
        Json::Array(items) => {
            if items.len() > 0 && items[0].holds("weight") {
                let mut out: Vec<Json> = Vec::new();
                let mut i: usize = 0;
                while i < items.len()
                    invariant
                        i <= items@.len(),
                        *v == Json::Array(*items),
                        out@.len() == i,
                        forall|j: int| 0 <= j < i ==> out@[j]@ == flatten_bin(items@[j]@),
                    decreases items@.len() - i,
                {
                    out.push(flatten_bin_node(&items[i]));
                    i = i + 1;
                }
                let r = Json::Array(out);
                assert(r@->Array_0 =~= v@->Array_0.map_values(|e: JsonV| flatten_bin(e)));
                r
            } else {
                v.deep_clone()
            }
        },
        _ => v.deep_clone(),
    }
}

/// Renames `Pools.StationaryEnemies` to `Pools.StationaryPool`.
pub fn rename_stationary_node(new: Json) -> (r: Json)
    ensures
        r@ == rename_stationary(new@),
{
    let mut new = new;
    let mut pools = get_or_null(&new, "Pools");
    if pools.has_key("StationaryEnemies") {
        let v = pools.remove("StationaryEnemies");
        if !matches!(v, Json::Null) {
            pools.set("StationaryPool", v);
        }
        new.set("Pools", pools);
    }
    new
}

/// Relocates each top-level field of the source under its target module,
/// then sets the base hazard and renames the stationary pool.
pub fn build_top_modules(
    original: &Json,
    new: Json,
    tables: &Tables,
    diags: &mut Vec<Diagnostic>,
) -> (r: Json)
    ensures
        r@ == top_stage(original@, new@, tables@),
        views(final(diags)@) == views(old(diags)@)
            + top_diags(entries_of(original@), tables@),
{
    let ghost new0 = new@;
    let ghost d0 = views(old(diags)@);
    let mut new = new;
    match original {
        Json::Object(entries) => {
            let ghost es = entries_view(entries@);
            proof {
                lemma_object_view(*entries);
                assert(es.take(0) =~= Seq::<(Seq<char>, JsonV)>::empty());
                assert(d0 + Seq::empty() =~= d0);
            }
            let mut i: usize = 0;
            while i < entries.len()
                invariant
                    i <= entries@.len(),
                    es == entries_view(entries@),
                    original@ == JsonV::Object(es),
                    new@ == relocate(es.take(i as int), new0, tables@),
                    views(diags@) == d0 + top_diags(es.take(i as int), tables@),
                decreases entries@.len() - i,
            {
                let key = entries[i].0.as_str();
                proof {
                    assert(es.take(i + 1).drop_last() =~= es.take(i as int));
                }
                let ghost dprev = diags@;

                match tables.field_status(key) {
                    Some(FieldStatus::Valid(module)) => {
                        let value = update_if_range_array_node(&entries[i].1);
                        new.set_in(module.as_str(), key, value);
                    },
                    Some(FieldStatus::Deprecated) => {
                        diags.push(Diagnostic::about(DiagnosticKind::DeprecatedField, key));
                        proof {
                            assert(views(diags@) =~= views(dprev).push(diag(DiagnosticKind::DeprecatedField, key@, Seq::empty())));
                        }
                    },
                    Some(FieldStatus::Ignored) => {},
                    None => {
                        diags.push(Diagnostic::about(DiagnosticKind::UnsupportedField, key));
                        proof {
                            assert(views(diags@) =~= views(dprev).push(diag(DiagnosticKind::UnsupportedField, key@, Seq::empty())));
                        }
                    },
                }
                i = i + 1;
            }
            proof {
                assert(es.take(i as int) =~= es);
            }
        },
        _ => {
            assert(d0 + Seq::empty() =~= d0);
        },
    }
    new.set_in("DifficultySetting", "BaseHazard", Json::Str("Hazard 5".to_string()));
    rename_stationary_node(new)
}

proof fn lemma_relocate_without(es: Seq<(Seq<char>, JsonV)>, new: JsonV, tables: TablesV, k: Seq<char>)
    requires
        lookup(tables.top_modules, k) is None,
    ensures
        relocate(es, new, tables) == relocate(without_key(es, k), new, tables),
    decreases es.len(),
{
    if es.len() > 0 {
        lemma_relocate_without(es.drop_last(), new, tables, k);
        let rest = without_key(es.drop_last(), k);
        if es.last().0 != k {
            assert(rest.push(es.last()).drop_last() =~= rest);
        }
    }
}

proof fn lemma_diag_reported(es: Seq<(Seq<char>, JsonV)>, tables: TablesV, k: Seq<char>, j: int)
    requires
        lookup(tables.top_modules, k) is None,
        0 <= j < es.len(),
        es[j].0 == k,
    ensures
        top_diags(es, tables).contains(diag(DiagnosticKind::UnsupportedField, k, Seq::empty())),
    decreases es.len(),
{
    let d = diag(DiagnosticKind::UnsupportedField, k, Seq::empty());
    let rest = top_diags(es.drop_last(), tables);
    if j == es.len() - 1 {
        assert(top_diags(es, tables) == rest.push(d));
        assert(rest.push(d)[rest.len() as int] == d);
    } else {
        lemma_diag_reported(es.drop_last(), tables, k, j);
        let i = choose|i: int| 0 <= i < rest.len() && rest[i] == d;
        let key = es.last().0;
        match lookup(tables.top_modules, key) {
            None => {
                assert(rest.push(diag(DiagnosticKind::UnsupportedField, key, Seq::empty()))[i] == d);
            },
            Some(FieldStatusV::Deprecated) => {
                assert(rest.push(diag(DiagnosticKind::DeprecatedField, key, Seq::empty()))[i] == d);
            },
            _ => {},
        }
    }
}

/// A top-level field that the field table does not know is reported as
/// unsupported and contributes nothing: the stage gives the same target as on
/// the source without that field.
pub proof fn lemma_unknown_field_dropped(
    original: JsonV,
    new: JsonV,
    tables: TablesV,
    k: Seq<char>,
)
    requires
        original is Object,
        lookup(tables.top_modules, k) is None,
    ensures
        top_stage(original, new, tables) == top_stage(original.remove(k), new, tables),
        original.has_key(k) ==> top_diags(entries_of(original), tables).contains(
            diag(DiagnosticKind::UnsupportedField, k, Seq::empty()),
        ),
{
    lemma_relocate_without(original->Object_0, new, tables, k);
    if original.has_key(k) {
        let es = original->Object_0;
        let j = choose|j: int| crate::tree::first_key_at(es, k, j);
        lemma_diag_reported(es, tables, k, j);
    }
}

/// Where the pools hold `StationaryEnemies`, the renaming leaves no key of
/// that name and puts a non-null value under `StationaryPool`; where they do
/// not, the target is left as it is.
pub proof fn lemma_stationary_renamed(new: JsonV)
    ensures
        new.get("Pools"@).has_key("StationaryEnemies"@) ==> !rename_stationary(new).get(
            "Pools"@,
        ).has_key("StationaryEnemies"@),
        new.get("Pools"@).has_key("StationaryEnemies"@) && !new.get("Pools"@).get(
            "StationaryEnemies"@,
        ).is_null() ==> rename_stationary(new).get("Pools"@).get("StationaryPool"@) == new.get(
            "Pools"@,
        ).get("StationaryEnemies"@),
        !new.get("Pools"@).has_key("StationaryEnemies"@) ==> rename_stationary(new) == new,
{
    let pools = new.get("Pools"@);
    if pools.has_key("StationaryEnemies"@) {
        let v = pools.get("StationaryEnemies"@);
        let rest = pools.remove("StationaryEnemies"@);
        lemma_remove_absent(pools, "StationaryEnemies"@);
        let p2 = if v.is_null() {
            rest
        } else {
            rest.set("StationaryPool"@, v)
        };
        lemma_set_get(new, "Pools"@, p2);
        if !v.is_null() {
            proof_strings_differ();
            lemma_set_other(rest, "StationaryEnemies"@, "StationaryPool"@, v);
            lemma_set_get(rest, "StationaryPool"@, v);
        }
    }
}

/// In the top-module stage, a `StationaryEnemies` pool that relocation put
/// under `Pools` leaves the target as `StationaryPool` (where it is not null)
/// and under no other name; where relocation put none there, the pools are
/// left as relocation made them.
pub proof fn lemma_stage_stationary(original: JsonV, new: JsonV, tables: TablesV)
    ensures
        ({
            let pools = relocate(entries_of(original), new, tables).get("Pools"@);
            let out = top_stage(original, new, tables).get("Pools"@);
            &&& pools.has_key("StationaryEnemies"@) ==> !out.has_key("StationaryEnemies"@)
            &&& pools.has_key("StationaryEnemies"@) && !pools.get("StationaryEnemies"@).is_null()
                ==> out.get("StationaryPool"@) == pools.get("StationaryEnemies"@)
            &&& !pools.has_key("StationaryEnemies"@) ==> out == pools
        }),
{
    let r = relocate(entries_of(original), new, tables);
    let inner = r.get("DifficultySetting"@).set("BaseHazard"@, JsonV::Str("Hazard 5"@));
    let h = r.set("DifficultySetting"@, inner);
    reveal_strlit("Pools");
    reveal_strlit("DifficultySetting");
    assert("Pools"@.len() != "DifficultySetting"@.len());
    if r is Object {
        lemma_set_other(r, "Pools"@, "DifficultySetting"@, inner);
    } else {
        lemma_set_get(r, "DifficultySetting"@, inner);
        assert(!h.has_key("Pools"@)) by {
            assert(h->Object_0 == seq![("DifficultySetting"@, inner)]);
            assert(forall|j: int| !crate::tree::first_key_at(h->Object_0, "Pools"@, j));
        }
    }
    assert(h.get("Pools"@) == r.get("Pools"@));
    lemma_stationary_renamed(h);
}

proof fn proof_strings_differ()
    ensures
        "StationaryEnemies"@ != "StationaryPool"@,
{
    reveal_strlit("StationaryEnemies");
    reveal_strlit("StationaryPool");
    assert("StationaryEnemies"@.len() != "StationaryPool"@.len());
}

} // verus!
