//! The enemy descriptor stage: each enemy is copied, its legacy pawn stats
//! translated, its invalid controls dropped, and a modded elite rebased.

use crate::decimal::{dec_of, Decimal};
use crate::diagnostics::{diag, views, Diagnostic, DiagnosticKind, DiagnosticV, ErrorKind};
use crate::tables::{lookup, PawnTarget, Tables, TablesV};
use crate::top_modules::entries_of;
use crate::tree::{
    entries_view, first_index, has_entry, lemma_object_view, lemma_push_lookup, lemma_set_get, str_eq,
    Json, JsonV,
};
use vstd::prelude::*;

verus! {

pub open spec fn one() -> Decimal {
    dec_of(1, 0)
}

/// Whether a stat bound for `module` is a legacy reduction that becomes a
/// resistance fraction; the damage resistance stat is the one exception.
pub open spec fn is_inverted(module: Seq<char>, stat: Seq<char>) -> bool {
    module == "Resistances"@ && stat != "PST_DamageResistance"@
}

/// The target value of a pawn stat: `1 - value` where it is inverted.
pub open spec fn pawn_value(module: Seq<char>, stat: Seq<char>, value: JsonV) -> Result<
    JsonV,
    ErrorKind,
> {
    if !is_inverted(module, stat) {
        Ok(value)
    } else {
        match value {
            JsonV::Number(d) => if one().sub_fits(d) {
                Ok(JsonV::Number(one().sub_spec(d)))
            } else {
                Err(ErrorKind::NumberOutOfRange)
            },
            _ => Err(ErrorKind::NotANumber),
        }
    }
}

/// One pawn stat applied to an enemy's controls.
pub open spec fn pawn_step(controls: JsonV, stat: Seq<char>, value: JsonV, tables: TablesV) -> Result<
    JsonV,
    ErrorKind,
> {
    match lookup(tables.pawn_stats, stat) {
        None => Ok(controls),
        Some(target) => match pawn_value(target.0, stat, value) {
            Err(k) => Err(k),
            Ok(v) => Ok(
                if target.0 == "None"@ {
                    controls.set(target.1, v)
                } else {
                    controls.set_in(target.0, target.1, v)
                },
            ),
        },
    }
}

/// The pawn stats applied in order; the first failing one decides the error.
pub open spec fn pawn_fold(es: Seq<(Seq<char>, JsonV)>, controls: JsonV, tables: TablesV) -> Result<
    JsonV,
    ErrorKind,
>
    decreases es.len(),
{
    if es.len() == 0 {
        Ok(controls)
    } else {
        match pawn_fold(es.drop_last(), controls, tables) {
            Err(k) => Err(k),
            Ok(c) => pawn_step(c, es.last().0, es.last().1, tables),
        }
    }
}

/// The findings on an enemy's pawn stats: each one the table does not know.
pub open spec fn pawn_diags(es: Seq<(Seq<char>, JsonV)>, tables: TablesV, enemy: Seq<char>) -> Seq<
    DiagnosticV,
>
    decreases es.len(),
{
    if es.len() == 0 {
        Seq::empty()
    } else {
        let rest = pawn_diags(es.drop_last(), tables, enemy);
        if lookup(tables.pawn_stats, es.last().0) is None {
            rest.push(diag(DiagnosticKind::UnsupportedPawnStat, es.last().0, enemy))
        } else {
            rest
        }
    }
}

proof fn lemma_pawn_fold_err(es: Seq<(Seq<char>, JsonV)>, controls: JsonV, tables: TablesV, j: int)
    requires
        0 <= j <= es.len(),
        pawn_fold(es.take(j), controls, tables) is Err,
    ensures
        pawn_fold(es, controls, tables) == pawn_fold(es.take(j), controls, tables),
    decreases es.len() - j,
{
    if j < es.len() {
        assert(es.take(j + 1).drop_last() =~= es.take(j));
        lemma_pawn_fold_err(es, controls, tables, j + 1);
    } else {
        assert(es.take(j) =~= es);
    }
}

/// Translates the legacy pawn stats `pawn_stats` of `enemy` onto its controls.
pub fn translate_pawn_stats(
    controls: &mut Json,
    pawn_stats: &Json,
    tables: &Tables,
    enemy: &str,
    diags: &mut Vec<Diagnostic>,
) -> (r: Result<(), ErrorKind>)
    ensures
        match r {
            Ok(_) => pawn_fold(entries_of(pawn_stats@), old(controls)@, tables@) == Ok::<
                JsonV,
                ErrorKind,
            >(final(controls)@),
            Err(k) => pawn_fold(entries_of(pawn_stats@), old(controls)@, tables@) == Err::<
                JsonV,
                ErrorKind,
            >(k),
        },
        r is Ok ==> views(final(diags)@) == views(old(diags)@) + pawn_diags(
            entries_of(pawn_stats@),
            tables@,
            enemy@,
        ),
{
    let ghost d0 = views(diags@);
    match pawn_stats {
        Json::Object(entries) => {
            let ghost es = entries_view(entries@);
            let ghost c0 = controls@;
            proof {
                lemma_object_view(*entries);
                assert(es.take(0) =~= Seq::<(Seq<char>, JsonV)>::empty());
                assert(d0 + Seq::<DiagnosticV>::empty() =~= d0);
            }
            let mut i: usize = 0;
            while i < entries.len()
                invariant
                    i <= entries@.len(),
                    es == entries_view(entries@),
                    pawn_stats@ == JsonV::Object(es),
                    c0 == old(controls)@,
                    pawn_fold(es.take(i as int), c0, tables@) == Ok::<JsonV, ErrorKind>(
                        controls@,
                    ),
                    views(diags@) == d0 + pawn_diags(es.take(i as int), tables@, enemy@),
                decreases entries@.len() - i,
            {
                let stat = entries[i].0.as_str();
                let value = &entries[i].1;
                proof {
                    assert(es.take(i + 1).drop_last() =~= es.take(i as int));
                }
                match tables.pawn_target(stat) {
                    Some(target) => {
                        let module = target.module.as_str();
                        let field = target.field.as_str();
                        let inverted = str_eq(module, "Resistances") && !str_eq(
                            stat,
                            "PST_DamageResistance",
                        );
                        let new_value = if !inverted {
                            value.deep_clone()
                        } else {
                            match value {
                                Json::Number(d) => match Decimal::from_u64(1).checked_sub(d) {
                                    Some(x) => Json::Number(x),
                                    None => {
                                        proof {
                                            lemma_pawn_fold_err(es, c0, tables@, i + 1);
                                        }
                                        return Err(ErrorKind::NumberOutOfRange);
                                    },
                                },
                                _ => {
                                    proof {
                                        lemma_pawn_fold_err(es, c0, tables@, i + 1);
                                    }
                                    return Err(ErrorKind::NotANumber);
                                },
                            }
                        };
                        if str_eq(module, "None") {
                            controls.set(field, new_value);
                        } else {
                            controls.set_in(module, field, new_value);
                        }
                    },
                    None => {
                        let ghost before = diags@;
                        diags.push(Diagnostic::new(DiagnosticKind::UnsupportedPawnStat, stat, enemy));
                        proof {
                            assert(views(diags@) =~= views(before).push(
                                diag(DiagnosticKind::UnsupportedPawnStat, stat@, enemy@),
                            ));
                        }
                    },
                }
                i = i + 1;
            }
            proof {
                assert(es.take(i as int) =~= es);
            }
            Ok(())
        },
        _ => {
            assert(d0 + Seq::<DiagnosticV>::empty() =~= d0);
            Ok(())
        },
    }
}

/// The controls with every key of the source entry `es` dropped that is not a
/// valid enemy control (the pawn stats aside, which are already consumed).
pub open spec fn remove_invalid(es: Seq<(Seq<char>, JsonV)>, controls: JsonV, tables: TablesV) -> JsonV
    decreases es.len(),
{
    if es.len() == 0 {
        controls
    } else {
        let c = remove_invalid(es.drop_last(), controls, tables);
        let k = es.last().0;
        if !tables.valid_controls.contains(k) && k != "PawnStats"@ {
            c.remove(k)
        } else {
            c
        }
    }
}

/// The findings on an enemy's controls: each key of the source entry that is
/// not a valid control.
pub open spec fn invalid_diags(es: Seq<(Seq<char>, JsonV)>, tables: TablesV, enemy: Seq<char>) -> Seq<
    DiagnosticV,
>
    decreases es.len(),
{
    if es.len() == 0 {
        Seq::empty()
    } else {
        let rest = invalid_diags(es.drop_last(), tables, enemy);
        let k = es.last().0;
        if !tables.valid_controls.contains(k) && k != "PawnStats"@ {
            rest.push(diag(DiagnosticKind::InvalidEnemyControl, k, enemy))
        } else {
            rest
        }
    }
}

/// The declared base of an enemy as text: the string, or nothing where the
/// base is no string.
pub open spec fn base_text(base: JsonV) -> Seq<char> {
    match base {
        JsonV::Str(s) => s,
        _ => Seq::empty(),
    }
}

/// Whether an enemy's `Base` names a vanilla elite.
pub open spec fn base_is_elite(base: JsonV, tables: TablesV) -> bool {
    match base {
        JsonV::Str(s) => tables.elite_allowlist.contains(s),
        _ => false,
    }
}

/// Whether the enemy `id` is an elite whose base is not a vanilla elite while
/// it is one itself.
pub open spec fn needs_rebase(id: Seq<char>, controls: JsonV, tables: TablesV) -> bool {
    controls.has_key("Elite"@) && controls.get("Elite"@) == JsonV::Bool(true) && !base_is_elite(
        controls.get("Base"@),
        tables,
    ) && tables.elite_allowlist.contains(id)
}

/// The controls, rebased on the enemy itself where they need it.
pub open spec fn elite_rebase(id: Seq<char>, controls: JsonV, tables: TablesV) -> JsonV {
    if needs_rebase(id, controls, tables) {
        controls.set("ForceEliteBase"@, JsonV::Str(id))
    } else {
        controls
    }
}

/// The translated descriptor of the enemy `id`.
pub open spec fn fix_enemy(id: Seq<char>, entry: JsonV, tables: TablesV) -> Result<JsonV, ErrorKind> {
    let translated = if !entry.get("PawnStats"@).is_null() {
        pawn_fold(entries_of(entry.get("PawnStats"@)), entry.remove("PawnStats"@), tables)
    } else {
        Ok(entry)
    };
    match translated {
        Err(k) => Err(k),
        Ok(c) => Ok(elite_rebase(id, remove_invalid(entries_of(entry), c, tables), tables)),
    }
}

/// The findings on the enemy `id`, where its translation succeeds.
pub open spec fn enemy_diags(id: Seq<char>, entry: JsonV, tables: TablesV) -> Seq<DiagnosticV> {
    let stats = entry.get("PawnStats"@);
    let translated = if !stats.is_null() {
        pawn_fold(entries_of(stats), entry.remove("PawnStats"@), tables)
    } else {
        Ok(entry)
    };
    let c = remove_invalid(entries_of(entry), translated->Ok_0, tables);
    (if !stats.is_null() {
        pawn_diags(entries_of(stats), tables, id)
    } else {
        Seq::empty()
    }) + invalid_diags(entries_of(entry), tables, id) + (if needs_rebase(id, c, tables) {
        seq![diag(DiagnosticKind::NonVanillaEliteBase, id, base_text(c.get("Base"@)))]
    } else {
        Seq::empty()
    })
}

/// The findings on every descriptor, in order.
pub open spec fn all_enemy_diags(es: Seq<(Seq<char>, JsonV)>, tables: TablesV) -> Seq<DiagnosticV>
    decreases es.len(),
{
    if es.len() == 0 {
        Seq::empty()
    } else {
        all_enemy_diags(es.drop_last(), tables) + enemy_diags(es.last().0, es.last().1, tables)
    }
}

/// The findings of the enemy descriptor stage.
pub open spec fn enemies_diags(original: JsonV, tables: TablesV) -> Seq<DiagnosticV> {
    match original.get("EnemyDescriptors"@) {
        JsonV::Object(es) => all_enemy_diags(es, tables),
        _ => Seq::empty(),
    }
}

/// Every descriptor translated, in order; the first failing one decides the
/// error.
pub open spec fn fix_all(es: Seq<(Seq<char>, JsonV)>, tables: TablesV) -> Result<
    Seq<(Seq<char>, JsonV)>,
    ErrorKind,
>
    decreases es.len(),
{
    if es.len() == 0 {
        Ok(Seq::empty())
    } else {
        match fix_all(es.drop_last(), tables) {
            Err(k) => Err(k),
            Ok(r) => match fix_enemy(es.last().0, es.last().1, tables) {
                Err(k) => Err(k),
                Ok(x) => Ok(r.push((es.last().0, x))),
            },
        }
    }
}

proof fn lemma_fix_all_err(es: Seq<(Seq<char>, JsonV)>, tables: TablesV, j: int)
    requires
        0 <= j <= es.len(),
        fix_all(es.take(j), tables) is Err,
    ensures
        fix_all(es, tables) == fix_all(es.take(j), tables),
    decreases es.len() - j,
{
    if j < es.len() {
        assert(es.take(j + 1).drop_last() =~= es.take(j));
        lemma_fix_all_err(es, tables, j + 1);
    } else {
        assert(es.take(j) =~= es);
    }
}

/// The target after the enemy descriptor stage.
pub open spec fn enemies_stage(original: JsonV, new: JsonV, tables: TablesV) -> Result<
    JsonV,
    ErrorKind,
> {
    let d = original.get("EnemyDescriptors"@);
    if d.is_null() {
        Ok(new)
    } else {
        match d {
            JsonV::Object(es) => match fix_all(es, tables) {
                Ok(fixed) => Ok(new.set("EnemiesNoSync"@, JsonV::Object(fixed))),
                Err(k) => Err(k),
            },
            _ => Ok(new.set("EnemiesNoSync"@, d)),
        }
    }
}

/// Drops from `controls` each key of the source entry that is not a valid
/// enemy control.
fn remove_invalid_controls(
    controls: &mut Json,
    entry: &Json,
    tables: &Tables,
    enemy: &str,
    diags: &mut Vec<Diagnostic>,
)
    ensures
        final(controls)@ == remove_invalid(entries_of(entry@), old(controls)@, tables@),
        views(final(diags)@) == views(old(diags)@) + invalid_diags(entries_of(entry@), tables@, enemy@),
{
    let ghost d0 = views(diags@);
    match entry {
        Json::Object(entries) => {
            let ghost es = entries_view(entries@);
            let ghost c0 = controls@;
            proof {
                lemma_object_view(*entries);
                assert(es.take(0) =~= Seq::<(Seq<char>, JsonV)>::empty());
                assert(d0 + Seq::<DiagnosticV>::empty() =~= d0);
            }
            let mut i: usize = 0;
            while i < entries.len()
                invariant
                    i <= entries@.len(),
                    es == entries_view(entries@),
                    entry@ == JsonV::Object(es),
                    c0 == old(controls)@,
                    controls@ == remove_invalid(es.take(i as int), c0, tables@),
                    views(diags@) == d0 + invalid_diags(es.take(i as int), tables@, enemy@),
                decreases entries@.len() - i,
            {
                let key = entries[i].0.as_str();
                proof {
                    assert(es.take(i + 1).drop_last() =~= es.take(i as int));
                }
                if !tables.is_valid_control(key) && !str_eq(key, "PawnStats") {
                    let ghost before = diags@;
                    diags.push(Diagnostic::new(DiagnosticKind::InvalidEnemyControl, key, enemy));
                    proof {
                        assert(views(diags@) =~= views(before).push(
                            diag(DiagnosticKind::InvalidEnemyControl, key@, enemy@),
                        ));
                    }
                    controls.remove(key);
                }
                i = i + 1;
            }
            proof {
                assert(es.take(i as int) =~= es);
            }
        },
        _ => {
            assert(d0 + Seq::<DiagnosticV>::empty() =~= d0);
        },
    }
}

/// Translates the descriptor of the enemy `enemy`.
pub fn fix_enemy_entry(
    enemy: &str,
    entry: &Json,
    tables: &Tables,
    diags: &mut Vec<Diagnostic>,
) -> (r: Result<Json, ErrorKind>)
    ensures
        match r {
            Ok(t) => fix_enemy(enemy@, entry@, tables@) == Ok::<JsonV, ErrorKind>(t@),
            Err(k) => fix_enemy(enemy@, entry@, tables@) == Err::<JsonV, ErrorKind>(k),
        },
        r is Ok ==> views(final(diags)@) == views(old(diags)@) + enemy_diags(enemy@, entry@, tables@),
{
    let ghost d0 = views(diags@);
    let mut controls = entry.deep_clone();
    let ghost d1 = d0;
    if entry.holds("PawnStats") {
        let pawn_stats = controls.remove("PawnStats");
        match translate_pawn_stats(&mut controls, &pawn_stats, tables, enemy, diags) {
            Ok(_) => {},
            Err(k) => return Err(k),
        }
        proof {
            d1 = d0 + pawn_diags(entries_of(entry@.get("PawnStats"@)), tables@, enemy@);
        }
    } else {
        assert(d0 + Seq::<DiagnosticV>::empty() =~= d0);
    }
    assert(views(diags@) == d1);
    remove_invalid_controls(&mut controls, entry, tables, enemy, diags);
    let ghost d2 = views(diags@);
    let ghost old_controls_view = controls@;
    let elite = match controls.get("Elite") {
        Some(Json::Bool(b)) => *b,
        _ => false,
    };
    let (base_elite, base) = match controls.get("Base") {
        Some(Json::Str(b)) => (tables.is_vanilla_elite(b.as_str()), b.clone()),
        _ => (false, String::new()),
    };
    assert(base@ == base_text(controls@.get("Base"@)));
    if elite && !base_elite && tables.is_vanilla_elite(enemy) {
        let ghost before = diags@;
        diags.push(Diagnostic::new(DiagnosticKind::NonVanillaEliteBase, enemy, base.as_str()));
        proof {
            assert(views(diags@) =~= views(before).push(
                diag(DiagnosticKind::NonVanillaEliteBase, enemy@, base@),
            ));
        }
        controls.set("ForceEliteBase", Json::Str(enemy.to_string()));
    } else {
        assert(d2 + Seq::<DiagnosticV>::empty() =~= d2);
    }
    proof {
        let p = if !entry@.get("PawnStats"@).is_null() {
            pawn_diags(entries_of(entry@.get("PawnStats"@)), tables@, enemy@)
        } else {
            Seq::empty()
        };
        assert(d1 =~= d0 + p);
        let q = invalid_diags(entries_of(entry@), tables@, enemy@);
        let last = if needs_rebase(enemy@, old_controls_view, tables@) {
            seq![
                diag(
                    DiagnosticKind::NonVanillaEliteBase,
                    enemy@,
                    base_text(old_controls_view.get("Base"@)),
                ),
            ]
        } else {
            Seq::empty()
        };
        assert(views(diags@) =~= d0 + (p + q + last));
    }
    Ok(controls)
}

/// Copies the source's enemy descriptors to the target, each translated.
pub fn build_enemies_module(
    original: &Json,
    new: Json,
    tables: &Tables,
    diags: &mut Vec<Diagnostic>,
) -> (r: Result<Json, ErrorKind>)
    ensures
        match r {
            Ok(t) => enemies_stage(original@, new@, tables@) == Ok::<JsonV, ErrorKind>(t@),
            Err(k) => enemies_stage(original@, new@, tables@) == Err::<JsonV, ErrorKind>(k),
        },
        r is Ok ==> views(final(diags)@) == views(old(diags)@) + enemies_diags(original@, tables@),
{
    let ghost d0 = views(diags@);
    proof {
        assert(d0 + Seq::<DiagnosticV>::empty() =~= d0);
    }
    let mut new = new;
    match original.get("EnemyDescriptors") {
        None => Ok(new),
        Some(Json::Null) => Ok(new),
        Some(Json::Object(entries)) => {
            let ghost es = entries_view(entries@);
            proof {
                lemma_object_view(*entries);
                assert(es.take(0) =~= Seq::<(Seq<char>, JsonV)>::empty());
                assert(entries_view(Seq::<(String, Json)>::empty()) =~= Seq::<
                    (Seq<char>, JsonV),
                >::empty());
            }
            let mut out: Vec<(String, Json)> = Vec::new();
            let mut i: usize = 0;
            while i < entries.len()
                invariant
                    i <= entries@.len(),
                    es == entries_view(entries@),
                    original@.get("EnemyDescriptors"@) == JsonV::Object(es),
                    views(diags@) == d0 + all_enemy_diags(es.take(i as int), tables@),
                    fix_all(es.take(i as int), tables@) == Ok::<
                        Seq<(Seq<char>, JsonV)>,
                        ErrorKind,
                    >(entries_view(out@)),
                decreases entries@.len() - i,
            {
                proof {
                    assert(es.take(i + 1).drop_last() =~= es.take(i as int));
                }
                let ghost dprev = views(diags@);
                let enemy = entries[i].0.as_str();
                match fix_enemy_entry(enemy, &entries[i].1, tables, diags) {
                    Ok(fixed) => {
                        let ghost before = out@;
                        let ghost fv = fixed@;
                        out.push((enemy.to_string(), fixed));
                        proof {
                            assert(entries_view(out@) =~= entries_view(before).push((enemy@, fv)));
                            assert(views(diags@) =~= d0 + all_enemy_diags(es.take(i + 1), tables@));
                        }
                    },
                    Err(k) => {
                        proof {
                            lemma_fix_all_err(es, tables@, i + 1);
                        }
                        return Err(k);
                    },
                }
                i = i + 1;
            }
            proof {
                assert(es.take(i as int) =~= es);
                lemma_object_view(out);
            }
            new.set("EnemiesNoSync", Json::Object(out));
            Ok(new)
        },
        Some(other) => {
            let copy = other.deep_clone();
            new.set("EnemiesNoSync", copy);
            Ok(new)
        },
    }
}

/// The controls of an enemy once its pawn stats are translated and its
/// invalid controls dropped, before any rebasing.
pub open spec fn filtered_controls(entry: JsonV, tables: TablesV) -> Result<JsonV, ErrorKind> {
    let translated = if !entry.get("PawnStats"@).is_null() {
        pawn_fold(entries_of(entry.get("PawnStats"@)), entry.remove("PawnStats"@), tables)
    } else {
        Ok(entry)
    };
    match translated {
        Err(k) => Err(k),
        Ok(c) => Ok(remove_invalid(entries_of(entry), c, tables)),
    }
}

proof fn lemma_fix_all_get(es: Seq<(Seq<char>, JsonV)>, tables: TablesV, k: Seq<char>)
    requires
        fix_all(es, tables) is Ok,
    ensures
        has_entry(fix_all(es, tables)->Ok_0, k) == has_entry(es, k),
        has_entry(es, k) ==> fix_enemy(k, es[first_index(es, k)].1, tables) == Ok::<
            JsonV,
            ErrorKind,
        >(fix_all(es, tables)->Ok_0[first_index(fix_all(es, tables)->Ok_0, k)].1),
    decreases es.len(),
{
    if es.len() == 0 {
        assert(forall|j: int| !crate::tree::first_key_at(es, k, j));
        assert(forall|j: int| !crate::tree::first_key_at(fix_all(es, tables)->Ok_0, k, j));
    } else {
        let init = es.drop_last();
        let x = es.last();
        assert(es == init.push(x));
        lemma_fix_all_get(init, tables, k);
        let fixed = fix_all(init, tables)->Ok_0;
        let y = (x.0, fix_enemy(x.0, x.1, tables)->Ok_0);
        assert(fix_all(es, tables)->Ok_0 == fixed.push(y));
        lemma_push_lookup(init, x, k);
        lemma_push_lookup(fixed, y, k);
    }
}

/// Elite rebasing: an enemy `e` of the source whose controls, once filtered,
/// are elite, with a declared base that is no vanilla elite while `e` itself
/// is one, leaves the stage with `ForceEliteBase` naming `e`; any other enemy
/// leaves it with its filtered controls as they are, so without a
/// `ForceEliteBase` it did not have.
pub proof fn lemma_elite_rebasing(original: JsonV, new: JsonV, tables: TablesV, e: Seq<char>)
    requires
        original.get("EnemyDescriptors"@).has_key(e),
        enemies_stage(original, new, tables) is Ok,
    ensures
        ({
            let entry = original.get("EnemyDescriptors"@).get(e);
            let c = filtered_controls(entry, tables)->Ok_0;
            let out = enemies_stage(original, new, tables)->Ok_0.get("EnemiesNoSync"@).get(e);
            &&& filtered_controls(entry, tables) is Ok
            &&& needs_rebase(e, c, tables) ==> out.get("ForceEliteBase"@) == JsonV::Str(e)
            &&& !needs_rebase(e, c, tables) ==> out == c
        }),
{
    let d = original.get("EnemyDescriptors"@);
    let es = d->Object_0;
    lemma_fix_all_get(es, tables, e);
    let fixed = fix_all(es, tables)->Ok_0;
    lemma_set_get(new, "EnemiesNoSync"@, JsonV::Object(fixed));
    let entry = d.get(e);
    let c = filtered_controls(entry, tables)->Ok_0;
    if needs_rebase(e, c, tables) {
        lemma_set_get(c, "ForceEliteBase"@, JsonV::Str(e));
    }
}

} // verus!
