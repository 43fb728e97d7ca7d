//! The whole translation: the stages applied in their fixed order, each to the
//! immutable source and the target built so far.

use crate::diagnostics::{diag, views, Diagnostic, DiagnosticKind, DiagnosticV, ErrorKind};
use crate::enemies::{build_enemies_module, enemies_diags, enemies_stage};
use crate::resupply::{build_resupply_module, resupply_stage};
use crate::tables::{Tables, TablesV};
use crate::text::{chars_of, push_chars, string_of};
use crate::tables::lookup;
use crate::top_modules::{
    build_top_modules, entries_of, lemma_unknown_field_dropped, top_diags, top_stage,
};
use crate::tree::lemma_remove_other;
use crate::tree::{Json, JsonV};
use vstd::prelude::*;

verus! {

/// The target with the source's `field` copied over, where the source has it.
pub open spec fn copy_field(original: JsonV, new: JsonV, field: Seq<char>) -> JsonV {
    if original.has_key(field) {
        new.set(field, original.get(field))
    } else {
        new
    }
}

/// The translated document, or the error that stops the translation.
pub open spec fn translation(original: JsonV, tables: TablesV) -> Result<JsonV, ErrorKind> {
    let t = copy_field(
        original,
        copy_field(original, JsonV::Object(Seq::empty()), "Name"@),
        "Description"@,
    );
    match resupply_stage(original, t) {
        Err(k) => Err(k),
        Ok(t) => match enemies_stage(original, top_stage(original, t, tables), tables) {
            Err(k) => Err(k),
            Ok(t) => Ok(copy_field(original, t, "EscortMule"@)),
        },
    }
}

/// The finding on a recommended field that the source lacks.
pub open spec fn advice_diag(original: JsonV, field: Seq<char>, advice: Seq<char>) -> Seq<DiagnosticV> {
    if !original.has_key(field) {
        seq![diag(DiagnosticKind::MissingField, field, advice)]
    } else {
        Seq::empty()
    }
}

/// The findings of a translation that succeeds, in the order of the stages.
pub open spec fn translation_diags(original: JsonV, tables: TablesV) -> Seq<DiagnosticV> {
    advice_diag(original, "Name"@, "It is recommended to add a Name."@) + advice_diag(
        original,
        "Description"@,
        "It is recommended to add a Description."@,
    ) + top_diags(entries_of(original), tables) + enemies_diags(original, tables)
}

/// Copies the source's `field` to the target where it is; where it is not,
/// reports the advice, if any.
pub fn copy_field_if_exists(
    original: &Json,
    new: Json,
    field: &str,
    advice: Option<&str>,
    diags: &mut Vec<Diagnostic>,
) -> (r: Json)
    ensures
        r@ == copy_field(original@, new@, field@),
        views(final(diags)@) == views(old(diags)@)
            + (if !original@.has_key(field@) && advice is Some {
            seq![diag(DiagnosticKind::MissingField, field@, advice->Some_0@)]
        } else {
            Seq::<DiagnosticV>::empty()
        }),
{
    let ghost d0 = diags@;
    match original.get(field) {
        Some(v) => {
            let mut new = new;
            new.set(field, v.deep_clone());
            assert(views(diags@) =~= views(d0) + Seq::<DiagnosticV>::empty());
            new
        },
        None => {
            match advice {
                Some(msg) => {
                    diags.push(Diagnostic::new(DiagnosticKind::MissingField, field, msg));
                    assert(views(diags@) =~= views(d0) + seq![diag(DiagnosticKind::MissingField, field@, msg@)]);
                },
                None => {
                    assert(views(diags@) =~= views(d0) + Seq::<DiagnosticV>::empty());
                },
            }
            new
        },
    }
}

/// A translated document and the findings reported on the way.
#[derive(Debug)]
pub struct Translation {
    pub document: Json,
    pub diagnostics: Vec<Diagnostic>,
}

/// Translates the source document with the given tables.
pub fn translate(original: &Json, tables: &Tables) -> (r: Result<Translation, ErrorKind>)
    ensures
        match r {
            Ok(t) => translation(original@, tables@) == Ok::<JsonV, ErrorKind>(t.document@) && views(
                t.diagnostics@,
            ) == translation_diags(original@, tables@),
            Err(k) => translation(original@, tables@) == Err::<JsonV, ErrorKind>(k),
        },
{
    let mut diags: Vec<Diagnostic> = Vec::new();
    let new = Json::new_object();
    let new = copy_field_if_exists(original, new, "Name", Some("It is recommended to add a Name."), &mut diags);
    let new = copy_field_if_exists(
        original,
        new,
        "Description",
        Some("It is recommended to add a Description."),
        &mut diags,
    );
    let new = match build_resupply_module(original, new) {
        Ok(t) => t,
        Err(k) => return Err(k),
    };
    let new = build_top_modules(original, new, tables, &mut diags);
    let new = match build_enemies_module(original, new, tables, &mut diags) {
        Ok(t) => t,
        Err(k) => return Err(k),
    };
    let new = copy_field_if_exists(original, new, "EscortMule", None, &mut diags);
    proof {
        let e = Seq::<DiagnosticV>::empty();
        assert(views(diags@) =~= translation_diags(original@, tables@) + e);
        assert(translation_diags(original@, tables@) + e =~= translation_diags(original@, tables@));
    }
    Ok(Translation { document: new, diagnostics: diags })
}

/// The document with the blob appended to its description string, for output
/// that keeps the whole document on one line.
pub open spec fn with_blob_description(doc: JsonV, blob: Seq<char>) -> JsonV {
    match doc.get("Description"@) {
        JsonV::Str(d) => doc.set("Description"@, JsonV::Str(d + blob)),
        _ => doc,
    }
}

/// Appends the blob to the document's description string.
pub fn append_multilines(doc: Json, multilines: &str) -> (r: Json)
    ensures
        r@ == with_blob_description(doc@, multilines@),
{
    let mut doc = doc;
    let joined = match doc.get("Description") {
        Some(Json::Str(d)) => {
            let mut cs = chars_of(d.as_str());
            let more = chars_of(multilines);
            push_chars(&mut cs, &more);
            Some(string_of(&cs))
        },
        _ => None,
    };
    match joined {
        Some(s) => {
            doc.set("Description", Json::Str(s));
        },
        None => {},
    }
    doc
}

/// A top-level field that the field table does not know, and that no stage
/// reads by its name, is reported as unsupported and leaves no trace: the
/// source without it translates to the same target.
pub proof fn lemma_unknown_field_absent(original: JsonV, tables: TablesV, k: Seq<char>)
    requires
        original is Object,
        lookup(tables.top_modules, k) is None,
        k != "Name"@,
        k != "Description"@,
        k != "EscortMule"@,
        k != "ResupplyCost"@,
        k != "StartingNitra"@,
        k != "EnemyDescriptors"@,
    ensures
        translation(original, tables) == translation(original.remove(k), tables),
        original.has_key(k) ==> translation_diags(original, tables).contains(
            diag(DiagnosticKind::UnsupportedField, k, Seq::empty()),
        ),
{
    lemma_remove_other(original, k, "Name"@);
    lemma_remove_other(original, k, "Description"@);
    lemma_remove_other(original, k, "EscortMule"@);
    lemma_remove_other(original, k, "ResupplyCost"@);
    lemma_remove_other(original, k, "StartingNitra"@);
    lemma_remove_other(original, k, "EnemyDescriptors"@);
    let o2 = original.remove(k);
    let t = copy_field(
        original,
        copy_field(original, JsonV::Object(Seq::empty()), "Name"@),
        "Description"@,
    );
    assert(resupply_stage(original, t) == resupply_stage(o2, t));
    if resupply_stage(original, t) is Ok {
        lemma_unknown_field_dropped(original, resupply_stage(original, t)->Ok_0, tables, k);
    }
    if original.has_key(k) {
        lemma_unknown_field_dropped(original, JsonV::Null, tables, k);
        let d = diag(DiagnosticKind::UnsupportedField, k, Seq::empty());
        let a = advice_diag(original, "Name"@, "It is recommended to add a Name."@) + advice_diag(
            original,
            "Description"@,
            "It is recommended to add a Description."@,
        );
        let top = top_diags(entries_of(original), tables);
        let i = choose|i: int| 0 <= i < top.len() && top[i] == d;
        assert((a + top + enemies_diags(original, tables))[a.len() + i] == d);
    }
}

} // verus!
