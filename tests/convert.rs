use diff_convert::document::{convert_document, ConvertError};
use diff_convert::decimal::Decimal;
use diff_convert::diagnostics::{Diagnostic, DiagnosticKind, ErrorKind};
use diff_convert::enemies::{build_enemies_module, translate_pawn_stats};
use diff_convert::multiline::{maybe_extract_multilines, recover_multilines};
use diff_convert::naming::file_name;
use diff_convert::resupply::{build_resupply_module, compute_supply_vector};
use diff_convert::tables::{FieldStatus, PawnTarget, Tables};
use diff_convert::top_modules::{build_top_modules, update_if_range_array_node};
use diff_convert::translate::{append_multilines, copy_field_if_exists, translate};
use diff_convert::tree::Json;

fn num(v: u64) -> Json {
    Json::Number(Decimal::from_u64(v))
}

fn dec(positive: bool, mantissa: u64, exponent: i16) -> Decimal {
    Decimal { positive, mantissa, exponent }
}

fn value_of(d: &Decimal) -> f64 {
    let m = d.mantissa as f64 * 10f64.powi(d.exponent as i32);
    if d.positive {
        m
    } else {
        -m
    }
}

fn s(v: &str) -> Json {
    Json::Str(v.to_string())
}

fn obj(entries: Vec<(&str, Json)>) -> Json {
    Json::Object(entries.into_iter().map(|(k, v)| (k.to_string(), v)).collect())
}

fn get<'a>(j: &'a Json, k: &str) -> Option<&'a Json> {
    j.get(k)
}

fn tables() -> Tables {
    Tables {
        top_modules: vec![
            ("Name".to_string(), FieldStatus::from_str("ignore")),
            ("Description".to_string(), FieldStatus::from_str("ignore")),
            ("ResupplyCost".to_string(), FieldStatus::from_str("ignore")),
            ("StartingNitra".to_string(), FieldStatus::from_str("deprecated")),
            ("EnemyDescriptors".to_string(), FieldStatus::from_str("ignore")),
            ("StationaryEnemies".to_string(), FieldStatus::from_str("Pools")),
            ("Bins".to_string(), FieldStatus::from_str("Pools")),
            ("MaxActiveEnemies".to_string(), FieldStatus::from_str("Caps")),
        ],
        pawn_stats: vec![
            (
                "PST_FireResistance".to_string(),
                PawnTarget { module: "Resistances".to_string(), field: "FireDamageMultiplier".to_string() },
            ),
            (
                "PST_DamageResistance".to_string(),
                PawnTarget { module: "Resistances".to_string(), field: "DamageMultiplier".to_string() },
            ),
            (
                "PST_MovementSpeed".to_string(),
                PawnTarget { module: "None".to_string(), field: "MovementSpeed".to_string() },
            ),
        ],
        elite_allowlist: vec!["Y".to_string(), "ED_Spider_Tank".to_string()],
        valid_controls: vec!["Base".to_string(), "Elite".to_string(), "Resistances".to_string()],
    }
}

fn values_of(doc: &Json) -> Vec<f64> {
    let cost = get(get(doc, "Resupply").unwrap(), "Cost").unwrap();
    match get(cost, "Values").unwrap() {
        Json::Array(items) => items
            .iter()
            .map(|i| match i {
                Json::Number(d) => value_of(d),
                _ => panic!("not a number"),
            })
            .collect(),
        _ => panic!("not an array"),
    }
}

#[test]
fn nitra_above_cost_gives_zeros_then_remainder() {
    let original = obj(vec![("ResupplyCost", num(80)), ("StartingNitra", num(200))]);
    let out = build_resupply_module(&original, Json::new_object()).unwrap();
    let cost = get(get(&out, "Resupply").unwrap(), "Cost").unwrap();
    assert!(matches!(get(cost, "Mutate"), Some(Json::Str(m)) if m == "ByResuppliesCalled"));
    assert_eq!(values_of(&out), vec![0.0, 0.0, 40.0, 80.0]);
}

#[test]
fn nitra_below_cost_gives_two_values() {
    let original = obj(vec![("ResupplyCost", num(80)), ("StartingNitra", num(50))]);
    let out = build_resupply_module(&original, Json::new_object()).unwrap();
    assert_eq!(values_of(&out), vec![30.0, 80.0]);
}

#[test]
fn supply_vector_exact_values() {
    let v = compute_supply_vector(Decimal::from_u64(200), Decimal::from_u64(80)).unwrap();
    assert_eq!(v.iter().map(value_of).collect::<Vec<_>>(), vec![0.0, 0.0, 40.0, 80.0]);
    let v = compute_supply_vector(Decimal::from_u64(80), Decimal::from_u64(80)).unwrap();
    assert_eq!(v.iter().map(value_of).collect::<Vec<_>>(), vec![0.0, 80.0]);
    let v = compute_supply_vector(dec(true, 125, -1), dec(true, 5, 0)).unwrap();
    assert_eq!(v.iter().map(value_of).collect::<Vec<_>>(), vec![0.0, 0.0, 2.5, 5.0]);
}

#[test]
fn supply_vector_out_of_range() {
    assert_eq!(
        compute_supply_vector(Decimal::from_u64(200), dec(true, 0, 0)),
        Err(ErrorKind::NumberOutOfRange)
    );
    assert_eq!(
        compute_supply_vector(dec(true, 1, 40), Decimal::from_u64(80)),
        Err(ErrorKind::NumberOutOfRange)
    );
}

#[test]
fn no_nitra_gives_plain_cost() {
    for original in [
        obj(vec![("ResupplyCost", num(60))]),
        obj(vec![("ResupplyCost", num(60)), ("StartingNitra", num(0))]),
    ] {
        let out = build_resupply_module(&original, Json::new_object()).unwrap();
        let cost = get(get(&out, "Resupply").unwrap(), "Cost").unwrap();
        assert!(matches!(cost, Json::Number(d) if value_of(d) == 60.0));
    }
    let out = build_resupply_module(&obj(vec![]), Json::new_object()).unwrap();
    let cost = get(get(&out, "Resupply").unwrap(), "Cost").unwrap();
    assert!(matches!(cost, Json::Number(d) if value_of(d) == 80.0));
}

#[test]
fn non_numeric_nitra_is_an_error() {
    let original = obj(vec![("StartingNitra", s("lots"))]);
    assert_eq!(build_resupply_module(&original, Json::new_object()).unwrap_err(), ErrorKind::NotANumber);
    let original = obj(vec![("ResupplyCost", Json::Bool(true))]);
    assert_eq!(build_resupply_module(&original, Json::new_object()).unwrap_err(), ErrorKind::NotANumber);
}

const SOURCE: &str = "{\n    \"Name\": \"Test\",\n    \"Description\": \"First line\nsecond line\nthird line\",\n    \"ResupplyCost\": 80\n}";

#[test]
fn multiline_round_trip() {
    let bodies = ["", "second line", "l1\nl2\nl3\nl4\nl5"];
    for body in bodies {
        let source = if body.is_empty() {
            "{\n    \"Description\": \"only\",\n    \"Name\": \"N\"\n}".to_string()
        } else {
            format!("{{\n    \"Description\": \"first\n{}\",\n    \"Name\": \"N\"\n}}", body)
        };
        let (sanitized, blob) = maybe_extract_multilines(&source);
        match blob {
            None => {
                assert!(body.is_empty());
                assert_eq!(sanitized, source);
            }
            Some(blob) => {
                assert_eq!(blob, format!("{}\",", body));
                assert_eq!(
                    sanitized,
                    "{\n    \"Description\": \"first\",\n    \"Name\": \"N\"\n}"
                );
                assert_eq!(recover_multilines(&sanitized, &blob), source);
            }
        }
    }
}

#[test]
fn extract_cuts_until_next_key() {
    let (sanitized, blob) = maybe_extract_multilines(SOURCE);
    assert_eq!(blob.unwrap(), "second line\nthird line\",");
    assert_eq!(
        sanitized,
        "{\n    \"Name\": \"Test\",\n    \"Description\": \"First line\",\n    \"ResupplyCost\": 80\n}"
    );
}

#[test]
fn extract_without_description_is_identity() {
    let text = "{\r\n  \"Name\": \"x\"\r\n}\n";
    let (sanitized, blob) = maybe_extract_multilines(text);
    assert_eq!(sanitized, text);
    assert!(blob.is_none());
}

#[test]
fn recover_reopens_rendered_description() {
    let rendered = "{\n    \"Description\": \"First line\",\n    \"Name\": \"Test\"\n}";
    let out = recover_multilines(rendered, "second\",");
    assert_eq!(out, "{\n    \"Description\": \"First line\nsecond\",\n    \"Name\": \"Test\"\n}");
}

#[test]
fn pawn_stat_inversion() {
    let t = tables();
    let mut diags: Vec<Diagnostic> = Vec::new();
    let mut controls = obj(vec![]);
    let stats = obj(vec![
        ("PST_FireResistance", Json::Number(dec(true, 3, -1))),
        ("PST_DamageResistance", Json::Number(dec(true, 3, -1))),
        ("PST_MovementSpeed", Json::Number(dec(true, 12, -1))),
        ("PST_Unknown", num(1)),
    ]);
    translate_pawn_stats(&mut controls, &stats, &t, "E", &mut diags).unwrap();
    let res = get(&controls, "Resistances").unwrap();
    assert!(matches!(get(res, "FireDamageMultiplier"), Some(Json::Number(d)) if *d == dec(true, 7, -1)));
    assert!(matches!(get(res, "DamageMultiplier"), Some(Json::Number(d)) if *d == dec(true, 3, -1)));
    assert!(matches!(get(&controls, "MovementSpeed"), Some(Json::Number(d)) if *d == dec(true, 12, -1)));
    assert_eq!(diags.len(), 1);
    assert_eq!(diags[0].kind, DiagnosticKind::UnsupportedPawnStat);
    assert_eq!(diags[0].subject, "PST_Unknown");
}

#[test]
fn pawn_stat_inversion_needs_a_number() {
    let t = tables();
    let mut diags: Vec<Diagnostic> = Vec::new();
    let mut controls = obj(vec![]);
    let stats = obj(vec![("PST_FireResistance", s("x"))]);
    assert_eq!(
        translate_pawn_stats(&mut controls, &stats, &t, "E", &mut diags),
        Err(ErrorKind::NotANumber)
    );
}

#[test]
fn unknown_top_level_field_is_dropped() {
    let t = tables();
    let mut diags: Vec<Diagnostic> = Vec::new();
    let original = obj(vec![("Foo", num(3)), ("MaxActiveEnemies", num(60)), ("StartingNitra", num(1))]);
    let out = build_top_modules(&original, Json::new_object(), &t, &mut diags);
    let kinds: Vec<(DiagnosticKind, String)> = diags.iter().map(|d| (d.kind, d.subject.clone())).collect();
    assert_eq!(
        kinds,
        vec![
            (DiagnosticKind::UnsupportedField, "Foo".to_string()),
            (DiagnosticKind::DeprecatedField, "StartingNitra".to_string())
        ]
    );
    assert!(!format!("{:?}", out).contains("Foo"));
    assert!(matches!(get(get(&out, "Caps").unwrap(), "MaxActiveEnemies"), Some(Json::Number(_))));
    assert!(matches!(get(get(&out, "DifficultySetting").unwrap(), "BaseHazard"), Some(Json::Str(h)) if h == "Hazard 5"));
}

#[test]
fn stationary_enemies_renamed() {
    let t = tables();
    let mut diags: Vec<Diagnostic> = Vec::new();
    let original = obj(vec![("StationaryEnemies", obj(vec![("x", num(1))]))]);
    let out = build_top_modules(&original, Json::new_object(), &t, &mut diags);
    let pools = get(&out, "Pools").unwrap();
    assert!(pools.get("StationaryEnemies").is_none());
    assert!(matches!(pools.get("StationaryPool"), Some(Json::Object(_))));

    let original = obj(vec![("MaxActiveEnemies", num(60))]);
    let out = build_top_modules(&original, Json::new_object(), &t, &mut diags);
    assert!(get(&out, "Pools").is_none());
}

#[test]
fn weighted_bins_are_flattened() {
    let bins = Json::Array(vec![
        obj(vec![("weight", num(2)), ("range", obj(vec![("min", num(1)), ("max", num(3))]))]),
        obj(vec![("weight", num(5))]),
    ]);
    let out = update_if_range_array_node(&bins);
    match out {
        Json::Array(items) => {
            assert_eq!(items.len(), 2);
            assert!(matches!(get(&items[0], "min"), Some(Json::Number(d)) if value_of(d) == 1.0));
            assert!(matches!(get(&items[0], "max"), Some(Json::Number(d)) if value_of(d) == 3.0));
            assert!(get(&items[0], "range").is_none());
            assert!(matches!(get(&items[1], "min"), Some(Json::Null)));
        }
        _ => panic!("not an array"),
    }
    let plain = Json::Array(vec![num(1), num(2)]);
    assert!(matches!(update_if_range_array_node(&plain), Json::Array(v) if v.len() == 2 && matches!(v[0], Json::Number(_))));
}

fn enemy_doc(elite: bool, base: &str) -> Json {
    obj(vec![(
        "EnemyDescriptors",
        obj(vec![(
            "Y",
            obj(vec![("Base", s(base)), ("Elite", Json::Bool(elite)), ("Bogus", num(1))]),
        )]),
    )])
}

#[test]
fn elite_rebasing() {
    let t = tables();
    let mut diags: Vec<Diagnostic> = Vec::new();
    let out = build_enemies_module(&enemy_doc(true, "X"), Json::new_object(), &t, &mut diags).unwrap();
    let y = get(get(&out, "EnemiesNoSync").unwrap(), "Y").unwrap();
    assert!(matches!(get(y, "ForceEliteBase"), Some(Json::Str(v)) if v == "Y"));
    assert!(get(y, "Bogus").is_none());
    assert!(diags.iter().any(|d| d.kind == DiagnosticKind::InvalidEnemyControl && d.subject == "Bogus"));
    assert!(diags
        .iter()
        .any(|d| d.kind == DiagnosticKind::NonVanillaEliteBase && d.subject == "Y" && d.context == "X"));

    let out = build_enemies_module(&enemy_doc(true, "ED_Spider_Tank"), Json::new_object(), &t, &mut diags).unwrap();
    let y = get(get(&out, "EnemiesNoSync").unwrap(), "Y").unwrap();
    assert!(get(y, "ForceEliteBase").is_none());

    let out = build_enemies_module(&enemy_doc(false, "X"), Json::new_object(), &t, &mut diags).unwrap();
    let y = get(get(&out, "EnemiesNoSync").unwrap(), "Y").unwrap();
    assert!(get(y, "ForceEliteBase").is_none());

    let mut t2 = tables();
    t2.elite_allowlist = vec!["ED_Spider_Tank".to_string()];
    let out = build_enemies_module(&enemy_doc(true, "X"), Json::new_object(), &t2, &mut diags).unwrap();
    let y = get(get(&out, "EnemiesNoSync").unwrap(), "Y").unwrap();
    assert!(get(y, "ForceEliteBase").is_none());
}

#[test]
fn missing_name_is_reported() {
    let mut diags: Vec<Diagnostic> = Vec::new();
    let out = copy_field_if_exists(&obj(vec![]), Json::new_object(), "Name", Some("Add one."), &mut diags);
    assert!(get(&out, "Name").is_none());
    assert_eq!(diags.len(), 1);
    assert_eq!(diags[0].kind, DiagnosticKind::MissingField);
    assert_eq!(diags[0].context, "Add one.");
    let out = copy_field_if_exists(&obj(vec![("Name", s("N"))]), Json::new_object(), "Name", None, &mut diags);
    assert!(matches!(get(&out, "Name"), Some(Json::Str(n)) if n == "N"));
}

#[test]
fn whole_translation() {
    let t = tables();
    let original = obj(vec![
        ("Name", s("Hard")),
        ("Description", s("d")),
        ("StartingNitra", num(200)),
        ("Foo", num(1)),
        ("EscortMule", obj(vec![])),
    ]);
    let r = translate(&original, &t).unwrap();
    let doc = &r.document;
    assert!(matches!(get(doc, "Name"), Some(Json::Str(n)) if n == "Hard"));
    assert!(get(doc, "EscortMule").is_some());
    assert_eq!(values_of(doc), vec![0.0, 0.0, 40.0, 80.0]);
    assert!(r.diagnostics.iter().any(|d| d.kind == DiagnosticKind::UnsupportedField && d.subject == "Foo"));
    assert!(!format!("{:?}", doc).contains("Foo"));
}

#[test]
fn compact_output_appends_blob() {
    let doc = obj(vec![("Description", s("First"))]);
    let out = append_multilines(doc, "\nsecond");
    assert!(matches!(get(&out, "Description"), Some(Json::Str(d)) if d == "First\nsecond"));
}

#[test]
fn field_status_parsing() {
    assert!(matches!(FieldStatus::from_str("deprecated"), FieldStatus::Deprecated));
    assert!(matches!(FieldStatus::from_str("ignore"), FieldStatus::Ignored));
    assert!(matches!(FieldStatus::from_str("Pools"), FieldStatus::Valid(m) if m == "Pools"));
}

#[test]
fn default_file_names() {
    assert_eq!(file_name("dir/hard.json", None).unwrap(), "dir/hard.cd2.json");
    assert_eq!(file_name("a.b/hard.json", None).unwrap(), "a.b/hard.cd2.json");
    assert_eq!(file_name("dir/hard", None).unwrap(), "dir/hard.cd2");
    assert_eq!(file_name("hard", None).unwrap(), "hard.cd2");
    assert_eq!(file_name("dir/", None), None);
    assert_eq!(file_name("hard.json", Some("out.json")).unwrap(), "out.json");
    assert_eq!(file_name("/", None), None);
}

#[test]
fn decimal_arithmetic() {
    assert_eq!(Decimal::from_u64(1).checked_sub(&dec(true, 3, -1)), Some(dec(true, 7, -1)));
    assert!(Decimal::from_u64(80).same_value_as(&dec(true, 800, -1)));
    assert!(!Decimal::from_u64(80).same_value_as(&dec(false, 80, 0)));
    assert!(dec(true, 0, 30).same_value_as(&dec(false, 0, -30)));
    assert!(dec(true, 1, 19).same_value_as(&dec(true, 10_000_000_000_000_000_000, 0)));
}

#[test]
fn whole_conversion_keeps_multiline_description() {
    let t = tables();
    let source = "{\n    \"Name\": \"Hard\",\n    \"Description\": \"First line\nsecond line\nthird line\",\n    \"ResupplyCost\": 80\n}";
    let c = convert_document(source, &t, false).unwrap();
    assert!(c.text.contains("\"Description\": \"First line\nsecond line\nthird line\",\n"));
    assert!(c.text.contains("\"Cost\": 80"));
    assert!(c.text.contains("\"BaseHazard\": \"Hazard 5\""));

    let c = convert_document(source, &t, true).unwrap();
    assert!(c.text.starts_with("{\"Name\":\"Hard\",\"Description\":\"First linesecond line\\nthird line\\\",\""));

    let single = "{\"Name\": \"N\", \"Description\": \"d\", \"StartingNitra\": 50}";
    let c = convert_document(single, &t, true).unwrap();
    assert!(c.text.contains("\"Values\":[30,80]"));

    assert_eq!(convert_document("{ not json", &t, true).unwrap_err(), ConvertError::Unparsable);
    let bad = "{\"StartingNitra\": \"x\"}";
    assert_eq!(
        convert_document(bad, &t, true).unwrap_err(),
        ConvertError::Translation(ErrorKind::NotANumber)
    );
}

#[test]
fn empty_document_gets_defaults() {
    let t = tables();
    let r = translate(&obj(vec![]), &t).unwrap();
    let kinds: Vec<(DiagnosticKind, String)> = r.diagnostics.iter().map(|d| (d.kind, d.subject.clone())).collect();
    assert_eq!(
        kinds,
        vec![
            (DiagnosticKind::MissingField, "Name".to_string()),
            (DiagnosticKind::MissingField, "Description".to_string())
        ]
    );
    let cost = get(get(&r.document, "Resupply").unwrap(), "Cost").unwrap();
    assert!(matches!(cost, Json::Number(d) if value_of(d) == 80.0));
    assert!(matches!(get(get(&r.document, "DifficultySetting").unwrap(), "BaseHazard"), Some(Json::Str(h)) if h == "Hazard 5"));
    assert!(get(&r.document, "Pools").is_none());
    assert!(get(&r.document, "EnemiesNoSync").is_none());
}
