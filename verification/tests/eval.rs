use std::cell::Cell;

use ree_save_core::assoc::AssocMap;
use ree_save_core::eval::{FieldValueKind, RemapEvaluator, RowValue};
use ree_save_core::remap::{DataSource, Remap};

fn rsz_query(file: &str) -> DataSource {
    DataSource::RszQuery {
        rsz_file: file.to_string(),
        array_path: "_Values".to_string(),
        match_field: "_Id".to_string(),
    }
}

fn sample_remap() -> Remap {
    let mut queries = AssocMap::new();
    queries.insert("enemy_row".to_string(), rsz_query("EnemyData.user"));
    queries.insert(
        "not_rsz".to_string(),
        DataSource::MsgLookup {
            msg_file: "m".to_string(),
            target_query: "x".to_string(),
            target_field: "y".to_string(),
        },
    );
    let mut data = AssocMap::new();
    data.insert(
        "name".to_string(),
        DataSource::MsgLookup {
            msg_file: "EnemyName.msg".to_string(),
            target_query: "enemy_row".to_string(),
            target_field: "_Name".to_string(),
        },
    );
    data.insert(
        "broken".to_string(),
        DataSource::MsgLookup {
            msg_file: "EnemyName.msg".to_string(),
            target_query: "not_rsz".to_string(),
            target_field: "_Name".to_string(),
        },
    );
    data.insert(
        "missing_query".to_string(),
        DataSource::MsgLookup {
            msg_file: "EnemyName.msg".to_string(),
            target_query: "nowhere".to_string(),
            target_field: "_Name".to_string(),
        },
    );
    data.insert("row".to_string(), rsz_query("EnemyData.user"));
    Remap { format: Vec::new(), fields: AssocMap::new(), queries, data }
}

const GUID: [u8; 16] = [7; 16];

#[test]
fn message_lookup_through_query() {
    let remap = sample_remap();
    let mut eval = RemapEvaluator::new();
    let queried = Cell::new(0);
    let r = eval.eval_data(
        "name",
        &remap,
        "S32(5)",
        |file: &String, path: &String, field: &String| {
            queried.set(queried.get() + 1);
            assert_eq!((file.as_str(), path.as_str(), field.as_str()), ("EnemyData.user", "_Values", "_Id"));
            Some(RowValue::Object(3))
        },
        |file: &String, id: usize, field: &String| {
            assert_eq!((file.as_str(), id, field.as_str()), ("EnemyData.user", 3, "_Name"));
            Some(FieldValueKind::Guid(GUID))
        },
        |msg: &String, guid: [u8; 16]| {
            assert_eq!(msg, "EnemyName.msg");
            assert_eq!(guid, GUID);
            Some("Rathalos".to_string())
        },
        |_: &String, _: &String, _: &String| -> Option<String> { panic!("not a shown source") },
    );
    assert_eq!(r, Some("Rathalos".to_string()));
    assert_eq!(queried.get(), 1);

    // The row is cached: the second lookup of the same value does not query again.
    let again = eval.eval_data(
        "name",
        &remap,
        "S32(5)",
        |_: &String, _: &String, _: &String| -> Option<RowValue> { panic!("row should be cached") },
        |_: &String, id: usize, _: &String| {
            assert_eq!(id, 3);
            Some(FieldValueKind::Guid(GUID))
        },
        |_: &String, _: [u8; 16]| Some("Rathalos".to_string()),
        |_: &String, _: &String, _: &String| -> Option<String> { None },
    );
    assert_eq!(again, Some("Rathalos".to_string()));

    // Another value is another key.
    let other = eval.eval_data(
        "name",
        &remap,
        "S32(6)",
        |_: &String, _: &String, _: &String| None,
        |_: &String, _: usize, _: &String| -> Option<FieldValueKind> { unreachable!() },
        |_: &String, _: [u8; 16]| -> Option<String> { unreachable!() },
        |_: &String, _: &String, _: &String| -> Option<String> { None },
    );
    assert_eq!(other, None);
}

fn no_row(_: &String, _: &String, _: &String) -> Option<RowValue> {
    None
}

fn no_field(_: &String, _: usize, _: &String) -> Option<FieldValueKind> {
    None
}

fn no_message(_: &String, _: [u8; 16]) -> Option<String> {
    None
}

fn no_show(_: &String, _: &String, _: &String) -> Option<String> {
    None
}

#[test]
fn shown_source() {
    let remap = sample_remap();
    let mut eval = RemapEvaluator::new();
    let r = eval.eval_data("row", &remap, "k", no_row, no_field, no_message, |f: &String, p: &String, m: &String| {
        Some(format!("{}|{}|{}", f, p, m))
    });
    assert_eq!(r, Some("EnemyData.user|_Values|_Id".to_string()));
}

#[test]
fn missing_pieces_give_none() {
    let remap = sample_remap();
    let mut eval = RemapEvaluator::new();
    assert_eq!(eval.eval_data("unknown", &remap, "k", no_row, no_field, no_message, no_show), None);
    assert_eq!(eval.eval_data("broken", &remap, "k", no_row, no_field, no_message, no_show), None);
    assert_eq!(eval.eval_data("missing_query", &remap, "k", no_row, no_field, no_message, no_show), None);
    // The row is not an object.
    let r = eval.eval_data(
        "name",
        &remap,
        "k",
        |_: &String, _: &String, _: &String| Some(RowValue::Other),
        no_field,
        no_message,
        no_show,
    );
    assert_eq!(r, None);
    // The field is not a GUID.
    let r = eval.eval_data(
        "name",
        &remap,
        "k2",
        |_: &String, _: &String, _: &String| Some(RowValue::Object(1)),
        |_: &String, _: usize, _: &String| Some(FieldValueKind::Other),
        no_message,
        no_show,
    );
    assert_eq!(r, None);
}

#[test]
fn resolve_query_caches_found_rows() {
    let remap = sample_remap();
    let mut eval = RemapEvaluator::new();
    let calls = Cell::new(0);
    let fetch = |_: &String, _: &String, _: &String| {
        calls.set(calls.get() + 1);
        Some(RowValue::Object(9))
    };
    assert_eq!(eval.resolve_query("enemy_row", &remap, "v", &fetch), Some(RowValue::Object(9)));
    assert_eq!(eval.resolve_query("enemy_row", &remap, "v", &fetch), Some(RowValue::Object(9)));
    assert_eq!(calls.get(), 1);
    assert_eq!(eval.resolve_query("enemy_row", &remap, "w", &fetch), Some(RowValue::Object(9)));
    assert_eq!(calls.get(), 2);
    assert_eq!(eval.resolve_query("not_rsz", &remap, "v", &fetch), None);
    assert_eq!(eval.resolve_query("nowhere", &remap, "v", &fetch), None);
    assert_eq!(calls.get(), 2);
}

#[test]
fn rows_not_found_are_not_cached() {
    let remap = sample_remap();
    let mut eval = RemapEvaluator::new();
    let calls = Cell::new(0);
    let fetch = |_: &String, _: &String, _: &String| {
        calls.set(calls.get() + 1);
        None
    };
    assert_eq!(eval.resolve_query("enemy_row", &remap, "v", &fetch), None);
    assert_eq!(eval.resolve_query("enemy_row", &remap, "v", &fetch), None);
    assert_eq!(calls.get(), 2);
}
