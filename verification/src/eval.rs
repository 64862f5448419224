//! Evaluation of the data sources of a remap, with a cache of resolved queries.

use vstd::prelude::*;

use crate::assoc::AssocMap;
use crate::remap::{DataSource, Remap};

verus! {

/// What the logic reads of an engine value found by a query: the object it
/// refers to, if it is an object reference.
#[derive(Clone, Copy, Debug, PartialEq, Eq, Structural)]
pub enum RowValue {
    Object(usize),
    Other,
}

/// What the logic reads of a field value: its GUID, if it is one.
#[derive(Clone, Copy, Debug, PartialEq, Eq)]
pub enum FieldValueKind {
    Guid([u8; 16]),
    Other,
}

/// The row for `key` after a resolution that turned `before` into `after`: the
/// cached one, else the one that was found and cached, else none.
pub open spec fn row_after(
    before: Map<(Seq<char>, Seq<char>), RowValue>,
    after: Map<(Seq<char>, Seq<char>), RowValue>,
    key: (Seq<char>, Seq<char>),
) -> Option<RowValue> {
    if before.contains_key(key) {
        Some(before[key])
    } else if after.contains_key(key) {
        Some(after[key])
    } else {
        None
    }
}

/// A resolution of `key` that yielded `row` changed the cache from `before` to
/// `after` by caching a newly found row, and in no other way.
pub open spec fn cache_step(
    before: Map<(Seq<char>, Seq<char>), RowValue>,
    after: Map<(Seq<char>, Seq<char>), RowValue>,
    key: (Seq<char>, Seq<char>),
    row: Option<RowValue>,
) -> bool {
    if before.contains_key(key) || row is None {
        after == before
    } else {
        after == before.insert(key, row->0)
    }
}

/// A row that a resolution found stays cached: once it is there, a later
/// resolution of the same key yields it, whatever that resolution does.
pub proof fn law_found_rows_are_reused(
    before: Map<(Seq<char>, Seq<char>), RowValue>,
    after: Map<(Seq<char>, Seq<char>), RowValue>,
    later: Map<(Seq<char>, Seq<char>), RowValue>,
    key: (Seq<char>, Seq<char>),
)
    requires
        row_after(before, after, key) is Some,
        cache_step(before, after, key, row_after(before, after, key)),
    ensures
        after.contains_key(key),
        row_after(after, later, key) == row_after(before, after, key),
{
}

/// What a message lookup gives once its row is known: for a row that is an
/// object, `extract` reads field `target_field` of it in `rsz_file`; a GUID found
/// there gives exactly what `message` finds for it in `msg_file`, and anything
/// else gives `None`. A row that is missing or not an object gives `None`.
pub open spec fn message_result<X, M>(
    row: Option<RowValue>,
    extract: X,
    message: M,
    rsz_file: String,
    target_field: String,
    msg_file: String,
    r: Option<String>,
) -> bool where
    X: Fn(&String, usize, &String) -> Option<FieldValueKind>,
    M: Fn(&String, [u8; 16]) -> Option<String>,
 {
    match row {
        Some(RowValue::Object(id)) => exists|fv: Option<FieldValueKind>|
            {
                &&& #[trigger] call_ensures(extract, (&rsz_file, id, &target_field), fv)
                &&& match fv {
                    Some(FieldValueKind::Guid(g)) => call_ensures(message, (&msg_file, g), r),
                    _ => r is None,
                }
            },
        _ => r is None,
    }
}

/// Where `extract` reads the GUID `g` from the row's object, the lookup gives what
/// `message` finds for that very GUID, unchanged, in the message file.
pub proof fn law_message_uses_guid_as_read<X, M>(
    id: usize,
    extract: X,
    message: M,
    rsz_file: String,
    target_field: String,
    msg_file: String,
    g: [u8; 16],
    r: Option<String>,
) where
    X: Fn(&String, usize, &String) -> Option<FieldValueKind>,
    M: Fn(&String, [u8; 16]) -> Option<String>,

    requires
        message_result(
            Some(RowValue::Object(id)),
            extract,
            message,
            rsz_file,
            target_field,
            msg_file,
            r,
        ),
        forall|fv: Option<FieldValueKind>|
            call_ensures(extract, (&rsz_file, id, &target_field), fv) ==> fv == Some(
                FieldValueKind::Guid(g),
            ),
    ensures
        call_ensures(message, (&msg_file, g), r),
{
}

/// Conversely, a GUID `g` that `extract` may read, and a result that `message`
/// may give for `g`, make a result that the lookup may give.
pub proof fn law_message_of_read_guid_is_a_result<X, M>(
    id: usize,
    extract: X,
    message: M,
    rsz_file: String,
    target_field: String,
    msg_file: String,
    g: [u8; 16],
    r: Option<String>,
) where
    X: Fn(&String, usize, &String) -> Option<FieldValueKind>,
    M: Fn(&String, [u8; 16]) -> Option<String>,

    requires
        call_ensures(extract, (&rsz_file, id, &target_field), Some(FieldValueKind::Guid(g))),
        call_ensures(message, (&msg_file, g), r),
    ensures
        message_result(
            Some(RowValue::Object(id)),
            extract,
            message,
            rsz_file,
            target_field,
            msg_file,
            r,
        ),
{
}

/// A row that is missing or is not an object gives no text, and so does a
/// field that is not a GUID.
pub proof fn law_no_object_or_guid_gives_none<X, M>(
    row: Option<RowValue>,
    extract: X,
    message: M,
    rsz_file: String,
    target_field: String,
    msg_file: String,
    r: Option<String>,
) where
    X: Fn(&String, usize, &String) -> Option<FieldValueKind>,
    M: Fn(&String, [u8; 16]) -> Option<String>,

    requires
        message_result(row, extract, message, rsz_file, target_field, msg_file, r),
        !(row matches Some(RowValue::Object(_))) || (row matches Some(RowValue::Object(id))
            && forall|fv: Option<FieldValueKind>|
            call_ensures(extract, (&rsz_file, id, &target_field), fv) ==> !(
            fv matches Some(FieldValueKind::Guid(_)))),
    ensures
        r is None,
{
}

/// The cache does not change what a lookup gives: a row taken from the cache
/// and the same row freshly found by the query leave the same results open to
/// a message lookup.
pub proof fn law_cached_row_gives_same_result<X, M>(
    hit_before: Map<(Seq<char>, Seq<char>), RowValue>,
    hit_after: Map<(Seq<char>, Seq<char>), RowValue>,
    miss_before: Map<(Seq<char>, Seq<char>), RowValue>,
    miss_after: Map<(Seq<char>, Seq<char>), RowValue>,
    key: (Seq<char>, Seq<char>),
    row: RowValue,
    extract: X,
    message: M,
    rsz_file: String,
    target_field: String,
    msg_file: String,
    r: Option<String>,
) where
    X: Fn(&String, usize, &String) -> Option<FieldValueKind>,
    M: Fn(&String, [u8; 16]) -> Option<String>,

    requires
        hit_before.contains_key(key),
        hit_before[key] == row,
        !miss_before.contains_key(key),
        row_after(miss_before, miss_after, key) == Some(row),
    ensures
        row_after(hit_before, hit_after, key) == Some(row),
        message_result(
            row_after(hit_before, hit_after, key),
            extract,
            message,
            rsz_file,
            target_field,
            msg_file,
            r,
        ) == message_result(
            row_after(miss_before, miss_after, key),
            extract,
            message,
            rsz_file,
            target_field,
            msg_file,
            r,
        ),
{
}

/// Evaluates remap data sources; remembers the rows that queries found.
pub struct RemapEvaluator {
    query_cache: AssocMap<(String, String), RowValue>,
}

impl View for RemapEvaluator {
    type V = Map<(Seq<char>, Seq<char>), RowValue>;

    closed spec fn view(&self) -> Self::V {
        self.query_cache@
    }
}

impl RemapEvaluator {
    /// An evaluator with an empty cache.
    pub fn new() -> (e: Self)
        ensures
            e@ == Map::<(Seq<char>, Seq<char>), RowValue>::empty(),
    {
        RemapEvaluator { query_cache: AssocMap::new() }
    }

    /// The row that query `query_name` finds for the current value, whose text is
    /// `current_key`. A row found before is taken from the cache; otherwise the
    /// query must be a `RszQuery`, `fetch` runs it, and a row it finds is cached.
    pub fn resolve_query<F>(
        &mut self,
        query_name: &str,
        remap: &Remap,
        current_key: &str,
        fetch: F,
    ) -> (r: Option<RowValue>)
        where
            F: Fn(&String, &String, &String) -> Option<RowValue>,
        requires
            forall|a: &String, b: &String, c: &String| call_requires(fetch, (a, b, c)),
        ensures
            ({
                let key = (query_name@, current_key@);
                if old(self)@.contains_key(key) {
                    r == Some(old(self)@[key]) && final(self)@ == old(self)@
                } else {
                    match remap.queries@.get(query_name@) {
                        Some(DataSource::RszQuery { rsz_file, array_path, match_field }) => {
                            &&& call_ensures(fetch, (&rsz_file, &array_path, &match_field), r)
                            &&& match r {
                                Some(row) => final(self)@ == old(self)@.insert(key, row),
                                None => final(self)@ == old(self)@,
                            }
                        },
                        _ => r is None && final(self)@ == old(self)@,
                    }
                }
            }),
            r == row_after(old(self)@, final(self)@, (query_name@, current_key@)),
            cache_step(old(self)@, final(self)@, (query_name@, current_key@), r),
    {
        let key: (String, String) = (query_name.to_owned(), current_key.to_owned());
        if let Some(row) = self.query_cache.get(&key) {
            return Some(*row);
        }
        let name: String = query_name.to_owned();
        match remap.queries.get(&name) {
            Some(DataSource::RszQuery { rsz_file, array_path, match_field }) => {
                let found = fetch(rsz_file, array_path, match_field);
                if let Some(row) = found {
                    self.query_cache.insert(key, row);
                }
                found
            },
            _ => None,
        }
    }

    /// The text of data source `data_name` of `remap` for the current value, whose
    /// text is `current_key`.
    ///
    /// A `RszQuery` source is shown by `show`. A `MsgLookup` source needs its target
    /// query to be a `RszQuery`: the row it finds (cached, or fetched by `query`)
    /// must be an object, `extract` reads the target field of that object in the
    /// query's file, that field must be a GUID, and `message` looks that GUID up in
    /// the message file. Any missing piece gives `None`.
    pub fn eval_data<Q, X, M, S>(
        &mut self,
        data_name: &str,
        remap: &Remap,
        current_key: &str,
        query: Q,
        extract: X,
        message: M,
        show: S,
    ) -> (r: Option<String>)
        where
            Q: Fn(&String, &String, &String) -> Option<RowValue>,
            X: Fn(&String, usize, &String) -> Option<FieldValueKind>,
            M: Fn(&String, [u8; 16]) -> Option<String>,
            S: Fn(&String, &String, &String) -> Option<String>,
        requires
            forall|a: &String, b: &String, c: &String| call_requires(query, (a, b, c)),
            forall|a: &String, i: usize, c: &String| call_requires(extract, (a, i, c)),
            forall|a: &String, g: [u8; 16]| call_requires(message, (a, g)),
            forall|a: &String, b: &String, c: &String| call_requires(show, (a, b, c)),
        ensures
            match remap.data@.get(data_name@) {
                None => r is None && final(self)@ == old(self)@,
                Some(DataSource::RszQuery { rsz_file, array_path, match_field }) => {
                    &&& call_ensures(show, (&rsz_file, &array_path, &match_field), r)
                    &&& final(self)@ == old(self)@
                },
                Some(DataSource::MsgLookup { msg_file, target_query, target_field }) => {
                    match remap.queries@.get(target_query@) {
                        Some(DataSource::RszQuery { rsz_file, array_path, match_field }) => {
                            let key = (target_query@, current_key@);
                            let row = row_after(old(self)@, final(self)@, key);
                            &&& cache_step(old(self)@, final(self)@, key, row)
                            &&& !old(self)@.contains_key(key) ==> call_ensures(
                                query,
                                (&rsz_file, &array_path, &match_field),
                                row,
                            )
                            &&& message_result(
                                row,
                                extract,
                                message,
                                rsz_file,
                                target_field,
                                msg_file,
                                r,
                            )
                        },
                        _ => r is None && final(self)@ == old(self)@,
                    }
                },
            },
    {
        let name: String = data_name.to_owned();
        match remap.data.get(&name) {
            None => None,
            Some(DataSource::RszQuery { rsz_file, array_path, match_field }) => {
                show(rsz_file, array_path, match_field)
            },
            Some(DataSource::MsgLookup { msg_file, target_query, target_field }) => {
                let source_file = match remap.queries.get(target_query) {
                    Some(DataSource::RszQuery { rsz_file, .. }) => rsz_file,
                    _ => {
                        return None;
                    },
                };
                let row = self.resolve_query(target_query.as_str(), remap, current_key, query);
                let object = match row {
                    Some(RowValue::Object(id)) => id,
                    _ => {
                        return None;
                    },
                };
                let field = extract(source_file, object, target_field);
                assert(call_ensures(extract, (source_file, object, target_field), field));
                match field {
                    Some(FieldValueKind::Guid(guid)) => message(msg_file, guid),
                    _ => None,
                }
            },
        }
    }
}

} // verus!
