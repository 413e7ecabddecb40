//! Shaping query results into columns and rows.
use vstd::prelude::*;

use crate::json::{member_of, text, Json, JsonModel, JsonNumber, NumberModel};

verus! {

/// Column names, rows of cells, and whether the server holds more rows.
pub type QueryOutput = (Vec<String>, Vec<Vec<Json>>, bool);

/// The member names of an object, in order.
pub open spec fn member_names(members: Seq<(Seq<char>, JsonModel)>) -> Seq<Seq<char>> {
    members.map_values(|m: (Seq<char>, JsonModel)| m.0)
}

/// `columns` extended by each name in turn that it does not list yet.
pub open spec fn add_names(columns: Seq<Seq<char>>, names: Seq<Seq<char>>) -> Seq<Seq<char>>
    decreases names.len(),
{
    if names.len() == 0 {
        columns
    } else {
        let next = if columns.contains(names[0]) {
            columns
        } else {
            columns.push(names[0])
        };
        add_names(next, names.drop_first())
    }
}

/// The member names of the object items, in order of first appearance.
pub open spec fn object_columns(items: Seq<JsonModel>) -> Seq<Seq<char>>
    decreases items.len(),
{
    if items.len() == 0 {
        Seq::empty()
    } else {
        let before = object_columns(items.drop_last());
        match items.last() {
            JsonModel::Object(members) => add_names(before, member_names(members)),
            _ => before,
        }
    }
}

/// The columns of a result: the member names of its objects, or a single
/// `value` column when there are items but no member names.
pub open spec fn result_columns(items: Seq<JsonModel>) -> Seq<Seq<char>> {
    let names = object_columns(items);
    if names.len() == 0 && items.len() > 0 {
        seq!["value"@]
    } else {
        names
    }
}

/// The cell of an object for a column: the member's value, or null.
pub open spec fn cell(members: Seq<(Seq<char>, JsonModel)>, column: Seq<char>) -> JsonModel {
    match crate::json::member(members, column) {
        Some(v) => v,
        None => JsonModel::Null,
    }
}

/// The row of one item: an object gives one cell per column, any other
/// value is a row of itself alone.
pub open spec fn result_row(item: JsonModel, columns: Seq<Seq<char>>) -> Seq<JsonModel> {
    match item {
        JsonModel::Object(members) => columns.map_values(|c: Seq<char>| cell(members, c)),
        _ => seq![item],
    }
}

/// No column is listed twice.
pub open spec fn distinct(columns: Seq<Seq<char>>) -> bool {
    forall|i: int, j: int| 0 <= i < j < columns.len() ==> #[trigger] columns[i] != #[trigger] columns[j]
}

// ---------------------------------------------------------------------------
// Lemmas
// ---------------------------------------------------------------------------

proof fn lemma_add_names_props(columns: Seq<Seq<char>>, names: Seq<Seq<char>>)
    ensures
        distinct(columns) ==> distinct(add_names(columns, names)),
        forall|c: Seq<char>| columns.contains(c) ==> add_names(columns, names).contains(c),
        forall|k: int| 0 <= k < names.len() ==> add_names(columns, names).contains(#[trigger] names[k]),
        forall|c: Seq<char>|
            add_names(columns, names).contains(c) ==> columns.contains(c) || names.contains(c),
    decreases names.len(),
{
    if names.len() > 0 {
        let next = if columns.contains(names[0]) {
            columns
        } else {
            columns.push(names[0])
        };
        lemma_add_names_props(next, names.drop_first());
        if !columns.contains(names[0]) {
            assert(next[columns.len() as int] == names[0]);
            assert forall|c: Seq<char>| columns.contains(c) implies next.contains(c) by {
                let i = choose|i: int| 0 <= i < columns.len() && columns[i] == c;
                assert(next[i] == c);
            }
            if distinct(columns) {
                assert forall|i: int, j: int| 0 <= i < j < next.len() implies #[trigger] next[i]
                    != #[trigger] next[j] by {
                    if j == columns.len() && next[i] == next[j] {
                        assert(columns[i] == names[0]);
                    }
                }
            }
        }
        assert(next.contains(names[0])) by {
            if columns.contains(names[0]) {
            } else {
                assert(next[columns.len() as int] == names[0]);
            }
        }
        assert forall|k: int| 0 <= k < names.len() implies add_names(columns, names).contains(
            #[trigger] names[k],
        ) by {
            if k > 0 {
                assert(names.drop_first()[k - 1] == names[k]);
            }
        }
        assert forall|c: Seq<char>| add_names(columns, names).contains(c) implies columns.contains(c)
            || names.contains(c) by {
            if names.drop_first().contains(c) {
                let k = choose|k: int| 0 <= k < names.drop_first().len() && names.drop_first()[k] == c;
                assert(names[k + 1] == c);
            }
            if next.contains(c) && !columns.contains(c) {
                let i = choose|i: int| 0 <= i < next.len() && next[i] == c;
                assert(names[0] == c);
            }
        }
    }
}

/// Law of result columns: no column is listed twice, and every member name
/// of every object item is a column.
pub proof fn lemma_result_columns(items: Seq<JsonModel>)
    ensures
        distinct(result_columns(items)),
        result_columns(items).len() == 0 <==> items.len() == 0,
        forall|i: int, k: int|
            0 <= i < items.len() && items[i] is Object && 0 <= k < items[i]->Object_0.len()
                ==> result_columns(items).contains(#[trigger] items[i]->Object_0[k].0),
    decreases items.len(),
{
    lemma_object_columns(items);
    let names = object_columns(items);
    if names.len() == 0 && items.len() > 0 {
        assert forall|i: int, k: int|
            0 <= i < items.len() && items[i] is Object && 0 <= k < items[i]->Object_0.len()
                implies result_columns(items).contains(#[trigger] items[i]->Object_0[k].0) by {
            assert(names.contains(items[i]->Object_0[k].0));
        }
    }
}

proof fn lemma_object_columns(items: Seq<JsonModel>)
    ensures
        distinct(object_columns(items)),
        forall|i: int, k: int|
            0 <= i < items.len() && items[i] is Object && 0 <= k < items[i]->Object_0.len()
                ==> object_columns(items).contains(#[trigger] items[i]->Object_0[k].0),
    decreases items.len(),
{
    if items.len() > 0 {
        let prev = items.drop_last();
        lemma_object_columns(prev);
        let before = object_columns(prev);
        assert forall|i: int, k: int|
            0 <= i < items.len() && items[i] is Object && 0 <= k < items[i]->Object_0.len()
                implies object_columns(items).contains(#[trigger] items[i]->Object_0[k].0) by {
            if let JsonModel::Object(members) = items.last() {
                lemma_add_names_props(before, member_names(members));
                if i == items.len() - 1 {
                    assert(member_names(members)[k] == members[k].0);
                } else {
                    assert(prev[i] == items[i]);
                    assert(before.contains(items[i]->Object_0[k].0));
                }
            } else {
                assert(prev[i] == items[i]);
            }
        }
        if let JsonModel::Object(members) = items.last() {
            lemma_add_names_props(before, member_names(members));
        }
    }
}

proof fn lemma_add_names_step(columns: Seq<Seq<char>>, names: Seq<Seq<char>>, k: int)
    requires
        0 <= k < names.len(),
    ensures
        add_names(columns, names.skip(k)) == add_names(
            if columns.contains(names[k]) {
                columns
            } else {
                columns.push(names[k])
            },
            names.skip(k + 1),
        ),
{
    assert(names.skip(k)[0] == names[k]);
    assert(names.skip(k).drop_first() =~= names.skip(k + 1));
}

// ---------------------------------------------------------------------------
// Executable functions
// ---------------------------------------------------------------------------

fn contains_name(columns: &Vec<String>, name: &String) -> (b: bool)
    ensures
        b == crate::text::views(columns@).contains(name@),
{
    let ghost vs = crate::text::views(columns@);
    let mut i: usize = 0;
    while i < columns.len()
        invariant
            i <= columns.len(),
            vs == crate::text::views(columns@),
            forall|k: int| 0 <= k < i ==> vs[k] != name@,
        decreases columns.len() - i,
    {
        if columns[i] == *name {
            assert(vs[i as int] == name@);
            return true;
        }
        i = i + 1;
    }
    false
}

/// Columns and rows of a query result (see `result_columns` and
/// `result_row`): one row per item, in order.
pub fn rows_from_result(items: Vec<Json>, truncated: bool) -> (out: QueryOutput)
    requires
        crate::json::objects_in_key_order(crate::json::models(items@)),
    ensures
        crate::text::views(out.0@) == result_columns(crate::json::models(items@)),
        out.1.len() == items.len(),
        forall|i: int|
            0 <= i < items.len() ==> crate::json::models((#[trigger] out.1@[i])@) == result_row(
                items@[i]@,
                crate::text::views(out.0@),
            ),
        out.2 == truncated,
{
    let ghost ms = crate::json::models(items@);
    let mut columns: Vec<String> = Vec::new();
    let mut i: usize = 0;
    assert(ms.take(0) =~= Seq::<JsonModel>::empty());
    assert(crate::text::views(columns@) =~= Seq::<Seq<char>>::empty());
    while i < items.len()
        invariant
            i <= items.len(),
            ms == crate::json::models(items@),
            crate::text::views(columns@) == object_columns(ms.take(i as int)),
        decreases items.len() - i,
    {
        let ghost before = crate::text::views(columns@);
        proof {
            assert(ms.take(i + 1).drop_last() =~= ms.take(i as int));
            assert(ms.take(i + 1).last() == items@[i as int]@);
        }
        if let Json::Object(members) = &items[i] {
            let ghost names = member_names(crate::json::members_model(members@));
            proof {
                crate::json::lemma_members_model(members@);
                assert(names.skip(0) =~= names);
            }
            let mut k: usize = 0;
            while k < members.len()
                invariant
                    k <= members.len(),
                    names == member_names(crate::json::members_model(members@)),
                    names.len() == members.len(),
                    forall|m: int| 0 <= m < members.len() ==> #[trigger] names[m] == members@[m].0@,
                    add_names(crate::text::views(columns@), names.skip(k as int)) == add_names(
                        before,
                        names,
                    ),
                decreases members.len() - k,
            {
                proof {
                    lemma_add_names_step(crate::text::views(columns@), names, k as int);
                }
                let key = &members[k].0;
                if !contains_name(&columns, key) {
                    let ghost pre = crate::text::views(columns@);
                    columns.push(key.clone());
                    assert(crate::text::views(columns@) =~= pre.push(key@));
                }
                k = k + 1;
            }
            assert(names.skip(k as int) =~= Seq::<Seq<char>>::empty());
        }
        i = i + 1;
    }
    assert(ms.take(items.len() as int) =~= ms);
    if columns.len() == 0 && items.len() > 0 {
        columns.push("value".to_owned());
        assert(crate::text::views(columns@) =~= seq!["value"@]);
    }
    let ghost cols = crate::text::views(columns@);
    let mut rows: Vec<Vec<Json>> = Vec::new();
    let mut i: usize = 0;
    while i < items.len()
        invariant
            i <= items.len(),
            ms == crate::json::models(items@),
            cols == crate::text::views(columns@),
            rows.len() == i,
            forall|t: int|
                0 <= t < i ==> crate::json::models((#[trigger] rows@[t])@) == result_row(
                    items@[t]@,
                    cols,
                ),
        decreases items.len() - i,
    {
        let item = &items[i];
        let mut row: Vec<Json> = Vec::new();
        match item {
            Json::Object(members) => {
                let mut c: usize = 0;
                while c < columns.len()
                    invariant
                        c <= columns.len(),
                        cols == crate::text::views(columns@),
                        *item == Json::Object(*members),
                        row.len() == c,
                        forall|t: int|
                            0 <= t < c ==> (#[trigger] row@[t])@ == cell(
                                crate::json::members_model(members@),
                                cols[t],
                            ),
                    decreases columns.len() - c,
                {
                    match item.get(columns[c].as_str()) {
                        Some(v) => row.push(v.duplicate()),
                        None => row.push(Json::Null),
                    }
                    c = c + 1;
                }
                assert(crate::json::models(row@) =~= result_row(item@, cols));
            },
            _ => {
                row.push(item.duplicate());
                assert(crate::json::models(row@) =~= result_row(item@, cols));
            },
        }
        rows.push(row);
        i = i + 1;
    }
    (columns, rows, truncated)
}

// ---------------------------------------------------------------------------
// Cursor requests and replies
// ---------------------------------------------------------------------------

/// The body of a cursor request: the statement, the batch size, and a
/// request for the total count (members in key order).
pub open spec fn cursor_body_spec(statement: Seq<char>, cap: usize) -> JsonModel {
    JsonModel::Object(
        seq![
            ("batchSize"@, JsonModel::Number(NumberModel::PosInt(cap as u64))),
            ("count"@, JsonModel::Bool(true)),
            ("query"@, JsonModel::Str(statement)),
        ],
    )
}

/// The items of a cursor reply: its `result` array, or none.
pub open spec fn cursor_items(reply: JsonModel) -> Seq<JsonModel> {
    match crate::json::as_array_spec(crate::json::get_spec(reply, "result"@)) {
        Some(items) => items,
        None => Seq::empty(),
    }
}

/// Whether a cursor reply says that more rows wait on the server.
pub open spec fn cursor_has_more(reply: JsonModel) -> bool {
    match crate::json::as_bool_spec(crate::json::get_spec(reply, "hasMore"@)) {
        Some(b) => b,
        None => false,
    }
}

/// The server version line: `ArangoDB <version>` when the reply names a
/// version, `ArangoDB` otherwise.
pub open spec fn version_label_spec(reply: JsonModel) -> Seq<char> {
    match crate::json::as_str_spec(crate::json::get_spec(reply, "version"@)) {
        Some(v) => "ArangoDB "@ + v,
        None => "ArangoDB"@,
    }
}

/// The body of a cursor request for `statement`, asking for batches of
/// `cap` rows and for the total count.
pub fn cursor_request_body(statement: &str, cap: usize) -> (body: Json)
    ensures
        body@ == cursor_body_spec(statement@, cap),
{
    let mut members: Vec<(String, Json)> = Vec::new();
    members.push(member_of("batchSize", Json::Number(JsonNumber::PosInt(cap as u64))));
    members.push(member_of("count", Json::Bool(true)));
    members.push(member_of("query", text(statement)));
    proof {
        crate::json::lemma_object_model(
            members@,
            seq![
                ("batchSize"@, JsonModel::Number(NumberModel::PosInt(cap as u64))),
                ("count"@, JsonModel::Bool(true)),
                ("query"@, JsonModel::Str(statement@)),
            ],
        );
    }
    Json::Object(members)
}

/// Columns and rows of a cursor reply: the rows of its `result` items, and
/// its `hasMore` flag as the truncation mark.
pub fn cursor_output(reply: &Json) -> (out: QueryOutput)
    requires
        crate::json::objects_in_key_order(cursor_items(reply@)),
    ensures
        crate::text::views(out.0@) == result_columns(cursor_items(reply@)),
        out.1.len() == cursor_items(reply@).len(),
        forall|i: int|
            0 <= i < cursor_items(reply@).len() ==> crate::json::models((#[trigger] out.1@[i])@)
                == result_row(cursor_items(reply@)[i], crate::text::views(out.0@)),
        out.2 == cursor_has_more(reply@),
{
    let mut items: Vec<Json> = Vec::new();
    match reply.get("result") {
        Some(v) => match v.as_array() {
            Some(array) => {
                proof {
                    crate::json::lemma_items_model(array@);
                }
                let mut i: usize = 0;
                while i < array.len()
                    invariant
                        i <= array.len(),
                        items.len() == i,
                        forall|k: int| 0 <= k < i ==> (#[trigger] items@[k])@ == array@[k]@,
                    decreases array.len() - i,
                {
                    items.push(array[i].duplicate());
                    i = i + 1;
                }
                assert(crate::json::models(items@) =~= cursor_items(reply@));
            },
            None => {
                assert(crate::json::models(items@) =~= cursor_items(reply@));
            },
        },
        None => {
            assert(crate::json::models(items@) =~= cursor_items(reply@));
        },
    }
    let more = match reply.get("hasMore") {
        Some(v) => match v.as_bool() {
            Some(b) => b,
            None => false,
        },
        None => false,
    };
    rows_from_result(items, more)
}

/// Whether the object items of a cursor reply list their members in key
/// order, as those of a parsed reply do.
pub fn result_items_ordered(reply: &Json) -> (b: bool)
    ensures
        b == crate::json::objects_in_key_order(cursor_items(reply@)),
{
    match reply.get("result") {
        Some(v) => match v.as_array() {
            Some(array) => {
                proof {
                    crate::json::lemma_items_model(array@);
                    assert(crate::json::models(array@) =~= cursor_items(reply@));
                }
                crate::json::objects_ordered(array)
            },
            None => true,
        },
        None => true,
    }
}

/// The server version line of a version reply (see `version_label_spec`).
pub fn version_label(reply: &Json) -> (label: String)
    ensures
        label@ == version_label_spec(reply@),
{
    match reply.get("version") {
        Some(v) => match v.as_str() {
            Some(version) => {
                let mut label = "ArangoDB ".to_owned();
                label.append(version);
                label
            },
            None => "ArangoDB".to_owned(),
        },
        None => "ArangoDB".to_owned(),
    }
}

// ---------------------------------------------------------------------------
// Collection metadata
// ---------------------------------------------------------------------------

/// The description of one fixed column of a collection.
pub open spec fn column_spec(name: Seq<char>, data_type: Seq<char>, nullable: bool, ordinal: u64) -> JsonModel {
    JsonModel::Object(
        seq![
            ("dataType"@, JsonModel::Str(data_type)),
            ("name"@, JsonModel::Str(name)),
            ("nullable"@, JsonModel::Bool(nullable)),
            ("ordinal"@, JsonModel::Number(NumberModel::PosInt(ordinal))),
        ],
    )
}

/// The fixed columns of every collection: `_key`, `_id`, `_rev`, `document`.
pub open spec fn collection_columns() -> Seq<JsonModel> {
    seq![
        column_spec("_key"@, "string"@, false, 1),
        column_spec("_id"@, "string"@, false, 2),
        column_spec("_rev"@, "string"@, false, 3),
        column_spec("document"@, "json"@, true, 4),
    ]
}

/// Type 3 marks an edge collection; any other is a document collection.
pub open spec fn collection_kind(collection: JsonModel) -> Seq<char> {
    if crate::json::as_i64_spec(crate::json::get_spec(collection, "type"@)) == Some(3int) {
        "edgeCollection"@
    } else {
        "documentCollection"@
    }
}

/// The description of a collection that has a name (members in key order).
pub open spec fn collection_object(database: Seq<char>, collection: JsonModel) -> Option<JsonModel> {
    match crate::json::as_str_spec(crate::json::get_spec(collection, "name"@)) {
        Some(name) => Some(
            JsonModel::Object(
                seq![
                    ("columns"@, JsonModel::Array(collection_columns())),
                    ("details"@, collection),
                    ("foreignKeys"@, JsonModel::Array(Seq::empty())),
                    ("indexes"@, JsonModel::Array(Seq::empty())),
                    ("kind"@, JsonModel::Str(collection_kind(collection))),
                    ("name"@, JsonModel::Str(name)),
                    (
                        "primaryKey"@,
                        JsonModel::Array(
                            seq![
                                JsonModel::Object(
                                    seq![
                                        ("keyType"@, JsonModel::Str("primary"@)),
                                        ("name"@, JsonModel::Str("_key"@)),
                                    ],
                                ),
                            ],
                        ),
                    ),
                    ("schema"@, JsonModel::Str(database)),
                ],
            ),
        ),
        None => None,
    }
}

/// The descriptions of the named collections, in order; unnamed ones are skipped.
pub open spec fn collection_objects(database: Seq<char>, collections: Seq<JsonModel>) -> Seq<JsonModel>
    decreases collections.len(),
{
    if collections.len() == 0 {
        Seq::empty()
    } else {
        let before = collection_objects(database, collections.drop_last());
        match collection_object(database, collections.last()) {
            Some(o) => before.push(o),
            None => before,
        }
    }
}

/// The metadata document of a collection listing: one schema named after
/// the database, holding the descriptions of the collections.
pub open spec fn metadata_spec(database: Seq<char>, listing: JsonModel) -> JsonModel {
    let collections = cursor_items(listing);
    JsonModel::Object(
        seq![
            (
                "schemas"@,
                JsonModel::Array(
                    seq![
                        JsonModel::Object(
                            seq![
                                ("name"@, JsonModel::Str(database)),
                                ("objects"@, JsonModel::Array(collection_objects(database, collections))),
                            ],
                        ),
                    ],
                ),
            ),
        ],
    )
}

fn column_json(name: &str, data_type: &str, nullable: bool, ordinal: u64) -> (j: Json)
    ensures
        j@ == column_spec(name@, data_type@, nullable, ordinal),
{
    let mut members: Vec<(String, Json)> = Vec::new();
    members.push(member_of("dataType", text(data_type)));
    members.push(member_of("name", text(name)));
    members.push(member_of("nullable", Json::Bool(nullable)));
    members.push(member_of("ordinal", Json::Number(JsonNumber::PosInt(ordinal))));
    proof {
        crate::json::lemma_object_model(
            members@,
            seq![
                ("dataType"@, JsonModel::Str(data_type@)),
                ("name"@, JsonModel::Str(name@)),
                ("nullable"@, JsonModel::Bool(nullable)),
                ("ordinal"@, JsonModel::Number(NumberModel::PosInt(ordinal))),
            ],
        );
    }
    Json::Object(members)
}

fn collection_json(database: &str, collection: &Json) -> (r: Option<Json>)
    ensures
        match r {
            Some(j) => collection_object(database@, collection@) == Some(j@),
            None => collection_object(database@, collection@) is None,
        },
{
    let name = match collection.get("name") {
        Some(v) => match v.as_str() {
            Some(n) => n,
            None => {
                return None;
            },
        },
        None => {
            return None;
        },
    };
    let mut columns: Vec<Json> = Vec::new();
    columns.push(column_json("_key", "string", false, 1));
    columns.push(column_json("_id", "string", false, 2));
    columns.push(column_json("_rev", "string", false, 3));
    columns.push(column_json("document", "json", true, 4));
    proof {
        crate::json::lemma_array_model(columns@, collection_columns());
    }
    let edge = match collection.get("type") {
        Some(t) => match t.as_i64() {
            Some(n) => n == 3,
            None => false,
        },
        None => false,
    };
    let kind = if edge {
        "edgeCollection"
    } else {
        "documentCollection"
    };
    assert(kind@ == collection_kind(collection@));
    let mut key_members: Vec<(String, Json)> = Vec::new();
    key_members.push(member_of("keyType", text("primary")));
    key_members.push(member_of("name", text("_key")));
    let ghost key_model = JsonModel::Object(
        seq![("keyType"@, JsonModel::Str("primary"@)), ("name"@, JsonModel::Str("_key"@))],
    );
    proof {
        crate::json::lemma_object_model(
            key_members@,
            seq![("keyType"@, JsonModel::Str("primary"@)), ("name"@, JsonModel::Str("_key"@))],
        );
    }
    let mut primary: Vec<Json> = Vec::new();
    primary.push(Json::Object(key_members));
    proof {
        crate::json::lemma_array_model(primary@, seq![key_model]);
    }
    let foreign: Vec<Json> = Vec::new();
    let indexes: Vec<Json> = Vec::new();
    proof {
        crate::json::lemma_array_model(foreign@, Seq::empty());
        crate::json::lemma_array_model(indexes@, Seq::empty());
    }
    let mut members: Vec<(String, Json)> = Vec::new();
    members.push(member_of("columns", Json::Array(columns)));
    members.push(member_of("details", collection.duplicate()));
    members.push(member_of("foreignKeys", Json::Array(foreign)));
    members.push(member_of("indexes", Json::Array(indexes)));
    members.push(member_of("kind", text(kind)));
    members.push(member_of("name", text(name)));
    members.push(member_of("primaryKey", Json::Array(primary)));
    members.push(member_of("schema", text(database)));
    proof {
        crate::json::lemma_object_model(
            members@,
            collection_object(database@, collection@).unwrap()->Object_0,
        );
    }
    Some(Json::Object(members))
}

/// The metadata document of a collection listing (see `metadata_spec`).
pub fn metadata_from_collections(database: &str, listing: &Json) -> (r: Json)
    ensures
        r@ == metadata_spec(database@, listing@),
{
    let ghost collections = cursor_items(listing@);
    let mut objects: Vec<Json> = Vec::new();
    let empty: Vec<Json> = Vec::new();
    let array = match listing.get("result") {
        Some(v) => match v.as_array() {
            Some(a) => a,
            None => &empty,
        },
        None => &empty,
    };
    proof {
        crate::json::lemma_items_model(array@);
        crate::json::lemma_items_model(empty@);
        assert(crate::json::items_model(array@) == collections);
    }
    let mut i: usize = 0;
    assert(collections.take(0) =~= Seq::<JsonModel>::empty());
    while i < array.len()
        invariant
            i <= array.len(),
            collections == crate::json::items_model(array@),
            collections.len() == array.len(),
            forall|k: int| 0 <= k < array.len() ==> #[trigger] collections[k] == array@[k]@,
            crate::json::models(objects@) == collection_objects(database@, collections.take(i as int)),
        decreases array.len() - i,
    {
        let ghost before = crate::json::models(objects@);
        proof {
            assert(collections.take(i + 1).drop_last() =~= collections.take(i as int));
            assert(collections.take(i + 1).last() == array@[i as int]@);
        }
        match collection_json(database, &array[i]) {
            Some(o) => {
                let ghost ov = o@;
                objects.push(o);
                assert(crate::json::models(objects@) =~= before.push(ov));
            },
            None => {},
        }
        i = i + 1;
    }
    assert(collections.take(array.len() as int) =~= collections);
    let ghost objects_model = collection_objects(database@, collections);
    proof {
        crate::json::lemma_array_model(objects@, objects_model);
    }
    let mut schema_members: Vec<(String, Json)> = Vec::new();
    schema_members.push(member_of("name", text(database)));
    schema_members.push(member_of("objects", Json::Array(objects)));
    let ghost schema_model = JsonModel::Object(
        seq![("name"@, JsonModel::Str(database@)), ("objects"@, JsonModel::Array(objects_model))],
    );
    proof {
        crate::json::lemma_object_model(
            schema_members@,
            seq![("name"@, JsonModel::Str(database@)), ("objects"@, JsonModel::Array(objects_model))],
        );
    }
    let mut schemas: Vec<Json> = Vec::new();
    schemas.push(Json::Object(schema_members));
    proof {
        crate::json::lemma_array_model(schemas@, seq![schema_model]);
    }
    let mut top: Vec<(String, Json)> = Vec::new();
    top.push(member_of("schemas", Json::Array(schemas)));
    proof {
        crate::json::lemma_object_model(top@, metadata_spec(database@, listing@)->Object_0);
    }
    Json::Object(top)
}

// ---------------------------------------------------------------------------
// Laws of cursor replies and collection descriptions
// ---------------------------------------------------------------------------

/// Law of truncation: the output of a cursor reply is marked truncated
/// exactly when the reply's `hasMore` member is the boolean `true`; `false`,
/// any other value, or no such member leaves it unmarked.
pub proof fn lemma_cursor_truncated(reply: JsonModel)
    ensures
        cursor_has_more(reply) <==> crate::json::get_spec(reply, "hasMore"@) == Some(
            JsonModel::Bool(true),
        ),
{
}

/// Law of cursor rows: the items of a cursor reply are exactly the items of
/// its `result` array, and there are none when `result` is not an array.
pub proof fn lemma_cursor_items(reply: JsonModel)
    ensures
        crate::json::get_spec(reply, "result"@) matches Some(JsonModel::Array(items)) ==> cursor_items(reply) == items,
        !(crate::json::get_spec(reply, "result"@) matches Some(JsonModel::Array(_))) ==> cursor_items(reply).len() == 0,
{
}

/// Law of collection kinds: a collection is an edge collection exactly when
/// its `type` member is the integer 3; every other collection (ArangoDB's
/// document type 2, a missing type, a non-integer) is a document collection.
pub proof fn lemma_collection_kind(collection: JsonModel)
    ensures
        collection_kind(collection) == "edgeCollection"@ || collection_kind(collection)
            == "documentCollection"@,
        collection_kind(collection) == "edgeCollection"@ <==> (crate::json::get_spec(collection, "type"@)
            == Some(JsonModel::Number(NumberModel::PosInt(3))) || crate::json::get_spec(collection, "type"@)
            == Some(JsonModel::Number(NumberModel::NegInt(3)))),
        crate::json::get_spec(collection, "type"@) == Some(JsonModel::Number(NumberModel::PosInt(2)))
            ==> collection_kind(collection) == "documentCollection"@,
{
    reveal_strlit("edgeCollection");
    reveal_strlit("documentCollection");
    assert("edgeCollection"@.len() != "documentCollection"@.len());
}

/// Law of collection descriptions: exactly the collections with a string
/// `name` are described, and the description carries that name, the
/// database as its schema, the collection itself as its details, and its
/// kind.
pub proof fn lemma_collection_object(database: Seq<char>, collection: JsonModel)
    ensures
        collection_object(database, collection) is Some <==> crate::json::get_spec(collection, "name"@)
            matches Some(JsonModel::Str(_)),
        crate::json::get_spec(collection, "name"@) matches Some(JsonModel::Str(name)) ==> {
            &&& collection_object(database, collection) matches Some(JsonModel::Object(members))
            &&& crate::json::member(members, "name"@) == Some(JsonModel::Str(name))
            &&& crate::json::member(members, "schema"@) == Some(JsonModel::Str(database))
            &&& crate::json::member(members, "details"@) == Some(collection)
            &&& crate::json::member(members, "kind"@) == Some(JsonModel::Str(collection_kind(collection)))
        },
{
    reveal_strlit("columns");
    reveal_strlit("details");
    reveal_strlit("foreignKeys");
    reveal_strlit("indexes");
    reveal_strlit("kind");
    reveal_strlit("name");
    reveal_strlit("primaryKey");
    reveal_strlit("schema");
    if let Some(JsonModel::Str(name)) = crate::json::get_spec(collection, "name"@) {
        let members = collection_object(database, collection).unwrap()->Object_0;
        assert("columns"@[0] != "details"@[0]);
        assert("kind"@[0] != "name"@[0]);
        assert("columns"@.len() != "kind"@.len() && "details"@.len() != "kind"@.len());
        assert("foreignKeys"@.len() != "kind"@.len() && "indexes"@.len() != "kind"@.len());
        assert("columns"@.len() != "schema"@.len() && "details"@.len() != "schema"@.len());
        assert("foreignKeys"@.len() != "schema"@.len() && "indexes"@.len() != "schema"@.len());
        assert("kind"@.len() != "schema"@.len() && "name"@.len() != "schema"@.len());
        assert("primaryKey"@.len() != "schema"@.len());
        let m1 = members.drop_first();
        let m2 = m1.drop_first();
        let m3 = m2.drop_first();
        let m4 = m3.drop_first();
        let m5 = m4.drop_first();
        let m6 = m5.drop_first();
        let m7 = m6.drop_first();
        assert(members[0].0 == "columns"@);
        assert(m1[0].0 == "details"@);
        assert(crate::json::member(m1, "details"@) == Some(collection));
        assert(crate::json::member(members, "details"@) == Some(collection));
        assert(m4[0].0 == "kind"@);
        assert(crate::json::member(m4, "kind"@) == Some(JsonModel::Str(collection_kind(collection))));
        assert(crate::json::member(m3, "kind"@) == crate::json::member(m4, "kind"@));
        assert(crate::json::member(m2, "kind"@) == crate::json::member(m3, "kind"@));
        assert(crate::json::member(m1, "kind"@) == crate::json::member(m2, "kind"@));
        assert(m5[0].0 == "name"@);
        assert(crate::json::member(m5, "name"@) == Some(JsonModel::Str(name)));
        assert(crate::json::member(m4, "name"@) == crate::json::member(m5, "name"@));
        assert(crate::json::member(m3, "name"@) == crate::json::member(m4, "name"@));
        assert(crate::json::member(m2, "name"@) == crate::json::member(m3, "name"@));
        assert(crate::json::member(m1, "name"@) == crate::json::member(m2, "name"@));
        assert(m7[0].0 == "schema"@);
        assert(crate::json::member(m7, "schema"@) == Some(JsonModel::Str(database)));
        assert(crate::json::member(m6, "schema"@) == crate::json::member(m7, "schema"@));
        assert(crate::json::member(m5, "schema"@) == crate::json::member(m6, "schema"@));
        assert(crate::json::member(m4, "schema"@) == crate::json::member(m5, "schema"@));
        assert(crate::json::member(m3, "schema"@) == crate::json::member(m4, "schema"@));
        assert(crate::json::member(m2, "schema"@) == crate::json::member(m3, "schema"@));
        assert(crate::json::member(m1, "schema"@) == crate::json::member(m2, "schema"@));
    }
}

/// Law of rows: the cell of an object item under a column is the item's
/// member of that name, or null when it has none; any other item is a row
/// of itself alone.
pub proof fn lemma_result_row(item: JsonModel, columns: Seq<Seq<char>>, j: int)
    requires
        0 <= j < columns.len(),
    ensures
        item matches JsonModel::Object(members) ==> {
            &&& result_row(item, columns).len() == columns.len()
            &&& crate::json::member(members, columns[j]) matches Some(v) ==> result_row(item, columns)[j] == v
            &&& crate::json::member(members, columns[j]) is None ==> result_row(item, columns)[j] == JsonModel::Null
        },
        !(item is Object) ==> result_row(item, columns) == seq![item],
{
}

proof fn lemma_no_names(items: Seq<JsonModel>)
    requires
        forall|i: int| 0 <= i < items.len() ==> !(#[trigger] items[i] matches JsonModel::Object(m) && m.len() > 0),
    ensures
        object_columns(items).len() == 0,
    decreases items.len(),
{
    if items.len() > 0 {
        let prev = items.drop_last();
        assert forall|i: int| 0 <= i < prev.len() implies !(#[trigger] prev[i] matches JsonModel::Object(m) && m.len() > 0) by {
            assert(prev[i] == items[i]);
        }
        lemma_no_names(prev);
        if let JsonModel::Object(members) = items.last() {
            assert(members.len() == 0);
            assert(member_names(members).len() == 0);
        }
    }
}

/// Law of the value column: items none of which is an object with members
/// are shown under the single column `value`.
pub proof fn lemma_value_column(items: Seq<JsonModel>)
    requires
        items.len() > 0,
        forall|i: int| 0 <= i < items.len() ==> !(#[trigger] items[i] matches JsonModel::Object(m) && m.len() > 0),
    ensures
        result_columns(items) == seq!["value"@],
{
    lemma_no_names(items);
}

} // verus!
