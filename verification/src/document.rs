//! TOML documents, as deep as manifests and lockfiles are read.
use crate::text::{is_same, texts};
use toml::{Table, Value};
use vstd::prelude::*;

verus! {

/// A value at the end of a path, as a string and as a boolean where it is one; nothing
/// else is read.
pub struct Scalar {
    pub text: Option<String>,
    pub boolean: Option<bool>,
}

/// The keys of a table, each with its value.
pub type Fields = Vec<(String, Scalar)>;

/// What stands under a key at the top of a document, as a table and as a list where it is
/// one. An item of a list that is no table is `None`.
pub struct Entry {
    pub table: Option<Fields>,
    pub list: Option<Vec<Option<Fields>>>,
}

/// A document: its keys at the top, each with what stands under it.
pub struct Document {
    pub entries: Vec<(String, Entry)>,
}

/// What a [`Scalar`] holds.
pub struct ScalarView {
    pub text: Option<Seq<char>>,
    pub boolean: Option<bool>,
}

/// What the fields of a table hold.
pub type FieldsView = Seq<(Seq<char>, ScalarView)>;

/// What an [`Entry`] holds.
pub struct EntryView {
    pub table: Option<FieldsView>,
    pub list: Option<Seq<Option<FieldsView>>>,
}

/// What a [`Document`] holds.
pub type DocumentView = Seq<(Seq<char>, EntryView)>;

impl View for Scalar {
    type V = ScalarView;

    open spec fn view(&self) -> ScalarView {
        ScalarView {
            text: match self.text {
                Some(s) => Some(s@),
                None => None,
            },
            boolean: self.boolean,
        }
    }
}

/// What fields hold.
pub open spec fn fields_view(fields: Seq<(String, Scalar)>) -> FieldsView {
    fields.map_values(|f: (String, Scalar)| (f.0@, f.1@))
}

/// What the fields of a table that may be missing hold.
pub open spec fn table_view(table: Option<Fields>) -> Option<FieldsView> {
    match table {
        Some(fields) => Some(fields_view(fields@)),
        None => None,
    }
}

/// What the items of a list hold.
pub open spec fn items_view(items: Seq<Option<Fields>>) -> Seq<Option<FieldsView>> {
    items.map_values(|item: Option<Fields>| table_view(item))
}

impl View for Entry {
    type V = EntryView;

    open spec fn view(&self) -> EntryView {
        EntryView {
            table: table_view(self.table),
            list: match self.list {
                Some(items) => Some(items_view(items@)),
                None => None,
            },
        }
    }
}

impl View for Document {
    type V = DocumentView;

    open spec fn view(&self) -> DocumentView {
        self.entries@.map_values(|e: (String, Entry)| (e.0@, e.1@))
    }
}

/// What stands under `key`.
pub open spec fn lookup<V>(entries: Seq<(Seq<char>, V)>, key: Seq<char>) -> Option<V>
    decreases entries.len(),
{
    if entries.len() == 0 {
        None
    } else if entries[0].0 == key {
        Some(entries[0].1)
    } else {
        lookup(entries.drop_first(), key)
    }
}

/// The string that stands under `key`, where a string does.
pub open spec fn text_at(fields: FieldsView, key: Seq<char>) -> Option<Seq<char>> {
    match lookup(fields, key) {
        Some(value) => value.text,
        None => None,
    }
}

/// `true` stands under `key`.
pub open spec fn true_at(fields: FieldsView, key: Seq<char>) -> bool {
    match lookup(fields, key) {
        Some(value) => value.boolean == Some(true),
        None => false,
    }
}

/// The table that stands under `key`, where a table does.
pub open spec fn table_at(document: DocumentView, key: Seq<char>) -> Option<FieldsView> {
    match lookup(document, key) {
        Some(entry) => entry.table,
        None => None,
    }
}

/// The list that stands under `key`, where a list does.
pub open spec fn list_at(document: DocumentView, key: Seq<char>) -> Option<
    Seq<Option<FieldsView>>,
> {
    match lookup(document, key) {
        Some(entry) => entry.list,
        None => None,
    }
}

/// The keys of a table.
pub open spec fn field_keys(fields: FieldsView) -> Seq<Seq<char>> {
    fields.map_values(|f: (Seq<char>, ScalarView)| f.0)
}

/// The entry under the first key that is `key` is the one that is found, whatever other
/// keys there are, and nothing is found where no key is.
pub proof fn lookup_finds_first<V>(entries: Seq<(Seq<char>, V)>, key: Seq<char>, at: int)
    requires
        0 <= at <= entries.len(),
        forall|k: int| 0 <= k < at ==> (#[trigger] entries[k]).0 != key,
        at < entries.len() ==> entries[at].0 == key,
    ensures
        lookup(entries, key) == if at < entries.len() {
            Some(entries[at].1)
        } else {
            None
        },
    decreases entries.len(),
{
    if at > 0 {
        assert(entries[0].0 != key);
        let rest = entries.drop_first();
        assert forall|k: int| 0 <= k < at - 1 implies (#[trigger] rest[k]).0 != key by {
            assert(rest[k] == entries[k + 1]);
        }
        lookup_finds_first(rest, key, at - 1);
    }
}

/// Finds the field under `key`.
fn find_field<'a>(fields: &'a Fields, key: &str) -> (r: Option<&'a Scalar>)
    ensures
        match r {
            Some(value) => lookup(fields_view(fields@), key@) == Some(value@),
            None => lookup(fields_view(fields@), key@) is None,
        },
{
    for i in 0..fields.len()
        invariant
            forall|k: int| 0 <= k < i ==> (#[trigger] fields_view(fields@)[k]).0 != key@,
    {
        if is_same(fields[i].0.as_str(), key) {
            proof {
                lookup_finds_first(fields_view(fields@), key@, i as int);
            }
            return Some(&fields[i].1);
        }
    }
    proof {
        lookup_finds_first(fields_view(fields@), key@, fields@.len() as int);
    }
    None
}

/// Finds the string under `key`.
pub fn find_text<'a>(fields: &'a Fields, key: &str) -> (r: Option<&'a String>)
    ensures
        match r {
            Some(s) => text_at(fields_view(fields@), key@) == Some(s@),
            None => text_at(fields_view(fields@), key@) is None,
        },
{
    match find_field(fields, key) {
        Some(value) => match &value.text {
            Some(s) => Some(s),
            None => None,
        },
        None => None,
    }
}

/// Tells whether `true` stands under `key`.
pub fn is_true_at(fields: &Fields, key: &str) -> (r: bool)
    ensures
        r == true_at(fields_view(fields@), key@),
{
    match find_field(fields, key) {
        Some(value) => match value.boolean {
            Some(b) => b,
            None => false,
        },
        None => false,
    }
}

/// Lists the keys of a table.
pub fn keys_of(fields: &Fields) -> (r: Vec<String>)
    ensures
        texts(r@) == field_keys(fields_view(fields@)),
{
    let mut r: Vec<String> = Vec::new();
    for i in 0..fields.len()
        invariant
            texts(r@) == field_keys(fields_view(fields@)).take(i as int),
    {
        let ghost before = texts(r@);
        r.push(fields[i].0.clone());
        assert(texts(r@) =~= before.push(fields@[i as int].0@));
    }
    assert(field_keys(fields_view(fields@)).take(fields@.len() as int) =~= field_keys(
        fields_view(fields@),
    ));
    r
}

impl Document {
    /// Finds what stands under `key` at the top.
    fn find(&self, key: &str) -> (r: Option<&Entry>)
        ensures
            match r {
                Some(entry) => lookup(self@, key@) == Some(entry@),
                None => lookup(self@, key@) is None,
            },
    {
        for i in 0..self.entries.len()
            invariant
                forall|k: int| 0 <= k < i ==> (#[trigger] self@[k]).0 != key@,
        {
            if is_same(self.entries[i].0.as_str(), key) {
                proof {
                    lookup_finds_first(self@, key@, i as int);
                }
                return Some(&self.entries[i].1);
            }
        }
        proof {
            lookup_finds_first(self@, key@, self.entries@.len() as int);
        }
        None
    }

    /// Finds the table under `key`.
    pub fn table(&self, key: &str) -> (r: Option<&Fields>)
        ensures
            match r {
                Some(fields) => table_at(self@, key@) == Some(fields_view(fields@)),
                None => table_at(self@, key@) is None,
            },
    {
        match self.find(key) {
            Some(entry) => match &entry.table {
                Some(fields) => Some(fields),
                None => None,
            },
            None => None,
        }
    }

    /// Finds the list under `key`.
    pub fn list(&self, key: &str) -> (r: Option<&Vec<Option<Fields>>>)
        ensures
            match r {
                Some(items) => list_at(self@, key@) == Some(items_view(items@)),
                None => list_at(self@, key@) is None,
            },
    {
        match self.find(key) {
            Some(entry) => match &entry.list {
                Some(items) => Some(items),
                None => None,
            },
            None => None,
        }
    }
}

/// What a TOML document says, or nothing where `toml` takes the text for no TOML
/// document.
pub uninterp spec fn parsed_document(source: Seq<char>) -> Option<DocumentView>;

/// Parses a TOML document with `toml`, by `str::parse` into a `toml::Value`, and reads
/// the two levels at its top with `as_table`, `as_array`, `as_str` and `as_bool`. What
/// comes out is a function of the source alone; the keys of a table come in the order in
/// which `toml` keeps them.
#[verifier::external_body]
pub(crate) fn parse_document(source: &str) -> (r: Option<Document>)
    ensures
        match r {
            Some(document) => parsed_document(source@) == Some(document@),
            None => parsed_document(source@) is None,
        },
{
    let fields = |t: &Table|
        t.iter().map(
            |(k, v)|
                (k.clone(), Scalar { text: v.as_str().map(str::to_owned), boolean: v.as_bool() }),
        ).collect();
    let table = |v: &Value| v.as_table().map(fields);
    let list = |v: &Value| v.as_array().map(|a| a.iter().map(table).collect());
    let value: Value = source.parse().ok()?;
    let entries = value.as_table().into_iter().flatten().map(
        |(k, v)| (k.clone(), Entry { table: table(v), list: list(v) }),
    ).collect();
    Some(Document { entries })
}

/// What stands under a key is read by its type, whatever other keys there are: a string as
/// a text, `true` as true; and nothing is read where the key is missing.
pub proof fn fields_are_read_by_key(fields: FieldsView, key: Seq<char>, at: int)
    requires
        0 <= at <= fields.len(),
        forall|k: int| 0 <= k < at ==> (#[trigger] fields[k]).0 != key,
        at < fields.len() ==> fields[at].0 == key,
    ensures
        at < fields.len() ==> text_at(fields, key) == fields[at].1.text,
        at < fields.len() ==> true_at(fields, key) == (fields[at].1.boolean == Some(true)),
        at == fields.len() ==> text_at(fields, key) is None && !true_at(fields, key),
        field_keys(fields).len() == fields.len(),
        forall|i: int| 0 <= i < fields.len() ==> #[trigger] field_keys(fields)[i] == fields[i].0,
{
    lookup_finds_first(fields, key, at);
}

/// What stands under a key at the top of a document is read by its type, whatever other
/// keys there are: a table as a table, a list as a list.
pub proof fn entries_are_read_by_key(document: DocumentView, key: Seq<char>, at: int)
    requires
        0 <= at <= document.len(),
        forall|k: int| 0 <= k < at ==> (#[trigger] document[k]).0 != key,
        at < document.len() ==> document[at].0 == key,
    ensures
        at < document.len() ==> table_at(document, key) == document[at].1.table,
        at < document.len() ==> list_at(document, key) == document[at].1.list,
        at == document.len() ==> table_at(document, key) is None && list_at(document, key) is None,
{
    lookup_finds_first(document, key, at);
}

/// A document is seen with all that it holds.
pub proof fn documents_are_seen_whole(
    document: Document,
    entry: Entry,
    fields: Seq<(String, Scalar)>,
    items: Seq<Option<Fields>>,
    value: Scalar,
)
    ensures
        document@.len() == document.entries@.len(),
        forall|i: int|
            0 <= i < document@.len() ==> #[trigger] document@[i] == (
                document.entries@[i].0@,
                document.entries@[i].1@,
            ),
        match entry.table {
            Some(table) => entry@.table == Some(fields_view(table@)),
            None => entry@.table is None,
        },
        match entry.list {
            Some(list) => entry@.list == Some(items_view(list@)),
            None => entry@.list is None,
        },
        fields_view(fields).len() == fields.len(),
        forall|i: int|
            0 <= i < fields.len() ==> #[trigger] fields_view(fields)[i] == (
                fields[i].0@,
                fields[i].1@,
            ),
        items_view(items).len() == items.len(),
        forall|i: int|
            0 <= i < items.len() ==> #[trigger] items_view(items)[i] == (match items[i] {
                Some(table) => Some(fields_view(table@)),
                None => None,
            }),
        match value.text {
            Some(text) => value@.text == Some(text@),
            None => value@.text is None,
        },
        value@.boolean == value.boolean,
{
}

} // verus!
