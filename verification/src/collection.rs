//! The documents that describe collections and folders, and the order of what
//! they hold.
use crate::document::{
    bool_text, law_quote_round_trip, lemma_decimal_plain, optional_bool, parse_optional_bool,
    parse_required_string, parse_schema_version, plain_value, quote, quoted, required,
    required_string, required_value, schema_version_of, show_bool, CURRENT_SCHEMA_VERSION,
};
use crate::domain::{is_slug, StableId};
use crate::error::{invalid_format, outcome, WorkspaceError, WorkspaceErrorView};
use crate::flat::{
    append_unknown_fields, field_lines, flat_fields, lemma_flat_document,
    lemma_flat_fields_writable, lemma_lines_hold_no_feed, names, parse_flat_document, preservable,
    remove_keys, unknown_lines, without, writable, Assignments, Fields,
};
use crate::lines::{lemma_lines_of_unlines, lines, unlines, LineWriter};
use crate::manifest::{id_value, parse_id_field};
use crate::message::concat2;
use crate::number::{decimal, decimal_text, lemma_decimal, lemma_parse_decimal};
use crate::order::{distinct_keys, in_order, lemma_in_order_exists, lemma_map_of, map_of, FieldMap};
use crate::paths::{component_views, components, path_components, PathComponent};
use crate::text::{chars_of, contains_control, has_control, is_blank, same_text, texts, trim_chars};
use vstd::prelude::*;

verus! {

/// The file that describes a collection.
pub const COLLECTION_FILE: &'static str = "collection.toml";

/// The file that describes a folder.
pub const FOLDER_FILE: &'static str = "folder.toml";

/// The file that orders what a directory holds.
pub const ORDER_FILE: &'static str = ".apex-order.toml";

/// A collection of requests.
#[derive(Clone, Debug, PartialEq, Eq)]
pub struct CollectionDocument {
    pub schema_version: u32,
    pub id: StableId,
    pub name: String,
    pub archived: bool,
    pub unknown_fields: FieldMap,
}

/// A folder of a collection.
#[derive(Clone, Debug, PartialEq, Eq)]
pub struct FolderDocument {
    pub schema_version: u32,
    pub id: StableId,
    pub name: String,
    pub archived: bool,
    pub unknown_fields: FieldMap,
}

/// A collection or a folder, by its contents.
#[verifier::ext_equal]
pub struct NamedView {
    pub schema_version: u32,
    pub id: Seq<char>,
    pub name: Seq<char>,
    pub archived: bool,
    pub unknown_fields: Fields,
}

impl View for CollectionDocument {
    type V = NamedView;

    open spec fn view(&self) -> NamedView {
        NamedView {
            schema_version: self.schema_version,
            id: self.id@,
            name: self.name@,
            archived: self.archived,
            unknown_fields: self.unknown_fields@,
        }
    }
}

impl View for FolderDocument {
    type V = NamedView;

    open spec fn view(&self) -> NamedView {
        NamedView {
            schema_version: self.schema_version,
            id: self.id@,
            name: self.name@,
            archived: self.archived,
            unknown_fields: self.unknown_fields@,
        }
    }
}

/// A new collection or folder.
pub open spec fn new_named(id: Seq<char>, name: Seq<char>) -> NamedView {
    NamedView {
        schema_version: CURRENT_SCHEMA_VERSION,
        id,
        name,
        archived: false,
        unknown_fields: Fields::empty(),
    }
}

impl CollectionDocument {
    /// Whether the preserved fields are in order.
    pub open spec fn wf(&self) -> bool {
        self.unknown_fields.wf()
    }

    /// A new collection.
    pub fn new(id: StableId, name: String) -> (r: CollectionDocument)
        ensures
            r.wf(),
            r@ == new_named(id@, name@),
    {
        CollectionDocument {
            schema_version: CURRENT_SCHEMA_VERSION,
            id,
            name,
            archived: false,
            unknown_fields: FieldMap::new(),
        }
    }
}

impl FolderDocument {
    /// Whether the preserved fields are in order.
    pub open spec fn wf(&self) -> bool {
        self.unknown_fields.wf()
    }

    /// A new folder.
    pub fn new(id: StableId, name: String) -> (r: FolderDocument)
        ensures
            r.wf(),
            r@ == new_named(id@, name@),
    {
        FolderDocument {
            schema_version: CURRENT_SCHEMA_VERSION,
            id,
            name,
            archived: false,
            unknown_fields: FieldMap::new(),
        }
    }
}

/// The keys of a collection or folder whose identifier stands under `id_key`.
pub open spec fn named_keys(id_key: Seq<char>) -> Seq<Seq<char>> {
    seq!["schema_version"@, id_key, "name"@, "archived"@]
}

/// What the lines of a collection or folder assign, besides preserved fields.
pub open spec fn named_assignments(d: NamedView, id_key: Seq<char>) -> Assignments {
    seq![
        ("schema_version"@, decimal(d.schema_version as nat)),
        (id_key, quoted(d.id)),
        ("name"@, quoted(d.name)),
        ("archived"@, bool_text(d.archived)),
    ]
}

/// The lines of a collection or folder.
pub open spec fn named_lines(d: NamedView, id_key: Seq<char>) -> Seq<Seq<char>> {
    field_lines(named_assignments(d, id_key)) + unknown_lines(d.unknown_fields)
}

/// The text of a collection.
pub open spec fn collection_text(d: NamedView) -> Seq<char> {
    unlines(named_lines(d, "collection_id"@))
}

/// The text of a folder.
pub open spec fn folder_text(d: NamedView) -> Seq<char> {
    unlines(named_lines(d, "folder_id"@))
}

fn format_named_metadata(
    schema_version: u32,
    id_key: &str,
    id: &StableId,
    name: &str,
    archived: bool,
    unknown_fields: &FieldMap,
) -> (r: String)
    requires
        unknown_fields.wf(),
    ensures
        r@ == unlines(
            named_lines(
                (NamedView {
                    schema_version,
                    id: id@,
                    name: name@,
                    archived,
                    unknown_fields: unknown_fields@,
                }),
                id_key@,
            ),
        ),
{
    let mut out = LineWriter::new();
    out.field("schema_version", decimal_text(schema_version as u64).as_str());
    out.field(id_key, quote(id.as_str()).as_str());
    out.field("name", quote(name).as_str());
    out.field("archived", show_bool(archived));
    proof {
        let d = NamedView {
            schema_version,
            id: id@,
            name: name@,
            archived,
            unknown_fields: unknown_fields@,
        };
        assert(out.written@ =~= field_lines(named_assignments(d, id_key@)));
    }
    append_unknown_fields(&mut out, unknown_fields);
    out.text
}

/// Writes a collection.
pub fn format_collection(document: &CollectionDocument) -> (r: String)
    requires
        document.wf(),
    ensures
        r@ == collection_text(document@),
{
    format_named_metadata(
        document.schema_version,
        "collection_id",
        &document.id,
        document.name.as_str(),
        document.archived,
        &document.unknown_fields,
    )
}

/// Writes a folder.
pub fn format_folder(document: &FolderDocument) -> (r: String)
    requires
        document.wf(),
    ensures
        r@ == folder_text(document@),
{
    format_named_metadata(
        document.schema_version,
        "folder_id",
        &document.id,
        document.name.as_str(),
        document.archived,
        &document.unknown_fields,
    )
}

/// Whether a text can name a collection or a folder.
pub open spec fn is_document_name(name: Seq<char>) -> bool {
    !is_blank(name) && !has_control(name)
}

/// What is wrong with the name of a collection or folder, if anything.
pub open spec fn document_name_check(name: Seq<char>) -> Result<(), WorkspaceErrorView> {
    if is_document_name(name) {
        Ok(())
    } else {
        Err(
            WorkspaceErrorView::InvalidFormat(
                "collection and folder names must be non-empty and contain no control characters"@,
            ),
        )
    }
}

/// Refuses an empty name and one with control characters.
pub fn validate_document_name(name: &str) -> (r: Result<(), WorkspaceError>)
    ensures
        outcome(r) == document_name_check(name@),
{
    let chars = chars_of(name);
    if trim_chars(chars.as_slice()).len() == 0 || contains_control(chars.as_slice()) {
        Err(
            invalid_format(
                "collection and folder names must be non-empty and contain no control characters",
            ),
        )
    } else {
        Ok(())
    }
}

/// The collection or folder that fields describe.
pub open spec fn named_of_fields(m: Fields, id_key: Seq<char>) -> Result<
    NamedView,
    WorkspaceErrorView,
> {
    match schema_version_of(m) {
        Err(e) => Err(e),
        Ok(schema_version) => match id_value(m, id_key) {
            Err(e) => Err(e),
            Ok(id) => match required_string(m, "name"@) {
                Err(e) => Err(e),
                Ok(name) => match document_name_check(name) {
                    Err(e) => Err(e),
                    Ok(_) => match optional_bool(m, "archived"@, false) {
                        Err(e) => Err(e),
                        Ok(archived) => Ok(
                            NamedView {
                                schema_version,
                                id,
                                name,
                                archived,
                                unknown_fields: without(m, named_keys(id_key)),
                            },
                        ),
                    },
                },
            },
        },
    }
}

/// The collection or folder that a text describes.
pub open spec fn named_value(text: Seq<char>, id_key: Seq<char>) -> Result<
    NamedView,
    WorkspaceErrorView,
> {
    match flat_fields(lines(text)) {
        Ok(m) => named_of_fields(m, id_key),
        Err(e) => Err(e),
    }
}

/// The collection that a text describes.
pub open spec fn collection_value(text: Seq<char>) -> Result<NamedView, WorkspaceErrorView> {
    named_value(text, "collection_id"@)
}

/// The folder that a text describes.
pub open spec fn folder_value(text: Seq<char>) -> Result<NamedView, WorkspaceErrorView> {
    named_value(text, "folder_id"@)
}

/// Reads a collection.
pub fn parse_collection(input: &str) -> (r: Result<CollectionDocument, WorkspaceError>)
    ensures
        outcome(r) == collection_value(input@),
        r matches Ok(d) ==> d.wf(),
{
    let mut values = match parse_flat_document(input) {
        Ok(v) => v,
        Err(e) => {
            return Err(e);
        },
    };
    let schema_version = match parse_schema_version(&values) {
        Ok(v) => v,
        Err(e) => {
            return Err(e);
        },
    };
    let id = match parse_id_field(&values, "collection_id") {
        Ok(v) => v,
        Err(e) => {
            return Err(e);
        },
    };
    let name = match parse_required_string(&values, "name") {
        Ok(v) => v,
        Err(e) => {
            return Err(e);
        },
    };
    if let Err(e) = validate_document_name(name.as_str()) {
        return Err(e);
    }
    let archived = match parse_optional_bool(&values, "archived", false) {
        Ok(v) => v,
        Err(e) => {
            return Err(e);
        },
    };
    let keys = ["schema_version", "collection_id", "name", "archived"];
    remove_keys(&mut values, keys.as_slice());
    assert(names(keys@) =~= named_keys("collection_id"@));
    Ok(CollectionDocument { schema_version, id, name, archived, unknown_fields: values })
}

/// Reads a folder.
pub fn parse_folder(input: &str) -> (r: Result<FolderDocument, WorkspaceError>)
    ensures
        outcome(r) == folder_value(input@),
        r matches Ok(d) ==> d.wf(),
{
    let mut values = match parse_flat_document(input) {
        Ok(v) => v,
        Err(e) => {
            return Err(e);
        },
    };
    let schema_version = match parse_schema_version(&values) {
        Ok(v) => v,
        Err(e) => {
            return Err(e);
        },
    };
    let id = match parse_id_field(&values, "folder_id") {
        Ok(v) => v,
        Err(e) => {
            return Err(e);
        },
    };
    let name = match parse_required_string(&values, "name") {
        Ok(v) => v,
        Err(e) => {
            return Err(e);
        },
    };
    if let Err(e) = validate_document_name(name.as_str()) {
        return Err(e);
    }
    let archived = match parse_optional_bool(&values, "archived", false) {
        Ok(v) => v,
        Err(e) => {
            return Err(e);
        },
    };
    let keys = ["schema_version", "folder_id", "name", "archived"];
    remove_keys(&mut values, keys.as_slice());
    assert(names(keys@) =~= named_keys("folder_id"@));
    Ok(FolderDocument { schema_version, id, name, archived, unknown_fields: values })
}

/// Whether a collection or folder can be written and read back.
pub open spec fn named_writable(d: NamedView, id_key: Seq<char>) -> bool {
    &&& d.schema_version == CURRENT_SCHEMA_VERSION
    &&& is_slug(d.id)
    &&& is_document_name(d.name)
    &&& d.unknown_fields.dom().finite()
    &&& preservable(d.unknown_fields, named_keys(id_key))
}

proof fn lemma_named_keys(id_key: Seq<char>)
    requires
        id_key == "collection_id"@ || id_key == "folder_id"@,
    ensures
        "schema_version"@ != id_key,
        "schema_version"@ != "name"@,
        "schema_version"@ != "archived"@,
        id_key != "name"@,
        id_key != "archived"@,
        "name"@ != "archived"@,
        "true"@ != "false"@,
        plain_value("true"@),
        plain_value("false"@),
        crate::document::is_key("schema_version"@),
        crate::document::is_key(id_key),
        crate::document::is_key("name"@),
        crate::document::is_key("archived"@),
{
    reveal_strlit("schema_version");
    reveal_strlit("collection_id");
    reveal_strlit("folder_id");
    reveal_strlit("name");
    reveal_strlit("archived");
    reveal_strlit("true");
    reveal_strlit("false");
    assert("schema_version"@.len() == 14);
    assert("collection_id"@.len() == 13);
    assert("folder_id"@.len() == 9);
    assert("name"@.len() == 4);
    assert("archived"@.len() == 8);
    assert("true"@.len() == 4 && "false"@.len() == 5);
}

proof fn lemma_named_round_trip(d: NamedView, id_key: Seq<char>)
    requires
        named_writable(d, id_key),
        id_key == "collection_id"@ || id_key == "folder_id"@,
    ensures
        named_value(unlines(named_lines(d, id_key)), id_key) == Ok::<NamedView, WorkspaceErrorView>(
            d,
        ),
{
    let list = named_assignments(d, id_key);
    let keys = named_keys(id_key);
    lemma_named_keys(id_key);
    lemma_decimal(d.schema_version as nat);
    lemma_parse_decimal(d.schema_version as nat, u32::MAX as int);
    lemma_decimal_plain(d.schema_version as nat);
    law_quote_round_trip(d.id);
    law_quote_round_trip(d.name);
    assert(writable(list));
    assert(distinct_keys(list));
    lemma_map_of(list);
    lemma_in_order_exists(d.unknown_fields);
    lemma_flat_document(list, d.unknown_fields, keys, in_order(d.unknown_fields));
    lemma_lines_of_unlines(named_lines(d, id_key));
    let f = map_of(list).union_prefer_right(d.unknown_fields);
    assert(keys.contains(keys[0]) && keys.contains(keys[1]) && keys.contains(keys[2])
        && keys.contains(keys[3]));
    assert(list[0].0 == keys[0] && list[1].0 == keys[1] && list[2].0 == keys[2] && list[3].0
        == keys[3]);
    assert(f[keys[0]] == decimal(d.schema_version as nat));
    assert(f[keys[1]] == quoted(d.id));
    assert(f[keys[2]] == quoted(d.name));
    assert(f[keys[3]] == bool_text(d.archived));
    assert(without(f, keys) =~= d.unknown_fields) by {
        assert forall|k: Seq<char>| map_of(list).dom().contains(k) implies keys.contains(k) by {
            let i = choose|i: int| 0 <= i < list.len() && (#[trigger] list[i]).0 == k;
            assert(i == 0 || i == 1 || i == 2 || i == 3);
        }
    }
}

proof fn lemma_named_stable(text: Seq<char>, id_key: Seq<char>)
    requires
        named_value(text, id_key) is Ok,
        id_key == "collection_id"@ || id_key == "folder_id"@,
    ensures
        named_value(unlines(named_lines(named_value(text, id_key)->Ok_0, id_key)), id_key)
            == named_value(text, id_key),
        named_writable(named_value(text, id_key)->Ok_0, id_key),
{
    let d = named_value(text, id_key)->Ok_0;
    let f = flat_fields(lines(text))->Ok_0;
    lemma_lines_hold_no_feed(text);
    lemma_flat_fields_writable(lines(text));
    assert(d.unknown_fields.dom() =~= f.dom().filter(|k: Seq<char>| !named_keys(id_key).contains(k)));
    f.dom().lemma_len_filter(|k: Seq<char>| !named_keys(id_key).contains(k));
    lemma_named_round_trip(d, id_key);
}

/// A collection is read back from its own text.
pub proof fn law_collection_round_trip(d: NamedView)
    requires
        named_writable(d, "collection_id"@),
    ensures
        collection_value(collection_text(d)) == Ok::<NamedView, WorkspaceErrorView>(d),
{
    lemma_named_round_trip(d, "collection_id"@);
}

/// Whatever collection can be read can be written and read back unchanged.
pub proof fn law_collection_rewrite_is_stable(text: Seq<char>)
    requires
        collection_value(text) is Ok,
    ensures
        named_writable(collection_value(text)->Ok_0, "collection_id"@),
        collection_value(collection_text(collection_value(text)->Ok_0)) == collection_value(text),
{
    lemma_named_stable(text, "collection_id"@);
}

/// A folder is read back from its own text.
pub proof fn law_folder_round_trip(d: NamedView)
    requires
        named_writable(d, "folder_id"@),
    ensures
        folder_value(folder_text(d)) == Ok::<NamedView, WorkspaceErrorView>(d),
{
    lemma_named_round_trip(d, "folder_id"@);
}

/// Whatever folder can be read can be written and read back unchanged.
pub proof fn law_folder_rewrite_is_stable(text: Seq<char>)
    requires
        folder_value(text) is Ok,
    ensures
        named_writable(folder_value(text)->Ok_0, "folder_id"@),
        folder_value(folder_text(folder_value(text)->Ok_0)) == folder_value(text),
{
    lemma_named_stable(text, "folder_id"@);
}

/// Whether a name is one that the workspace keeps for itself.
pub open spec fn internal_name(name: Seq<char>) -> bool {
    ||| name == COLLECTION_FILE@
    ||| name == FOLDER_FILE@
    ||| name == ORDER_FILE@
    ||| name.len() > 0 && name[0] == '.'
}

/// Tests whether a name is one that the workspace keeps for itself.
pub fn is_internal_name(name: &str) -> (r: bool)
    ensures
        r == internal_name(name@),
{
    let chars = chars_of(name);
    same_text(name, COLLECTION_FILE) || same_text(name, FOLDER_FILE) || same_text(name, ORDER_FILE)
        || (chars.len() > 0 && chars[0] == '.')
}

/// Whether a text can stand in an order: one name that is not internal.
pub open spec fn is_order_item(item: Seq<char>) -> bool {
    &&& components(item).len() == 1
    &&& components(item)[0] is Normal
    &&& !internal_name(item)
}

/// What is wrong with an order, if anything: the first item that cannot stand in
/// it or repeats an earlier one.
pub open spec fn order_check(items: Seq<Seq<char>>) -> Result<(), WorkspaceErrorView>
    decreases items.len(),
{
    if items.len() == 0 {
        Ok(())
    } else {
        match order_check(items.drop_last()) {
            Err(e) => Err(e),
            Ok(_) => if !is_order_item(items.last()) {
                Err(WorkspaceErrorView::InvalidPath("invalid order item: "@ + items.last()))
            } else if items.drop_last().contains(items.last()) {
                Err(WorkspaceErrorView::InvalidFormat("duplicate order item: "@ + items.last()))
            } else {
                Ok(())
            },
        }
    }
}

proof fn lemma_order_error(items: Seq<Seq<char>>, k: int)
    requires
        0 <= k <= items.len(),
        order_check(items.take(k)) is Err,
    ensures
        order_check(items) == order_check(items.take(k)),
    decreases items.len() - k,
{
    if k < items.len() {
        assert(items.take(k + 1).drop_last() =~= items.take(k));
        lemma_order_error(items, k + 1);
    } else {
        assert(items.take(k) =~= items);
    }
}

/// An order that is accepted holds names only, and none of them twice.
pub proof fn law_order_has_no_duplicates(items: Seq<Seq<char>>)
    requires
        order_check(items) is Ok,
    ensures
        items.no_duplicates(),
        forall|i: int| 0 <= i < items.len() ==> is_order_item(#[trigger] items[i]),
    decreases items.len(),
{
    if items.len() > 0 {
        law_order_has_no_duplicates(items.drop_last());
        assert forall|i: int, j: int| 0 <= i < items.len() && 0 <= j < items.len() && i != j implies items[i]
            != items[j] by {
            let front = items.drop_last();
            if i < front.len() {
                assert(front[i] == items[i]);
            }
            if j < front.len() {
                assert(front[j] == items[j]);
            }
        }
        assert forall|i: int| 0 <= i < items.len() implies is_order_item(#[trigger] items[i]) by {
            if i < items.len() - 1 {
                assert(items.drop_last()[i] == items[i]);
            }
        }
    }
}

/// Refuses an order with an item that is not a name or occurs twice.
pub fn validate_order_items(items: &[String]) -> (r: Result<(), WorkspaceError>)
    ensures
        outcome(r) == order_check(texts(items@)),
{
    let ghost all = texts(items@);
    assert(order_check(all.take(0)) is Ok);
    for i in 0..items.len()
        invariant
            all == texts(items@),
            order_check(all.take(i as int)) is Ok,
    {
        let item = items[i].as_str();
        assert(all.take(i + 1).drop_last() =~= all.take(i as int));
        assert(all.take(i + 1).last() == item@);
        let list = path_components(item);
        let ghost views = component_views(list@);
        let single = if list.len() == 1 {
            assert(views[0] == list@[0]@);
            match &list[0] {
                PathComponent::Normal(_) => true,
                _ => false,
            }
        } else {
            false
        };
        if !single || is_internal_name(item) {
            proof {
                lemma_order_error(all, i + 1);
            }
            return Err(WorkspaceError::InvalidPath(concat2("invalid order item: ", item)));
        }
        let mut j: usize = 0;
        while j < i
            invariant
                j <= i,
                i < items@.len(),
                all == texts(items@),
                item@ == items@[i as int]@,
                is_order_item(item@),
                order_check(all.take(i as int)) is Ok,
                all.take(i + 1).drop_last() == all.take(i as int),
                all.take(i + 1).last() == item@,
                forall|k: int| 0 <= k < j ==> all[k] != item@,
            decreases i - j,
        {
            if same_text(items[j].as_str(), item) {
                proof {
                    assert(all.take(i as int)[j as int] == item@);
                    lemma_order_error(all, i + 1);
                }
                return Err(WorkspaceError::InvalidFormat(concat2("duplicate order item: ", item)));
            }
            assert(all[j as int] == items@[j as int]@);
            j += 1;
        }
        proof {
            let front = all.take(i as int);
            if front.contains(item@) {
                let k = choose|k: int| 0 <= k < front.len() && front[k] == item@;
                assert(all[k] == item@);
            }
        }
    }
    assert(all.take(all.len() as int) =~= all);
    Ok(())
}

/// The order of what a directory holds.
#[derive(Clone, Debug, PartialEq, Eq)]
pub struct OrderDocument {
    pub schema_version: u32,
    pub items: Vec<String>,
    pub unknown_fields: FieldMap,
}

/// The order of what a directory holds, by its contents.
#[verifier::ext_equal]
pub struct OrderView {
    pub schema_version: u32,
    pub items: Seq<Seq<char>>,
    pub unknown_fields: Fields,
}

impl View for OrderDocument {
    type V = OrderView;

    open spec fn view(&self) -> OrderView {
        OrderView {
            schema_version: self.schema_version,
            items: texts(self.items@),
            unknown_fields: self.unknown_fields@,
        }
    }
}

impl OrderDocument {
    /// Whether the preserved fields are in order.
    pub open spec fn wf(&self) -> bool {
        self.unknown_fields.wf()
    }

    /// A new order.
    pub fn new(items: Vec<String>) -> (r: OrderDocument)
        ensures
            r.wf(),
            r@ == (OrderView {
                schema_version: CURRENT_SCHEMA_VERSION,
                items: texts(items@),
                unknown_fields: Fields::empty(),
            }),
    {
        OrderDocument {
            schema_version: CURRENT_SCHEMA_VERSION,
            items,
            unknown_fields: FieldMap::new(),
        }
    }
}

/// The JSON text of a list of texts, as `serde_json` writes it.
pub uninterp spec fn json_list_text(items: Seq<Seq<char>>) -> Seq<char>;

/// What `serde_json` reads from a JSON text as a list of texts: the list, or what
/// its error says.
pub uninterp spec fn json_list_value(text: Seq<char>) -> Result<Seq<Seq<char>>, Seq<char>>;

/// Writes a list of texts as JSON: `serde_json::to_string`. Its compact form starts
/// and ends with the brackets of the list, escapes every line feed, and is read
/// back by `serde_json::from_str`. Writing texts to memory never fails.
#[verifier::external_body]
fn write_json_list(items: &Vec<String>) -> (r: String)
    ensures
        r@ == json_list_text(texts(items@)),
        json_list_value(r@) is Ok && json_list_value(r@)->Ok_0 == texts(items@),
        r@.len() >= 2 && r@[0] == '[' && r@.last() == ']',
        !r@.contains('\n'),
{
    serde_json::to_string(items).expect("string arrays serialize")
}

/// Reads a list of texts from JSON: `serde_json::from_str`. What it returns, and
/// what its error says, is a function of the text.
#[verifier::external_body]
fn read_json_list(text: &str) -> (r: Result<Vec<String>, String>)
    ensures
        match r {
            Ok(items) => json_list_value(text@) is Ok && json_list_value(text@)->Ok_0 == texts(items@),
            Err(message) => json_list_value(text@) is Err && json_list_value(text@)->Err_0 == message@,
        },
{
    serde_json::from_str::<Vec<String>>(text).map_err(|error| error.to_string())
}

/// The keys of an order.
pub open spec fn order_keys() -> Seq<Seq<char>> {
    seq!["schema_version"@, "items"@]
}

/// The lines of an order whose items are written as `items`.
pub open spec fn order_lines(d: OrderView, items: Seq<char>) -> Seq<Seq<char>> {
    field_lines(
        seq![("schema_version"@, decimal(d.schema_version as nat)), ("items"@, items)],
    ) + unknown_lines(d.unknown_fields)
}

/// The text of an order.
pub open spec fn order_text(d: OrderView) -> Seq<char> {
    unlines(order_lines(d, json_list_text(d.items)))
}

/// Writes an order whose items are written as `items`.
pub fn format_order_with(document: &OrderDocument, items: &str) -> (r: String)
    requires
        document.wf(),
    ensures
        r@ == unlines(order_lines(document@, items@)),
{
    let mut out = LineWriter::new();
    out.field("schema_version", decimal_text(document.schema_version as u64).as_str());
    out.field("items", items);
    assert(out.written@ =~= field_lines(
        seq![("schema_version"@, decimal(document.schema_version as nat)), ("items"@, items@)],
    ));
    append_unknown_fields(&mut out, &document.unknown_fields);
    out.text
}

/// Writes an order. Where the document can be read at all, what is written is read
/// back as the same document.
pub fn format_order(document: &OrderDocument) -> (r: String)
    requires
        document.wf(),
    ensures
        r@ == order_text(document@),
        order_writable(document@) ==> order_value(r@) == Ok::<OrderView, WorkspaceErrorView>(
            document@,
        ),
{
    let items = write_json_list(&document.items);
    proof {
        if order_writable(document@) {
            lemma_order_round_trip(document@, items@);
        }
    }
    format_order_with(document, items.as_str())
}

/// The text that the fields of an order give for its items.
pub open spec fn order_source(m: Fields) -> Result<(u32, Seq<char>), WorkspaceErrorView> {
    match schema_version_of(m) {
        Err(e) => Err(e),
        Ok(schema_version) => match required_value(m, "items"@) {
            Err(e) => Err(e),
            Ok(text) => Ok((schema_version, text)),
        },
    }
}

/// The order that fields describe when their items are read as `items`.
pub open spec fn order_with(
    m: Fields,
    schema_version: u32,
    items: Result<Seq<Seq<char>>, Seq<char>>,
) -> Result<OrderView, WorkspaceErrorView> {
    match items {
        Err(message) => Err(WorkspaceErrorView::InvalidFormat("invalid order items: "@ + message)),
        Ok(list) => match order_check(list) {
            Err(e) => Err(e),
            Ok(_) => Ok(
                OrderView {
                    schema_version,
                    items: list,
                    unknown_fields: without(m, order_keys()),
                },
            ),
        },
    }
}

/// The order that a text describes.
pub open spec fn order_value(text: Seq<char>) -> Result<OrderView, WorkspaceErrorView> {
    match flat_fields(lines(text)) {
        Err(e) => Err(e),
        Ok(m) => match order_source(m) {
            Err(e) => Err(e),
            Ok((schema_version, source)) => order_with(m, schema_version, json_list_value(source)),
        },
    }
}

/// Puts an order together from its fields and its items as they were read.
pub fn order_from_items(
    values: FieldMap,
    schema_version: u32,
    items: Result<Vec<String>, String>,
) -> (r: Result<OrderDocument, WorkspaceError>)
    requires
        values.wf(),
    ensures
        outcome(r) == order_with(
            values@,
            schema_version,
            match items {
                Ok(list) => Ok(texts(list@)),
                Err(message) => Err(message@),
            },
        ),
        r matches Ok(d) ==> d.wf(),
{
    let list = match items {
        Ok(list) => list,
        Err(message) => {
            return Err(
                WorkspaceError::InvalidFormat(concat2("invalid order items: ", message.as_str())),
            );
        },
    };
    if let Err(e) = validate_order_items(list.as_slice()) {
        return Err(e);
    }
    let mut unknown_fields = values;
    let keys = ["schema_version", "items"];
    remove_keys(&mut unknown_fields, keys.as_slice());
    assert(names(keys@) =~= order_keys());
    Ok(OrderDocument { schema_version, items: list, unknown_fields })
}

/// Reads an order.
pub fn parse_order(input: &str) -> (r: Result<OrderDocument, WorkspaceError>)
    ensures
        outcome(r) == order_value(input@),
        r matches Ok(d) ==> d.wf(),
{
    let values = match parse_flat_document(input) {
        Ok(v) => v,
        Err(e) => {
            return Err(e);
        },
    };
    let schema_version = match parse_schema_version(&values) {
        Ok(v) => v,
        Err(e) => {
            return Err(e);
        },
    };
    let items = match required(&values, "items") {
        Ok(source) => read_json_list(source.as_str()),
        Err(e) => {
            return Err(e);
        },
    };
    order_from_items(values, schema_version, items)
}

/// Whether an order can be written and read back.
pub open spec fn order_writable(d: OrderView) -> bool {
    &&& d.schema_version == CURRENT_SCHEMA_VERSION
    &&& order_check(d.items) is Ok
    &&& d.unknown_fields.dom().finite()
    &&& preservable(d.unknown_fields, order_keys())
}

/// An order is read back from its own text, whatever text stands for its items,
/// so long as that text is read back as the items and fits on a line.
pub proof fn law_order_round_trip(d: OrderView, items: Seq<char>)
    requires
        order_writable(d),
        json_list_value(items) == Ok::<Seq<Seq<char>>, Seq<char>>(d.items),
        plain_value(items),
    ensures
        order_value(unlines(order_lines(d, items))) == Ok::<OrderView, WorkspaceErrorView>(d),
{
    reveal_strlit("schema_version");
    reveal_strlit("items");
    assert("schema_version"@.len() == 14 && "items"@.len() == 5);
    let list = seq![("schema_version"@, decimal(d.schema_version as nat)), ("items"@, items)];
    let keys = order_keys();
    lemma_decimal(d.schema_version as nat);
    lemma_parse_decimal(d.schema_version as nat, u32::MAX as int);
    lemma_decimal_plain(d.schema_version as nat);
    assert(writable(list));
    assert(distinct_keys(list));
    lemma_map_of(list);
    lemma_in_order_exists(d.unknown_fields);
    lemma_flat_document(list, d.unknown_fields, keys, in_order(d.unknown_fields));
    lemma_lines_of_unlines(order_lines(d, items));
    let f = map_of(list).union_prefer_right(d.unknown_fields);
    assert(keys.contains(keys[0]) && keys.contains(keys[1]));
    assert(list[0].0 == keys[0] && list[1].0 == keys[1]);
    assert(f[keys[0]] == decimal(d.schema_version as nat));
    assert(f[keys[1]] == items);
    assert(without(f, keys) =~= d.unknown_fields) by {
        assert forall|k: Seq<char>| map_of(list).dom().contains(k) implies keys.contains(k) by {
            let i = choose|i: int| 0 <= i < list.len() && (#[trigger] list[i]).0 == k;
            assert(i == 0 || i == 1);
        }
    }
}

proof fn lemma_order_round_trip(d: OrderView, items: Seq<char>)
    requires
        order_writable(d),
        json_list_value(items) == Ok::<Seq<Seq<char>>, Seq<char>>(d.items),
        items.len() >= 2 && items[0] == '[' && items.last() == ']',
        !items.contains('\n'),
    ensures
        order_value(unlines(order_lines(d, items))) == Ok::<OrderView, WorkspaceErrorView>(d),
{
    law_order_round_trip(d, items);
}

} // verus!
