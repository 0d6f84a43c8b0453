//! The document: lookup by address, and the three changes that can be made to it.
use crate::codec::{
    document_text, format_of_extension, parse_document, reads_as, serialize_document, DataError,
    DataFormat,
};
use crate::path::{texts, ValuePath};
use crate::text::same_text;
use crate::value::{entries_view, items_view, lemma_array_view, lemma_object_view, Json, JsonKind, JsonValue};
use vstd::prelude::*;
use vstd::string::*;

verus! {

/// A change to the document at one address.
#[derive(Clone, Copy, Debug, PartialEq, Eq, Structural)]
pub enum UpdateAction {
    /// Overwrite the value under the address, or add it where the key is new.
    Replace,
    /// Append a value to the array at the address.
    AddTo,
    /// Remove the first item equal to a value from the array at the address.
    RemoveFrom,
}

/// Why a change was refused. A refused change leaves the document as it was.
#[derive(Clone, Copy, Debug, PartialEq, Eq, Structural)]
pub enum UpdateError {
    /// The value is of another kind than the first item of the array.
    TypeMismatch { expected: JsonKind, got: JsonKind },
    /// Nothing can be removed from an empty array.
    EmptyArray,
    /// No item of the array equals the value.
    ValueNotFound,
}

impl UpdateError {
    /// The words in which a refusal is reported.
    pub open spec fn text(self) -> Seq<char> {
        match self {
            UpdateError::TypeMismatch { expected, got } => "Type mismatch: Expected "@
                + expected.name() + ", got "@ + got.name(),
            UpdateError::EmptyArray => "Cannot remove from an empty array"@,
            UpdateError::ValueNotFound => "Value not found in the array"@,
        }
    }

    /// The words in which the refusal is reported.
    pub fn message(&self) -> (message: String)
        ensures
            message@ == self.text(),
    {
        match self {
            UpdateError::TypeMismatch { expected, got } => {
                let mut message = "Type mismatch: Expected ".to_owned();
                message.append(expected.as_str());
                message.append(", got ");
                message.append(got.as_str());
                message
            },
            UpdateError::EmptyArray => "Cannot remove from an empty array".to_owned(),
            UpdateError::ValueNotFound => "Value not found in the array".to_owned(),
        }
    }
}

/// Position of the first entry under `key`, or the number of entries where none has that key.
pub open spec fn key_position(entries: Seq<(Seq<char>, Json)>, key: Seq<char>) -> int
    decreases entries.len(),
{
    if entries.len() == 0 || entries[0].0 == key {
        0
    } else {
        1 + key_position(entries.skip(1), key)
    }
}

/// Position of the first item equal to `value`, or the number of items where none equals it.
pub open spec fn value_position(items: Seq<Json>, value: Json) -> int
    decreases items.len(),
{
    if items.len() == 0 || items[0] == value {
        0
    } else {
        1 + value_position(items.skip(1), value)
    }
}

/// The value under `key` in `node`: that of the first entry with that key, where `node` is an
/// object that has one.
pub open spec fn child(node: Json, key: Seq<char>) -> Option<Json> {
    match node {
        Json::Object(entries) => {
            let p = key_position(entries, key);
            if 0 <= p < entries.len() {
                Some(entries[p].1)
            } else {
                None
            }
        },
        _ => None,
    }
}

/// The value that the segments lead to from `node`, descending through objects only.
pub open spec fn resolve(node: Json, segments: Seq<Seq<char>>) -> Option<Json>
    decreases segments.len(),
{
    if segments.len() == 0 {
        Some(node)
    } else {
        match child(node, segments[0]) {
            Some(next) => resolve(next, segments.skip(1)),
            None => None,
        }
    }
}

/// The shape that a change asks of the document: the address is not the root, all but its
/// last segment lead to an object, and for a change to an array the whole address leads to one.
pub open spec fn update_allowed(root: Json, segments: Seq<Seq<char>>, action: UpdateAction) -> bool {
    &&& segments.len() > 0
    &&& resolve(root, segments.drop_last()) matches Some(parent) && parent is Object
    &&& action != UpdateAction::Replace ==> (resolve(root, segments) matches Some(target)
        && target is Array)
}

/// The entries after `value` is put under `key`: in the place of the first entry with that
/// key, or behind the last entry where the key is new.
pub open spec fn set_entry(entries: Seq<(Seq<char>, Json)>, key: Seq<char>, value: Json) -> Seq<
    (Seq<char>, Json),
> {
    let p = key_position(entries, key);
    if 0 <= p < entries.len() {
        entries.update(p, (key, value))
    } else {
        entries.push((key, value))
    }
}

/// The items after `value` is appended, where its kind is that of the first item.
pub open spec fn appended(items: Seq<Json>, value: Json) -> Result<Seq<Json>, UpdateError> {
    if items.len() > 0 && items[0].kind() != value.kind() {
        Err(UpdateError::TypeMismatch { expected: items[0].kind(), got: value.kind() })
    } else {
        Ok(items.push(value))
    }
}

/// The items after the first one equal to `value` is removed.
pub open spec fn removed(items: Seq<Json>, value: Json) -> Result<Seq<Json>, UpdateError> {
    if items.len() == 0 {
        Err(UpdateError::EmptyArray)
    } else if items[0].kind() != value.kind() {
        Err(UpdateError::TypeMismatch { expected: items[0].kind(), got: value.kind() })
    } else {
        let p = value_position(items, value);
        if 0 <= p < items.len() {
            Ok(items.remove(p))
        } else {
            Err(UpdateError::ValueNotFound)
        }
    }
}

/// The same shape as `update_allowed` asks for, told segment by segment from `node` down.
pub open spec fn leads_to_target(node: Json, segments: Seq<Seq<char>>, action: UpdateAction) -> bool
    decreases segments.len(),
{
    &&& segments.len() > 0
    &&& node is Object
    &&& if segments.len() == 1 {
        action != UpdateAction::Replace ==> (child(node, segments[0]) matches Some(target)
            && target is Array)
    } else {
        child(node, segments[0]) matches Some(next) && leads_to_target(
            next,
            segments.skip(1),
            action,
        )
    }
}

/// The array's items after the change `action`, which is not a replacement.
pub open spec fn changed_items(items: Seq<Json>, action: UpdateAction, value: Json) -> Result<
    Seq<Json>,
    UpdateError,
> {
    if action == UpdateAction::AddTo {
        appended(items, value)
    } else {
        removed(items, value)
    }
}

/// The tree under `node` with `value` under the address `segments`: in the place of what the
/// address leads to, or under a new key of the object that all but the last segment lead to.
/// Nothing else differs from `node`.
pub open spec fn written(node: Json, segments: Seq<Seq<char>>, value: Json) -> Json
    decreases segments.len(),
{
    match node {
        Json::Object(entries) => {
            if segments.len() == 0 {
                node
            } else if segments.len() == 1 {
                Json::Object(set_entry(entries, segments[0], value))
            } else {
                let p = key_position(entries, segments[0]);
                if 0 <= p < entries.len() {
                    Json::Object(
                        entries.update(
                            p,
                            (entries[p].0, written(entries[p].1, segments.skip(1), value)),
                        ),
                    )
                } else {
                    node
                }
            }
        },
        _ => node,
    }
}

/// The document after the change at the address `segments`, or why the change is refused.
/// A replacement writes the value under the address. The two other changes write the changed
/// array in the place of the array that the address leads to.
pub open spec fn updated(
    root: Json,
    segments: Seq<Seq<char>>,
    action: UpdateAction,
    value: Json,
) -> Result<Json, UpdateError> {
    if action == UpdateAction::Replace {
        Ok(written(root, segments, value))
    } else {
        match resolve(root, segments) {
            Some(Json::Array(items)) => match changed_items(items, action, value) {
                Ok(after) => Ok(written(root, segments, Json::Array(after))),
                Err(e) => Err(e),
            },
            _ => Ok(root),
        }
    }
}

/// The document: its tree, the path of the file behind it, and the format of that file
/// (none where the file's extension names no format that is supported). The tree is always
/// one that a document can hold: no object of it holds a key twice, and every decimal
/// number of it reads as a number.
#[derive(Debug)]
pub struct Data {
    inner: JsonValue,
    path: String,
    format: Option<DataFormat>,
}

impl View for Data {
    type V = Json;

    /// The document's tree.
    closed spec fn view(&self) -> Json {
        self.inner@
    }
}

/// Position of the first entry under `key`, or the number of entries where none has that key.
fn find_key(entries: &Vec<(String, JsonValue)>, key: &str) -> (position: usize)
    ensures
        position == key_position(entries_view(entries@), key@),
{
    let mut i: usize = 0;
    while i < entries.len()
        invariant
            i <= entries.len(),
            forall|j: int| 0 <= j < i ==> (#[trigger] entries_view(entries@)[j]).0 != key@,
        decreases entries.len() - i,
    {
        let found = same_text(entries[i].0.as_str(), key);
        if found {
            proof {
                lemma_key_position_at(entries_view(entries@), key@, i as int);
            }
            return i;
        }
        i += 1;
    }
    proof {
        lemma_key_position_at(entries_view(entries@), key@, i as int);
    }
    i
}

/// Position of the first item equal to `value`, or the number of items where none equals it.
fn find_value(items: &Vec<JsonValue>, value: &JsonValue) -> (position: usize)
    ensures
        position == value_position(items_view(items@), value@),
{
    let mut i: usize = 0;
    while i < items.len()
        invariant
            i <= items.len(),
            forall|j: int| 0 <= j < i ==> #[trigger] items_view(items@)[j] != value@,
        decreases items.len() - i,
    {
        if items[i].same(value) {
            proof {
                lemma_value_position_at(items_view(items@), value@, i as int);
            }
            return i;
        }
        i += 1;
    }
    proof {
        lemma_value_position_at(items_view(items@), value@, i as int);
    }
    i
}

/// The value under `key` in `node`, where `node` is an object that has one.
fn child_of<'a>(node: &'a JsonValue, key: &str) -> (found: Option<&'a JsonValue>)
    ensures
        match found {
            Some(next) => child(node@, key@) == Some(next@),
            None => child(node@, key@) is None,
        },
{
    match node {
        JsonValue::Object(entries) => {
            proof {
                lemma_object_view(*entries);
            }
            let p = find_key(entries, key);
            if p < entries.len() {
                Some(&entries[p].1)
            } else {
                None
            }
        },
        _ => None,
    }
}

/// Changes the array `items` as `action` says; a refused change leaves it as it was.
fn change_items(items: &mut Vec<JsonValue>, action: UpdateAction, value: JsonValue) -> (result:
    Result<(), UpdateError>)
    requires
        action != UpdateAction::Replace,
    ensures
        match result {
            Ok(()) => changed_items(items_view(old(items)@), action, value@) == Ok::<
                Seq<Json>,
                UpdateError,
            >(items_view(final(items)@)),
            Err(e) => changed_items(items_view(old(items)@), action, value@) == Err::<
                Seq<Json>,
                UpdateError,
            >(e) && final(items)@ == old(items)@,
        },
{
    let ghost before = items_view(items@);
    if items.len() > 0 {
        assert(before[0] == items@[0]@);
    }
    match action {
        UpdateAction::AddTo => {
            if items.len() > 0 && items[0].kind() != value.kind() {
                return Err(
                    UpdateError::TypeMismatch { expected: items[0].kind(), got: value.kind() },
                );
            }
            items.push(value);
            assert(items_view(items@) =~= before.push(value@));
            Ok(())
        },
        _ => {
            if items.len() == 0 {
                return Err(UpdateError::EmptyArray);
            }
            if items[0].kind() != value.kind() {
                return Err(
                    UpdateError::TypeMismatch { expected: items[0].kind(), got: value.kind() },
                );
            }
            let p = find_value(items, &value);
            if p < items.len() {
                items.remove(p);
                assert(items_view(items@) =~= before.remove(p as int));
                Ok(())
            } else {
                Err(UpdateError::ValueNotFound)
            }
        },
    }
}

/// Changes the tree under `node` at the address made of the segments from `from` on; a
/// refused change leaves it as it was.
fn update_node(
    node: &mut JsonValue,
    parts: &Vec<String>,
    from: usize,
    value: JsonValue,
    action: UpdateAction,
) -> (result: Result<(), UpdateError>)
    requires
        from < parts.len(),
        leads_to_target(old(node)@, texts(parts@).skip(from as int), action),
    ensures
        match result {
            Ok(()) => updated(old(node)@, texts(parts@).skip(from as int), action, value@) == Ok::<
                Json,
                UpdateError,
            >(final(node)@),
            Err(e) => updated(old(node)@, texts(parts@).skip(from as int), action, value@) == Err::<
                Json,
                UpdateError,
            >(e) && final(node)@ == old(node)@,
        },
        old(node)@.well_formed() && value@.well_formed() ==> final(node)@.well_formed(),
    decreases parts.len() - from,
{
    let ghost segments = texts(parts@).skip(from as int);
    let ghost start = node@;
    proof {
        if start.well_formed() && value@.well_formed() {
            lemma_updated_stays_well_formed(start, segments, action, value@);
        }
    }
    assert(segments.len() == parts.len() - from);
    assert(segments[0] == parts@[from as int]@);
    assert(segments.skip(1) =~= texts(parts@).skip(from + 1));
    match node {
        JsonValue::Object(entries) => {
            proof {
                lemma_object_view(*entries);
            }
            let ghost shown = entries_view(entries@);
            let key = &parts[from];
            let p = find_key(entries, key.as_str());
            let last = from + 1 == parts.len();
            if last && action == UpdateAction::Replace {
                if p < entries.len() {
                    entries.set(p, (key.clone(), value));
                    assert(entries_view(entries@) =~= shown.update(p as int, (key@, value@)));
                } else {
                    entries.push((key.clone(), value));
                    assert(entries_view(entries@) =~= shown.push((key@, value@)));
                }
                proof {
                    lemma_object_view(*entries);
                    assert(written(start, segments, value@) == Json::Object(
                        set_entry(shown, segments[0], value@),
                    ));
                }
                Ok(())
            } else {
                let (name, mut below) = entries.remove(p);
                assert(shown[p as int] == (name@, below@));
                let ghost target = below@;
                let result = if last {
                    match &mut below {
                        JsonValue::Array(items) => {
                            proof {
                                lemma_array_view(*items);
                            }
                            let changed = change_items(items, action, value);
                            proof {
                                lemma_array_view(*items);
                            }
                            changed
                        },
                        _ => Ok(()),
                    }
                } else {
                    update_node(&mut below, parts, from + 1, value, action)
                };
                entries.insert(p, (name, below));
                proof {
                    lemma_object_view(*entries);
                    let rest = segments.skip(1);
                    lemma_key_position(shown, segments[0]);
                    assert(child(start, segments[0]) == Some(target));
                    assert(resolve(start, segments) == resolve(target, rest));
                    if result is Ok {
                        assert(entries_view(entries@) =~= shown.update(
                            p as int,
                            (shown[p as int].0, below@),
                        ));
                        if last {
                            assert(resolve(target, rest) == Some(target));
                            assert(written(start, segments, below@) == Json::Object(
                                set_entry(shown, segments[0], below@),
                            ));
                        } else if action == UpdateAction::Replace {
                            assert(below@ == written(target, rest, value@));
                            assert(written(start, segments, value@) == Json::Object(
                                shown.update(p as int, (shown[p as int].0, below@)),
                            ));
                        } else {
                            match resolve(target, rest) {
                                Some(Json::Array(items)) => {
                                    assert(below@ == written(target, rest, Json::Array(
                                        changed_items(items, action, value@)->Ok_0,
                                    )));
                                    assert(written(start, segments, Json::Array(
                                        changed_items(items, action, value@)->Ok_0,
                                    )) == Json::Object(
                                        shown.update(p as int, (shown[p as int].0, below@)),
                                    ));
                                },
                                _ => {
                                    assert(below@ == target);
                                    assert(shown.update(p as int, (shown[p as int].0, below@))
                                        =~= shown);
                                },
                            }
                        }
                    } else {
                        assert(entries_view(entries@) =~= shown);
                        if last {
                            assert(resolve(target, rest) == Some(target));
                        }
                    }
                }
                result
            }
        },
        _ => Ok(()),
    }
}

impl Data {
    #[verifier::type_invariant]
    spec fn sound(self) -> bool {
        self.inner@.well_formed()
    }

    /// A document with the tree `inner`, kept in the file at `path` in the format `format`.
    pub fn new(inner: JsonValue, path: String, format: Option<DataFormat>) -> (data: Self)
        requires
            inner@.well_formed(),
        ensures
            data@ == inner@,
            data.path_text() == path@,
            data.format() == format,
    {
        Data { inner, path, format }
    }

    /// A document with the tree `inner`, where `inner` is a tree that a document can hold.
    pub fn checked(inner: JsonValue, path: String, format: Option<DataFormat>) -> (data: Option<
        Self,
    >)
        ensures
            match data {
                Some(made) => inner@.well_formed() && made@ == inner@ && made.path_text() == path@
                    && made.format() == format,
                None => !inner@.well_formed(),
            },
    {
        if inner.is_well_formed() {
            Some(Data::new(inner, path, format))
        } else {
            None
        }
    }

    /// A document that no file stands behind.
    pub fn mock(value: JsonValue) -> (data: Self)
        requires
            value@.well_formed(),
        ensures
            data@ == value@,
            data.path_text() == Seq::<char>::empty(),
            data.format() is None,
    {
        Data { inner: value, path: String::new(), format: None }
    }

    /// A document that no file stands behind, where `value` is a tree that a document can
    /// hold.
    pub fn checked_mock(value: JsonValue) -> (data: Option<Self>)
        ensures
            match data {
                Some(made) => value@.well_formed() && made@ == value@ && made.path_text()
                    == Seq::<char>::empty() && made.format() is None,
                None => !value@.well_formed(),
            },
    {
        if value.is_well_formed() {
            Some(Data::mock(value))
        } else {
            None
        }
    }

    /// The document of the file at `path`, whose extension is `extension` and whose text is
    /// `content`. The extension decides the format, and fails the loading where it names
    /// none; a text that cannot be read fails it as a parse error.
    pub fn load(path: &str, extension: &str, content: &str) -> (loaded: Result<Data, DataError>)
        ensures
            loaded matches Err(DataError::UnsupportedFormat) <==> format_of_extension(extension@)
                is None,
            match loaded {
                Ok(data) => format_of_extension(extension@) == Some(data.format()->Some_0)
                    && data.format() is Some && data.path_text() == path@ && data@.well_formed()
                    && reads_as(content@, data.format()->Some_0, Some(data@)),
                Err(DataError::UnsupportedFormat) => true,
                Err(DataError::ParseError) => format_of_extension(extension@) matches Some(format)
                    && reads_as(content@, format, None),
                Err(DataError::SerializeError) => false,
            },
    {
        match DataFormat::from_extension(extension) {
            None => Err(DataError::UnsupportedFormat),
            Some(format) => Data::from_parsed(path, format, parse_document(content, format)),
        }
    }

    /// The document made of what was read from the file at `path`, or the error of the
    /// reading.
    pub fn from_parsed(path: &str, format: DataFormat, parsed: Result<JsonValue, DataError>) -> (loaded:
        Result<Data, DataError>)
        requires
            parsed matches Ok(value) ==> value@.well_formed(),
        ensures
            match (parsed, loaded) {
                (Ok(value), Ok(data)) => data@ == value@ && data.format() == Some(format)
                    && data.path_text() == path@,
                (Err(e), Err(same)) => e == same,
                _ => false,
            },
    {
        match parsed {
            Ok(inner) => Ok(Data { inner, path: path.to_owned(), format: Some(format) }),
            Err(e) => Err(e),
        }
    }

    /// The text to store in the file behind the document.
    pub fn write(&self) -> (written: Result<String, DataError>)
        ensures
            match written {
                Ok(text) => self.format() matches Some(format) && document_text(self@, format)
                    == Some(text@),
                Err(DataError::UnsupportedFormat) => self.format() is None,
                Err(DataError::SerializeError) => self.format() matches Some(format)
                    && document_text(self@, format) is None,
                Err(DataError::ParseError) => false,
            },
    {
        proof {
            use_type_invariant(self);
        }
        match self.format {
            None => Err(DataError::UnsupportedFormat),
            Some(format) => serialize_document(&self.inner, format),
        }
    }

    /// Takes the document anew from `content`, the text of the file behind it. A text that
    /// cannot be read leaves the document as it was.
    pub fn reload(&mut self, content: &str) -> (reloaded: Result<(), DataError>)
        ensures
            reloaded matches Err(DataError::UnsupportedFormat) <==> old(self).format() is None,
            match reloaded {
                Ok(()) => old(self).format() matches Some(format) && reads_as(
                    content@,
                    format,
                    Some(final(self)@),
                ),
                Err(DataError::UnsupportedFormat) => final(self)@ == old(self)@,
                Err(DataError::ParseError) => old(self).format() matches Some(format) && reads_as(
                    content@,
                    format,
                    None,
                ) && final(self)@ == old(self)@,
                Err(DataError::SerializeError) => false,
            },
            final(self).path_text() == old(self).path_text(),
            final(self).format() == old(self).format(),
    {
        match self.format {
            None => Err(DataError::UnsupportedFormat),
            Some(format) => match parse_document(content, format) {
                Ok(inner) => {
                    self.inner = inner;
                    Ok(())
                },
                Err(e) => Err(e),
            },
        }
    }

    /// The path of the file behind the document.
    pub closed spec fn path_text(&self) -> Seq<char> {
        self.path@
    }

    /// The format of the file behind the document.
    pub closed spec fn format(&self) -> Option<DataFormat> {
        self.format
    }

    /// The path of the file behind the document.
    pub fn path(&self) -> (path: &str)
        ensures
            path@ == self.path_text(),
    {
        self.path.as_str()
    }

    /// The document's tree.
    pub fn as_ref(&self) -> (inner: &JsonValue)
        ensures
            inner@ == self@,
            inner@.well_formed(),
    {
        proof {
            use_type_invariant(self);
        }
        &self.inner
    }

    /// The value at the address `level`, where it stands in the document: none where a
    /// segment names no entry, or where the way leads through anything but objects.
    pub fn at_ref(&self, level: &ValuePath) -> (found: Option<&JsonValue>)
        ensures
            match found {
                Some(value) => resolve(self@, level.segments()) == Some(value@)
                    && value@.well_formed(),
                None => resolve(self@, level.segments()) is None,
            },
    {
        proof {
            use_type_invariant(self);
            lemma_resolved_is_well_formed(self.inner@, level.segments());
        }
        let parts = level.to_vec();
        let ghost segments = texts(parts@);
        let mut current = &self.inner;
        let mut i: usize = 0;
        assert(segments.skip(0) =~= segments);
        while i < parts.len()
            invariant
                i <= parts.len(),
                segments == texts(parts@),
                segments == level.segments(),
                resolve(self.inner@, segments) == resolve(current@, segments.skip(i as int)),
            decreases parts.len() - i,
        {
            let ghost rest = segments.skip(i as int);
            let ghost before = current@;
            assert(rest.len() > 0 && rest[0] == parts@[i as int]@);
            assert(rest.skip(1) =~= segments.skip(i + 1));
            match child_of(current, parts[i].as_str()) {
                Some(next) => {
                    assert(resolve(before, rest) == resolve(next@, rest.skip(1)));
                    current = next;
                },
                None => {
                    assert(resolve(before, rest) is None);
                    return None;
                },
            }
            i += 1;
        }
        Some(current)
    }

    /// A copy of the value at the address `level`: none where a segment names no entry, or
    /// where the way leads through anything but objects.
    pub fn at(&self, level: &ValuePath) -> (found: Option<JsonValue>)
        ensures
            match found {
                Some(value) => resolve(self@, level.segments()) == Some(value@)
                    && value@.well_formed(),
                None => resolve(self@, level.segments()) is None,
            },
    {
        match self.at_ref(level) {
            Some(value) => Some(value.clone()),
            None => None,
        }
    }

    /// Replaces the whole tree.
    pub fn update(&mut self, new_value: JsonValue)
        requires
            new_value@.well_formed(),
        ensures
            final(self)@ == new_value@,
            final(self).path_text() == old(self).path_text(),
            final(self).format() == old(self).format(),
    {
        self.inner = new_value;
    }

    /// Whether the document has the shape that the change `action` at `level` asks for.
    pub fn can_update_at(&self, level: &ValuePath, action: UpdateAction) -> (allowed: bool)
        ensures
            allowed == update_allowed(self@, level.segments(), action),
    {
        let parts = level.to_vec();
        let ghost segments = texts(parts@);
        proof {
            lemma_leads_to_target(self.inner@, segments, action);
        }
        let n = parts.len();
        if n == 0 {
            return false;
        }
        let mut current = &self.inner;
        let mut i: usize = 0;
        assert(segments.skip(0) =~= segments);
        while i + 1 < n
            invariant
                i < n,
                n == parts.len(),
                segments == texts(parts@),
                segments == level.segments(),
                update_allowed(self.inner@, segments, action) == leads_to_target(
                    self.inner@,
                    segments,
                    action,
                ),
                leads_to_target(self.inner@, segments, action) == leads_to_target(
                    current@,
                    segments.skip(i as int),
                    action,
                ),
            decreases n - i,
        {
            let ghost rest = segments.skip(i as int);
            assert(rest.len() >= 2 && rest[0] == parts@[i as int]@);
            assert(rest.skip(1) =~= segments.skip(i + 1));
            match child_of(current, parts[i].as_str()) {
                Some(next) => {
                    current = next;
                },
                None => {
                    return false;
                },
            }
            i += 1;
        }
        let ghost rest = segments.skip(i as int);
        assert(rest.len() == 1 && rest[0] == parts@[i as int]@);
        match current {
            JsonValue::Object(_) => {
                if action == UpdateAction::Replace {
                    true
                } else {
                    match child_of(current, parts[i].as_str()) {
                        Some(JsonValue::Array(_)) => true,
                        _ => false,
                    }
                }
            },
            _ => false,
        }
    }

    /// Changes the document at the address `level`: writes `new_value` under it, appends
    /// `new_value` to the array there, or removes from that array the first item equal to
    /// `new_value`. A refused change leaves the document as it was.
    pub fn update_at(&mut self, level: &ValuePath, new_value: JsonValue, action: UpdateAction) -> (result:
        Result<(), UpdateError>)
        requires
            update_allowed(old(self)@, level.segments(), action),
            new_value@.well_formed(),
        ensures
            match result {
                Ok(()) => updated(old(self)@, level.segments(), action, new_value@) == Ok::<
                    Json,
                    UpdateError,
                >(final(self)@),
                Err(e) => updated(old(self)@, level.segments(), action, new_value@) == Err::<
                    Json,
                    UpdateError,
                >(e) && final(self)@ == old(self)@,
            },
            final(self).path_text() == old(self).path_text(),
            final(self).format() == old(self).format(),
    {
        let parts = level.to_vec();
        proof {
            use_type_invariant(&*self);
            lemma_leads_to_target(self.inner@, texts(parts@), action);
            assert(texts(parts@).skip(0) =~= texts(parts@));
        }
        let mut inner = JsonValue::Null;
        core::mem::swap(&mut self.inner, &mut inner);
        let result = update_node(&mut inner, &parts, 0, new_value, action);
        core::mem::swap(&mut self.inner, &mut inner);
        result
    }
}

/// The shape that a change asks for can be told from the root down, segment by segment.
pub proof fn lemma_leads_to_target(root: Json, segments: Seq<Seq<char>>, action: UpdateAction)
    ensures
        update_allowed(root, segments, action) == leads_to_target(root, segments, action),
    decreases segments.len(),
{
    if segments.len() == 0 {
    } else if segments.len() == 1 {
        assert(segments.drop_last() =~= Seq::<Seq<char>>::empty());
        assert(segments.skip(1) =~= Seq::<Seq<char>>::empty());
        assert(resolve(root, segments.drop_last()) == Some(root));
        match child(root, segments[0]) {
            Some(next) => {
                assert(resolve(next, segments.skip(1)) == Some(next));
            },
            None => {},
        }
    } else {
        let init = segments.drop_last();
        let rest = segments.skip(1);
        assert(init[0] == segments[0]);
        assert(init.skip(1) =~= rest.drop_last());
        match child(root, segments[0]) {
            Some(next) => {
                lemma_leads_to_target(next, rest, action);
                assert(resolve(root, init) == resolve(next, rest.drop_last()));
                assert(resolve(root, segments) == resolve(next, rest));
            },
            None => {
                assert(resolve(root, init) is None);
            },
        }
    }
}

/// After a value is written under an address, the address leads to that value, and the
/// document still has the shape that a change at that address asks for.
pub proof fn lemma_resolve_written(
    root: Json,
    segments: Seq<Seq<char>>,
    value: Json,
    action: UpdateAction,
)
    requires
        leads_to_target(root, segments, UpdateAction::Replace),
    ensures
        resolve(written(root, segments, value), segments) == Some(value),
        action == UpdateAction::Replace || value is Array ==> leads_to_target(
            written(root, segments, value),
            segments,
            action,
        ),
    decreases segments.len(),
{
    let entries = root->Object_0;
    let key = segments[0];
    let p = key_position(entries, key);
    let rest = segments.skip(1);
    lemma_key_position(entries, key);
    if segments.len() == 1 {
        let after = set_entry(entries, key, value);
        if p < entries.len() {
            lemma_key_position_at(after, key, p);
        } else {
            lemma_key_position_at(after, key, entries.len() as int);
        }
        assert(child(written(root, segments, value), key) == Some(value));
        assert(resolve(value, rest) == Some(value));
    } else {
        let below = written(entries[p].1, rest, value);
        let after = entries.update(p, (entries[p].0, below));
        lemma_key_position_at(after, key, p);
        lemma_resolve_written(entries[p].1, rest, value, action);
        assert(child(written(root, segments, value), key) == Some(below));
    }
}

/// Writing twice under one address leaves what the second writing alone would leave.
pub proof fn lemma_written_twice(root: Json, segments: Seq<Seq<char>>, first: Json, second: Json)
    requires
        leads_to_target(root, segments, UpdateAction::Replace),
    ensures
        written(written(root, segments, first), segments, second) == written(
            root,
            segments,
            second,
        ),
    decreases segments.len(),
{
    let entries = root->Object_0;
    let key = segments[0];
    let p = key_position(entries, key);
    let rest = segments.skip(1);
    lemma_key_position(entries, key);
    if segments.len() == 1 {
        let once = set_entry(entries, key, first);
        if p < entries.len() {
            lemma_key_position_at(once, key, p);
        } else {
            lemma_key_position_at(once, key, entries.len() as int);
        }
        assert(set_entry(once, key, second) =~= set_entry(entries, key, second));
    } else {
        let once = entries.update(p, (entries[p].0, written(entries[p].1, rest, first)));
        lemma_key_position_at(once, key, p);
        lemma_written_twice(entries[p].1, rest, first, second);
        assert(once.update(p, (once[p].0, written(once[p].1, rest, second))) =~= entries.update(
            p,
            (entries[p].0, written(entries[p].1, rest, second)),
        ));
    }
}

/// Writing under an address the value that it leads to changes nothing.
pub proof fn lemma_written_same(root: Json, segments: Seq<Seq<char>>, value: Json)
    requires
        leads_to_target(root, segments, UpdateAction::Replace),
        resolve(root, segments) == Some(value),
    ensures
        written(root, segments, value) == root,
    decreases segments.len(),
{
    let entries = root->Object_0;
    let key = segments[0];
    let p = key_position(entries, key);
    let rest = segments.skip(1);
    lemma_key_position(entries, key);
    if segments.len() == 1 {
        assert(resolve(entries[p].1, rest) == Some(entries[p].1));
        assert(set_entry(entries, key, value) =~= entries);
    } else {
        lemma_written_same(entries[p].1, rest, value);
        assert(entries.update(p, (entries[p].0, written(entries[p].1, rest, value))) =~= entries);
    }
}

/// An address with one more segment leads to the entry under that segment of what the
/// address leads to.
pub proof fn lemma_resolve_pushed(root: Json, segments: Seq<Seq<char>>, key: Seq<char>)
    ensures
        resolve(root, segments.push(key)) == match resolve(root, segments) {
            Some(found) => child(found, key),
            None => None,
        },
    decreases segments.len(),
{
    let longer = segments.push(key);
    if segments.len() == 0 {
        assert(longer.skip(1) =~= Seq::<Seq<char>>::empty());
        match child(root, key) {
            Some(next) => {
                assert(resolve(next, longer.skip(1)) == Some(next));
            },
            None => {},
        }
    } else {
        assert(longer[0] == segments[0]);
        assert(longer.skip(1) =~= segments.skip(1).push(key));
        match child(root, segments[0]) {
            Some(next) => {
                lemma_resolve_pushed(next, segments.skip(1), key);
            },
            None => {},
        }
    }
}

/// Writing a tree that a document can hold into such a tree leaves such a tree.
pub proof fn lemma_written_stays_well_formed(root: Json, segments: Seq<Seq<char>>, value: Json)
    requires
        root.well_formed(),
        value.well_formed(),
    ensures
        written(root, segments, value).well_formed(),
    decreases segments.len(),
{
    match root {
        Json::Object(entries) => {
            if segments.len() == 0 {
            } else {
                let key = segments[0];
                let p = key_position(entries, key);
                lemma_key_position(entries, key);
                if segments.len() == 1 {
                    let after = set_entry(entries, key, value);
                    assert forall|i: int| 0 <= i < after.len() implies (
                    #[trigger] after[i]).1.well_formed() by {
                        if i != p {
                            assert(after[i] == entries[i]);
                        }
                    }
                    assert forall|i: int, j: int| 0 <= i < j < after.len() implies (
                    #[trigger] after[i]).0 != (#[trigger] after[j]).0 by {
                        if p < entries.len() {
                            assert(after[i].0 == entries[i].0);
                            assert(after[j].0 == entries[j].0);
                        } else if j < entries.len() {
                            assert(after[i] == entries[i]);
                            assert(after[j] == entries[j]);
                        } else {
                            assert(after[i] == entries[i]);
                        }
                    }
                } else if p < entries.len() {
                    let below = written(entries[p].1, segments.skip(1), value);
                    let after = entries.update(p, (entries[p].0, below));
                    assert(entries[p].1.well_formed());
                    lemma_written_stays_well_formed(entries[p].1, segments.skip(1), value);
                    assert forall|i: int| 0 <= i < after.len() implies (
                    #[trigger] after[i]).1.well_formed() by {
                        if i != p {
                            assert(after[i] == entries[i]);
                        }
                    }
                    assert forall|i: int, j: int| 0 <= i < j < after.len() implies (
                    #[trigger] after[i]).0 != (#[trigger] after[j]).0 by {
                        assert(after[i].0 == entries[i].0);
                        assert(after[j].0 == entries[j].0);
                    }
                }
            }
        },
        _ => {},
    }
}

/// A change leaves a tree that a document can hold, where the document was one and the
/// value is one.
pub proof fn lemma_updated_stays_well_formed(
    root: Json,
    segments: Seq<Seq<char>>,
    action: UpdateAction,
    value: Json,
)
    requires
        root.well_formed(),
        value.well_formed(),
    ensures
        updated(root, segments, action, value) matches Ok(after) ==> after.well_formed(),
{
    if action == UpdateAction::Replace {
        lemma_written_stays_well_formed(root, segments, value);
    } else {
        match resolve(root, segments) {
            Some(Json::Array(items)) => {
                lemma_resolved_is_well_formed(root, segments);
                match changed_items(items, action, value) {
                    Ok(after) => {
                        assert forall|i: int| 0 <= i < after.len() implies (
                        #[trigger] after[i]).well_formed() by {
                            if action == UpdateAction::AddTo {
                                if i < items.len() {
                                    assert(after[i] == items[i]);
                                }
                            } else {
                                let p = value_position(items, value);
                                if i < p {
                                    assert(after[i] == items[i]);
                                } else {
                                    assert(after[i] == items[i + 1]);
                                }
                            }
                        }
                        lemma_written_stays_well_formed(root, segments, Json::Array(after));
                    },
                    Err(_) => {},
                }
            },
            _ => {},
        }
    }
}

/// What an address leads to in a tree that a document can hold is such a tree.
pub proof fn lemma_resolved_is_well_formed(root: Json, segments: Seq<Seq<char>>)
    requires
        root.well_formed(),
    ensures
        resolve(root, segments) matches Some(found) ==> found.well_formed(),
    decreases segments.len(),
{
    if segments.len() > 0 {
        match child(root, segments[0]) {
            Some(next) => {
                let entries = root->Object_0;
                lemma_key_position(entries, segments[0]);
                assert(entries[key_position(entries, segments[0])].1.well_formed());
                lemma_resolved_is_well_formed(next, segments.skip(1));
            },
            None => {},
        }
    }
}

/// After a replacement the address leads to the new value, whatever the document held, as
/// long as all but the last segment of the address lead to an object.
pub proof fn lemma_replace_then_get(root: Json, segments: Seq<Seq<char>>, value: Json)
    requires
        update_allowed(root, segments, UpdateAction::Replace),
    ensures
        updated(root, segments, UpdateAction::Replace, value) matches Ok(after) && resolve(
            after,
            segments,
        ) == Some(value),
{
    lemma_leads_to_target(root, segments, UpdateAction::Replace);
    lemma_resolve_written(root, segments, value, UpdateAction::Replace);
}

/// Appending a value that the array does not hold yet, and then removing that value, gives
/// the document back as it was: the array has its items again, in their order. Where the
/// value cannot be appended, its kind is not that of the array's first item.
pub proof fn lemma_append_then_remove(root: Json, segments: Seq<Seq<char>>, value: Json)
    requires
        update_allowed(root, segments, UpdateAction::AddTo),
        resolve(root, segments) matches Some(Json::Array(items)) && !items.contains(value),
    ensures
        match updated(root, segments, UpdateAction::AddTo, value) {
            Ok(longer) => update_allowed(longer, segments, UpdateAction::RemoveFrom) && updated(
                longer,
                segments,
                UpdateAction::RemoveFrom,
                value,
            ) == Ok::<Json, UpdateError>(root),
            Err(e) => e is TypeMismatch,
        },
{
    let items = resolve(root, segments)->Some_0->Array_0;
    lemma_leads_to_target(root, segments, UpdateAction::Replace);
    if updated(root, segments, UpdateAction::AddTo, value) is Ok {
        let more = items.push(value);
        let longer = written(root, segments, Json::Array(more));
        lemma_resolve_written(root, segments, Json::Array(more), UpdateAction::RemoveFrom);
        lemma_leads_to_target(longer, segments, UpdateAction::RemoveFrom);
        assert forall|i: int| 0 <= i < items.len() implies #[trigger] more[i] != value by {
            assert(items[i] == more[i]);
            assert(items.contains(more[i]));
        }
        lemma_value_position_at(more, value, items.len() as int);
        assert(more.remove(items.len() as int) =~= items);
        assert(changed_items(more, UpdateAction::RemoveFrom, value) == Ok::<
            Seq<Json>,
            UpdateError,
        >(items));
        lemma_written_twice(root, segments, Json::Array(more), Json::Array(items));
        lemma_written_same(root, segments, Json::Array(items));
    }
}

/// Removing a value that a non-empty array of its kind does not hold is refused as not
/// found.
pub proof fn lemma_remove_absent(root: Json, segments: Seq<Seq<char>>, value: Json)
    requires
        update_allowed(root, segments, UpdateAction::RemoveFrom),
        resolve(root, segments) matches Some(Json::Array(items)) && items.len() > 0
            && items[0].kind() == value.kind() && !items.contains(value),
    ensures
        updated(root, segments, UpdateAction::RemoveFrom, value) == Err::<Json, UpdateError>(
            UpdateError::ValueNotFound,
        ),
{
    let items = resolve(root, segments)->Some_0->Array_0;
    lemma_value_position(items, value);
    let p = value_position(items, value);
    if p < items.len() {
        assert(items.contains(items[p]));
    }
}

/// Appending to, or removing from, an array a value of another kind than the array's first
/// item is refused as a mismatch, whatever the two kinds are.
pub proof fn lemma_kind_mismatch(
    root: Json,
    segments: Seq<Seq<char>>,
    action: UpdateAction,
    value: Json,
)
    requires
        action != UpdateAction::Replace,
        update_allowed(root, segments, action),
        resolve(root, segments) matches Some(Json::Array(items)) && items.len() > 0
            && items[0].kind() != value.kind(),
    ensures
        updated(root, segments, action, value) == Err::<Json, UpdateError>(
            UpdateError::TypeMismatch {
                expected: resolve(root, segments)->Some_0->Array_0[0].kind(),
                got: value.kind(),
            },
        ),
{
}

pub proof fn lemma_key_position(entries: Seq<(Seq<char>, Json)>, key: Seq<char>)
    ensures
        0 <= key_position(entries, key) <= entries.len(),
        forall|i: int| 0 <= i < key_position(entries, key) ==> (#[trigger] entries[i]).0 != key,
        key_position(entries, key) < entries.len() ==> entries[key_position(entries, key)].0 == key,
    decreases entries.len(),
{
    if entries.len() == 0 || entries[0].0 == key {
    } else {
        let rest = entries.skip(1);
        lemma_key_position(rest, key);
        assert forall|i: int| 0 <= i < key_position(entries, key) implies (
        #[trigger] entries[i]).0 != key by {
            if i > 0 {
                assert(entries[i] == rest[i - 1]);
            }
        }
        if key_position(entries, key) < entries.len() {
            assert(entries[key_position(entries, key)] == rest[key_position(rest, key)]);
        }
    }
}

/// The first entry under `key` stands at `p` where none before `p` has that key and the entry
/// at `p` has it, or the entries end there.
pub proof fn lemma_key_position_at(entries: Seq<(Seq<char>, Json)>, key: Seq<char>, p: int)
    requires
        0 <= p <= entries.len(),
        forall|i: int| 0 <= i < p ==> (#[trigger] entries[i]).0 != key,
        p < entries.len() ==> entries[p].0 == key,
    ensures
        key_position(entries, key) == p,
{
    lemma_key_position(entries, key);
    let f = key_position(entries, key);
    if f < p {
        assert(entries[f].0 != key);
    } else if f > p {
        assert(entries[p].0 != key);
    }
}

pub proof fn lemma_value_position(items: Seq<Json>, value: Json)
    ensures
        0 <= value_position(items, value) <= items.len(),
        forall|i: int| 0 <= i < value_position(items, value) ==> #[trigger] items[i] != value,
        value_position(items, value) < items.len() ==> items[value_position(items, value)] == value,
    decreases items.len(),
{
    if items.len() == 0 || items[0] == value {
    } else {
        let rest = items.skip(1);
        lemma_value_position(rest, value);
        assert forall|i: int| 0 <= i < value_position(items, value) implies #[trigger] items[i]
            != value by {
            if i > 0 {
                assert(items[i] == rest[i - 1]);
            }
        }
        if value_position(items, value) < items.len() {
            assert(items[value_position(items, value)] == rest[value_position(rest, value)]);
        }
    }
}

/// The first item equal to `value` stands at `p` where none before `p` equals it and the item
/// at `p` does, or the items end there.
pub proof fn lemma_value_position_at(items: Seq<Json>, value: Json, p: int)
    requires
        0 <= p <= items.len(),
        forall|i: int| 0 <= i < p ==> #[trigger] items[i] != value,
        p < items.len() ==> items[p] == value,
    ensures
        value_position(items, value) == p,
{
    lemma_value_position(items, value);
    let f = value_position(items, value);
    if f < p {
        assert(items[f] != value);
    } else if f > p {
        assert(items[p] != value);
    }
}

} // verus!
