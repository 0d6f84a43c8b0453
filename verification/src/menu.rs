//! Menus: what is shown for an address, and the payloads that the buttons carry.
use crate::codec::{accepted, json_literal, json_text, parse_literal, parsed_view, value_text};
use crate::data::{key_position, lemma_resolve_pushed, resolve, Data};
use crate::path::{
    is_segment, is_segment_text, lemma_segments_of_pushed, parent_text, pushed_text, root_text,
    segments_of, ValuePath,
};
use crate::text::{decimal, decimal_text, same_text};
use crate::value::{items_view, entries_view, lemma_array_view, lemma_object_view, Json, JsonValue};
use vstd::prelude::*;
use vstd::string::*;
use vstd::utf8::encode_utf8;

verus! {

/// The most bytes that the payload of a button may take.
pub const MAX_PAYLOAD_BYTES: usize = 64;

/// The most items of an array that a menu shows.
pub const MAX_PREVIEW_ITEMS: usize = 25;

/// What the press of a button asks for.
#[derive(Clone, Copy, Debug, PartialEq, Eq, Structural)]
pub enum ActionTag {
    Go,
    UpdateAt,
    AddTo,
    RemoveFrom,
}

/// What the press of a button asks for, with the address that it is about.
#[derive(Debug, PartialEq, Eq)]
pub enum CallbackAction {
    /// Show the menu of the address.
    Go(ValuePath),
    /// Replace the value at the address.
    UpdateAt(ValuePath),
    /// Append to the array at the address.
    AddTo(ValuePath),
    /// Remove from the array at the address.
    RemoveFrom(ValuePath),
}

/// What an action is: its tag and the text of its address.
pub struct ActionModel {
    pub tag: ActionTag,
    pub address: Seq<char>,
}

/// A button of a menu: what it shows, and the payload that its press sends back.
#[derive(Debug, PartialEq, Eq)]
pub struct Button {
    pub text: String,
    pub callback_data: String,
}

/// What a button is.
pub struct ButtonModel {
    pub text: Seq<char>,
    pub callback_data: Seq<char>,
}

/// A menu: the text above the buttons, and the rows of buttons.
#[derive(Debug, PartialEq, Eq)]
pub struct Menu {
    pub header: String,
    pub keyboard: Vec<Vec<Button>>,
}

/// What a menu is.
pub struct MenuModel {
    pub header: Seq<char>,
    pub keyboard: Seq<Seq<ButtonModel>>,
}

/// Why no menu can be shown.
#[derive(Clone, Copy, Debug, PartialEq, Eq, Structural)]
pub enum RenderError {
    /// The payload of a button would take more bytes than a button can carry.
    PayloadTooLong,
    /// A key of the object is empty or holds the separator: no address leads to its entry.
    KeyNotAddressable,
}

impl RenderError {
    /// The words in which a failure is reported.
    pub open spec fn text(self) -> Seq<char> {
        match self {
            RenderError::PayloadTooLong =>
                "Cannot show the menu: an address in it is too long for a button"@,
            RenderError::KeyNotAddressable =>
                "Cannot show the menu: a key in it is empty or holds the separator"@,
        }
    }

    /// The words in which the failure is reported.
    pub fn message(&self) -> (message: String)
        ensures
            message@ == self.text(),
    {
        match self {
            RenderError::PayloadTooLong =>
                "Cannot show the menu: an address in it is too long for a button".to_owned(),
            RenderError::KeyNotAddressable =>
                "Cannot show the menu: a key in it is empty or holds the separator".to_owned(),
        }
    }
}

impl ActionTag {
    /// The name of the tag in a payload.
    pub open spec fn name(self) -> Seq<char> {
        match self {
            ActionTag::Go => "Go"@,
            ActionTag::UpdateAt => "UpdateAt"@,
            ActionTag::AddTo => "AddTo"@,
            ActionTag::RemoveFrom => "RemoveFrom"@,
        }
    }

    /// The name of the tag in a payload.
    pub fn as_str(&self) -> (name: &'static str)
        ensures
            name@ == self.name(),
    {
        match self {
            ActionTag::Go => "Go",
            ActionTag::UpdateAt => "UpdateAt",
            ActionTag::AddTo => "AddTo",
            ActionTag::RemoveFrom => "RemoveFrom",
        }
    }

    /// The tag of the name `name`, where it is the name of one.
    pub fn from_name(name: &str) -> (tag: Option<ActionTag>)
        ensures
            match tag {
                Some(found) => found.name() == name@,
                None => forall|other: ActionTag| other.name() != name@,
            },
    {
        if same_text(name, "Go") {
            Some(ActionTag::Go)
        } else if same_text(name, "UpdateAt") {
            Some(ActionTag::UpdateAt)
        } else if same_text(name, "AddTo") {
            Some(ActionTag::AddTo)
        } else if same_text(name, "RemoveFrom") {
            Some(ActionTag::RemoveFrom)
        } else {
            None
        }
    }
}

impl View for CallbackAction {
    type V = ActionModel;

    open spec fn view(&self) -> ActionModel {
        match self {
            CallbackAction::Go(path) => ActionModel { tag: ActionTag::Go, address: path@ },
            CallbackAction::UpdateAt(path) => ActionModel {
                tag: ActionTag::UpdateAt,
                address: path@,
            },
            CallbackAction::AddTo(path) => ActionModel { tag: ActionTag::AddTo, address: path@ },
            CallbackAction::RemoveFrom(path) => ActionModel {
                tag: ActionTag::RemoveFrom,
                address: path@,
            },
        }
    }
}

impl View for Button {
    type V = ButtonModel;

    open spec fn view(&self) -> ButtonModel {
        ButtonModel { text: self.text@, callback_data: self.callback_data@ }
    }
}

/// What a row of buttons is.
pub open spec fn row_view(row: Seq<Button>) -> Seq<ButtonModel> {
    Seq::new(row.len(), |j: int| row[j]@)
}

/// What the rows of a menu are.
pub open spec fn rows_view(rows: Seq<Vec<Button>>) -> Seq<Seq<ButtonModel>> {
    Seq::new(rows.len(), |i: int| row_view(rows[i]@))
}

impl View for Menu {
    type V = MenuModel;

    open spec fn view(&self) -> MenuModel {
        MenuModel { header: self.header@, keyboard: rows_view(self.keyboard@) }
    }
}

/// The payload of a button: the tag's name and the address, as a JSON object of one entry.
pub open spec fn payload_text(tag: ActionTag, address: Seq<char>) -> Seq<char> {
    seq!['{', '"'] + tag.name() + seq!['"', ':'] + json_text(Json::String(address)) + seq!['}']
}

/// Whether a payload is short enough for a button.
pub open spec fn payload_fits(payload: Seq<char>) -> bool {
    encode_utf8(payload).len() <= MAX_PAYLOAD_BYTES
}

/// Whether every button of a menu has a payload that is short enough.
pub open spec fn payloads_fit(keyboard: Seq<Seq<ButtonModel>>) -> bool {
    forall|i: int, j: int|
        0 <= i < keyboard.len() && 0 <= j < keyboard[i].len() ==> payload_fits(
            #[trigger] keyboard[i][j].callback_data,
        )
}

/// The action that a parsed payload stands for: the payload is to be an object of one
/// entry, whose key is the name of a tag and whose value is a text.
pub open spec fn action_of(parsed: Option<Json>) -> Option<ActionModel> {
    match parsed {
        Some(Json::Object(entries)) => if entries.len() == 1 {
            match entries[0].1 {
                Json::String(address) => if exists|tag: ActionTag| tag.name() == entries[0].0 {
                    Some(
                        ActionModel {
                            tag: choose|tag: ActionTag| tag.name() == entries[0].0,
                            address,
                        },
                    )
                } else {
                    None
                },
                _ => None,
            }
        } else {
            None
        },
        _ => None,
    }
}

/// The names of the tags differ from one another.
pub proof fn lemma_tag_names_differ(a: ActionTag, b: ActionTag)
    ensures
        a.name() == b.name() ==> a == b,
{
    reveal_strlit("Go");
    reveal_strlit("UpdateAt");
    reveal_strlit("AddTo");
    reveal_strlit("RemoveFrom");
    if a != b && a.name() == b.name() {
        assert(a.name().len() == b.name().len());
        assert(a.name()[0] == b.name()[0]);
    }
}

impl CallbackAction {
    /// The action of tag `tag` about the address `path`.
    pub fn new(tag: ActionTag, path: ValuePath) -> (action: Self)
        ensures
            action@ == (ActionModel { tag, address: path@ }),
    {
        match tag {
            ActionTag::Go => CallbackAction::Go(path),
            ActionTag::UpdateAt => CallbackAction::UpdateAt(path),
            ActionTag::AddTo => CallbackAction::AddTo(path),
            ActionTag::RemoveFrom => CallbackAction::RemoveFrom(path),
        }
    }

    /// The tag of the action.
    pub fn tag(&self) -> (tag: ActionTag)
        ensures
            tag == self@.tag,
    {
        match self {
            CallbackAction::Go(_) => ActionTag::Go,
            CallbackAction::UpdateAt(_) => ActionTag::UpdateAt,
            CallbackAction::AddTo(_) => ActionTag::AddTo,
            CallbackAction::RemoveFrom(_) => ActionTag::RemoveFrom,
        }
    }

    /// The address that the action is about.
    pub fn value_path(&self) -> (path: &ValuePath)
        ensures
            path@ == self@.address,
    {
        match self {
            CallbackAction::Go(path) => path,
            CallbackAction::UpdateAt(path) => path,
            CallbackAction::AddTo(path) => path,
            CallbackAction::RemoveFrom(path) => path,
        }
    }

    /// The payload that stands for the action.
    pub fn encode(&self) -> (payload: String)
        ensures
            payload@ == payload_text(self@.tag, self@.address),
    {
        encode_payload(self.tag(), self.value_path())
    }

    /// The action that the payload `payload` stands for, where it stands for one.
    pub fn decode(payload: &str) -> (action: Option<CallbackAction>)
        ensures
            match action {
                Some(found) => action_of(accepted(json_literal(payload@))) == Some(found@),
                None => action_of(accepted(json_literal(payload@))) is None,
            },
    {
        CallbackAction::from_parsed(parse_literal(payload))
    }

    /// The action that a parsed payload stands for, where it stands for one.
    pub fn from_parsed(parsed: Option<JsonValue>) -> (action: Option<CallbackAction>)
        ensures
            match action {
                Some(found) => action_of(parsed_view(parsed)) == Some(found@),
                None => action_of(parsed_view(parsed)) is None,
            },
    {
        match parsed {
            Some(JsonValue::Object(entries)) => {
                proof {
                    lemma_object_view(entries);
                }
                if entries.len() != 1 {
                    return None;
                }
                assert(entries_view(entries@)[0] == (entries@[0].0@, entries@[0].1@));
                match &entries[0].1 {
                    JsonValue::String(address) => match ActionTag::from_name(
                        entries[0].0.as_str(),
                    ) {
                        Some(tag) => {
                            proof {
                                let chosen = choose|other: ActionTag|
                                    other.name() == entries@[0].0@;
                                lemma_tag_names_differ(tag, chosen);
                            }
                            Some(CallbackAction::new(tag, ValuePath::new(address.clone())))
                        },
                        None => None,
                    },
                    _ => None,
                }
            },
            _ => None,
        }
    }
}

/// The payload for the tag `tag` and the address `path`.
pub fn encode_payload(tag: ActionTag, path: &ValuePath) -> (payload: String)
    ensures
        payload@ == payload_text(tag, path@),
{
    proof {
        reveal_strlit("{\"");
        reveal_strlit("\":");
        reveal_strlit("}");
    }
    let mut payload = "{\"".to_owned();
    payload.append(tag.as_str());
    payload.append("\":");
    let address = value_text(&JsonValue::String(path.as_str().to_owned()));
    payload.append(address.as_str());
    payload.append("}");
    assert(payload@ =~= payload_text(tag, path@));
    payload
}

/// What a menu shows for the entry `key` of an object: where the value is an object or an
/// array, a mark and the key; else the key and the value.
pub open spec fn preview_text(key: Seq<char>, value: Json) -> Seq<char> {
    match value {
        Json::Object(_) => "{} "@ + key,
        Json::Array(items) => "["@ + decimal_text(items.len()) + "] "@ + key,
        _ => key + ": "@ + json_text(value),
    }
}

/// The tag of the button for an entry: to go into an object or an array, to replace any
/// other value.
pub open spec fn entry_tag(value: Json) -> ActionTag {
    if value is Object || value is Array {
        ActionTag::Go
    } else {
        ActionTag::UpdateAt
    }
}

/// The button for the entry `key` of the object at `address`.
pub open spec fn entry_button(address: Seq<char>, key: Seq<char>, value: Json) -> ButtonModel {
    ButtonModel {
        text: preview_text(key, value),
        callback_data: payload_text(entry_tag(value), pushed_text(address, key)),
    }
}

/// The rows for the entries of the object at `address`: one button each, in the entries'
/// order.
pub open spec fn entry_rows(address: Seq<char>, entries: Seq<(Seq<char>, Json)>) -> Seq<
    Seq<ButtonModel>,
> {
    Seq::new(entries.len(), |i: int| seq![entry_button(address, entries[i].0, entries[i].1)])
}

/// The row that leads one level up: none at the root.
pub open spec fn parent_rows(address: Seq<char>) -> Seq<Seq<ButtonModel>> {
    if address == root_text() {
        Seq::empty()
    } else {
        seq![
            seq![
                ButtonModel {
                    text: ".."@,
                    callback_data: payload_text(ActionTag::Go, parent_text(address)),
                },
            ],
        ]
    }
}

/// The row under an array: to add an item, and to remove one.
pub open spec fn array_row(address: Seq<char>) -> Seq<ButtonModel> {
    seq![
        ButtonModel { text: "Add"@, callback_data: payload_text(ActionTag::AddTo, address) },
        ButtonModel {
            text: "Remove"@,
            callback_data: payload_text(ActionTag::RemoveFrom, address),
        },
    ]
}

/// The texts of the items, each followed by a line break.
pub open spec fn item_lines(items: Seq<Json>) -> Seq<char>
    decreases items.len(),
{
    if items.len() == 0 {
        Seq::empty()
    } else {
        item_lines(items.drop_last()) + json_text(items.last()) + seq!['\n']
    }
}

/// Where the preview of an array of `count` items starts: it shows the last items only.
pub open spec fn preview_start(count: nat) -> int {
    if count > MAX_PREVIEW_ITEMS {
        count - MAX_PREVIEW_ITEMS
    } else {
        0
    }
}

/// The text above the buttons of an array: the address, the number of items, and the last
/// items.
pub open spec fn array_header(address: Seq<char>, items: Seq<Json>) -> Seq<char> {
    address + " ["@ + decimal_text(items.len()) + "]"@ + "\n```json\n"@ + item_lines(
        items.skip(preview_start(items.len())),
    ) + "```"@
}

/// The menu of the value `target`, which stands at `address`.
pub open spec fn rendered(target: Json, address: Seq<char>) -> MenuModel {
    match target {
        Json::Object(entries) => MenuModel {
            header: address,
            keyboard: parent_rows(address) + entry_rows(address, entries),
        },
        Json::Array(items) => MenuModel {
            header: array_header(address, items),
            keyboard: parent_rows(address) + seq![array_row(address)],
        },
        _ => MenuModel { header: address, keyboard: parent_rows(address) },
    }
}

/// What a menu shows for the entry `key` of an object.
pub fn value_preview(key: &String, value: &JsonValue) -> (text: String)
    requires
        value@.well_formed(),
    ensures
        text@ == preview_text(key@, value@),
{
    proof {
        reveal_strlit("{} ");
        reveal_strlit("[");
        reveal_strlit("] ");
        reveal_strlit(": ");
    }
    match value {
        JsonValue::Object(_) => {
            let mut text = "{} ".to_owned();
            text.append(key.as_str());
            text
        },
        JsonValue::Array(items) => {
            proof {
                lemma_array_view(*items);
            }
            let mut text = "[".to_owned();
            text.append(decimal(items.len()).as_str());
            text.append("] ");
            text.append(key.as_str());
            text
        },
        _ => {
            let mut text = key.clone();
            text.append(": ");
            text.append(value_text(value).as_str());
            text
        },
    }
}

/// A button that shows `text` and stands for the tag `tag` at the address `path`: none
/// where its payload would be too long.
fn make_button(text: String, tag: ActionTag, path: &ValuePath) -> (button: Option<Button>)
    ensures
        match button {
            Some(made) => made@ == (ButtonModel {
                text: text@,
                callback_data: payload_text(tag, path@),
            }) && payload_fits(made@.callback_data),
            None => !payload_fits(payload_text(tag, path@)),
        },
{
    let callback_data = encode_payload(tag, path);
    if callback_data.as_str().as_bytes().len() <= MAX_PAYLOAD_BYTES {
        Some(Button { text, callback_data })
    } else {
        None
    }
}

/// The text above the buttons of the array `items` at `address`.
fn render_array_header(address: &ValuePath, items: &Vec<JsonValue>) -> (header: String)
    requires
        forall|i: int| 0 <= i < items@.len() ==> (#[trigger] items@[i])@.well_formed(),
    ensures
        header@ == array_header(address@, items_view(items@)),
{
    proof {
        reveal_strlit(" [");
        reveal_strlit("]");
        reveal_strlit("\n```json\n");
        reveal_strlit("```");
        reveal_strlit("\n");
    }
    let ghost shown = items_view(items@);
    let mut header = address.as_str().to_owned();
    header.append(" [");
    header.append(decimal(items.len()).as_str());
    header.append("]");
    header.append("\n```json\n");
    let ghost prefix = header@;
    let start: usize = if items.len() > MAX_PREVIEW_ITEMS {
        items.len() - MAX_PREVIEW_ITEMS
    } else {
        0
    };
    let mut i: usize = start;
    assert(shown.subrange(start as int, start as int) =~= Seq::<Json>::empty());
    while i < items.len()
        invariant
            start <= i <= items.len(),
            shown == items_view(items@),
            forall|k: int| 0 <= k < items@.len() ==> (#[trigger] items@[k])@.well_formed(),
            header@ == prefix + item_lines(shown.subrange(start as int, i as int)),
        decreases items.len() - i,
    {
        let ghost before = shown.subrange(start as int, i as int);
        let ghost after = shown.subrange(start as int, i + 1);
        proof {
            reveal_strlit("\n");
        }
        assert(after.drop_last() =~= before);
        assert(after.last() == items@[i as int]@);
        header.append(value_text(&items[i]).as_str());
        header.append("\n");
        assert(header@ =~= prefix + item_lines(after));
        i += 1;
    }
    assert(shown.subrange(start as int, items.len() as int) =~= shown.skip(start as int));
    header.append("```");
    assert(header@ =~= array_header(address@, shown));
    header
}

/// What stands in the way of the button for the entry `key` of the object at `address`: a
/// key that is no segment, or a payload that is too long.
pub open spec fn entry_fault(address: Seq<char>, key: Seq<char>, value: Json) -> Option<
    RenderError,
> {
    if !is_segment(key) {
        Some(RenderError::KeyNotAddressable)
    } else if !payload_fits(entry_button(address, key, value).callback_data) {
        Some(RenderError::PayloadTooLong)
    } else {
        None
    }
}

/// What stands in the way of the first entry whose button cannot be made.
pub open spec fn first_entry_fault(address: Seq<char>, entries: Seq<(Seq<char>, Json)>) -> Option<
    RenderError,
>
    decreases entries.len(),
{
    if entries.len() == 0 {
        None
    } else {
        match entry_fault(address, entries[0].0, entries[0].1) {
            Some(fault) => Some(fault),
            None => first_entry_fault(address, entries.skip(1)),
        }
    }
}

/// What rendering the value `target` at `address` gives: its menu, or what stands in the
/// way of the first button, in the order of the rows, that cannot be made.
pub open spec fn render_outcome(target: Json, address: Seq<char>) -> Result<
    MenuModel,
    RenderError,
> {
    if !payloads_fit(parent_rows(address)) {
        Err(RenderError::PayloadTooLong)
    } else {
        match target {
            Json::Object(entries) => match first_entry_fault(address, entries) {
                Some(fault) => Err(fault),
                None => Ok(rendered(target, address)),
            },
            Json::Array(_) => if payloads_fit(seq![array_row(address)]) {
                Ok(rendered(target, address))
            } else {
                Err(RenderError::PayloadTooLong)
            },
            _ => Ok(rendered(target, address)),
        }
    }
}

/// What the outcome of a rendering is.
pub open spec fn outcome_view(outcome: Result<Menu, RenderError>) -> Result<
    MenuModel,
    RenderError,
> {
    match outcome {
        Ok(menu) => Ok(menu@),
        Err(fault) => Err(fault),
    }
}

/// No entry is at fault exactly where none of them is.
pub proof fn lemma_first_entry_fault(address: Seq<char>, entries: Seq<(Seq<char>, Json)>)
    ensures
        first_entry_fault(address, entries) is None <==> forall|i: int|
            0 <= i < entries.len() ==> entry_fault(
                address,
                (#[trigger] entries[i]).0,
                entries[i].1,
            ) is None,
    decreases entries.len(),
{
    if entries.len() > 0 {
        let rest = entries.skip(1);
        lemma_first_entry_fault(address, rest);
        if first_entry_fault(address, entries) is None {
            assert forall|i: int| 0 <= i < entries.len() implies entry_fault(
                address,
                (#[trigger] entries[i]).0,
                entries[i].1,
            ) is None by {
                if i > 0 {
                    assert(entries[i] == rest[i - 1]);
                }
            }
        } else if entry_fault(address, entries[0].0, entries[0].1) is None {
            let i = choose|i: int|
                0 <= i < rest.len() && !(entry_fault(address, (#[trigger] rest[i]).0, rest[i].1)
                    is None);
            assert(entries[i + 1] == rest[i]);
        }
    }
}

/// A menu that is given has only buttons whose payloads fit, and, for an object, a button
/// for every entry, each under a key that an address can carry.
pub proof fn lemma_given_menu_is_sound(target: Json, address: Seq<char>)
    requires
        render_outcome(target, address) is Ok,
    ensures
        render_outcome(target, address) == Ok::<MenuModel, RenderError>(rendered(target, address)),
        payloads_fit(rendered(target, address).keyboard),
        target matches Json::Object(entries) ==> forall|i: int|
            0 <= i < entries.len() ==> is_segment((#[trigger] entries[i]).0),
{
    let above = parent_rows(address);
    let keyboard = rendered(target, address).keyboard;
    match target {
        Json::Object(entries) => {
            lemma_first_entry_fault(address, entries);
            let rows = entry_rows(address, entries);
            assert forall|a: int, b: int|
                0 <= a < keyboard.len() && 0 <= b < keyboard[a].len() implies payload_fits(
                #[trigger] keyboard[a][b].callback_data,
            ) by {
                if a < above.len() {
                    assert(keyboard[a] == above[a]);
                } else {
                    let i = a - above.len();
                    assert(keyboard[a] == rows[i]);
                    assert(entry_fault(address, entries[i].0, entries[i].1) is None);
                }
            }
            assert forall|i: int| 0 <= i < entries.len() implies is_segment(
                (#[trigger] entries[i]).0,
            ) by {
                assert(entry_fault(address, entries[i].0, entries[i].1) is None);
            }
        },
        Json::Array(_) => {
            let last = seq![array_row(address)];
            assert forall|a: int, b: int|
                0 <= a < keyboard.len() && 0 <= b < keyboard[a].len() implies payload_fits(
                #[trigger] keyboard[a][b].callback_data,
            ) by {
                if a < above.len() {
                    assert(keyboard[a] == above[a]);
                } else {
                    assert(keyboard[a] == last[0]);
                    assert(payload_fits(last[0][b].callback_data));
                }
            }
        },
        _ => {
            assert(keyboard =~= above);
        },
    }
}

/// The address on the button of an entry leads to the value of that entry, where the
/// entry is the first under its key and the key is one that an address can carry.
pub proof fn lemma_entry_button_leads_to_entry(doc: Json, address: Seq<char>, i: int)
    requires
        resolve(doc, segments_of(address)) matches Some(Json::Object(entries)) && 0 <= i
            < entries.len() && is_segment(entries[i].0) && key_position(entries, entries[i].0)
            == i,
    ensures
        ({
            let entry = resolve(doc, segments_of(address))->Some_0->Object_0[i];
            let button = entry_button(address, entry.0, entry.1);
            &&& button.callback_data == payload_text(
                entry_tag(entry.1),
                pushed_text(address, entry.0),
            )
            &&& resolve(doc, segments_of(pushed_text(address, entry.0))) == Some(entry.1)
        }),
{
    let entry = resolve(doc, segments_of(address))->Some_0->Object_0[i];
    lemma_segments_of_pushed(address, entry.0);
    lemma_resolve_pushed(doc, segments_of(address), entry.0);
}

/// Rendering depends on nothing but the value and the address: whatever two renderings of
/// the same value at the same address give, they give the same.
pub proof fn lemma_render_deterministic(
    target: Json,
    address: Seq<char>,
    first: Result<MenuModel, RenderError>,
    second: Result<MenuModel, RenderError>,
)
    requires
        first == render_outcome(target, address),
        second == render_outcome(target, address),
    ensures
        first == second,
{
}

/// The menu of the value `target`, which stands at the address `value_path`, or what
/// stands in the way of the first of its buttons that cannot be made.
pub fn render_value(target: &JsonValue, value_path: &ValuePath) -> (menu: Result<
    Menu,
    RenderError,
>)
    requires
        value_path@.len() > 0,
        target@ is Object || target@ is Array,
        target@.well_formed(),
    ensures
        outcome_view(menu) == render_outcome(target@, value_path@),
{
    proof {
        reveal_strlit("..");
        reveal_strlit("Add");
        reveal_strlit("Remove");
    }
    let ghost goal = rendered(target@, value_path@).keyboard;
    let ghost above = parent_rows(value_path@);
    let mut keyboard: Vec<Vec<Button>> = Vec::new();
    assert(rows_view(keyboard@) =~= Seq::<Seq<ButtonModel>>::empty());
    if !value_path.is_top() {
        let up = value_path.parent();
        match make_button("..".to_owned(), ActionTag::Go, &up) {
            Some(button) => {
                let mut row: Vec<Button> = Vec::new();
                row.push(button);
                assert(row_view(row@) =~= above[0]);
                keyboard.push(row);
                assert(rows_view(keyboard@) =~= above);
            },
            None => {
                assert(!payload_fits(above[0][0].callback_data));
                return Err(RenderError::PayloadTooLong);
            },
        }
    }
    assert(rows_view(keyboard@) =~= above);
    assert(payloads_fit(above)) by {
        if above.len() > 0 {
            assert(above[0] == row_view(keyboard@[0]@));
        }
    }
    match target {
        JsonValue::Object(entries) => {
            proof {
                lemma_object_view(*entries);
            }
            let ghost shown = entries_view(entries@);
            let ghost rows = entry_rows(value_path@, shown);
            let mut i: usize = 0;
            assert(shown.skip(0) =~= shown);
            while i < entries.len()
                invariant
                    i <= entries.len(),
                    value_path@.len() > 0,
                    shown == entries_view(entries@),
                    target@ == Json::Object(shown),
                    target@.well_formed(),
                    above == parent_rows(value_path@),
                    payloads_fit(above),
                    rows == entry_rows(value_path@, shown),
                    first_entry_fault(value_path@, shown) == first_entry_fault(
                        value_path@,
                        shown.skip(i as int),
                    ),
                    rows_view(keyboard@) == above + rows.take(i as int),
                decreases entries.len() - i,
            {
                let key = &entries[i].0;
                let value = &entries[i].1;
                let ghost rest = shown.skip(i as int);
                assert(rest[0] == (key@, value@));
                assert(shown[i as int].1.well_formed());
                assert(rest.skip(1) =~= shown.skip(i + 1));
                if !is_segment_text(key.as_str()) {
                    return Err(RenderError::KeyNotAddressable);
                }
                let tag = match value {
                    JsonValue::Object(_) | JsonValue::Array(_) => ActionTag::Go,
                    _ => ActionTag::UpdateAt,
                };
                let below = value_path.join(key.as_str());
                let ghost before = rows_view(keyboard@);
                match make_button(value_preview(key, value), tag, &below) {
                    Some(button) => {
                        let mut row: Vec<Button> = Vec::new();
                        row.push(button);
                        assert(row_view(row@) =~= rows[i as int]);
                        keyboard.push(row);
                        assert(rows_view(keyboard@) =~= before.push(rows[i as int]));
                        assert(rows.take(i + 1) =~= rows.take(i as int).push(rows[i as int]));
                        assert(rows_view(keyboard@) =~= above + rows.take(i + 1));
                    },
                    None => {
                        return Err(RenderError::PayloadTooLong);
                    },
                }
                i += 1;
            }
            assert(rows.take(entries.len() as int) =~= rows);
            Ok(Menu { header: value_path.as_str().to_owned(), keyboard })
        },
        JsonValue::Array(items) => {
            proof {
                lemma_array_view(*items);
                assert forall|i: int| 0 <= i < items@.len() implies (
                #[trigger] items@[i])@.well_formed() by {
                    assert(items_view(items@)[i].well_formed());
                }
            }
            let header = render_array_header(value_path, items);
            let ghost last = array_row(value_path@);
            let ghost alone = seq![last];
            assert(alone[0] == last);
            let add = match make_button("Add".to_owned(), ActionTag::AddTo, value_path) {
                Some(button) => button,
                None => {
                    assert(!payload_fits(alone[0][0].callback_data));
                    return Err(RenderError::PayloadTooLong);
                },
            };
            let remove = match make_button(
                "Remove".to_owned(),
                ActionTag::RemoveFrom,
                value_path,
            ) {
                Some(button) => button,
                None => {
                    assert(!payload_fits(alone[0][1].callback_data));
                    return Err(RenderError::PayloadTooLong);
                },
            };
            let mut row: Vec<Button> = Vec::new();
            row.push(add);
            row.push(remove);
            assert(row_view(row@) =~= last);
            let ghost before = rows_view(keyboard@);
            keyboard.push(row);
            assert(rows_view(keyboard@) =~= before.push(last));
            assert(rows_view(keyboard@) =~= goal);
            assert(payloads_fit(alone)) by {
                assert forall|a: int, b: int|
                    0 <= a < alone.len() && 0 <= b < alone[a].len() implies payload_fits(
                    #[trigger] alone[a][b].callback_data,
                ) by {
                    assert(alone[a] == last);
                }
            }
            Ok(Menu { header, keyboard })
        },
        _ => Ok(Menu { header: value_path.as_str().to_owned(), keyboard }),
    }
}

/// The menu of the address `value_path` in the document, or what stands in the way of the
/// first of its buttons that cannot be made. The address is to lead to an object or an
/// array.
pub fn render_header_and_markup(data: &Data, value_path: &ValuePath) -> (menu: Result<
    Menu,
    RenderError,
>)
    requires
        value_path@.len() > 0,
        resolve(data@, value_path.segments()) matches Some(target) && (target is Object
            || target is Array),
    ensures
        outcome_view(menu) == render_outcome(
            resolve(data@, value_path.segments())->Some_0,
            value_path@,
        ),
{
    let found = data.at_ref(value_path);
    render_value(found.unwrap(), value_path)
}

} // verus!
