//! The state machine of a chat: from a state and an event to the next state and what is
//! to be done.
use crate::codec::{
    accepted, document_text, json_literal, json_text, parse_literal, parsed_view, value_text, DataError,
    DataFormat,
};
use crate::data::{resolve, update_allowed, updated, Data, UpdateAction};
use crate::menu::{
    action_of, render_outcome, render_value, ActionModel, ActionTag, CallbackAction, Menu, MenuModel,
};
use crate::path::{basename_text, parent_text, root_text, segments_of, ValuePath};
use crate::value::{Json, JsonValue};
use vstd::prelude::*;
use vstd::string::*;

verus! {

/// The kind of change that a chat collects a value for.
#[derive(Clone, Copy, Debug, PartialEq, Eq, Structural)]
pub enum InputValueType {
    UpdateAt,
    AddTo,
    RemoveFrom,
}

/// The change that a chat collects a value for, and where it applies.
#[derive(Debug, PartialEq, Eq)]
pub struct ValueInput {
    pub input_type: InputValueType,
    pub value_path: ValuePath,
}

/// Where a chat stands.
#[derive(Debug, PartialEq, Eq)]
pub enum ChatState {
    /// Nothing is allowed from here but to be let in.
    Unauthorized,
    /// Let in, with no menu open.
    Authorized,
    /// A menu is open at `value_path`. It stands in the message `message_id`, once that
    /// message was sent.
    Navigation { value_path: ValuePath, message_id: Option<i32> },
    /// The next text of the chat is the value of a change.
    Input(ValueInput),
}

/// A command of the chat.
#[derive(Clone, Copy, Debug, PartialEq, Eq, Structural)]
pub enum Command {
    Help,
    Admin,
}

/// What is set up from outside: the token of the bot, and who may use it (anyone, where no
/// list is given).
#[derive(Debug)]
pub struct Settings {
    pub tg_token: String,
    pub admin_list: Option<Vec<u64>>,
}

/// What happens in a chat.
#[derive(Debug, PartialEq, Eq)]
pub enum Event {
    /// A command was sent.
    Command(Command),
    /// A text was sent that is no command.
    Text(String),
    /// A message without text was sent.
    NoText,
    /// A button was pressed that carries this payload.
    Callback(String),
    /// The menu that was asked for stands in a new message with this id.
    MenuSent(i32),
    /// The menu could not be put in the place of the message that held the last one.
    EditFailed,
}

/// What is to be done for a chat, in the order given.
#[derive(Debug, PartialEq, Eq)]
pub enum Effect {
    /// Send a text.
    SendText(String),
    /// Send the list of commands.
    SendHelp,
    /// Send a menu as a new message, and report its id with `Event::MenuSent`.
    SendMenu(Menu),
    /// Put a menu in the place of the one in the message `message_id`; where that cannot be
    /// done, report `Event::EditFailed`.
    EditMenu { message_id: i32, menu: Menu },
    /// Store this text in the file behind the document.
    Persist(String),
}

/// The state of a chat after an event, and what is to be done.
#[derive(Debug, PartialEq, Eq)]
pub struct Reaction {
    pub state: ChatState,
    pub effects: Vec<Effect>,
}

/// What a state is.
pub enum StateModel {
    Unauthorized,
    Authorized,
    Navigation { address: Seq<char>, message_id: Option<i32> },
    Input { input_type: InputValueType, address: Seq<char> },
}

/// What an event is.
pub enum EventModel {
    Command(Command),
    Text(Seq<char>),
    NoText,
    Callback(Seq<char>),
    MenuSent(i32),
    EditFailed,
}

/// What an effect is.
pub enum EffectModel {
    SendText(Seq<char>),
    SendHelp,
    SendMenu(MenuModel),
    EditMenu { message_id: i32, menu: MenuModel },
    Persist(Seq<char>),
}

/// What a reaction is.
pub struct ReactionModel {
    pub state: StateModel,
    pub effects: Seq<EffectModel>,
}

impl View for ChatState {
    type V = StateModel;

    open spec fn view(&self) -> StateModel {
        match self {
            ChatState::Unauthorized => StateModel::Unauthorized,
            ChatState::Authorized => StateModel::Authorized,
            ChatState::Navigation { value_path, message_id } => StateModel::Navigation {
                address: value_path@,
                message_id: *message_id,
            },
            ChatState::Input(input) => StateModel::Input {
                input_type: input.input_type,
                address: input.value_path@,
            },
        }
    }
}

impl View for Event {
    type V = EventModel;

    open spec fn view(&self) -> EventModel {
        match self {
            Event::Command(command) => EventModel::Command(*command),
            Event::Text(text) => EventModel::Text(text@),
            Event::NoText => EventModel::NoText,
            Event::Callback(payload) => EventModel::Callback(payload@),
            Event::MenuSent(message_id) => EventModel::MenuSent(*message_id),
            Event::EditFailed => EventModel::EditFailed,
        }
    }
}

impl View for Effect {
    type V = EffectModel;

    open spec fn view(&self) -> EffectModel {
        match self {
            Effect::SendText(text) => EffectModel::SendText(text@),
            Effect::SendHelp => EffectModel::SendHelp,
            Effect::SendMenu(menu) => EffectModel::SendMenu(menu@),
            Effect::EditMenu { message_id, menu } => EffectModel::EditMenu {
                message_id: *message_id,
                menu: menu@,
            },
            Effect::Persist(text) => EffectModel::Persist(text@),
        }
    }
}

/// What a list of effects is.
pub open spec fn effects_view(effects: Seq<Effect>) -> Seq<EffectModel> {
    Seq::new(effects.len(), |i: int| effects[i]@)
}

impl View for Reaction {
    type V = ReactionModel;

    open spec fn view(&self) -> ReactionModel {
        ReactionModel { state: self.state@, effects: effects_view(self.effects@) }
    }
}

impl Clone for ValueInput {
    fn clone(&self) -> (copy: Self)
        ensures
            copy.input_type == self.input_type,
            copy.value_path@ == self.value_path@,
    {
        ValueInput { input_type: self.input_type, value_path: self.value_path.clone() }
    }
}

impl Clone for ChatState {
    fn clone(&self) -> (copy: Self)
        ensures
            copy@ == self@,
    {
        match self {
            ChatState::Unauthorized => ChatState::Unauthorized,
            ChatState::Authorized => ChatState::Authorized,
            ChatState::Navigation { value_path, message_id } => ChatState::Navigation {
                value_path: value_path.clone(),
                message_id: *message_id,
            },
            ChatState::Input(input) => ChatState::Input(input.clone()),
        }
    }
}

impl InputValueType {
    /// The change to the document that this kind of input makes.
    pub open spec fn action(self) -> UpdateAction {
        match self {
            InputValueType::UpdateAt => UpdateAction::Replace,
            InputValueType::AddTo => UpdateAction::AddTo,
            InputValueType::RemoveFrom => UpdateAction::RemoveFrom,
        }
    }
}

impl From<InputValueType> for UpdateAction {
    fn from(action: InputValueType) -> (update: Self)
        ensures
            update == action.action(),
    {
        match action {
            InputValueType::UpdateAt => UpdateAction::Replace,
            InputValueType::AddTo => UpdateAction::AddTo,
            InputValueType::RemoveFrom => UpdateAction::RemoveFrom,
        }
    }
}

impl vstd::std_specs::convert::FromSpecImpl<InputValueType> for UpdateAction {
    open spec fn obeys_from_spec() -> bool {
        true
    }

    open spec fn from_spec(action: InputValueType) -> Self {
        action.action()
    }
}

/// Whether the user `user_id` may use the bot: anyone may where no list is given.
pub open spec fn is_allowed(admin_list: Option<Vec<u64>>, user_id: u64) -> bool {
    admin_list matches Some(list) ==> list@.contains(user_id)
}

/// The reply to a request that is refused.
pub open spec fn access_denied_text() -> Seq<char> {
    "Access denied"@
}

/// The reply to what cannot be handled where the chat stands.
pub open spec fn unhandled_text() -> Seq<char> {
    "Unable to handle the message. Type /help to see available commands."@
}

/// The reply to a text that is no value.
pub open spec fn invalid_value_text() -> Seq<char> {
    "Invalid value. Input valid JSON value."@
}

/// The reply to a message without text where a value is awaited.
pub open spec fn send_value_text() -> Seq<char> {
    "Please send the new value."@
}

/// The words that ask for the value of a change.
pub open spec fn prompt_text(input_type: InputValueType, address: Seq<char>, kind: Seq<char>) -> Seq<
    char,
> {
    match input_type {
        InputValueType::UpdateAt => "You're updating `"@ + basename_text(address) + ": "@ + kind
            + "`.\n Insert the new value."@,
        InputValueType::AddTo => "You're adding to "@ + address
            + ".\n Provide the value to add."@,
        InputValueType::RemoveFrom => "You're removing from "@ + address
            + ".\n Provide exact value to remove."@,
    }
}

/// The words that confirm a change.
pub open spec fn confirmation_text(
    input_type: InputValueType,
    address: Seq<char>,
    value: Seq<char>,
) -> Seq<char> {
    match input_type {
        InputValueType::UpdateAt => "Value of `"@ + address + "` has been updated to `"@ + value
            + "`"@,
        InputValueType::AddTo => "`"@ + value + "` has been added to `"@ + address + "`"@,
        InputValueType::RemoveFrom => "`"@ + value + "` has been removed from `"@ + address
            + "`"@,
    }
}

/// A reaction that sends one text.
pub open spec fn reply(state: StateModel, text: Seq<char>) -> ReactionModel {
    ReactionModel { state, effects: seq![EffectModel::SendText(text)] }
}

/// The reaction that shows the menu of `address`: in the place of the message `edit`, or as
/// a new message where there is none. Where the address leads to no object or array, or
/// where the menu cannot be shown, the chat is told so and goes to the state `fallback`.
pub open spec fn shown(
    fallback: StateModel,
    address: Seq<char>,
    doc: Json,
    edit: Option<i32>,
) -> ReactionModel {
    if address.len() > 0 && (resolve(doc, segments_of(address)) matches Some(target) && (
    target is Object || target is Array)) {
        match render_outcome(resolve(doc, segments_of(address))->Some_0, address) {
            Ok(menu) => ReactionModel {
                state: StateModel::Navigation { address, message_id: edit },
                effects: seq![
                    match edit {
                        Some(message_id) => EffectModel::EditMenu { message_id, menu },
                        None => EffectModel::SendMenu(menu),
                    },
                ],
            },
            Err(fault) => reply(fallback, fault.text()),
        }
    } else {
        reply(fallback, unhandled_text())
    }
}

/// The text to store for the document `doc` kept in `format`.
pub open spec fn stored_text(doc: Json, format: Option<DataFormat>) -> Result<Seq<char>, DataError> {
    match format {
        None => Err(DataError::UnsupportedFormat),
        Some(kept) => match document_text(doc, kept) {
            Some(text) => Ok(text),
            None => Err(DataError::SerializeError),
        },
    }
}

/// The address whose menu is shown after a change at `address`: one level up after a
/// replacement, the array itself after a change to an array.
pub open spec fn address_after(input_type: InputValueType, address: Seq<char>) -> Seq<char> {
    if input_type == InputValueType::UpdateAt {
        parent_text(address)
    } else {
        address
    }
}

/// The reaction to a change that was made and is to be stored as `text`: store it, confirm
/// it, and show the menu anew as a new message.
pub open spec fn confirmed(
    after: Json,
    input_type: InputValueType,
    address: Seq<char>,
    value: Json,
    text: Seq<char>,
) -> ReactionModel {
    let menu = shown(StateModel::Authorized, address_after(input_type, address), after, None);
    ReactionModel {
        state: menu.state,
        effects: seq![
            EffectModel::Persist(text),
            EffectModel::SendText(confirmation_text(input_type, address, json_text(value))),
        ] + menu.effects,
    }
}

/// The reaction to what was read from the text of a chat that awaits the value of a change
/// at `address`, and the document after it. A text that is no value, a document that has
/// not the shape for the change, a change that is refused, and a document that cannot be
/// stored after the change are reported: the chat goes on to await a value, and the
/// document is as it was.
pub open spec fn entered(
    input_type: InputValueType,
    address: Seq<char>,
    parsed: Option<Json>,
    doc: Json,
    format: Option<DataFormat>,
) -> (ReactionModel, Json) {
    let stay = StateModel::Input { input_type, address };
    match parsed {
        None => (reply(stay, invalid_value_text()), doc),
        Some(value) => if !update_allowed(doc, segments_of(address), input_type.action()) {
            (reply(stay, unhandled_text()), doc)
        } else {
            match updated(doc, segments_of(address), input_type.action(), value) {
                Err(e) => (reply(stay, e.text()), doc),
                Ok(after) => match stored_text(after, format) {
                    Err(e) => (reply(stay, e.text()), doc),
                    Ok(text) => (confirmed(after, input_type, address, value, text), after),
                },
            }
        },
    }
}

/// The reaction to the press of a button whose payload stands for `action`. A button of a
/// menu counts only while a menu is open.
pub open spec fn pressed(state: StateModel, action: Option<ActionModel>, doc: Json) -> ReactionModel {
    match (state, action) {
        (StateModel::Navigation { address: _, message_id }, Some(pressed)) => match pressed.tag {
            ActionTag::Go => shown(state, pressed.address, doc, message_id),
            ActionTag::UpdateAt => if pressed.address.len() > 0 && resolve(
                doc,
                segments_of(pressed.address),
            ) is Some {
                reply(
                    StateModel::Input {
                        input_type: InputValueType::UpdateAt,
                        address: pressed.address,
                    },
                    prompt_text(
                        InputValueType::UpdateAt,
                        pressed.address,
                        resolve(doc, segments_of(pressed.address))->Some_0.kind().name(),
                    ),
                )
            } else {
                reply(state, unhandled_text())
            },
            ActionTag::AddTo => reply(
                StateModel::Input { input_type: InputValueType::AddTo, address: pressed.address },
                prompt_text(InputValueType::AddTo, pressed.address, Seq::empty()),
            ),
            ActionTag::RemoveFrom => reply(
                StateModel::Input {
                    input_type: InputValueType::RemoveFrom,
                    address: pressed.address,
                },
                prompt_text(InputValueType::RemoveFrom, pressed.address, Seq::empty()),
            ),
        },
        _ => reply(state, unhandled_text()),
    }
}

/// The reaction of a chat that was let in, and the document after it.
pub open spec fn dispatched(
    state: StateModel,
    event: EventModel,
    doc: Json,
    format: Option<DataFormat>,
) -> (ReactionModel, Json) {
    match event {
        EventModel::Command(Command::Help) => (
            ReactionModel { state, effects: seq![EffectModel::SendHelp] },
            doc,
        ),
        EventModel::Command(Command::Admin) => (shown(state, root_text(), doc, None), doc),
        EventModel::Text(text) => match state {
            StateModel::Input { input_type, address } => entered(
                input_type,
                address,
                accepted(json_literal(text)),
                doc,
                format,
            ),
            _ => (reply(state, unhandled_text()), doc),
        },
        EventModel::NoText => match state {
            StateModel::Input { .. } => (reply(state, send_value_text()), doc),
            _ => (reply(state, unhandled_text()), doc),
        },
        EventModel::Callback(payload) => (
            pressed(state, action_of(accepted(json_literal(payload))), doc),
            doc,
        ),
        EventModel::MenuSent(message_id) => match state {
            StateModel::Navigation { address, message_id: _ } => (
                ReactionModel {
                    state: StateModel::Navigation { address, message_id: Some(message_id) },
                    effects: Seq::empty(),
                },
                doc,
            ),
            _ => (ReactionModel { state, effects: Seq::empty() }, doc),
        },
        EventModel::EditFailed => match state {
            StateModel::Navigation { address, message_id: _ } => (
                shown(state, address, doc, None),
                doc,
            ),
            _ => (ReactionModel { state, effects: Seq::empty() }, doc),
        },
    }
}

/// The reaction of a chat to an event, and the document after it. A chat that was not let
/// in yet is let in where its user is allowed, and then reacts as any chat that was let in;
/// else it is refused and stays where it was.
pub open spec fn reacted(
    state: StateModel,
    event: EventModel,
    doc: Json,
    format: Option<DataFormat>,
    allowed: bool,
) -> (ReactionModel, Json) {
    if state is Unauthorized {
        if allowed {
            dispatched(StateModel::Authorized, event, doc, format)
        } else {
            (reply(StateModel::Unauthorized, access_denied_text()), doc)
        }
    } else {
        dispatched(state, event, doc, format)
    }
}

/// What the payload of a button stands for.
pub open spec fn action_view(action: Option<CallbackAction>) -> Option<ActionModel> {
    match action {
        Some(found) => Some(found@),
        None => None,
    }
}

/// Whether the user `user_id` may use the bot.
#[verifier::loop_isolation(false)]
pub fn is_admin(settings: &Settings, user_id: u64) -> (allowed: bool)
    ensures
        allowed == is_allowed(settings.admin_list, user_id),
{
    match &settings.admin_list {
        None => true,
        Some(list) => {
            let mut i: usize = 0;
            while i < list.len()
                invariant
                    i <= list.len(),
                    forall|j: int| 0 <= j < i ==> list@[j] != user_id,
                decreases list.len() - i,
            {
                if list[i] == user_id {
                    assert(list@[i as int] == user_id);
                    return true;
                }
                i += 1;
            }
            false
        },
    }
}

/// A reaction that sends one text.
fn text_reply(state: ChatState, text: String) -> (reaction: Reaction)
    ensures
        reaction@ == reply(state@, text@),
{
    let mut effects: Vec<Effect> = Vec::new();
    effects.push(Effect::SendText(text));
    assert(effects_view(effects@) =~= seq![EffectModel::SendText(text@)]);
    Reaction { state, effects }
}

/// The reaction to what cannot be handled where the chat stands.
fn unhandled(state: ChatState) -> (reaction: Reaction)
    ensures
        reaction@ == reply(state@, unhandled_text()),
{
    text_reply(state, "Unable to handle the message. Type /help to see available commands.".to_owned())
}

/// A reaction that does nothing but set the state.
fn silent(state: ChatState) -> (reaction: Reaction)
    ensures
        reaction@ == (ReactionModel { state: state@, effects: Seq::empty() }),
{
    let effects: Vec<Effect> = Vec::new();
    assert(effects_view(effects@) =~= Seq::<EffectModel>::empty());
    Reaction { state, effects }
}

/// The words that ask for the value of a change of kind `input_type` at `value_path`, where
/// the value there is of the kind named `kind`.
pub fn prompt(input_type: InputValueType, value_path: &ValuePath, kind: &str) -> (text: String)
    requires
        input_type == InputValueType::UpdateAt ==> value_path@.len() > 0,
    ensures
        text@ == prompt_text(input_type, value_path@, kind@),
{
    match input_type {
        InputValueType::UpdateAt => {
            let mut text = "You're updating `".to_owned();
            text.append(value_path.basename().as_str());
            text.append(": ");
            text.append(kind);
            text.append("`.\n Insert the new value.");
            text
        },
        InputValueType::AddTo => {
            let mut text = "You're adding to ".to_owned();
            text.append(value_path.as_str());
            text.append(".\n Provide the value to add.");
            text
        },
        InputValueType::RemoveFrom => {
            let mut text = "You're removing from ".to_owned();
            text.append(value_path.as_str());
            text.append(".\n Provide exact value to remove.");
            text
        },
    }
}

/// The words that confirm a change of kind `input_type` at `value_path` with the value
/// shown as `value`.
pub fn confirmation(input_type: InputValueType, value_path: &ValuePath, value: &str) -> (text:
    String)
    ensures
        text@ == confirmation_text(input_type, value_path@, value@),
{
    match input_type {
        InputValueType::UpdateAt => {
            let mut text = "Value of `".to_owned();
            text.append(value_path.as_str());
            text.append("` has been updated to `");
            text.append(value);
            text.append("`");
            text
        },
        InputValueType::AddTo => {
            let mut text = "`".to_owned();
            text.append(value);
            text.append("` has been added to `");
            text.append(value_path.as_str());
            text.append("`");
            text
        },
        InputValueType::RemoveFrom => {
            let mut text = "`".to_owned();
            text.append(value);
            text.append("` has been removed from `");
            text.append(value_path.as_str());
            text.append("`");
            text
        },
    }
}

/// Shows the menu of `value_path`: in the place of the message `edit`, or as a new message
/// where there is none. Where the address leads to no object or array, or where the menu
/// cannot be shown, the chat is told so and goes to the state `fallback`.
pub fn open_menu(fallback: ChatState, value_path: ValuePath, data: &Data, edit: Option<i32>) -> (reaction:
    Reaction)
    ensures
        reaction@ == shown(fallback@, value_path@, data@, edit),
{
    if value_path.as_str().is_empty() {
        return unhandled(fallback);
    }
    let target = match data.at_ref(&value_path) {
        Some(found) => match found {
            JsonValue::Object(_) | JsonValue::Array(_) => Some(found),
            _ => None,
        },
        None => None,
    };
    match target {
        Some(target) => match render_value(target, &value_path) {
            Ok(menu) => {
                let mut effects: Vec<Effect> = Vec::new();
                let ghost shown_menu = menu@;
                match edit {
                    Some(message_id) => {
                        effects.push(Effect::EditMenu { message_id, menu });
                        assert(effects_view(effects@) =~= seq![
                            EffectModel::EditMenu { message_id, menu: shown_menu },
                        ]);
                    },
                    None => {
                        effects.push(Effect::SendMenu(menu));
                        assert(effects_view(effects@) =~= seq![EffectModel::SendMenu(shown_menu)]);
                    },
                }
                Reaction { state: ChatState::Navigation { value_path, message_id: edit }, effects }
            },
            Err(e) => text_reply(fallback, e.message()),
        },
        None => unhandled(fallback),
    }
}

/// Reacts to what was read from the text of a chat that awaits the value of the change
/// `input`: makes the change, stores the document, confirms, and shows the menu anew. What
/// goes wrong on the way is reported, and leaves the document as it was.
pub fn apply_input(input: ValueInput, parsed: Option<JsonValue>, data: &mut Data) -> (reaction:
    Reaction)
    requires
        parsed matches Some(value) ==> value@.well_formed(),
    ensures
        (reaction@, final(data)@) == entered(
            input.input_type,
            input.value_path@,
            parsed_view(parsed),
            old(data)@,
            old(data).format(),
        ),
        final(data).path_text() == old(data).path_text(),
        final(data).format() == old(data).format(),
{
    let value = match parsed {
        Some(value) => value,
        None => {
            return text_reply(
                ChatState::Input(input),
                "Invalid value. Input valid JSON value.".to_owned(),
            );
        },
    };
    let action = UpdateAction::from(input.input_type);
    if !data.can_update_at(&input.value_path, action) {
        return unhandled(ChatState::Input(input));
    }
    let shown_value = value_text(&value);
    let backup = data.as_ref().clone();
    match data.update_at(&input.value_path, value, action) {
        Err(e) => text_reply(ChatState::Input(input), e.message()),
        Ok(()) => match data.write() {
            Err(e) => {
                data.update(backup);
                text_reply(ChatState::Input(input), e.message())
            },
            Ok(text) => {
                let next = match input.input_type {
                    InputValueType::UpdateAt => input.value_path.parent(),
                    _ => input.value_path.clone(),
                };
                let confirmed_text = confirmation(
                    input.input_type,
                    &input.value_path,
                    shown_value.as_str(),
                );
                let mut menu = open_menu(ChatState::Authorized, next, data, None);
                let ghost first = seq![
                    EffectModel::Persist(text@),
                    EffectModel::SendText(confirmed_text@),
                ];
                let ghost rest = effects_view(menu.effects@);
                let mut effects: Vec<Effect> = Vec::new();
                effects.push(Effect::Persist(text));
                effects.push(Effect::SendText(confirmed_text));
                assert(effects_view(effects@) =~= first);
                let ghost before = effects@;
                let ghost added = menu.effects@;
                effects.append(&mut menu.effects);
                assert(effects@ =~= before + added);
                assert(effects_view(effects@) =~= first + rest);
                Reaction { state: menu.state, effects }
            },
        },
    }
}

/// Reacts to the press of a button whose payload stands for `action`.
pub fn press(state: ChatState, action: Option<CallbackAction>, data: &Data) -> (reaction:
    Reaction)
    ensures
        reaction@ == pressed(state@, action_view(action), data@),
{
    match state {
        ChatState::Navigation { value_path, message_id } => {
            let here = ChatState::Navigation { value_path, message_id };
            match action {
                Some(CallbackAction::Go(target)) => open_menu(here, target, data, message_id),
                Some(CallbackAction::UpdateAt(target)) => {
                    if target.as_str().is_empty() {
                        return unhandled(here);
                    }
                    match data.at_ref(&target) {
                        Some(value) => {
                            let text = prompt(
                                InputValueType::UpdateAt,
                                &target,
                                value.kind().as_str(),
                            );
                            text_reply(
                                ChatState::Input(
                                    ValueInput {
                                        input_type: InputValueType::UpdateAt,
                                        value_path: target,
                                    },
                                ),
                                text,
                            )
                        },
                        None => unhandled(here),
                    }
                },
                Some(CallbackAction::AddTo(target)) => {
                    let text = prompt(InputValueType::AddTo, &target, "");
                    text_reply(
                        ChatState::Input(
                            ValueInput { input_type: InputValueType::AddTo, value_path: target },
                        ),
                        text,
                    )
                },
                Some(CallbackAction::RemoveFrom(target)) => {
                    let text = prompt(InputValueType::RemoveFrom, &target, "");
                    text_reply(
                        ChatState::Input(
                            ValueInput {
                                input_type: InputValueType::RemoveFrom,
                                value_path: target,
                            },
                        ),
                        text,
                    )
                },
                None => unhandled(here),
            }
        },
        other => unhandled(other),
    }
}

/// Reacts to an event in a chat that was let in.
pub fn dispatch(state: ChatState, event: Event, data: &mut Data) -> (reaction: Reaction)
    ensures
        (reaction@, final(data)@) == dispatched(
            state@,
            event@,
            old(data)@,
            old(data).format(),
        ),
        final(data).path_text() == old(data).path_text(),
        final(data).format() == old(data).format(),
{
    match event {
        Event::Command(Command::Help) => {
            let mut effects: Vec<Effect> = Vec::new();
            effects.push(Effect::SendHelp);
            assert(effects_view(effects@) =~= seq![EffectModel::SendHelp]);
            Reaction { state, effects }
        },
        Event::Command(Command::Admin) => open_menu(state, ValuePath::default(), data, None),
        Event::Text(text) => match state {
            ChatState::Input(input) => apply_input(input, parse_literal(text.as_str()), data),
            other => unhandled(other),
        },
        Event::NoText => match state {
            ChatState::Input(input) => text_reply(
                ChatState::Input(input),
                "Please send the new value.".to_owned(),
            ),
            other => unhandled(other),
        },
        Event::Callback(payload) => press(state, CallbackAction::decode(payload.as_str()), data),
        Event::MenuSent(message_id) => match state {
            ChatState::Navigation { value_path, message_id: _ } => silent(
                ChatState::Navigation { value_path, message_id: Some(message_id) },
            ),
            other => silent(other),
        },
        Event::EditFailed => match state {
            ChatState::Navigation { value_path, message_id } => {
                let target = value_path.clone();
                open_menu(ChatState::Navigation { value_path, message_id }, target, data, None)
            },
            other => silent(other),
        },
    }
}

/// Reacts to an event in a chat whose user is `user_id`. A chat that was not let in yet is
/// let in where its user is allowed, and then reacts as any chat that was let in; else it
/// is refused and stays where it was.
pub fn handle_event(
    state: ChatState,
    event: Event,
    data: &mut Data,
    settings: &Settings,
    user_id: u64,
) -> (reaction: Reaction)
    ensures
        (reaction@, final(data)@) == reacted(
            state@,
            event@,
            old(data)@,
            old(data).format(),
            is_allowed(settings.admin_list, user_id),
        ),
        final(data).path_text() == old(data).path_text(),
        final(data).format() == old(data).format(),
{
    match state {
        ChatState::Unauthorized => {
            if is_admin(settings, user_id) {
                dispatch(ChatState::Authorized, event, data)
            } else {
                text_reply(ChatState::Unauthorized, "Access denied".to_owned())
            }
        },
        other => dispatch(other, event, data),
    }
}

/// A chat whose user is not allowed stays out: it is told so, no menu is sent, and the
/// document is not touched, whatever the event.
pub proof fn lemma_refused_stays_out(event: EventModel, doc: Json, format: Option<DataFormat>)
    ensures
        reacted(StateModel::Unauthorized, event, doc, format, false) == (
            reply(StateModel::Unauthorized, access_denied_text()),
            doc,
        ),
{
}

/// A chat that was let in is never put out again, and a chat whose user is allowed is let
/// in by its first event.
pub proof fn lemma_let_in_for_good(
    state: StateModel,
    event: EventModel,
    doc: Json,
    format: Option<DataFormat>,
    allowed: bool,
)
    requires
        allowed || !(state is Unauthorized),
    ensures
        !(reacted(state, event, doc, format, allowed).0.state is Unauthorized),
{
}

/// The document changes only by a text that a chat sends while it awaits the value of a
/// change: every other event leaves it as it was.
pub proof fn lemma_only_input_changes_document(
    state: StateModel,
    event: EventModel,
    doc: Json,
    format: Option<DataFormat>,
    allowed: bool,
)
    requires
        !(event is Text && state is Input),
    ensures
        reacted(state, event, doc, format, allowed).1 == doc,
{
}

/// A change that a chat asks for either goes through, and is stored, or leaves the
/// document as it was: the document differs after a text only where the text to store is
/// among the effects.
pub proof fn lemma_changed_document_is_stored(
    input_type: InputValueType,
    address: Seq<char>,
    parsed: Option<Json>,
    doc: Json,
    format: Option<DataFormat>,
)
    ensures
        ({
            let (reaction, after) = entered(input_type, address, parsed, doc, format);
            after == doc || (reaction.effects.len() >= 2 && stored_text(after, format) == Ok::<
                Seq<char>,
                DataError,
            >(reaction.effects[0]->Persist_0) && reaction.effects[0] is Persist)
        }),
{
}

} // verus!
