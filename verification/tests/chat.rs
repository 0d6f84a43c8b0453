use tg_admin::chat::{
    apply_input, confirmation, dispatch, handle_event, is_admin, open_menu, press, prompt, ChatState, Command,
    Effect, Event, InputValueType, Reaction, Settings, ValueInput,
};
use tg_admin::codec::DataFormat;
use tg_admin::data::{Data, UpdateAction};
use tg_admin::menu::{render_header_and_markup, CallbackAction, Menu};
use tg_admin::path::ValuePath;
use tg_admin::value::{JsonNumber, JsonValue};

const UNHANDLED: &str = "Unable to handle the message. Type /help to see available commands.";

fn txt(s: &str) -> JsonValue {
    JsonValue::String(s.to_string())
}

fn num(n: u64) -> JsonValue {
    JsonValue::Number(JsonNumber::PosInt(n))
}

fn person_tree() -> JsonValue {
    JsonValue::Object(vec![
        ("age".to_string(), num(25)),
        ("tags".to_string(), JsonValue::Array(vec![txt("a"), txt("b")])),
    ])
}

fn person() -> Data {
    Data::new(person_tree(), "person.json".to_string(), Some(DataFormat::Json))
}

fn open() -> Settings {
    Settings { tg_token: "SECRET-REDACTED".to_string(), admin_list: None }
}

fn listed(users: &[u64]) -> Settings {
    Settings { tg_token: "SECRET-REDACTED".to_string(), admin_list: Some(users.to_vec()) }
}

fn at(path: &str, message_id: Option<i32>) -> ChatState {
    ChatState::Navigation { value_path: ValuePath::from(path), message_id }
}

fn awaiting(input_type: InputValueType, path: &str) -> ChatState {
    ChatState::Input(ValueInput { input_type, value_path: ValuePath::from(path) })
}

fn says(state: ChatState, text: &str) -> Reaction {
    Reaction { state, effects: vec![Effect::SendText(text.to_string())] }
}

fn menu_of(data: &Data, path: &str) -> Menu {
    render_header_and_markup(data, &ValuePath::from(path)).unwrap()
}

fn labels(menu: &Menu) -> Vec<String> {
    menu.keyboard.iter().flat_map(|row| row.iter().map(|b| b.text.clone())).collect()
}

#[test]
fn a_user_who_is_not_listed_is_refused() {
    let mut data = person();
    let settings = listed(&[1, 2]);
    let reaction = handle_event(ChatState::Unauthorized, Event::Command(Command::Admin), &mut data, &settings, 3);
    assert_eq!(reaction, says(ChatState::Unauthorized, "Access denied"));
    assert_eq!(*data.as_ref(), person_tree());
    let reaction =
        handle_event(ChatState::Unauthorized, Event::Callback("{\"Go\":\"/\"}".to_string()), &mut data, &settings, 3);
    assert_eq!(reaction, says(ChatState::Unauthorized, "Access denied"));
}

#[test]
fn a_listed_user_is_let_in_by_the_first_event() {
    let mut data = person();
    let reaction =
        handle_event(ChatState::Unauthorized, Event::Command(Command::Admin), &mut data, &listed(&[1, 2]), 2);
    assert_eq!(reaction.state, at("/", None));
    assert_eq!(reaction.effects, vec![Effect::SendMenu(menu_of(&data, "/"))]);
    let reaction = handle_event(ChatState::Unauthorized, Event::Text("hi".to_string()), &mut data, &listed(&[7]), 7);
    assert_eq!(reaction, says(ChatState::Authorized, UNHANDLED));
}

#[test]
fn anyone_is_let_in_where_no_list_is_given() {
    let mut data = person();
    assert!(is_admin(&open(), 12345));
    assert!(!is_admin(&listed(&[]), 12345));
    assert!(is_admin(&listed(&[5, 12345]), 12345));
    let reaction = handle_event(ChatState::Unauthorized, Event::Command(Command::Help), &mut data, &open(), 9);
    assert_eq!(reaction, Reaction { state: ChatState::Authorized, effects: vec![Effect::SendHelp] });
}

#[test]
fn help_leaves_the_chat_where_it_is() {
    let mut data = person();
    for state in [ChatState::Authorized, at("/tags", Some(4)), awaiting(InputValueType::AddTo, "/tags")] {
        let copy = match &state {
            ChatState::Authorized => ChatState::Authorized,
            ChatState::Navigation { value_path, message_id } => {
                ChatState::Navigation { value_path: value_path.clone(), message_id: *message_id }
            }
            ChatState::Input(input) => {
                ChatState::Input(ValueInput { input_type: input.input_type, value_path: input.value_path.clone() })
            }
            ChatState::Unauthorized => ChatState::Unauthorized,
        };
        let reaction = dispatch(state, Event::Command(Command::Help), &mut data);
        assert_eq!(reaction, Reaction { state: copy, effects: vec![Effect::SendHelp] });
    }
}

#[test]
fn admin_opens_the_root_as_a_new_message() {
    let mut data = person();
    let reaction = dispatch(ChatState::Authorized, Event::Command(Command::Admin), &mut data);
    assert_eq!(reaction.state, at("/", None));
    assert_eq!(reaction.effects.len(), 1);
    match &reaction.effects[0] {
        Effect::SendMenu(menu) => {
            assert_eq!(menu.header, "/");
            assert_eq!(labels(menu), vec!["age: 25".to_string(), "[2] tags".to_string()]);
        }
        other => panic!("no menu: {:?}", other),
    }
    let reaction = dispatch(awaiting(InputValueType::UpdateAt, "/age"), Event::Command(Command::Admin), &mut data);
    assert_eq!(reaction.state, at("/", None));
}

#[test]
fn the_id_of_the_sent_menu_is_kept() {
    let mut data = person();
    let reaction = dispatch(at("/", None), Event::MenuSent(17), &mut data);
    assert_eq!(reaction, Reaction { state: at("/", Some(17)), effects: vec![] });
    let reaction = dispatch(at("/tags", Some(3)), Event::MenuSent(18), &mut data);
    assert_eq!(reaction, Reaction { state: at("/tags", Some(18)), effects: vec![] });
    let reaction = dispatch(ChatState::Authorized, Event::MenuSent(18), &mut data);
    assert_eq!(reaction, Reaction { state: ChatState::Authorized, effects: vec![] });
}

#[test]
fn go_edits_the_menu_in_place() {
    let mut data = person();
    let reaction = dispatch(at("/", Some(5)), Event::Callback("{\"Go\":\"/tags\"}".to_string()), &mut data);
    assert_eq!(reaction.state, at("/tags", Some(5)));
    assert_eq!(reaction.effects.len(), 1);
    match &reaction.effects[0] {
        Effect::EditMenu { message_id, menu } => {
            assert_eq!(*message_id, 5);
            assert_eq!(menu.header, "/tags [2]\n```json\n\"a\"\n\"b\"\n```");
            assert_eq!(labels(menu), vec!["..".to_string(), "Add".to_string(), "Remove".to_string()]);
            assert_eq!(menu.keyboard[1][0].callback_data, "{\"AddTo\":\"/tags\"}");
            assert_eq!(menu.keyboard[1][1].callback_data, "{\"RemoveFrom\":\"/tags\"}");
        }
        other => panic!("no edit: {:?}", other),
    }
}

#[test]
fn go_sends_a_new_menu_where_none_stands() {
    let mut data = person();
    let reaction = dispatch(at("/tags", None), Event::Callback("{\"Go\":\"/\"}".to_string()), &mut data);
    assert_eq!(reaction, Reaction { state: at("/", None), effects: vec![Effect::SendMenu(menu_of(&data, "/"))] });
}

#[test]
fn a_menu_that_cannot_be_edited_is_sent_anew() {
    let mut data = person();
    let reaction = dispatch(at("/tags", Some(5)), Event::EditFailed, &mut data);
    assert_eq!(
        reaction,
        Reaction { state: at("/tags", None), effects: vec![Effect::SendMenu(menu_of(&data, "/tags"))] }
    );
    let reaction = dispatch(at("/tags", None), Event::MenuSent(6), &mut data);
    assert_eq!(reaction.state, at("/tags", Some(6)));
    let reaction = dispatch(ChatState::Authorized, Event::EditFailed, &mut data);
    assert_eq!(reaction, Reaction { state: ChatState::Authorized, effects: vec![] });
}

#[test]
fn go_to_what_is_no_menu_changes_nothing() {
    let mut data = person();
    for payload in ["{\"Go\":\"/age\"}", "{\"Go\":\"/missing\"}", "{\"Go\":\"\"}", "garbage"] {
        let reaction = dispatch(at("/", Some(5)), Event::Callback(payload.to_string()), &mut data);
        assert_eq!(reaction, says(at("/", Some(5)), UNHANDLED));
    }
}

#[test]
fn buttons_count_only_while_a_menu_is_open() {
    let mut data = person();
    let reaction = dispatch(ChatState::Authorized, Event::Callback("{\"Go\":\"/tags\"}".to_string()), &mut data);
    assert_eq!(reaction, says(ChatState::Authorized, UNHANDLED));
    let reaction = dispatch(
        awaiting(InputValueType::AddTo, "/tags"),
        Event::Callback("{\"UpdateAt\":\"/age\"}".to_string()),
        &mut data,
    );
    assert_eq!(reaction, says(awaiting(InputValueType::AddTo, "/tags"), UNHANDLED));
}

#[test]
fn update_asks_for_the_new_value() {
    let mut data = person();
    let reaction = dispatch(at("/", Some(5)), Event::Callback("{\"UpdateAt\":\"/age\"}".to_string()), &mut data);
    assert_eq!(
        reaction,
        says(awaiting(InputValueType::UpdateAt, "/age"), "You're updating `age: Number`.\n Insert the new value.")
    );
    let reaction = dispatch(at("/", Some(5)), Event::Callback("{\"UpdateAt\":\"/gone\"}".to_string()), &mut data);
    assert_eq!(reaction, says(at("/", Some(5)), UNHANDLED));
}

#[test]
fn add_and_remove_ask_for_a_value() {
    let mut data = person();
    let reaction = dispatch(at("/tags", Some(5)), Event::Callback("{\"AddTo\":\"/tags\"}".to_string()), &mut data);
    assert_eq!(
        reaction,
        says(awaiting(InputValueType::AddTo, "/tags"), "You're adding to /tags.\n Provide the value to add.")
    );
    let reaction =
        dispatch(at("/tags", Some(5)), Event::Callback("{\"RemoveFrom\":\"/tags\"}".to_string()), &mut data);
    assert_eq!(
        reaction,
        says(
            awaiting(InputValueType::RemoveFrom, "/tags"),
            "You're removing from /tags.\n Provide exact value to remove."
        )
    );
}

#[test]
fn prompts_and_confirmations_have_their_words() {
    let path = ValuePath::from("/a/b");
    assert_eq!(prompt(InputValueType::UpdateAt, &path, "String"), "You're updating `b: String`.\n Insert the new value.");
    assert_eq!(prompt(InputValueType::AddTo, &path, ""), "You're adding to /a/b.\n Provide the value to add.");
    assert_eq!(
        prompt(InputValueType::RemoveFrom, &path, ""),
        "You're removing from /a/b.\n Provide exact value to remove."
    );
    assert_eq!(confirmation(InputValueType::UpdateAt, &path, "26"), "Value of `/a/b` has been updated to `26`");
    assert_eq!(confirmation(InputValueType::AddTo, &path, "\"c\""), "`\"c\"` has been added to `/a/b`");
    assert_eq!(confirmation(InputValueType::RemoveFrom, &path, "\"c\""), "`\"c\"` has been removed from `/a/b`");
}

#[test]
fn a_value_is_written_stored_and_confirmed() {
    let mut data = person();
    let reaction = dispatch(awaiting(InputValueType::UpdateAt, "/age"), Event::Text("26".to_string()), &mut data);
    assert_eq!(data.at(&ValuePath::from("/age")), Some(num(26)));
    assert_eq!(reaction.state, at("/", None));
    assert_eq!(
        reaction.effects,
        vec![
            Effect::Persist("{\"age\":26,\"tags\":[\"a\",\"b\"]}".to_string()),
            Effect::SendText("Value of `/age` has been updated to `26`".to_string()),
            Effect::SendMenu(menu_of(&data, "/")),
        ]
    );
}

#[test]
fn a_value_is_appended_and_the_array_shown_again() {
    let mut data = person();
    let reaction = dispatch(awaiting(InputValueType::AddTo, "/tags"), Event::Text("\"c\"".to_string()), &mut data);
    assert_eq!(reaction.state, at("/tags", None));
    assert_eq!(
        reaction.effects,
        vec![
            Effect::Persist("{\"age\":25,\"tags\":[\"a\",\"b\",\"c\"]}".to_string()),
            Effect::SendText("`\"c\"` has been added to `/tags`".to_string()),
            Effect::SendMenu(menu_of(&data, "/tags")),
        ]
    );
    let reaction = dispatch(awaiting(InputValueType::RemoveFrom, "/tags"), Event::Text("\"a\"".to_string()), &mut data);
    assert_eq!(reaction.state, at("/tags", None));
    assert_eq!(reaction.effects[1], Effect::SendText("`\"a\"` has been removed from `/tags`".to_string()));
    assert_eq!(data.at(&ValuePath::from("/tags")), Some(JsonValue::Array(vec![txt("b"), txt("c")])));
}

#[test]
fn a_text_that_is_no_value_is_asked_for_again() {
    let mut data = person();
    let reaction = dispatch(awaiting(InputValueType::UpdateAt, "/age"), Event::Text("twenty".to_string()), &mut data);
    assert_eq!(reaction, says(awaiting(InputValueType::UpdateAt, "/age"), "Invalid value. Input valid JSON value."));
    assert_eq!(*data.as_ref(), person_tree());
    let reaction = dispatch(awaiting(InputValueType::UpdateAt, "/age"), Event::NoText, &mut data);
    assert_eq!(reaction, says(awaiting(InputValueType::UpdateAt, "/age"), "Please send the new value."));
}

#[test]
fn a_refused_change_is_reported_and_can_be_tried_again() {
    let mut data = person();
    let reaction = dispatch(awaiting(InputValueType::AddTo, "/tags"), Event::Text("1".to_string()), &mut data);
    assert_eq!(reaction, says(awaiting(InputValueType::AddTo, "/tags"), "Type mismatch: Expected String, got Number"));
    let reaction = dispatch(awaiting(InputValueType::RemoveFrom, "/tags"), Event::Text("\"z\"".to_string()), &mut data);
    assert_eq!(reaction, says(awaiting(InputValueType::RemoveFrom, "/tags"), "Value not found in the array"));
    assert_eq!(*data.as_ref(), person_tree());
    let reaction = dispatch(awaiting(InputValueType::RemoveFrom, "/tags"), Event::Text("\"b\"".to_string()), &mut data);
    assert_eq!(reaction.state, at("/tags", None));
}

#[test]
fn a_change_at_a_stale_address_is_not_made() {
    let mut data = person();
    for (input_type, path) in [
        (InputValueType::AddTo, "/age"),
        (InputValueType::RemoveFrom, "/missing"),
        (InputValueType::UpdateAt, "/"),
        (InputValueType::UpdateAt, "/age/deeper"),
    ] {
        let reaction = dispatch(awaiting(input_type, path), Event::Text("1".to_string()), &mut data);
        assert_eq!(reaction, says(awaiting(input_type, path), UNHANDLED));
        assert_eq!(*data.as_ref(), person_tree());
    }
}

#[test]
fn a_change_that_cannot_be_stored_is_taken_back() {
    let mut data = Data::new(person_tree(), "person.toml".to_string(), Some(DataFormat::Toml));
    let reaction = apply_input(
        ValueInput { input_type: InputValueType::UpdateAt, value_path: ValuePath::from("/age") },
        Some(JsonValue::Null),
        &mut data,
    );
    assert_eq!(reaction, says(awaiting(InputValueType::UpdateAt, "/age"), "Failed to write the file"));
    assert_eq!(*data.as_ref(), person_tree());
    let mut mock = Data::mock(person_tree());
    let reaction = dispatch(awaiting(InputValueType::UpdateAt, "/age"), Event::Text("26".to_string()), &mut mock);
    assert_eq!(reaction, says(awaiting(InputValueType::UpdateAt, "/age"), "Unsupported file format"));
    assert_eq!(*mock.as_ref(), person_tree());
}

#[test]
fn a_change_whose_menu_cannot_be_shown_is_still_made() {
    let mut data = person();
    let key = "k".repeat(60);
    let address = format!("/{}", key);
    let reaction = dispatch(awaiting(InputValueType::UpdateAt, &address), Event::Text("1".to_string()), &mut data);
    assert_eq!(data.at(&ValuePath::from(address.as_str())), Some(num(1)));
    assert_eq!(reaction.state, ChatState::Authorized);
    assert_eq!(reaction.effects.len(), 3);
    assert_eq!(
        reaction.effects[2],
        Effect::SendText("Cannot show the menu: an address in it is too long for a button".to_string())
    );
}

#[test]
fn texts_outside_an_input_are_not_handled() {
    let mut data = person();
    let reaction = dispatch(ChatState::Authorized, Event::Text("26".to_string()), &mut data);
    assert_eq!(reaction, says(ChatState::Authorized, UNHANDLED));
    let reaction = dispatch(at("/", Some(1)), Event::NoText, &mut data);
    assert_eq!(reaction, says(at("/", Some(1)), UNHANDLED));
    assert_eq!(*data.as_ref(), person_tree());
}

#[test]
fn press_and_open_menu_take_what_was_decoded() {
    let data = person();
    let reaction = press(at("/", Some(2)), Some(CallbackAction::Go(ValuePath::from("/tags"))), &data);
    assert_eq!(reaction.state, at("/tags", Some(2)));
    let reaction = press(at("/", Some(2)), None, &data);
    assert_eq!(reaction, says(at("/", Some(2)), UNHANDLED));
    let reaction = open_menu(ChatState::Authorized, ValuePath::from("/age"), &data, None);
    assert_eq!(reaction, says(ChatState::Authorized, UNHANDLED));
}

#[test]
fn kinds_of_input_are_kinds_of_change() {
    assert_eq!(UpdateAction::from(InputValueType::UpdateAt), UpdateAction::Replace);
    assert_eq!(UpdateAction::from(InputValueType::AddTo), UpdateAction::AddTo);
    assert_eq!(UpdateAction::from(InputValueType::RemoveFrom), UpdateAction::RemoveFrom);
}

#[test]
fn a_menu_with_a_key_that_no_address_can_carry_is_not_opened() {
    let mut data = Data::mock(JsonValue::Object(vec![("a/b".to_string(), num(1))]));
    let reaction = dispatch(ChatState::Authorized, Event::Command(Command::Admin), &mut data);
    assert_eq!(
        reaction,
        says(ChatState::Authorized, "Cannot show the menu: a key in it is empty or holds the separator")
    );
}

#[test]
fn states_are_copied_whole() {
    for state in [
        ChatState::Unauthorized,
        ChatState::Authorized,
        at("/tags", Some(4)),
        awaiting(InputValueType::RemoveFrom, "/tags"),
    ] {
        assert_eq!(state.clone(), state);
    }
}
