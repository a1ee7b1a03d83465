use task_bot::commands::{
    bind_values, command_enabled, command_name, command_spec, command_spec_with_keys, first_unsupported,
    key_form_of, option_name, option_type_from_name, resolved_field_of, OptionType, OptionValue, ParamKind,
    ResolvedField, ResolvedIds, UnsupportedParam,
};
use task_bot::localization::{Localization, LocalizationData};
use task_bot::maps::NameMap;

fn s(x: &str) -> String {
    x.to_string()
}

#[test]
fn key_form_dashes_and_lowers() {
    assert_eq!(key_form_of("Add_Task_Member"), "add-task-member");
    assert_eq!(key_form_of("ping"), "ping");
}

#[test]
fn option_types_by_parameter_type() {
    assert_eq!(option_type_from_name(&s("String")), Some(OptionType::String));
    assert_eq!(option_type_from_name(&s("bool")), Some(OptionType::Boolean));
    assert_eq!(option_type_from_name(&s("User")), Some(OptionType::User));
    assert_eq!(option_type_from_name(&s("PartialChannel")), Some(OptionType::Channel));
    assert_eq!(option_type_from_name(&s("Role")), Some(OptionType::Role));
    assert_eq!(option_type_from_name(&s("Attachment")), Some(OptionType::Attachment));
    assert_eq!(option_type_from_name(&s("f64")), Some(OptionType::Number));
    assert_eq!(option_type_from_name(&s("i64")), Some(OptionType::Integer));
    assert_eq!(option_type_from_name(&s("u32")), None);
    assert_eq!(option_type_from_name(&s("user")), None);
    assert_eq!(resolved_field_of(OptionType::User), Some(ResolvedField::Users));
    assert_eq!(resolved_field_of(OptionType::Channel), Some(ResolvedField::Channels));
    assert_eq!(resolved_field_of(OptionType::Role), Some(ResolvedField::Roles));
    assert_eq!(resolved_field_of(OptionType::Attachment), Some(ResolvedField::Attachments));
    assert_eq!(resolved_field_of(OptionType::Integer), None);
}

#[test]
fn a_command_declares_its_keys_and_options() {
    let params = vec![
        (s("member"), ParamKind::Plain(s("User"))),
        (s("Score_Change"), ParamKind::Optional(s("i64"))),
    ];
    let c = command_spec("change_Score", &params);
    assert_eq!(c.locale_key, "change-score-command");
    assert_eq!(c.name_key, "change-score-command-name");
    assert_eq!(c.description_key, "change-score-command-description");
    assert_eq!(c.options.len(), 2);
    assert_eq!(c.options[0].name_key, "change-score-command-param-member-name");
    assert_eq!(c.options[0].description_key, "change-score-command-param-member-description");
    assert_eq!(c.options[0].choice_key, "change-score-command-param-member-choice");
    assert_eq!(c.options[0].option_type, OptionType::User);
    assert!(c.options[0].required);
    assert_eq!(c.options[0].resolved, Some(ResolvedField::Users));
    assert_eq!(c.options[1].name_key, "change-score-command-param-score-change-name");
    assert_eq!(c.options[1].option_type, OptionType::Integer);
    assert!(!c.options[1].required);
    assert_eq!(c.options[1].resolved, None);
    assert_eq!((c.options[0].value_index, c.options[1].value_index), (0, 1));
}

#[test]
fn a_command_without_parameters_has_no_options() {
    let c = command_spec("ping", &vec![]);
    assert_eq!(c.name_key, "ping-command-name");
    assert!(c.options.is_empty());
}

#[test]
fn the_first_unsupported_parameter_is_refused() {
    let params = vec![
        (s("a"), ParamKind::Plain(s("String"))),
        (s("b"), ParamKind::Optional(s("u8"))),
        (s("c"), ParamKind::Plain(s("Vec"))),
    ];
    assert_eq!(first_unsupported(&params), Some(UnsupportedParam { index: 1, written_type: s("u8") }));
    assert_eq!(first_unsupported(&params[..1].to_vec()), None);
}

#[test]
fn keys_given_are_used_as_they_are() {
    let params = vec![(s("x"), ParamKind::Plain(s("bool")))];
    let c = command_spec_with_keys("cmd", &params, &vec![s("Given")]);
    assert_eq!(c.options[0].name_key, "cmd-command-param-Given-name");
    assert_eq!(c.options[0].option_type, OptionType::Boolean);
}

#[test]
fn commands_are_on_unless_switched_off() {
    let mut settings: NameMap<bool> = NameMap::new();
    settings.insert(s("ping"), false);
    settings.insert(s("pong"), true);
    assert!(!command_enabled(&settings, &s("ping")));
    assert!(command_enabled(&settings, &s("pong")));
    assert!(command_enabled(&settings, &s("other")));
}

#[test]
fn declared_names_are_localized_and_cut() {
    let mut loc = Localization::new(LocalizationData {
        locale_path: "locale".to_string(),
        culture: "EN_en".to_string(),
    });
    loc.collect_locale("ping-command-name: \"a name far longer than thirty two characters\"\n")
        .unwrap();
    let c = command_spec("ping", &vec![(s("who"), ParamKind::Plain(s("User")))]);
    assert_eq!(command_name(&loc, &c), "a name far longer than thirty tw");
    assert_eq!(option_name(&loc, &c.options[0]), "ping-command-param-who-name");
}

#[test]
fn option_values_go_to_their_parameters_in_order() {
    let params = vec![
        (s("who"), ParamKind::Plain(s("User"))),
        (s("note"), ParamKind::Optional(s("String"))),
        (s("amount"), ParamKind::Optional(s("i64"))),
        (s("room"), ParamKind::Optional(s("PartialChannel"))),
    ];
    let c = command_spec("give", &params);
    let ids = ResolvedIds { users: vec![7], channels: vec![], roles: vec![], attachments: vec![] };
    let values = vec![
        OptionValue::User(7),
        OptionValue::String(s("thanks")),
        OptionValue::Boolean(true),
        OptionValue::Channel(9),
    ];
    let bound = bind_values(&c, &values, &ids);
    assert_eq!(
        bound,
        vec![Some(OptionValue::User(7)), Some(OptionValue::String(s("thanks"))), None, None]
    );
}
