use steel::command::{
    hello_command, sender_name_for, CommandApi, CommandContext, CommandId, CommandRegistry,
    CommandResult,
};
use steel::plugin::{InitResult, PluginContext, PluginMetadata};

#[test]
fn sender_names() {
    assert_eq!(sender_name_for(0), "Console");
    assert_eq!(sender_name_for(1), "Steve");
    assert_eq!(sender_name_for(2), "Unknown");
    assert_eq!(sender_name_for(u64::MAX), "Unknown");
    assert_eq!(CommandContext::new(1).sender_name(), "Steve");
}

#[test]
fn reply_is_a_chat_line() {
    let ctx = CommandContext::new(0);
    assert_eq!(ctx.reply(String::from("hi")), "[Chat] hi");
}

#[test]
fn hello_command_greets_sender() {
    assert_eq!(
        hello_command(&CommandContext::new(0)),
        "[Chat] Hello, Console! Welcome to Steel."
    );
    assert_eq!(
        hello_command(&CommandContext::new(5)),
        "[Chat] Hello, Unknown! Welcome to Steel."
    );
}

#[test]
fn registry_insert_lookup_overwrite() {
    let mut reg = CommandRegistry::new();
    assert_eq!(reg.lookup("hello"), None);
    let api = PluginContext::new("hello_world").commands();
    reg.register(api.register("hello", CommandId(1)));
    reg.register(api.register("bye", CommandId(2)));
    assert_eq!(reg.lookup("hello"), Some(CommandId(1)));
    assert_eq!(reg.lookup("bye"), Some(CommandId(2)));
    reg.register(CommandApi::new().register("hello", CommandId(9)));
    assert_eq!(reg.lookup("hello"), Some(CommandId(9)));
    assert_eq!(reg.lookup("hell"), None);
}

#[test]
fn result_enums() {
    assert_ne!(CommandResult::Success, CommandResult::Panic);
    assert_ne!(InitResult::Success, InitResult::Panic);
}

#[test]
fn plugin_metadata_fields() {
    let m = PluginMetadata::new("hello_world", "Hello World", "0.1.0");
    assert_eq!(m.id, "hello_world");
    assert_eq!(m.name, "Hello World");
    assert_eq!(m.version, "0.1.0");
}
