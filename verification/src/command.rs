//! Commands: the plugin-side registration API, the context a command handler
//! receives, and the host's command table.
use vstd::prelude::*;
use crate::strmap::StrMap;

verus! {

#[derive(Debug, Clone, Copy, PartialEq, Eq, Structural)]
pub enum CommandResult {
    /// Completed normally.
    Success,
    /// The command handler panicked. Host should log the error.
    Panic,
}

/// The identity of a command handler function. The program that holds the
/// function pointers maps each id to its function.
#[derive(Debug, Clone, Copy, PartialEq, Eq, Structural)]
pub struct CommandId(pub u64);

/// The sender a handle stands for: `0` is the console, `1` is Steve, and any
/// other handle is unknown.
pub open spec fn sender_name_of(handle: u64) -> Seq<char> {
    if handle == 0 {
        "Console"@
    } else if handle == 1 {
        "Steve"@
    } else {
        "Unknown"@
    }
}

/// The host's answer to "who sent this command?".
pub fn sender_name_for(handle: u64) -> (name: String)
    ensures
        name@ == sender_name_of(handle),
{
    match handle {
        0 => String::from_str("Console"),
        1 => String::from_str("Steve"),
        _ => String::from_str("Unknown"),
    }
}

/// The line the host shows in chat for a reply.
pub open spec fn chat_line(message: Seq<char>) -> Seq<char> {
    "[Chat] "@ + message
}

/// Context passed to command handlers: the handle of the sender.
pub struct CommandContext {
    handle: u64,
}

impl CommandContext {
    pub closed spec fn handle(&self) -> u64 {
        self.handle
    }

    /// Create a new context. Only the host should call this.
    pub fn new(handle: u64) -> (ctx: Self)
        ensures
            ctx.handle() == handle,
    {
        CommandContext { handle }
    }

    /// A reply to the command sender: the chat line the host shows for it.
    pub fn reply(&self, message: String) -> (line: String)
        ensures
            line@ == chat_line(message@),
    {
        let mut line = String::from_str("[Chat] ");
        line.append(message.as_str());
        line
    }

    /// Get the name of the command sender.
    pub fn sender_name(&self) -> (name: String)
        ensures
            name@ == sender_name_of(self.handle()),
    {
        sender_name_for(self.handle)
    }
}

/// A command registration, as handed to the host.
pub struct CommandRegistration {
    pub name: String,
    pub handler: CommandId,
}

/// Scoped API for command registration.
pub struct CommandApi {}

impl CommandApi {
    pub fn new() -> Self {
        CommandApi {}
    }

    /// Register a command with the given name and handler.
    pub fn register(&self, name: &str, handler: CommandId) -> (reg: CommandRegistration)
        ensures
            reg.name@ == name@,
            reg.handler == handler,
    {
        CommandRegistration { name: name.to_owned(), handler }
    }
}

/// The host's command table: command name -> handler. A later registration
/// under the same name replaces the earlier one.
pub struct CommandRegistry {
    commands: StrMap<CommandId>,
}

impl View for CommandRegistry {
    type V = Map<Seq<char>, CommandId>;

    closed spec fn view(&self) -> Map<Seq<char>, CommandId> {
        self.commands@
    }
}

impl CommandRegistry {
    pub closed spec fn wf(&self) -> bool {
        self.commands.wf()
    }

    pub fn new() -> (r: Self)
        ensures
            r.wf(),
            r@ == Map::<Seq<char>, CommandId>::empty(),
    {
        CommandRegistry { commands: StrMap::new() }
    }

    /// Record a command registration.
    pub fn register(&mut self, reg: CommandRegistration)
        requires
            old(self).wf(),
        ensures
            final(self).wf(),
            final(self)@ == old(self)@.insert(reg.name@, reg.handler),
    {
        self.commands.insert(reg.name, reg.handler);
    }

    /// The handler registered under `name`, if any.
    pub fn lookup(&self, name: &str) -> (h: Option<CommandId>)
        requires
            self.wf(),
        ensures
            h is None <==> !self@.contains_key(name@),
            h matches Some(id) ==> id == self@[name@],
    {
        match self.commands.get(name) {
            None => None,
            Some(id) => Some(*id),
        }
    }
}

/// The example command: greets the sender by name.
pub open spec fn hello_text(sender: Seq<char>) -> Seq<char> {
    "Hello, "@ + sender + "! Welcome to Steel."@
}

/// The `hello` command of the example plugin: the chat line of its reply.
pub fn hello_command(ctx: &CommandContext) -> (line: String)
    ensures
        line@ == chat_line(hello_text(sender_name_of(ctx.handle()))),
{
    let name = ctx.sender_name();
    let mut text = String::from_str("Hello, ");
    text.append(name.as_str());
    text.append("! Welcome to Steel.");
    ctx.reply(text)
}

/// The console is handle 0 and Steve handle 1; every other handle is an
/// unknown sender. A reply is shown prefixed with `[Chat] `, and the hello
/// command greets the sender by name.
pub proof fn lemma_command_texts(handle: u64, message: Seq<char>, sender: Seq<char>)
    ensures
        handle == 0 ==> sender_name_of(handle) == "Console"@,
        handle == 1 ==> sender_name_of(handle) == "Steve"@,
        handle > 1 ==> sender_name_of(handle) == "Unknown"@,
        chat_line(message) == "[Chat] "@ + message,
        hello_text(sender) == "Hello, "@ + sender + "! Welcome to Steel."@,
{
}

} // verus!
