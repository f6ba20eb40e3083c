//! What a plugin receives at initialisation, and what it says about itself.
use vstd::prelude::*;
use crate::command::CommandApi;
use crate::event::EventApi;
use crate::identifier::is_valid_namespace;

verus! {

#[derive(Debug, Clone, Copy, PartialEq, Eq, Structural)]
pub enum InitResult {
    /// Completed normally.
    Success,
    /// The init function panicked. Host should shut down gracefully.
    Panic,
}

/// Context passed to the plugin's init function.
/// Provides access to scoped API objects for registration.
pub struct PluginContext {
    plugin_id: String,
}

impl PluginContext {
    pub closed spec fn plugin_id(&self) -> Seq<char> {
        self.plugin_id@
    }

    pub fn new(plugin_id: &str) -> (ctx: Self)
        ensures
            ctx.plugin_id() == plugin_id@,
    {
        PluginContext { plugin_id: plugin_id.to_owned() }
    }

    /// Access the event registration and firing API, tagged with this plugin's id.
    pub fn events(&self) -> (api: EventApi)
        ensures
            api.plugin_id() == self.plugin_id(),
    {
        EventApi::new(self.plugin_id.as_str())
    }

    /// Access the command registration API.
    pub fn commands(&self) -> CommandApi {
        CommandApi::new()
    }
}

/// Metadata about a plugin.
///
/// `id` is a short machine-friendly identifier (e.g. `"ae2"`), used for
/// dependency references, load ordering, and file paths.
/// `name` is the human-readable display name (e.g. `"Applied Energistics 2"`).
pub struct PluginMetadata {
    pub id: String,
    pub name: String,
    pub version: String,
}

impl PluginMetadata {
    /// Declare plugin metadata; the id must be a valid namespace (`[a-z0-9._-]+`).
    pub fn new(id: &str, name: &str, version: &str) -> (m: Self)
        requires
            is_valid_namespace(id@),
        ensures
            m.id@ == id@,
            m.name@ == name@,
            m.version@ == version@,
    {
        PluginMetadata { id: id.to_owned(), name: name.to_owned(), version: version.to_owned() }
    }
}

} // verus!
