//! Settling a plugin's render: what the host reports and shows once the
//! plugin has rendered, or has panicked while rendering.
//!
//! The host runs each plugin's `render()` with panics caught. If the plugin
//! panicked, its zone shows a crash message instead and the rest of the
//! application carries on.

use vstd::prelude::*;

verus! {

/// The message shown in a zone whose plugin panicked: `[<plugin id> crashed]`.
pub open spec fn crash_text(plugin_id: Seq<char>) -> Seq<char> {
    "["@ + plugin_id + " crashed]"@
}

/// Safe renderer that isolates plugin panics.
pub struct SafeRenderer;

impl SafeRenderer {
    /// The message to show in the zone of the plugin `plugin_id` after it
    /// panicked.
    pub fn crash_message(plugin_id: &str) -> (m: String)
        ensures
            m@ == crash_text(plugin_id@),
    {
        let mut m = String::from_str("[");
        m.append(plugin_id);
        m.append(" crashed]");
        m
    }

    /// Settles a render of the plugin `plugin_id`: `rendered` is what the
    /// plugin's `render()` returned, or `None` if it panicked.
    ///
    /// Returns whether the zone shows the plugin's content, and, if the
    /// plugin panicked, the crash message to show in its zone. A plugin that
    /// returned normally is taken at its word; one that panicked has
    /// rendered nothing.
    pub fn settle(plugin_id: &str, rendered: Option<bool>) -> (r: (bool, Option<String>))
        ensures
            match rendered {
                Some(shown) => r.0 == shown && r.1 is None,
                None => !r.0 && (r.1 matches Some(m) && m@ == crash_text(plugin_id@)),
            },
    {
        match rendered {
            Some(shown) => (shown, None),
            None => (false, Some(Self::crash_message(plugin_id))),
        }
    }
}

} // verus!
