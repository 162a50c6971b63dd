//! Agent plugin registry and invocation facade.
//!
//! Plugins integrate outside review agents. The registry and service here
//! only keep track of them and route calls: what a plugin does on the other
//! side of the [`AgentPlugin`] trait is its implementor's business, and
//! nothing is assumed of it.

use vstd::prelude::*;

use crate::api::review::{CommentDraft, Diagnostic};
use crate::Error;

verus! {

/// Capabilities advertised by a plugin for UI feature toggles.
#[derive(Debug, Clone, Copy, PartialEq, Eq, Structural)]
pub struct PluginCapabilities {
    /// Whether the plugin can enumerate existing threads.
    pub supports_list_threads: bool,
    /// Whether the plugin can attach without an explicit thread reference.
    pub supports_attach_without_thread: bool,
    /// Whether the plugin supports polling for revision progress.
    pub supports_polling: bool,
}

impl PluginCapabilities {
    /// Construct a new capabilities struct with explicit flags.
    pub fn new(
        supports_list_threads: bool,
        supports_attach_without_thread: bool,
        supports_polling: bool,
    ) -> (r: Self)
        ensures
            r == (PluginCapabilities {
                supports_list_threads,
                supports_attach_without_thread,
                supports_polling,
            }),
    {
        Self { supports_list_threads, supports_attach_without_thread, supports_polling }
    }
}

/// Summary information about a registered plugin.
#[derive(Debug, Clone, PartialEq, Eq)]
pub struct PluginSummary {
    /// Stable identifier for the plugin.
    pub id: String,
    /// Human-friendly label for display.
    pub label: String,
    /// Capability flags indicating supported flows.
    pub capabilities: PluginCapabilities,
}

/// Lightweight reference to a remote review thread.
#[derive(Debug, Clone, PartialEq, Eq)]
pub struct ThreadRef {
    /// Unique identifier for the thread in the plugin backend.
    pub id: String,
    /// Optional display title or summary.
    pub title: Option<String>,
}

impl ThreadRef {
    /// Construct a new thread reference.
    pub fn new(id: &str, title: Option<&str>) -> (r: Self)
        ensures
            r.id@ == id@,
            r.title is Some <==> title is Some,
            title is Some ==> r.title->0@ == title->0@,
    {
        Self {
            id: id.to_owned(),
            title: match title {
                Some(t) => Some(t.to_owned()),
                None => None,
            },
        }
    }
}

/// Handle returned after attaching to a plugin session.
#[derive(Debug, Clone, PartialEq, Eq)]
pub struct PluginSession {
    /// Identifier for the plugin that created the session.
    pub plugin_id: String,
    /// Opaque token understood by the plugin for subsequent calls.
    pub session_id: String,
    /// Optional bound thread reference for the session.
    pub thread: Option<ThreadRef>,
}

impl PluginSession {
    /// Create a new session handle.
    pub fn new(plugin_id: &str, session_id: &str, thread: Option<ThreadRef>) -> (r: Self)
        ensures
            r.plugin_id@ == plugin_id@,
            r.session_id@ == session_id@,
            r.thread == thread,
    {
        Self { plugin_id: plugin_id.to_owned(), session_id: session_id.to_owned(), thread }
    }
}

/// Structured payload describing review feedback.
#[derive(Debug, Clone, PartialEq, Eq)]
pub struct ReviewPayload {
    /// Optional human summary of the requested revisions.
    pub summary: Option<String>,
    /// High-level actions the agent should perform.
    pub actions: Vec<String>,
    /// Draft comments prepared for submission.
    pub comments: Vec<CommentDraft>,
    /// Diagnostics produced during review.
    pub diagnostics: Vec<Diagnostic>,
}

impl ReviewPayload {
    /// Create an empty payload.
    pub fn new() -> (r: Self)
        ensures
            r.summary is None,
            r.actions@.len() == 0,
            r.comments@.len() == 0,
            r.diagnostics@.len() == 0,
    {
        Self { summary: None, actions: Vec::new(), comments: Vec::new(), diagnostics: Vec::new() }
    }
}

/// Outcome of submitting a review payload to the plugin.
#[derive(Debug, Clone, PartialEq, Eq)]
pub struct SubmissionResult {
    /// Whether the plugin accepted the submission and started processing.
    pub revision_started: bool,
    /// Optional reference identifier returned by the plugin backend.
    pub reference: Option<String>,
    /// Optional informational message for the UI.
    pub message: Option<String>,
}

/// States reported when polling for revision progress.
#[derive(Debug, Clone, Copy, PartialEq, Eq, Structural)]
pub enum RevisionState {
    /// Work has been queued or is awaiting processing.
    Pending,
    /// Work has started and is in progress.
    InProgress,
    /// Work completed successfully and revisions should be available.
    Completed,
    /// Work failed to complete.
    Failed,
}

impl Default for RevisionState {
    /// The initial state of any revision.
    fn default() -> (r: Self)
        ensures
            r == RevisionState::Pending,
    {
        Self::Pending
    }
}

/// Poll result describing the latest revision state.
#[derive(Debug, Clone, PartialEq, Eq)]
pub struct RevisionProgress {
    /// Current state of the revision process.
    pub state: RevisionState,
    /// Optional detail or error message surfaced by the plugin.
    pub detail: Option<String>,
}

/// Errors surfaced by plugin integrations.
#[derive(Debug)]
pub enum PluginError {
    /// Operation is not supported by the plugin.
    UnsupportedCapability {
        /// Name of the unsupported operation.
        operation: &'static str,
    },
    /// Generic failure surfaced by the plugin.
    Failure {
        /// Human-readable error message.
        message: String,
    },
}

impl PluginError {
    /// Helper to construct a failure from a message.
    pub fn message(message: &str) -> (r: Self)
        ensures
            r matches PluginError::Failure { message: m } && m@ == message@,
    {
        Self::Failure { message: message.to_owned() }
    }
}

/// Convenience result alias for plugin operations.
pub type PluginResult<T> = core::result::Result<T, PluginError>;

/// Trait implemented by agent integrations. Nothing is assumed of an
/// implementation: callers receive whatever it returns.
pub trait AgentPlugin: Send + Sync {
    /// Stable identifier used for lookup and logging.
    fn id(&self) -> &'static str;

    /// Human-friendly label for UI surfaces.
    fn label(&self) -> &'static str;

    /// Capabilities advertised by the plugin.
    fn capabilities(&self) -> PluginCapabilities;

    /// Enumerate review threads available to the plugin.
    fn list_threads(&self) -> PluginResult<Vec<ThreadRef>>;

    /// Attach to a thread and obtain a session handle.
    fn attach(&self, thread_id: Option<&str>) -> PluginResult<PluginSession>;

    /// Submit a review payload for the active session.
    fn post_review(&self, session: &PluginSession, payload: ReviewPayload) -> PluginResult<
        SubmissionResult,
    >;

    /// Poll for revision progress for the session.
    fn poll_revision(&self, session: &PluginSession) -> PluginResult<RevisionProgress>;
}

/// Minimal builtin plugin that performs no external calls.
#[derive(Debug)]
pub struct GitOnlyPlugin;

impl AgentPlugin for GitOnlyPlugin {
    fn id(&self) -> &'static str {
        "git-only"
    }

    fn label(&self) -> &'static str {
        "Local Git"
    }

    fn capabilities(&self) -> PluginCapabilities {
        PluginCapabilities::new(false, true, false)
    }

    fn list_threads(&self) -> PluginResult<Vec<ThreadRef>> {
        Ok(Vec::new())
    }

    fn attach(&self, thread_id: Option<&str>) -> PluginResult<PluginSession> {
        // Local sessions carry no state, so one constant handle serves them
        // all.
        let thread = match thread_id {
            Some(id) => Some(ThreadRef::new(id, None)),
            None => None,
        };
        Ok(PluginSession::new("git-only", "local-1", thread))
    }

    fn post_review(&self, _session: &PluginSession, _payload: ReviewPayload) -> PluginResult<
        SubmissionResult,
    > {
        Ok(
            SubmissionResult {
                revision_started: false,
                reference: None,
                message: Some("No remote submission performed for local reviews.".to_owned()),
            },
        )
    }

    fn poll_revision(&self, _session: &PluginSession) -> PluginResult<RevisionProgress> {
        Ok(
            RevisionProgress {
                state: RevisionState::Completed,
                detail: Some("Revisions are managed locally.".to_owned()),
            },
        )
    }
}


/// The first index at or after `i` holding the wanted key, or the run's
/// length when none does.
pub open spec fn find_key(keys: Seq<Seq<char>>, id: Seq<char>, i: int) -> int
    decreases keys.len() - i,
{
    if i < 0 || i >= keys.len() {
        i
    } else if keys[i] == id {
        i
    } else {
        find_key(keys, id, i + 1)
    }
}

/// Relies on `Vec::push` and `Arc::clone`: appends a shared entry. Verus
/// refuses to move an `Arc` of a trait object, so the call stands behind
/// this wrapper.
#[verifier::external_body]
fn push_entry(
    entries: &mut Vec<(String, std::sync::Arc<dyn AgentPlugin>)>,
    id: String,
    plugin: &std::sync::Arc<dyn AgentPlugin>,
)
    ensures
        final(entries)@.len() == old(entries)@.len() + 1,
        forall|k: int|
            0 <= k < old(entries)@.len() ==> final(entries)@[k] == old(entries)@[k],
        final(entries)@[old(entries)@.len() as int].0 == id,
        final(entries)@[old(entries)@.len() as int].1 == *plugin,
{
    entries.push((id, std::sync::Arc::clone(plugin)));
}

/// Relies on indexed assignment on `Vec` and `Arc::clone`: replaces the
/// entry in place. Verus refuses to move an `Arc` of a trait object, so the
/// call stands behind this wrapper.
#[verifier::external_body]
fn set_entry(
    entries: &mut Vec<(String, std::sync::Arc<dyn AgentPlugin>)>,
    j: usize,
    id: String,
    plugin: &std::sync::Arc<dyn AgentPlugin>,
)
    requires
        j < old(entries)@.len(),
    ensures
        final(entries)@.len() == old(entries)@.len(),
        forall|k: int|
            0 <= k < old(entries)@.len() && k != j ==> final(entries)@[k] == old(entries)@[k],
        final(entries)@[j as int].0 == id,
        final(entries)@[j as int].1 == *plugin,
{
    entries[j] = (id, std::sync::Arc::clone(plugin));
}

/// Relies on `Vec::push` and `Arc::new`: wraps an owned plugin for shared
/// use and appends it. Verus refuses the unsizing coercion to a trait
/// object, so the call stands behind this wrapper.
#[verifier::external_body]
fn push_owned_plugin<P: AgentPlugin + 'static>(
    entries: &mut Vec<(String, std::sync::Arc<dyn AgentPlugin>)>,
    id: String,
    plugin: P,
)
    ensures
        final(entries)@.len() == old(entries)@.len() + 1,
        forall|k: int|
            0 <= k < old(entries)@.len() ==> final(entries)@[k] == old(entries)@[k],
        final(entries)@[old(entries)@.len() as int].0 == id,
{
    entries.push((id, std::sync::Arc::new(plugin)));
}

/// Relies on indexed assignment on `Vec` and `Arc::new`: wraps an owned
/// plugin and replaces the entry in place. Verus refuses the unsizing
/// coercion to a trait object, so the call stands behind this wrapper.
#[verifier::external_body]
fn set_owned_plugin<P: AgentPlugin + 'static>(
    entries: &mut Vec<(String, std::sync::Arc<dyn AgentPlugin>)>,
    j: usize,
    id: String,
    plugin: P,
)
    requires
        j < old(entries)@.len(),
    ensures
        final(entries)@.len() == old(entries)@.len(),
        forall|k: int|
            0 <= k < old(entries)@.len() && k != j ==> final(entries)@[k] == old(entries)@[k],
        final(entries)@[j as int].0 == id,
{
    entries[j] = (id, std::sync::Arc::new(plugin));
}

/// The identifiers of a run of registry entries.
pub open spec fn entry_keys(entries: Seq<(String, std::sync::Arc<dyn AgentPlugin>)>) -> Seq<
    Seq<char>,
> {
    entries.map_values(|e: (String, std::sync::Arc<dyn AgentPlugin>)| e.0@)
}

/// In-memory registry for agent plugins, keyed by their identifiers.
pub struct PluginRegistry {
    entries: Vec<(String, std::sync::Arc<dyn AgentPlugin>)>,
}

impl PluginRegistry {
    /// The registered identifiers, in registration order.
    pub closed spec fn keys(&self) -> Seq<Seq<char>> {
        entry_keys(self.entries@)
    }

    /// The entry at one registry position.
    pub closed spec fn entry(&self, k: int) -> (String, std::sync::Arc<dyn AgentPlugin>) {
        self.entries@[k]
    }

    /// A key occurs at most once.
    pub closed spec fn wf(&self) -> bool {
        forall|j: int, k: int|
            0 <= j < k < self.keys().len() ==> self.keys()[j] != self.keys()[k]
    }

    /// Create an empty registry.
    pub fn new() -> (r: Self)
        ensures
            r.wf(),
            r.keys().len() == 0,
    {
        let r = Self { entries: Vec::new() };
        proof {
            assert(r.keys() =~= Seq::<Seq<char>>::empty());
        }
        r
    }

    /// Register an already shared plugin instance, replacing any plugin
    /// registered under the same identifier.
    pub fn register_arc(&mut self, plugin: &std::sync::Arc<dyn AgentPlugin>)
        requires
            old(self).wf(),
        ensures
            final(self).wf(),
            old(self).keys().len() <= final(self).keys().len() <= old(self).keys().len() + 1,
            forall|k: int|
                0 <= k < old(self).keys().len() ==> #[trigger] final(self).keys()[k] == old(
                    self,
                ).keys()[k],
            forall|a: int, b: int|
                #![trigger final(self).entry(a), final(self).entry(b)]
                0 <= a < b < old(self).keys().len() ==> final(self).entry(a) == old(self).entry(a)
                    || final(self).entry(b) == old(self).entry(b),
            forall|k: int|
                0 <= k < old(self).keys().len() && #[trigger] final(self).entry(k) != old(
                    self,
                ).entry(k) ==> final(self).entry(k).1 == *plugin,
            final(self).keys().len() > old(self).keys().len() ==> final(self).entry(
                old(self).keys().len() as int,
            ).1 == *plugin,
    {
        let id: String = plugin.id().to_owned();
        let ghost idv = id@;
        let mut j: usize = 0;
        let ghost ks = self.keys();
        while j < self.entries.len()
            invariant
                self.wf(),
                ks == self.keys(),
                ks == old(self).keys(),
                self.entries@ == old(self).entries@,
                0 <= j <= ks.len(),
                ks.len() == self.entries@.len(),
                idv == id@,
                forall|k: int| 0 <= k < j ==> self.keys()[k] != idv,
                forall|a: int, b: int|
                    0 <= a < b < ks.len() ==> #[trigger] ks[a] != #[trigger] ks[b],
            decreases ks.len() - j,
        {
            proof {
                assert(self.keys()[j as int] == self.entries@[j as int].0@);
            }
            if self.entries[j].0.eq(&id) {
                set_entry(&mut self.entries, j, id, &plugin);
                proof {
                    assert(self.keys().len() == self.entries@.len());
                    assert(forall|k: int|
                        0 <= k < self.entries@.len() ==> #[trigger] self.keys()[k]
                            == self.entries@[k].0@);
                    assert(forall|k: int|
                        0 <= k < ks.len() && k != j ==> self.keys()[k] == #[trigger] ks[k]);
                    assert(self.keys()[j as int] == idv);
                    assert(ks[j as int] == idv);
                    assert(self.keys() =~= ks);
                    assert(forall|a: int, b: int|
                        0 <= a < b < self.keys().len() ==> #[trigger] self.keys()[a]
                            != #[trigger] self.keys()[b]) by {
                        assert(forall|k: int|
                            0 <= k < ks.len() ==> #[trigger] self.keys()[k] == ks[k]);
                    }
                    assert(self.wf());
                    assert(forall|k: int|
                        0 <= k < ks.len() && k != j ==> #[trigger] self.entries@[k] == old(
                            self,
                        ).entries@[k]);
                }
                return;
            }
            j = j + 1;
        }
        proof {
            assert(forall|k: int| 0 <= k < ks.len() ==> #[trigger] self.keys()[k] != idv);
            assert(forall|k: int| 0 <= k < ks.len() ==> #[trigger] ks[k] != idv);
        }
        push_entry(&mut self.entries, id, plugin);
        proof {
            assert(self.keys().len() == self.entries@.len());
            assert(forall|k: int|
                0 <= k < self.entries@.len() ==> #[trigger] self.keys()[k]
                    == self.entries@[k].0@);
            assert(self.keys().len() == ks.len() + 1);
            assert(forall|k: int|
                0 <= k < ks.len() ==> self.keys()[k] == #[trigger] ks[k]);
            assert(self.keys()[ks.len() as int] == idv);
            assert(forall|a: int, b: int|
                0 <= a < b < self.keys().len() ==> #[trigger] self.keys()[a]
                    != #[trigger] self.keys()[b]) by {
                assert(forall|k: int|
                    0 <= k < ks.len() ==> #[trigger] self.keys()[k] == ks[k]);
                assert(forall|k: int| 0 <= k < ks.len() ==> #[trigger] ks[k] != idv);
            }
            assert(self.wf());
            assert(forall|k: int|
                0 <= k < ks.len() ==> #[trigger] self.entries@[k] == old(self).entries@[k]);
        }
    }

    /// Register a plugin keyed by its identifier, replacing any plugin
    /// registered under the same identifier.
    pub fn register<P: AgentPlugin + 'static>(&mut self, plugin: P)
        requires
            old(self).wf(),
        ensures
            final(self).wf(),
            old(self).keys().len() <= final(self).keys().len() <= old(self).keys().len() + 1,
            forall|k: int|
                0 <= k < old(self).keys().len() ==> #[trigger] final(self).keys()[k] == old(
                    self,
                ).keys()[k],
            forall|a: int, b: int|
                #![trigger final(self).entry(a), final(self).entry(b)]
                0 <= a < b < old(self).keys().len() ==> final(self).entry(a) == old(self).entry(a)
                    || final(self).entry(b) == old(self).entry(b),
    {
        let id: String = plugin.id().to_owned();
        let ghost idv = id@;
        let mut j: usize = 0;
        let ghost ks = self.keys();
        while j < self.entries.len()
            invariant
                self.wf(),
                ks == self.keys(),
                ks == old(self).keys(),
                self.entries@ == old(self).entries@,
                0 <= j <= ks.len(),
                ks.len() == self.entries@.len(),
                idv == id@,
                forall|k: int| 0 <= k < j ==> self.keys()[k] != idv,
                forall|a: int, b: int|
                    0 <= a < b < ks.len() ==> #[trigger] ks[a] != #[trigger] ks[b],
            decreases ks.len() - j,
        {
            proof {
                assert(self.keys()[j as int] == self.entries@[j as int].0@);
            }
            if self.entries[j].0.eq(&id) {
                set_owned_plugin(&mut self.entries, j, id, plugin);
                proof {
                    assert(self.keys().len() == self.entries@.len());
                    assert(forall|k: int|
                        0 <= k < self.entries@.len() ==> #[trigger] self.keys()[k]
                            == self.entries@[k].0@);
                    assert(forall|k: int|
                        0 <= k < ks.len() && k != j ==> self.keys()[k] == #[trigger] ks[k]);
                    assert(self.keys()[j as int] == idv);
                    assert(ks[j as int] == idv);
                    assert(self.keys() =~= ks);
                    assert(forall|a: int, b: int|
                        0 <= a < b < self.keys().len() ==> #[trigger] self.keys()[a]
                            != #[trigger] self.keys()[b]) by {
                        assert(forall|k: int|
                            0 <= k < ks.len() ==> #[trigger] self.keys()[k] == ks[k]);
                    }
                    assert(self.wf());
                    assert(forall|k: int|
                        0 <= k < ks.len() && k != j ==> #[trigger] self.entries@[k] == old(
                            self,
                        ).entries@[k]);
                }
                return;
            }
            j = j + 1;
        }
        proof {
            assert(forall|k: int| 0 <= k < ks.len() ==> #[trigger] self.keys()[k] != idv);
            assert(forall|k: int| 0 <= k < ks.len() ==> #[trigger] ks[k] != idv);
        }
        push_owned_plugin(&mut self.entries, id, plugin);
        proof {
            assert(self.keys().len() == self.entries@.len());
            assert(forall|k: int|
                0 <= k < self.entries@.len() ==> #[trigger] self.keys()[k]
                    == self.entries@[k].0@);
            assert(self.keys().len() == ks.len() + 1);
            assert(forall|k: int|
                0 <= k < ks.len() ==> self.keys()[k] == #[trigger] ks[k]);
            assert(self.keys()[ks.len() as int] == idv);
            assert(forall|a: int, b: int|
                0 <= a < b < self.keys().len() ==> #[trigger] self.keys()[a]
                    != #[trigger] self.keys()[b]) by {
                assert(forall|k: int|
                    0 <= k < ks.len() ==> #[trigger] self.keys()[k] == ks[k]);
                assert(forall|k: int| 0 <= k < ks.len() ==> #[trigger] ks[k] != idv);
            }
            assert(self.wf());
            assert(forall|k: int|
                0 <= k < ks.len() ==> #[trigger] self.entries@[k] == old(self).entries@[k]);
        }
    }

    /// Retrieve a plugin by identifier.
    pub fn get<'a>(&'a self, id: &str) -> (r: Option<&'a std::sync::Arc<dyn AgentPlugin>>)
        ensures
            r is Some <==> find_key(self.keys(), id@, 0) < self.keys().len(),
    {
        let mut j: usize = 0;
        proof {
            assert(self.keys().len() == self.entries@.len());
        }
        while j < self.entries.len()
            invariant
                0 <= j <= self.keys().len(),
                self.keys().len() == self.entries@.len(),
                find_key(self.keys(), id@, 0) == find_key(self.keys(), id@, j as int),
            decreases self.keys().len() - j,
        {
            proof {
                assert(self.keys()[j as int] == self.entries@[j as int].0@);
            }
            if crate::text::str_eq(self.entries[j].0.as_str(), id) {
                proof {
                    assert(find_key(self.keys(), id@, j as int) == j);
                }
                return Some(&self.entries[j].1);
            }
            proof {
                assert(find_key(self.keys(), id@, j as int) == find_key(self.keys(), id@, j + 1));
            }
            j = j + 1;
        }
        proof {
            assert(find_key(self.keys(), id@, self.keys().len() as int) == self.keys().len());
        }
        None
    }

    /// Returns the list of registered plugin identifiers.
    pub fn ids(&self) -> (r: Vec<String>)
        ensures
            r@.len() == self.keys().len(),
            forall|k: int| 0 <= k < r@.len() ==> (#[trigger] r@[k])@ == self.keys()[k],
    {
        let mut out: Vec<String> = Vec::new();
        let mut j: usize = 0;
        proof {
            assert(self.keys().len() == self.entries@.len());
        }
        while j < self.entries.len()
            invariant
                0 <= j <= self.keys().len(),
                self.keys().len() == self.entries@.len(),
                out@.len() == j,
                forall|k: int| 0 <= k < j ==> (#[trigger] out@[k])@ == self.keys()[k],
            decreases self.keys().len() - j,
        {
            proof {
                assert(self.keys()[j as int] == self.entries@[j as int].0@);
            }
            let id = self.entries[j].0.clone();
            proof {
                assert(id@ == self.entries@[j as int].0@);
            }
            out.push(id);
            j = j + 1;
        }
        out
    }

    /// Build summaries for all registered plugins, in registration order.
    pub fn summaries(&self) -> (r: Vec<PluginSummary>)
        ensures
            r@.len() == self.keys().len(),
    {
        let mut out: Vec<PluginSummary> = Vec::new();
        let mut j: usize = 0;
        proof {
            assert(self.keys().len() == self.entries@.len());
        }
        while j < self.entries.len()
            invariant
                0 <= j <= self.keys().len(),
                self.keys().len() == self.entries@.len(),
                out@.len() == j,
            decreases self.keys().len() - j,
        {
            let summary = PluginSummary {
                id: self.entries[j].1.id().to_owned(),
                label: self.entries[j].1.label().to_owned(),
                capabilities: self.entries[j].1.capabilities(),
            };
            out.push(summary);
            j = j + 1;
        }
        out
    }

    /// Fetch capabilities for a specific plugin.
    pub fn capabilities(&self, id: &str) -> (r: Option<PluginCapabilities>)
        ensures
            r is Some <==> find_key(self.keys(), id@, 0) < self.keys().len(),
    {
        match self.get(id) {
            Some(plugin) => Some(plugin.capabilities()),
            None => None,
        }
    }
}

/// High-level facade for invoking plugin operations.
pub struct PluginService {
    registry: std::sync::Arc<PluginRegistry>,
}

impl PluginService {
    /// The registered identifiers of the backing registry.
    pub closed spec fn keys(&self) -> Seq<Seq<char>> {
        self.registry.keys()
    }

    /// Whether a plugin is registered under the identifier.
    pub open spec fn knows(&self, id: Seq<char>) -> bool {
        find_key(self.keys(), id, 0) < self.keys().len()
    }

    /// Create a plugin service backed by the provided registry.
    pub fn new(registry: PluginRegistry) -> (r: Self)
        ensures
            r.keys() == registry.keys(),
    {
        Self { registry: std::sync::Arc::new(registry) }
    }

    /// Access the underlying registry.
    pub fn registry(&self) -> (r: std::sync::Arc<PluginRegistry>)
        ensures
            r.keys() == self.keys(),
    {
        std::sync::Arc::clone(&self.registry)
    }

    /// List summaries for all registered plugins.
    pub fn summaries(&self) -> (r: Vec<PluginSummary>)
        ensures
            r@.len() == self.keys().len(),
    {
        self.registry.summaries()
    }

    /// Fetch capabilities for a plugin, if registered.
    pub fn capabilities(&self, plugin_id: &str) -> (r: Option<PluginCapabilities>)
        ensures
            r is Some <==> self.knows(plugin_id@),
    {
        self.registry.capabilities(plugin_id)
    }

    /// Enumerate threads for the specified plugin. Fails with
    /// `PluginNotRegistered` exactly when the identifier is unknown; a
    /// registered plugin's own failure is wrapped with its identifier.
    pub fn list_threads(&self, plugin_id: &str) -> (r: crate::Result<Vec<ThreadRef>>)
        ensures
            match r {
                Ok(_) => self.knows(plugin_id@),
                Err(e) => if self.knows(plugin_id@) {
                    e matches Error::Plugin { plugin, .. } && plugin@ == plugin_id@
                } else {
                    e matches Error::PluginNotRegistered { plugin } && plugin@ == plugin_id@
                },
            },
    {
        let plugin = match self.registry.get(plugin_id) {
            Some(p) => p,
            None => {
                return Err(Error::PluginNotRegistered { plugin: plugin_id.to_owned() });
            },
        };
        match plugin.list_threads() {
            Ok(threads) => Ok(threads),
            Err(source) => Err(Error::Plugin { plugin: plugin_id.to_owned(), source }),
        }
    }

    /// Attach to a plugin thread and return the session handle.
    pub fn attach(&self, plugin_id: &str, thread_id: Option<&str>) -> (r: crate::Result<
        PluginSession,
    >)
        ensures
            match r {
                Ok(_) => self.knows(plugin_id@),
                Err(e) => if self.knows(plugin_id@) {
                    e matches Error::Plugin { plugin, .. } && plugin@ == plugin_id@
                } else {
                    e matches Error::PluginNotRegistered { plugin } && plugin@ == plugin_id@
                },
            },
    {
        let plugin = match self.registry.get(plugin_id) {
            Some(p) => p,
            None => {
                return Err(Error::PluginNotRegistered { plugin: plugin_id.to_owned() });
            },
        };
        match plugin.attach(thread_id) {
            Ok(session) => Ok(session),
            Err(source) => Err(Error::Plugin { plugin: plugin_id.to_owned(), source }),
        }
    }

    /// Submit the review payload through the plugin of the session.
    pub fn post_review(&self, session: &PluginSession, payload: ReviewPayload) -> (r:
        crate::Result<SubmissionResult>)
        ensures
            match r {
                Ok(_) => self.knows(session.plugin_id@),
                Err(e) => if self.knows(session.plugin_id@) {
                    e matches Error::Plugin { plugin, .. } && plugin@ == session.plugin_id@
                } else {
                    e matches Error::PluginNotRegistered { plugin } && plugin@
                        == session.plugin_id@
                },
            },
    {
        let plugin = match self.registry.get(session.plugin_id.as_str()) {
            Some(p) => p,
            None => {
                return Err(Error::PluginNotRegistered { plugin: session.plugin_id.clone() });
            },
        };
        match plugin.post_review(session, payload) {
            Ok(result) => Ok(result),
            Err(source) => Err(Error::Plugin { plugin: session.plugin_id.clone(), source }),
        }
    }

    /// Poll for revision progress for the existing session.
    pub fn poll_revision(&self, session: &PluginSession) -> (r: crate::Result<RevisionProgress>)
        ensures
            match r {
                Ok(_) => self.knows(session.plugin_id@),
                Err(e) => if self.knows(session.plugin_id@) {
                    e matches Error::Plugin { plugin, .. } && plugin@ == session.plugin_id@
                } else {
                    e matches Error::PluginNotRegistered { plugin } && plugin@
                        == session.plugin_id@
                },
            },
    {
        let plugin = match self.registry.get(session.plugin_id.as_str()) {
            Some(p) => p,
            None => {
                return Err(Error::PluginNotRegistered { plugin: session.plugin_id.clone() });
            },
        };
        match plugin.poll_revision(session) {
            Ok(progress) => Ok(progress),
            Err(source) => Err(Error::Plugin { plugin: session.plugin_id.clone(), source }),
        }
    }
}

} // verus!
