use prism_core::plugins::{
    AgentPlugin, GitOnlyPlugin, PluginCapabilities, PluginError, PluginRegistry, PluginService,
    PluginSession, PluginResult, ReviewPayload, RevisionProgress, RevisionState, SubmissionResult,
    ThreadRef,
};
use prism_core::Error;

struct FakePlugin;

impl AgentPlugin for FakePlugin {
    fn id(&self) -> &'static str {
        "fake"
    }

    fn label(&self) -> &'static str {
        "Fake Plugin"
    }

    fn capabilities(&self) -> PluginCapabilities {
        PluginCapabilities::new(true, true, true)
    }

    fn list_threads(&self) -> PluginResult<Vec<ThreadRef>> {
        Ok(vec![ThreadRef::new("thread-1", Some("Sample Thread"))])
    }

    fn attach(&self, thread_id: Option<&str>) -> PluginResult<PluginSession> {
        Ok(PluginSession::new(
            self.id(),
            "session-1",
            thread_id.map(|id| ThreadRef::new(id, Some("Sample Thread"))),
        ))
    }

    fn post_review(
        &self,
        _session: &PluginSession,
        _payload: ReviewPayload,
    ) -> PluginResult<SubmissionResult> {
        Ok(SubmissionResult {
            revision_started: true,
            reference: Some("rev-1".into()),
            message: Some("Processing".into()),
        })
    }

    fn poll_revision(&self, _session: &PluginSession) -> PluginResult<RevisionProgress> {
        Ok(RevisionProgress {
            state: RevisionState::Completed,
            detail: Some("Done".into()),
        })
    }
}

struct FailingPlugin;

impl AgentPlugin for FailingPlugin {
    fn id(&self) -> &'static str {
        "failing"
    }

    fn label(&self) -> &'static str {
        "Failing Plugin"
    }

    fn capabilities(&self) -> PluginCapabilities {
        PluginCapabilities::new(true, false, false)
    }

    fn list_threads(&self) -> PluginResult<Vec<ThreadRef>> {
        Err(PluginError::message("backend is down"))
    }

    fn attach(&self, _thread_id: Option<&str>) -> PluginResult<PluginSession> {
        Err(PluginError::message("backend is down"))
    }

    fn post_review(
        &self,
        _session: &PluginSession,
        _payload: ReviewPayload,
    ) -> PluginResult<SubmissionResult> {
        Err(PluginError::message("backend is down"))
    }

    fn poll_revision(&self, _session: &PluginSession) -> PluginResult<RevisionProgress> {
        Err(PluginError::message("backend is down"))
    }
}

#[test]
fn plugin_service_round_trip() {
    let mut registry = PluginRegistry::new();
    registry.register(FakePlugin);

    let service = PluginService::new(registry);

    let summaries = service.summaries();
    assert_eq!(summaries.len(), 1);
    assert_eq!(summaries[0].id, "fake");

    let threads = service.list_threads("fake").expect("list threads");
    assert_eq!(threads.len(), 1);
    assert_eq!(threads[0].id, "thread-1");

    let session = service.attach("fake", Some("thread-1")).expect("attach");
    assert_eq!(session.plugin_id, "fake");
    assert!(session.thread.is_some());

    let payload = ReviewPayload {
        summary: Some("Looks good".into()),
        ..ReviewPayload::new()
    };
    let submission = service.post_review(&session, payload).expect("post review");
    assert!(submission.revision_started);
    assert_eq!(submission.reference.as_deref(), Some("rev-1"));

    let progress = service.poll_revision(&session).expect("poll revision");
    assert_eq!(progress.state, RevisionState::Completed);
}

#[test]
fn missing_plugin_is_reported() {
    let service = PluginService::new(PluginRegistry::new());
    let err = service.list_threads("missing").expect_err("missing plugin");
    match err {
        Error::PluginNotRegistered { plugin } => {
            assert_eq!(plugin, "missing");
        }
        other => panic!("expected PluginNotRegistered, got {:?}", other),
    }
}

#[test]
fn plugin_failure_is_wrapped_with_its_id() {
    let mut registry = PluginRegistry::new();
    registry.register(FailingPlugin);
    let service = PluginService::new(registry);

    let err = service.list_threads("failing").expect_err("plugin failure");
    match err {
        Error::Plugin { plugin, source } => {
            assert_eq!(plugin, "failing");
            assert!(matches!(source, PluginError::Failure { .. }));
        }
        other => panic!("expected Plugin error, got {:?}", other),
    }
}

#[test]
fn reregistering_replaces_the_entry() {
    let mut registry = PluginRegistry::new();
    registry.register(FakePlugin);
    registry.register(FakePlugin);

    let ids = registry.ids();
    assert_eq!(ids, vec!["fake"]);
    assert!(registry.get("fake").is_some());
    assert!(registry.get("other").is_none());
}

#[test]
fn git_only_plugin_flow() {
    let plugin = GitOnlyPlugin;
    assert_eq!(plugin.id(), "git-only");
    assert_eq!(plugin.label(), "Local Git");

    let caps = plugin.capabilities();
    assert!(!caps.supports_list_threads);
    assert!(caps.supports_attach_without_thread);
    assert!(!caps.supports_polling);

    assert!(plugin.list_threads().expect("threads").is_empty());

    let session = plugin.attach(Some("t-1")).expect("attach");
    assert_eq!(session.plugin_id, "git-only");
    assert_eq!(session.thread.expect("thread").id, "t-1");

    let submission = plugin
        .post_review(&plugin.attach(None).expect("attach"), ReviewPayload::new())
        .expect("post");
    assert!(!submission.revision_started);

    let progress = plugin
        .poll_revision(&plugin.attach(None).expect("attach"))
        .expect("poll");
    assert_eq!(progress.state, RevisionState::Completed);
}
