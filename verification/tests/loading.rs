use workflow_dom::engine::{InjectSignal, LoadStart, NextJob};
use workflow_dom::error::Error;
use workflow_dom::loader::{Context, Module, ModuleStatus, Reference};

fn module(id: u32, ident: &str, content: &str, refs: Vec<(Reference, Option<String>, u32)>) -> Module {
    Module::new(id, ident.to_string(), content.to_string(), refs)
}

/// Drive one module's injection to completion with a fabricated URL.
fn finish(ctx: &mut Context, id: u32, url: &str) {
    ctx.materialized(id, url.to_string());
    let r = ctx.injection_completed(id, InjectSignal::Completed);
    assert_eq!(r, Ok(ModuleStatus::Loaded));
}

#[test]
fn module_reference_loads_dependency_first() {
    let a = module(1, "a", "console.log('a');\n", vec![(Reference::Module, None, 2)]);
    let b = module(2, "b", "console.log('b');\n", vec![]);
    let mut ctx = Context::new(vec![a, b]);
    assert_eq!(ctx.load_module(1), LoadStart::New);
    match ctx.next_job(1) {
        NextJob::Inject(id, text) => {
            assert_eq!(id, 2);
            assert_eq!(text, "console.log('b');\n");
        }
        other => panic!("expected the dependency's injection, got {:?}", other),
    }
    finish(&mut ctx, 2, "blob:b");
    match ctx.next_job(1) {
        NextJob::Inject(id, text) => {
            assert_eq!(id, 1);
            assert_eq!(text, "import \"blob:b\";\nconsole.log('a');\n");
        }
        other => panic!("expected the requester's injection, got {:?}", other),
    }
    finish(&mut ctx, 1, "blob:a");
    assert!(ctx.get(1).unwrap().is_loaded());
    assert!(ctx.get(2).unwrap().is_loaded());
    assert_eq!(ctx.get(1).unwrap().url(), Some("blob:a".to_string()));
    assert_eq!(ctx.get(2).unwrap().url(), Some("blob:b".to_string()));
}

#[test]
fn reload_after_loaded_returns_exists() {
    let a = module(1, "a", "x", vec![]);
    let mut ctx = Context::new(vec![a]);
    assert_eq!(ctx.load_module(1), LoadStart::New);
    match ctx.next_job(1) {
        NextJob::Inject(id, text) => {
            assert_eq!(id, 1);
            assert_eq!(text, "x");
        }
        other => panic!("expected an injection, got {:?}", other),
    }
    finish(&mut ctx, 1, "blob:a");
    assert_eq!(ctx.load_module(1), LoadStart::Exists);
    assert_eq!(Module::load(&mut ctx, 1), LoadStart::Exists);
    match ctx.next_job(1) {
        NextJob::Settled(st) => assert_eq!(st, ModuleStatus::Exists),
        other => panic!("expected a settled answer, got {:?}", other),
    }
}

#[test]
fn concurrent_requests_collapse_into_one_flight() {
    let a = module(1, "a", "x", vec![]);
    let mut ctx = Context::new(vec![a]);
    assert_eq!(Module::load(&mut ctx, 1), LoadStart::New);
    assert_eq!(ctx.load_module(1), LoadStart::Pending);
    match ctx.next_job(1) {
        NextJob::Inject(id, _) => assert_eq!(id, 1),
        other => panic!("expected an injection, got {:?}", other),
    }
    // While the content is out for injection, nothing is handed out again.
    assert_eq!(ctx.load_module(1), LoadStart::Pending);
    match ctx.next_job(1) {
        NextJob::Wait(id) => assert_eq!(id, 1),
        other => panic!("expected to wait, got {:?}", other),
    }
    finish(&mut ctx, 1, "blob:a");
    assert_eq!(ctx.load_module(1), LoadStart::Exists);
}

#[test]
fn unresolved_export_target_fails_the_module() {
    let a = module(1, "a", "body", vec![(Reference::Export, Some("X".to_string()), 9)]);
    let mut ctx = Context::new(vec![a]);
    assert_eq!(ctx.load_module(1), LoadStart::New);
    match ctx.next_job(1) {
        NextJob::Failed(id, e) => {
            assert_eq!(id, 1);
            assert_eq!(e, Error::UnresolvedReference(9));
        }
        other => panic!("expected a failure, got {:?}", other),
    }
    assert!(!ctx.get(1).unwrap().is_loaded());
    match ctx.next_job(1) {
        NextJob::Settled(st) => assert_eq!(st, ModuleStatus::Error),
        other => panic!("expected a settled error, got {:?}", other),
    }
}

#[test]
fn unresolved_module_target_is_skipped() {
    let a = module(1, "a", "body;\n", vec![(Reference::Module, None, 9)]);
    let mut ctx = Context::new(vec![a]);
    assert_eq!(ctx.load_module(1), LoadStart::New);
    match ctx.next_job(1) {
        NextJob::Inject(id, text) => {
            assert_eq!(id, 1);
            assert_eq!(text, "body;\n");
        }
        other => panic!("expected an injection, got {:?}", other),
    }
    finish(&mut ctx, 1, "blob:a");
    assert!(ctx.get(1).unwrap().is_loaded());
}

#[test]
fn required_dependency_failure_propagates() {
    // b's own load fails; a re-exports from b, so a fails too, with the
    // distinct error for a registered but unmaterialized target.
    let a = module(1, "a", "A", vec![(Reference::Export, Some("X".to_string()), 2)]);
    let b = module(2, "b", "B", vec![(Reference::Export, Some("Y".to_string()), 9)]);
    let mut ctx = Context::new(vec![a, b]);
    assert_eq!(ctx.load_module(1), LoadStart::New);
    match ctx.next_job(1) {
        NextJob::Failed(id, e) => {
            assert_eq!(id, 2);
            assert_eq!(e, Error::UnresolvedReference(9));
        }
        other => panic!("expected the dependency's failure, got {:?}", other),
    }
    match ctx.next_job(1) {
        NextJob::Failed(id, e) => {
            assert_eq!(id, 1);
            assert_eq!(e, Error::DependencyNotLoaded(2));
        }
        other => panic!("expected the requester's failure, got {:?}", other),
    }
}

#[test]
fn failed_load_may_be_reattempted() {
    let a = module(1, "a", "A", vec![(Reference::Export, Some("X".to_string()), 9)]);
    let mut ctx = Context::new(vec![a]);
    assert_eq!(ctx.load_module(1), LoadStart::New);
    assert!(matches!(ctx.next_job(1), NextJob::Failed(1, _)));
    // The coordinator does not make failures permanent: a later, independent
    // request may start a fresh attempt.
    assert_eq!(ctx.load_module(1), LoadStart::New);
}

#[test]
fn injection_failure_is_fatal_and_typed() {
    let a = module(1, "a", "x", vec![]);
    let mut ctx = Context::new(vec![a]);
    assert_eq!(ctx.load_module(1), LoadStart::New);
    assert!(matches!(ctx.next_job(1), NextJob::Inject(1, _)));
    ctx.materialized(1, "blob:a".to_string());
    let r = ctx.injection_completed(1, InjectSignal::Failure);
    assert_eq!(r, Err(Error::InjectionFailure(1)));
    assert!(!ctx.get(1).unwrap().is_loaded());
    // The failed attempt's URL survives until a fresh attempt begins, which
    // clears it so the next materialization is again the attempt's only one.
    assert_eq!(ctx.get(1).unwrap().url(), Some("blob:a".to_string()));
    assert_eq!(ctx.load_module(1), LoadStart::New);
    assert_eq!(ctx.get(1).unwrap().url(), None);
}

#[test]
fn dropped_completion_channel_is_a_load_failure() {
    let a = module(1, "a", "x", vec![]);
    let mut ctx = Context::new(vec![a]);
    assert_eq!(ctx.load_module(1), LoadStart::New);
    assert!(matches!(ctx.next_job(1), NextJob::Inject(1, _)));
    let r = ctx.injection_completed(1, InjectSignal::Closed);
    assert_eq!(r, Err(Error::ChannelClosed(1)));
    assert!(!ctx.get(1).unwrap().is_loaded());
}

#[test]
fn declared_cycle_stalls_instead_of_spinning() {
    let a = module(1, "a", "A", vec![(Reference::Module, None, 2)]);
    let b = module(2, "b", "B", vec![(Reference::Module, None, 1)]);
    let mut ctx = Context::new(vec![a, b]);
    assert_eq!(ctx.load_module(1), LoadStart::New);
    assert!(matches!(ctx.next_job(1), NextJob::Stalled(_)));
}

#[test]
fn unknown_identifiers_are_answered_not_found() {
    let a = module(1, "a", "A", vec![]);
    let mut ctx = Context::new(vec![a]);
    assert_eq!(ctx.load_module(9), LoadStart::NotFound);
    assert!(matches!(ctx.next_job(9), NextJob::NotFound(9)));
}

#[test]
fn load_ids_keeps_registered_identifiers_only() {
    let a = module(1, "a", "A", vec![]);
    let b = module(2, "b", "B", vec![]);
    let ctx = Context::new(vec![a, b]);
    let todo = ctx.load_ids(&vec![7, 2, 1, 2, 8]);
    assert_eq!(todo, vec![2, 1, 2]);
}

#[test]
fn diamond_graph_injects_each_module_once_dependencies_first() {
    let a = module(
        1,
        "a",
        "A",
        vec![(Reference::Module, None, 2), (Reference::Module, None, 3)],
    );
    let b = module(2, "b", "B", vec![(Reference::Module, None, 4)]);
    let c = module(3, "c", "C", vec![(Reference::Module, None, 4)]);
    let d = module(4, "d", "D", vec![]);
    let mut ctx = Context::new(vec![a, b, c, d]);
    assert_eq!(ctx.load_module(1), LoadStart::New);
    let mut order: Vec<u32> = Vec::new();
    loop {
        match ctx.next_job(1) {
            NextJob::Inject(id, _text) => {
                order.push(id);
                let url = format!("blob:{}", id);
                finish(&mut ctx, id, &url);
                if id == 1 {
                    break;
                }
            }
            other => panic!("expected an injection, got {:?}", other),
        }
    }
    // Depth first, every module exactly once, the shared dependency first.
    assert_eq!(order, vec![4, 2, 3, 1]);
}

#[test]
fn concurrent_flights_share_a_dependency_without_reinjection() {
    let b = module(2, "b", "B", vec![(Reference::Module, None, 4)]);
    let c = module(3, "c", "C", vec![(Reference::Module, None, 4)]);
    let d = module(4, "d", "D", vec![]);
    let mut ctx = Context::new(vec![b, c, d]);
    assert_eq!(ctx.load_module(2), LoadStart::New);
    assert_eq!(ctx.load_module(3), LoadStart::New);
    match ctx.next_job(2) {
        NextJob::Inject(id, _) => assert_eq!(id, 4),
        other => panic!("expected the shared dependency's injection, got {:?}", other),
    }
    // The second flight must not hand the shared dependency out again.
    match ctx.next_job(3) {
        NextJob::Wait(id) => assert_eq!(id, 4),
        other => panic!("expected to wait on the shared dependency, got {:?}", other),
    }
    finish(&mut ctx, 4, "blob:d");
    match ctx.next_job(3) {
        NextJob::Inject(id, text) => {
            assert_eq!(id, 3);
            assert_eq!(text, "import \"blob:d\";\nC");
        }
        other => panic!("expected c's injection, got {:?}", other),
    }
    match ctx.next_job(2) {
        NextJob::Inject(id, text) => {
            assert_eq!(id, 2);
            assert_eq!(text, "import \"blob:d\";\nB");
        }
        other => panic!("expected b's injection, got {:?}", other),
    }
}
