use workflow_dom::coordinator::{Coordinator, RequestKind};
use workflow_dom::engine::{InjectSignal, LoadStart, NextJob};
use workflow_dom::error::Error;
use workflow_dom::loader::{Context, Module, ModuleStatus, Reference};

fn module(id: u32, ident: &str, content: &str, refs: Vec<(Reference, Option<String>, u32)>) -> Module {
    Module::new(id, ident.to_string(), content.to_string(), refs)
}

fn finish(ctx: &mut Context, id: u32, url: &str) {
    ctx.materialized(id, url.to_string());
    let r = ctx.injection_completed(id, InjectSignal::Completed);
    assert_eq!(r, Ok(ModuleStatus::Loaded));
}

#[test]
fn export_statement_follows_static_content() {
    let a = module(1, "a", "const me = 1;\n", vec![(Reference::Export, Some("X".to_string()), 2)]);
    let b = module(2, "b", "export const X = 2;\n", vec![]);
    let mut ctx = Context::new(vec![a, b]);
    assert_eq!(ctx.load_module(1), LoadStart::New);
    match ctx.next_job(1) {
        NextJob::Inject(id, _) => assert_eq!(id, 2),
        other => panic!("expected the export source's injection, got {:?}", other),
    }
    finish(&mut ctx, 2, "blob:b");
    match ctx.next_job(1) {
        NextJob::Inject(id, text) => {
            assert_eq!(id, 1);
            assert_eq!(text, "const me = 1;\nexport X from \"blob:b\";\n");
        }
        other => panic!("expected the requester's injection, got {:?}", other),
    }
}

#[test]
fn import_statements_join_with_a_line_feed() {
    let a = module(
        1,
        "a",
        "A",
        vec![
            (Reference::Module, Some("{ x }".to_string()), 2),
            (Reference::Module, None, 3),
        ],
    );
    let b = module(2, "b", "B", vec![]);
    let c = module(3, "c", "C", vec![]);
    let mut ctx = Context::new(vec![a, b, c]);
    assert_eq!(ctx.load_module(1), LoadStart::New);
    match ctx.next_job(1) {
        NextJob::Inject(id, _) => assert_eq!(id, 2),
        other => panic!("expected b's injection, got {:?}", other),
    }
    finish(&mut ctx, 2, "u2");
    match ctx.next_job(1) {
        NextJob::Inject(id, _) => assert_eq!(id, 3),
        other => panic!("expected c's injection, got {:?}", other),
    }
    finish(&mut ctx, 3, "u3");
    match ctx.next_job(1) {
        NextJob::Inject(id, text) => {
            assert_eq!(id, 1);
            assert_eq!(text, "import { x } from \"u2\";\n\nimport \"u3\";\nA");
        }
        other => panic!("expected a's injection, got {:?}", other),
    }
}

#[test]
fn style_and_script_references_emit_nothing() {
    let a = module(
        1,
        "a",
        "only me",
        vec![
            (Reference::Style, Some("s".to_string()), 2),
            (Reference::Script, Some("sc".to_string()), 3),
        ],
    );
    let b = module(2, "style", "ignored", vec![]);
    let c = module(3, "script", "ignored", vec![]);
    let mut ctx = Context::new(vec![a, b, c]);
    assert_eq!(ctx.load_module(1), LoadStart::New);
    // The script-kind target is still loaded as a dependency first.
    match ctx.next_job(1) {
        NextJob::Inject(id, _) => assert_eq!(id, 3),
        other => panic!("expected the script target's injection, got {:?}", other),
    }
    finish(&mut ctx, 3, "u3");
    match ctx.next_job(1) {
        NextJob::Inject(id, text) => {
            assert_eq!(id, 1);
            assert_eq!(text, "only me");
        }
        other => panic!("expected a's injection, got {:?}", other),
    }
}

#[test]
fn composition_requires_materialized_export_targets() {
    let a = module(1, "a", "A", vec![(Reference::Export, Some("X".to_string()), 2)]);
    let b = module(2, "b", "B", vec![]);
    let ctx = Context::new(vec![a, b]);
    let m = ctx.get(1).unwrap();
    assert_eq!(m.content(&ctx), Err(Error::DependencyNotLoaded(2)));
}

#[test]
fn fresh_modules_report_no_url_and_not_loaded() {
    let a = module(1, "a", "A", vec![]);
    assert_eq!(a.url(), None);
    assert!(!a.is_loaded());
}

#[test]
fn coordinator_collapses_and_releases() {
    let mut c = Coordinator::new();
    assert_eq!(c.enqueue(7), RequestKind::New);
    assert_eq!(c.enqueue(7), RequestKind::Pending);
    assert_eq!(c.enqueue(8), RequestKind::New);
    assert!(c.is_inflight(7));
    c.complete(7);
    assert!(!c.is_inflight(7));
    assert!(c.is_inflight(8));
    // A fresh request after completion may start a new attempt.
    assert_eq!(c.enqueue(7), RequestKind::New);
}
