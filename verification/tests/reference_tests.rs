use xact::ast::ReferenceKind;
use xact::reference::{ReferenceContext, ResolvedObject};

#[test]
fn unresolved_reference_is_none() {
    let ctx = ReferenceContext::new();
    assert_eq!(ctx.resolve(ReferenceKind::That), None);
}

#[test]
fn resolves_after_recording() {
    let mut ctx = ReferenceContext::new();
    ctx.record(ResolvedObject::Path("~/project/README.md".into()));
    assert_eq!(ctx.resolve(ReferenceKind::That), Some(&ResolvedObject::Path("~/project/README.md".into())));
}

#[test]
fn this_and_that_resolve_to_the_latest_record() {
    let mut ctx = ReferenceContext::new();
    ctx.record(ResolvedObject::Path("a".into()));
    ctx.record(ResolvedObject::Text("b".into()));
    assert_eq!(ctx.resolve(ReferenceKind::This), Some(&ResolvedObject::Text("b".into())));
    assert_eq!(ctx.resolve(ReferenceKind::That), Some(&ResolvedObject::Text("b".into())));
}
