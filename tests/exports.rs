use miden_assembly::{
    Export, InvocationTarget, Invoke, InvokeKind, LibraryPath, Procedure, ProcedureAlias,
    ProcedureName, QualifiedProcedureName, SourceSpan, Span, Visibility,
};

fn procedure(name: &str, visibility: Visibility, locals: u16, calls: Vec<Invoke>) -> Procedure {
    Procedure::new(SourceSpan::new(1, 2), visibility, ProcedureName::new(name).unwrap(), locals, calls)
}

fn alias(name: &str) -> ProcedureAlias {
    ProcedureAlias::new(
        ProcedureName::new_with_span(SourceSpan::new(7, 9), name).unwrap(),
        QualifiedProcedureName::new(
            LibraryPath::new("std::math::u64").unwrap(),
            ProcedureName::new("checked_add").unwrap(),
        ),
    )
}

#[test]
fn procedure_export_delegates_to_procedure() {
    let call = Invoke::new(
        InvokeKind::Exec,
        InvocationTarget::ProcedureName(ProcedureName::new("helper").unwrap()),
    );
    let e = Export::Procedure(procedure("work", Visibility::Private, 5, vec![call.clone()]));
    assert_eq!(e.name().as_str(), "work");
    assert_eq!(e.visibility(), Visibility::Private);
    assert_eq!(e.num_locals(), 5);
    assert_eq!(e.invoked(), &[call][..]);
    assert_eq!(e.docs(), None);
    assert_eq!(e.tag(), 0);
    assert_eq!(e.span(), SourceSpan::new(1, 2));
    assert!(!e.is_main());
    assert_eq!(e.unwrap_procedure().name().as_str(), "work");
}

#[test]
fn alias_export_has_alias_defaults() {
    let e = Export::Alias(alias("add"));
    assert_eq!(e.name().as_str(), "add");
    assert_eq!(e.visibility(), Visibility::Public);
    assert_eq!(e.num_locals(), 0);
    assert!(e.invoked().is_empty());
    assert_eq!(e.tag(), 1);
    assert_eq!(e.span(), SourceSpan::new(7, 9));
}

#[test]
fn with_docs_sets_docs_on_both_variants() {
    let docs = Some(Span { span: SourceSpan::new(0, 4), inner: String::from("adds") });
    let p = Export::Procedure(procedure("work", Visibility::Public, 0, vec![])).with_docs(docs.clone());
    assert_eq!(p.docs(), Some("adds"));
    let a = Export::Alias(alias("add")).with_docs(docs);
    assert_eq!(a.docs(), Some("adds"));
    let cleared = a.with_docs(None);
    assert_eq!(cleared.docs(), None);
}

#[test]
fn main_entrypoint_is_recognised() {
    let e = Export::Procedure(procedure("#main", Visibility::Public, 0, vec![]));
    assert!(e.is_main());
    assert!(ProcedureName::new("#main").unwrap().is_main());
    assert!(!ProcedureName::new("main").unwrap().is_main());
}

#[test]
fn name_grammar() {
    assert!(ProcedureName::new("checked_add").is_some());
    assert!(ProcedureName::new("_x9").is_some());
    assert!(ProcedureName::new("9x").is_none());
    assert!(ProcedureName::new("").is_none());
    assert!(ProcedureName::new("a-b").is_none());
    assert!(ProcedureName::new("#mai").is_none());
    let long = "a".repeat(255);
    assert!(ProcedureName::new(&long).is_some());
    let too_long = "a".repeat(256);
    assert!(ProcedureName::new(&too_long).is_none());
}

#[test]
fn library_path_parsing() {
    let p = LibraryPath::new("std::crypto::hashes").unwrap();
    assert_eq!(p.len(), 3);
    assert_eq!(p.segment(0).as_str(), "std");
    assert_eq!(p.segment(2).as_str(), "hashes");
    assert!(LibraryPath::new("std").is_some());
    assert!(LibraryPath::new("std::::x").is_none());
    assert!(LibraryPath::new("std:x").is_none());
    assert!(LibraryPath::new("").is_none());
    assert!(LibraryPath::new("std::").is_none());
    assert!(p.same(&LibraryPath::new("std::crypto::hashes").unwrap()));
    assert!(!p.same(&LibraryPath::new("std::crypto").unwrap()));
}
