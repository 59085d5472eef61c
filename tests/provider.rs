use miden_assembly::{
    Export, Ident, Import, InvocationTarget, Library, LibraryError, LibraryPath, Module,
    ModuleProvider, Procedure, ProcedureAlias, ProcedureId, ProcedureName, QualifiedProcedureName,
    ResolvedProcedure, SourceSpan, Visibility, parse_target,
};

struct TestLibrary {
    namespace: Ident,
    modules: Vec<Module>,
}

impl Library for TestLibrary {
    fn root_ns(&self) -> &Ident {
        &self.namespace
    }

    fn modules(&self) -> Vec<Module> {
        self.modules.clone()
    }
}

fn path(text: &str) -> LibraryPath {
    LibraryPath::new(text).unwrap()
}

fn name(text: &str) -> ProcedureName {
    ProcedureName::new(text).unwrap()
}

fn proc_export(text: &str, visibility: Visibility) -> Export {
    Export::Procedure(Procedure::new(SourceSpan::unknown(), visibility, name(text), 0, vec![]))
}

fn id_of(module: &str, procedure: &str) -> ProcedureId {
    ProcedureId::new(&QualifiedProcedureName::new(path(module), name(procedure)))
}

fn math_module() -> Module {
    let add = Export::Alias(ProcedureAlias::new(
        name("add"),
        QualifiedProcedureName::new(path("std::math::u64"), name("checked_add")),
    ));
    Module::new(
        path("std::math::u64"),
        vec![proc_export("checked_add", Visibility::Public), add],
        vec![],
    )
}

fn blake3_module() -> Module {
    Module::new(
        path("std::crypto::hashes::blake3"),
        vec![proc_export("hash", Visibility::Public), proc_export("round", Visibility::Private)],
        vec![],
    )
}

#[test]
fn procedure_id_is_deterministic() {
    let a = id_of("std::math::u64", "checked_add");
    let b = ProcedureId::from_parts(&path("std::math::u64"), &name("checked_add"));
    let c = ProcedureId::new(&QualifiedProcedureName::new(
        path("std::math::u64"),
        ProcedureName::new_with_span(SourceSpan::new(4, 9), "checked_add").unwrap(),
    ));
    assert_eq!(a, b);
    assert_eq!(a, c);
    assert_ne!(a, id_of("std::math::u64", "add"));
    assert_ne!(a, id_of("std::math", "checked_add"));
}

#[test]
fn procedure_id_is_blake3_of_the_qualified_name() {
    let q = QualifiedProcedureName::new(path("std::math::u64"), name("checked_add"));
    assert_eq!(q.to_bytes(), b"std::math::u64::checked_add".to_vec());
    let expected: [u8; 20] =
        miden_core::crypto::hash::Blake3_160::hash(b"std::math::u64::checked_add").into();
    assert_eq!(ProcedureId::new(&q).as_bytes(), expected);
}

#[test]
fn duplicate_module_path_is_rejected() {
    let mut provider = ModuleProvider::new();
    assert_eq!(provider.add_module(math_module()), Ok(()));
    let id = id_of("std::math::u64", "checked_add");
    let before = provider.lookup(&id);
    let other = Module::new(path("std::math::u64"), vec![proc_export("other", Visibility::Public)], vec![]);
    assert_eq!(provider.add_module(other), Err(LibraryError::DuplicateModulePath(path("std::math::u64"))));
    assert_eq!(provider.num_modules(), 1);
    assert_eq!(provider.lookup(&id), before);
    assert_eq!(provider.get_module(&id_of("std::math::u64", "other")), None);
}

#[test]
fn library_in_namespace_is_indexed() {
    let library = TestLibrary {
        namespace: Ident::new("std").unwrap(),
        modules: vec![math_module(), blake3_module()],
    };
    let mut provider = ModuleProvider::new();
    assert_eq!(provider.add_library(&library), Ok(()));
    assert_eq!(provider.num_modules(), 2);
    for (module, procedure) in [
        ("std::math::u64", "checked_add"),
        ("std::math::u64", "add"),
        ("std::crypto::hashes::blake3", "hash"),
        ("std::crypto::hashes::blake3", "round"),
    ] {
        let found = provider.get_module(&id_of(module, procedure)).unwrap();
        assert!(found.path().same(&path(module)));
    }
}

#[test]
fn library_with_module_outside_namespace_adds_nothing() {
    let stray = Module::new(path("core::mem"), vec![proc_export("load", Visibility::Public)], vec![]);
    let library = TestLibrary {
        namespace: Ident::new("std").unwrap(),
        modules: vec![math_module(), stray, blake3_module()],
    };
    let mut provider = ModuleProvider::new();
    assert_eq!(provider.add_library(&library), Err(LibraryError::NamespaceMismatch(path("core::mem"))));
    assert_eq!(provider.num_modules(), 0);
    assert_eq!(provider.get_module(&id_of("std::math::u64", "checked_add")), None);
}

#[test]
fn library_with_duplicate_keeps_earlier_modules() {
    let mut provider = ModuleProvider::new();
    provider.add_module(blake3_module()).unwrap();
    let library = TestLibrary {
        namespace: Ident::new("std").unwrap(),
        modules: vec![math_module(), blake3_module()],
    };
    assert_eq!(
        provider.add_library(&library),
        Err(LibraryError::DuplicateModulePath(path("std::crypto::hashes::blake3")))
    );
    assert_eq!(provider.num_modules(), 2);
    assert!(provider.get_module(&id_of("std::math::u64", "add")).is_some());
}

#[test]
fn get_module_of_unknown_id_is_none() {
    let provider = ModuleProvider::new();
    assert_eq!(provider.get_module(&id_of("std::math::u64", "checked_add")), None);
    let mut provider = ModuleProvider::new();
    provider.add_module(math_module()).unwrap();
    assert_eq!(provider.get_module(&id_of("std::math::u64", "checked_sub")), None);
    assert_eq!(provider.get_module(&ProcedureId::from_bytes([0; 20])), None);
}

#[test]
fn reexport_and_definition_resolve_to_the_same_module() {
    let library = TestLibrary { namespace: Ident::new("std").unwrap(), modules: vec![math_module()] };
    let mut provider = ModuleProvider::new();
    provider.add_library(&library).unwrap();
    let a = provider.get_module(&id_of("std::math::u64", "checked_add")).unwrap();
    let b = provider.get_module(&id_of("std::math::u64", "add")).unwrap();
    assert_eq!(a, b);
    assert!(a.path().same(&path("std::math::u64")));
    assert_eq!(provider.lookup(&id_of("std::math::u64", "add")), Some(0));
}

#[test]
fn imported_call_resolves_through_alias() {
    let mut provider = ModuleProvider::new();
    provider.add_module(blake3_module()).unwrap();
    provider.add_module(math_module()).unwrap();
    let imports = vec![Import::new(Ident::new("crypto").unwrap(), path("std::crypto::hashes::blake3"))];
    let span = SourceSpan::new(10, 22);
    let target = parse_target("crypto::hash", span, &imports).unwrap();
    assert_eq!(
        target,
        InvocationTarget::ProcedurePath {
            name: ProcedureName::new_with_span(span, "hash").unwrap(),
            module: Ident::new("crypto").unwrap(),
        }
    );
    let caller = Module::new(path("app::main"), vec![proc_export("run", Visibility::Public)], imports);
    let resolved = provider.resolve(&caller, &target).unwrap();
    assert_eq!(resolved, ResolvedProcedure::External(0));
    assert!(provider.module_at(0).path().same(&path("std::crypto::hashes::blake3")));
}

#[test]
fn root_literal_is_accepted_without_lookup() {
    let text = format!("0xdead{}beef", "0".repeat(56));
    let target = parse_target(&text, SourceSpan::new(0, 66), &[]).unwrap();
    match &target {
        InvocationTarget::MastRoot(root) => {
            assert_eq!(root.inner.elements(), [0xadde, 0, 0, 0xefbe_0000_0000_0000]);
            assert_eq!(root.span, SourceSpan::new(0, 66));
        },
        other => panic!("not a root: {:?}", other),
    }
    let provider = ModuleProvider::new();
    let caller = Module::new(path("app"), vec![], vec![]);
    match provider.resolve(&caller, &target) {
        Some(ResolvedProcedure::Root(d)) => assert_eq!(d.elements()[3], 0xefbe_0000_0000_0000),
        other => panic!("not resolved by root: {:?}", other),
    }
}

#[test]
fn root_literal_shapes() {
    let upper = format!("0xDEAD{}BEEF", "0".repeat(56));
    assert!(matches!(parse_target(&upper, SourceSpan::unknown(), &[]), Some(InvocationTarget::MastRoot(_))));
    // wrong width: a name cannot start with a digit, so nothing is named
    assert_eq!(parse_target("0xdead", SourceSpan::unknown(), &[]), None);
    // an element at or above the field's order is no digest
    let too_big = format!("0x{}", "f".repeat(64));
    assert_eq!(parse_target(&too_big, SourceSpan::unknown(), &[]), None);
    let bad_digit = format!("0x{}g", "0".repeat(63));
    assert_eq!(parse_target(&bad_digit, SourceSpan::unknown(), &[]), None);
}

#[test]
fn target_text_forms() {
    let imports = vec![Import::new(Ident::new("u64").unwrap(), path("std::math::u64"))];
    let span = SourceSpan::unknown();
    assert_eq!(
        parse_target("foo", span, &imports),
        Some(InvocationTarget::ProcedureName(name("foo")))
    );
    assert_eq!(
        parse_target("u64::checked_add", span, &imports),
        Some(InvocationTarget::ProcedurePath { name: name("checked_add"), module: Ident::new("u64").unwrap() })
    );
    assert_eq!(
        parse_target("other::f", span, &imports),
        Some(InvocationTarget::AbsoluteProcedurePath { name: name("f"), path: path("other") })
    );
    assert_eq!(
        parse_target("std::math::u64::checked_add", span, &imports),
        Some(InvocationTarget::AbsoluteProcedurePath { name: name("checked_add"), path: path("std::math::u64") })
    );
    assert_eq!(parse_target("a::", span, &imports), None);
    assert_eq!(parse_target("a:b", span, &imports), None);
    assert_eq!(parse_target("", span, &imports), None);
}

#[test]
fn local_and_unresolved_calls() {
    let mut provider = ModuleProvider::new();
    provider.add_module(math_module()).unwrap();
    let caller = Module::new(
        path("app"),
        vec![proc_export("helper", Visibility::Private), proc_export("run", Visibility::Public)],
        vec![],
    );
    let local = parse_target("run", SourceSpan::unknown(), &[]).unwrap();
    assert_eq!(provider.resolve(&caller, &local), Some(ResolvedProcedure::Local(1)));
    let missing = parse_target("nothing", SourceSpan::unknown(), &[]).unwrap();
    assert_eq!(provider.resolve(&caller, &missing), None);
    let absolute = parse_target("std::math::u64::add", SourceSpan::unknown(), &[]).unwrap();
    assert_eq!(provider.resolve(&caller, &absolute), Some(ResolvedProcedure::External(0)));
    let unknown_alias = InvocationTarget::ProcedurePath { name: name("add"), module: Ident::new("u64").unwrap() };
    assert_eq!(provider.resolve(&caller, &unknown_alias), None);
}

#[test]
fn unresolved_calls_are_all_reported_in_order() {
    let mut provider = ModuleProvider::new();
    provider.add_module(math_module()).unwrap();
    let imports = vec![Import::new(Ident::new("u64").unwrap(), path("std::math::u64"))];
    let call = |text: &str| {
        miden_assembly::Invoke::new(
            miden_assembly::InvokeKind::Exec,
            parse_target(text, SourceSpan::unknown(), &imports).unwrap(),
        )
    };
    let first = Procedure::new(
        SourceSpan::unknown(),
        Visibility::Public,
        name("first"),
        0,
        vec![call("u64::add"), call("missing"), call("u64::nope")],
    );
    let second = Procedure::new(
        SourceSpan::unknown(),
        Visibility::Public,
        name("second"),
        0,
        vec![call("first"), call("other::thing")],
    );
    let caller = Module::new(
        path("app"),
        vec![Export::Procedure(first), Export::Procedure(second)],
        imports.clone(),
    );
    assert_eq!(provider.unresolved_calls(&caller), vec![(0, 1), (0, 2), (1, 1)]);
    let clean = Module::new(path("app"), vec![proc_export("idle", Visibility::Public)], vec![]);
    assert!(provider.unresolved_calls(&clean).is_empty());
}

fn alias_export(local: &str, module: &str, target: &str) -> Export {
    Export::Alias(ProcedureAlias::new(
        name(local),
        QualifiedProcedureName::new(path(module), name(target)),
    ))
}

#[test]
fn reexport_chains_are_followed_to_the_definition() {
    let mut provider = ModuleProvider::new();
    provider.add_module(math_module()).unwrap();
    let wrapper = Module::new(
        path("std::prelude"),
        vec![alias_export("plus", "std::math::u64", "add")],
        vec![],
    );
    provider.add_module(wrapper).unwrap();
    // plus -> std::math::u64::add -> std::math::u64::checked_add
    assert_eq!(provider.definition_of(1, 0, 4), Some((0, 0)));
    assert_eq!(provider.definition_of(1, 0, 1), None);
    assert_eq!(provider.definition_of(0, 0, 0), Some((0, 0)));
    assert_eq!(provider.definition_of(5, 0, 4), None);
}

#[test]
fn alias_cycles_end_without_a_definition() {
    let mut provider = ModuleProvider::new();
    provider
        .add_module(Module::new(path("a"), vec![alias_export("f", "b", "g")], vec![]))
        .unwrap();
    provider
        .add_module(Module::new(path("b"), vec![alias_export("g", "a", "f")], vec![]))
        .unwrap();
    assert_eq!(provider.definition_of(0, 0, 100), None);
    let dangling = Module::new(path("c"), vec![alias_export("h", "nowhere", "x")], vec![]);
    provider.add_module(dangling).unwrap();
    assert_eq!(provider.definition_of(2, 0, 100), None);
}

#[test]
fn targets_order_by_variant_then_payload() {
    let mut set = std::collections::BTreeSet::new();
    set.insert(InvocationTarget::AbsoluteProcedurePath { name: name("f"), path: path("a") });
    set.insert(InvocationTarget::ProcedureName(name("b")));
    set.insert(InvocationTarget::ProcedureName(name("a")));
    set.insert(InvocationTarget::ProcedureName(name("a")));
    set.insert(InvocationTarget::ProcedurePath { name: name("f"), module: Ident::new("m").unwrap() });
    let order: Vec<InvocationTarget> = set.into_iter().collect();
    assert_eq!(order.len(), 4);
    assert_eq!(order[0], InvocationTarget::ProcedureName(name("a")));
    assert_eq!(order[1], InvocationTarget::ProcedureName(name("b")));
    assert!(matches!(order[2], InvocationTarget::ProcedurePath { .. }));
    assert!(matches!(order[3], InvocationTarget::AbsoluteProcedurePath { .. }));
}
