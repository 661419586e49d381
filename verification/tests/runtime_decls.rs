use lib::codegen::llvm::runtime_decls::runtime_declarations;
use std::collections::HashSet;

#[test]
fn runtime_runtime_declarations_are_unique_and_cover_core_abi_surface() {
    let decls = runtime_declarations();
    let names = decls.iter().map(|(name, _)| *name).collect::<Vec<_>>();
    let unique = names.iter().copied().collect::<HashSet<_>>();
    assert_eq!(names.len(), unique.len(), "duplicate runtime decl names");
    assert!(names.contains(&"skp_rt_call_builtin"));
    assert!(names.contains(&"skp_rt_call_function"));
    assert!(names.contains(&"skp_rt_value_free"));
    assert!(names.contains(&"skp_rt_abort_if_error"));
}

#[test]
fn runtime_decls_runtime_declarations_are_unique_and_cover_core_abi_surface() {
    let decls = runtime_declarations();
    let names = decls.iter().map(|(name, _)| *name).collect::<Vec<_>>();
    let unique = names.iter().copied().collect::<HashSet<_>>();
    assert_eq!(names.len(), unique.len(), "duplicate runtime decl names");
    assert!(names.contains(&"skp_rt_call_builtin"));
    assert!(names.contains(&"skp_rt_call_function"));
    assert!(names.contains(&"skp_rt_value_free"));
    assert!(names.contains(&"skp_rt_abort_if_error"));
}

#[test]
fn each_runtime_declaration_declares_its_entry_point() {
    let decls = runtime_declarations();
    assert_eq!(decls.len(), 40);
    for (name, decl) in &decls {
        assert!(decl.starts_with("declare "));
        assert!(decl.contains(&format!("@{}(", name)));
    }
    assert_eq!(decls[0], ("skp_rt_string_from_utf8", "declare ptr @skp_rt_string_from_utf8(ptr, i64)"));
    assert_eq!(decls[39], ("skp_rt_struct_set", "declare void @skp_rt_struct_set(ptr, i64, ptr)"));
}
