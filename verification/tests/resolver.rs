use std::path::PathBuf;

use lib::resolver::cycles::detect_cycles;
use lib::resolver::{
    choose_import_target, folder_module_entry, folder_module_entry_from_parts, join_texts, module_id_from_parts, module_id_from_path_parts, module_id_from_relative_path,
    ImportTarget, ModuleGraph, ModuleUnit, ResolveError, ResolveErrorKind,
};

fn unit(id: &str, imports: &[&str]) -> ModuleUnit {
    ModuleUnit {
        id: id.to_string(),
        path: PathBuf::from(format!("{}.sk", id.replace('.', "/"))),
        source: String::new(),
        imports: imports.iter().map(|s| s.to_string()).collect(),
    }
}

fn graph(units: Vec<ModuleUnit>) -> ModuleGraph {
    let mut g = ModuleGraph::new();
    for u in units {
        g.insert(u);
    }
    g
}

fn strings(parts: &[&str]) -> Vec<String> {
    parts.iter().map(|s| s.to_string()).collect()
}

#[test]
fn new_error_takes_the_code_of_its_kind() {
    let e = ResolveError::new(ResolveErrorKind::MissingModule, "gone".to_string(), None);
    assert_eq!(e.kind, ResolveErrorKind::MissingModule);
    assert_eq!(e.code, "E-MOD-NOT-FOUND");
    assert_eq!(e.message, "gone");
    assert_eq!(e.path, None);
    assert_eq!(e.line, None);
    assert_eq!(e.col, None);
    assert_eq!(ResolveError::new(ResolveErrorKind::Cycle, String::new(), None).code, "E-MOD-CYCLE");
    assert_eq!(ResolveError::new(ResolveErrorKind::AmbiguousModule, String::new(), None).code, "E-MOD-AMBIG");
    assert_eq!(ResolveError::new(ResolveErrorKind::Codegen, String::new(), None).code, "E-CODEGEN");
    assert_eq!(ResolveError::new(ResolveErrorKind::Io, String::new(), None).code, "E-MOD-IO");
    assert_eq!(ResolveError::new(ResolveErrorKind::NonUtf8Path, String::new(), None).code, "E-MOD-PATH");
    assert_eq!(ResolveError::new(ResolveErrorKind::DuplicateModuleId, String::new(), None).code, "E-MOD-DUPLICATE");
    assert_eq!(ResolveError::new(ResolveErrorKind::Parse, String::new(), None).code, "E-PARSE");
    assert_eq!(ResolveError::new(ResolveErrorKind::ImportConflict, String::new(), None).code, "E-IMPORT-CONFLICT");
    assert_eq!(ResolveError::new(ResolveErrorKind::NotExported, String::new(), None).code, "E-IMPORT-NOT-EXPORTED");
}

#[test]
fn with_code_and_with_line_col_change_only_their_fields() {
    let e = ResolveError::new(ResolveErrorKind::Parse, "bad".to_string(), Some(PathBuf::from("a.sk")))
        .with_code("E-OTHER")
        .with_line_col(3, 7);
    assert_eq!(e.kind, ResolveErrorKind::Parse);
    assert_eq!(e.code, "E-OTHER");
    assert_eq!(e.message, "bad");
    assert_eq!(e.path, Some(PathBuf::from("a.sk")));
    assert_eq!(e.line, Some(3));
    assert_eq!(e.col, Some(7));
}

#[test]
fn module_graph_insert_replaces_a_module_with_the_same_id() {
    let mut g = ModuleGraph::new();
    assert_eq!(g.len(), 0);
    assert!(g.insert(unit("a", &[])).is_none());
    assert!(g.insert(unit("b", &["a"])).is_none());
    assert_eq!(g.len(), 2);
    assert!(g.contains_key("a"));
    assert!(!g.contains_key("c"));
    let old = g.insert(unit("a", &["b"])).expect("a was there");
    assert!(old.imports.is_empty());
    assert_eq!(g.len(), 2);
    assert_eq!(g.get("a").map(|u| u.imports.clone()), Some(vec!["b".to_string()]));
    assert!(g.get("c").is_none());
    assert_eq!(g.modules()[0].id, "a");
    assert_eq!(g.modules()[1].id, "b");
    assert_eq!(ModuleGraph::default().len(), 0);
}

#[test]
fn acyclic_graph_has_no_cycle_errors() {
    let g = graph(vec![unit("main", &["util", "io"]), unit("util", &["base"]), unit("base", &[])]);
    assert!(detect_cycles(&g).is_empty());
}

#[test]
fn two_module_cycle_is_reported_once_with_its_chain() {
    let g = graph(vec![unit("b", &["a"]), unit("a", &["b"])]);
    let errors = detect_cycles(&g);
    assert_eq!(errors.len(), 1);
    assert_eq!(errors[0].kind, ResolveErrorKind::Cycle);
    assert_eq!(errors[0].code, "E-MOD-CYCLE");
    assert_eq!(errors[0].message, "Import cycle detected: a -> b -> a");
    assert_eq!(errors[0].path, None);
}

#[test]
fn self_import_is_a_cycle() {
    let g = graph(vec![unit("solo", &["solo"])]);
    let errors = detect_cycles(&g);
    assert_eq!(errors.len(), 1);
    assert_eq!(errors[0].message, "Import cycle detected: solo -> solo");
}

#[test]
fn cycle_chain_starts_where_the_walk_first_met_the_module() {
    let g = graph(vec![
        unit("m", &["x"]),
        unit("x", &["y"]),
        unit("y", &["z"]),
        unit("z", &["x"]),
    ]);
    let errors = detect_cycles(&g);
    assert_eq!(errors.len(), 1);
    assert_eq!(errors[0].message, "Import cycle detected: x -> y -> z -> x");
}

#[test]
fn chain_starts_at_the_repeated_module() {
    let g = graph(vec![unit("a", &["b"]), unit("b", &["c"]), unit("c", &["b"])]);
    let errors = detect_cycles(&g);
    assert_eq!(errors.len(), 1);
    assert_eq!(errors[0].kind, ResolveErrorKind::Cycle);
    assert_eq!(errors[0].code, "E-MOD-CYCLE");
    assert_eq!(errors[0].message, "Import cycle detected: b -> c -> b");
    assert_eq!(errors[0].path, None);
}

#[test]
fn every_import_back_onto_the_path_is_reported_in_walk_order() {
    let g = graph(vec![unit("a", &["b", "a"]), unit("b", &["a", "missing"])]);
    let errors = detect_cycles(&g);
    let messages: Vec<&str> = errors.iter().map(|e| e.message.as_str()).collect();
    assert_eq!(messages, vec!["Import cycle detected: a -> b -> a", "Import cycle detected: a -> a"]);
}

#[test]
fn join_texts_puts_the_separator_between_parts() {
    assert_eq!(join_texts(&strings(&[]), "."), "");
    assert_eq!(join_texts(&strings(&["a"]), "."), "a");
    assert_eq!(join_texts(&strings(&["a", "b", "c"]), " -> "), "a -> b -> c");
}

#[test]
fn module_ids_join_prefix_and_kept_components() {
    assert_eq!(module_id_from_parts(&strings(&["pkg"]), &strings(&["sub", "mod"])), Some("pkg.sub.mod".to_string()));
    assert_eq!(module_id_from_parts(&strings(&[]), &strings(&[".", "a", "", "b"])), Some("a.b".to_string()));
    assert_eq!(module_id_from_parts(&strings(&[]), &strings(&[".", ""])), None);
}

#[test]
fn import_target_follows_which_paths_exist() {
    let path = strings(&["utils", "math"]);
    let file = PathBuf::from("root/utils/math.sk");
    let folder = PathBuf::from("root/utils/math");
    let root = PathBuf::from("root");
    let r = choose_import_target(
        root.clone(), &path, file.clone(), "root/utils/math.sk", true, folder.clone(), "root/utils/math", false,
    );
    assert_eq!(r, Ok(ImportTarget::File(file.clone())));
    let r = choose_import_target(
        root.clone(), &path, file.clone(), "root/utils/math.sk", false, folder.clone(), "root/utils/math", true,
    );
    assert_eq!(r, Ok(ImportTarget::Folder(folder.clone())));
    let e = choose_import_target(
        root.clone(), &path, file.clone(), "root/utils/math.sk", true, folder.clone(), "root/utils/math", true,
    )
    .unwrap_err();
    assert_eq!(e.kind, ResolveErrorKind::AmbiguousModule);
    assert_eq!(e.code, "E-MOD-AMBIG");
    assert_eq!(e.message, "Ambiguous import `utils.math`: both root/utils/math.sk and root/utils/math exist");
    assert_eq!(e.path, Some(root.clone()));
    let e = choose_import_target(
        root.clone(), &path, file, "root/utils/math.sk", false, folder, "root/utils/math", false,
    )
    .unwrap_err();
    assert_eq!(e.kind, ResolveErrorKind::MissingModule);
    assert_eq!(e.code, "E-MOD-NOT-FOUND");
    assert_eq!(e.message, "Module not found for import `utils.math`");
    assert_eq!(e.path, Some(root));
}

#[test]
fn relative_module_paths_give_dotted_ids() {
    assert_eq!(module_id_from_relative_path(&PathBuf::from("a/b/c.sk")), Ok("a.b.c".to_string()));
    assert_eq!(module_id_from_relative_path(&PathBuf::from("./util/io.sk")), Ok("util.io".to_string()));
    let err = module_id_from_relative_path(&PathBuf::from("a/b.txt")).unwrap_err();
    assert_eq!(err.kind, ResolveErrorKind::InvalidModulePath);
    assert_eq!(err.message, "Expected .sk module path, got a/b.txt");
    assert_eq!(err.path, Some(PathBuf::from("a/b.txt")));
}

#[test]
fn path_parts_fail_on_non_utf8_components_and_on_nothing_left() {
    let some = |t: &str| Some(t.to_string());
    let err = module_id_from_path_parts(some("sk"), &vec![some("a"), None], "a/?.sk", PathBuf::from("p")).unwrap_err();
    assert_eq!(err.kind, ResolveErrorKind::NonUtf8Path);
    assert_eq!(err.message, "Non-UTF8 path component in a/?.sk");
    let err = module_id_from_path_parts(some("sk"), &vec![some("."), some("")], "./.sk", PathBuf::from("p")).unwrap_err();
    assert_eq!(err.kind, ResolveErrorKind::InvalidModulePath);
    assert_eq!(err.message, "Cannot derive module id from path ./.sk");
    assert_eq!(err.path, Some(PathBuf::from("p")));
    assert_eq!(module_id_from_path_parts(some("sk"), &vec![some("."), some("m")], "./m.sk", PathBuf::from("p")), Ok("m".to_string()));
    assert_eq!(module_id_from_path_parts(None, &vec![some("m")], "m", PathBuf::from("p")).unwrap_err().kind, ResolveErrorKind::InvalidModulePath);
}

#[test]
fn folder_files_become_modules_under_the_import_prefix() {
    let root = PathBuf::from("/proj/lib");
    let prefix = strings(&["lib"]);
    assert_eq!(folder_module_entry(&root, &PathBuf::from("/proj/lib/net/http.sk"), &prefix), Ok(Some("lib.net.http".to_string())));
    assert_eq!(folder_module_entry(&root, &PathBuf::from("/proj/lib/notes.txt"), &prefix), Ok(None));
    let err = folder_module_entry(&root, &PathBuf::from("/other/x.sk"), &prefix).unwrap_err();
    assert_eq!(err.kind, ResolveErrorKind::Io);
    assert_eq!(err.message, "Failed to strip folder prefix /proj/lib from /other/x.sk");
    assert_eq!(err.path, Some(PathBuf::from("/other/x.sk")));
}

#[test]
fn folder_entry_parts_fail_on_non_utf8_and_skip_empty_ids() {
    let some = |t: &str| Some(t.to_string());
    let p = PathBuf::from("f.sk");
    let err = folder_module_entry_from_parts(some("sk"), Some(&vec![None]), "r", "r/?.sk", &strings(&[]), p.clone()).unwrap_err();
    assert_eq!(err.kind, ResolveErrorKind::NonUtf8Path);
    assert_eq!(err.message, "Non-UTF8 path component in r/?.sk");
    assert_eq!(err.path, Some(p.clone()));
    assert_eq!(folder_module_entry_from_parts(some("sk"), Some(&vec![some(".")]), "r", "r/.sk", &strings(&[]), p.clone()), Ok(None));
    assert_eq!(folder_module_entry_from_parts(some("sk"), Some(&vec![some(".")]), "r", "r/.sk", &strings(&["pkg"]), p.clone()), Ok(Some("pkg".to_string())));
    assert_eq!(folder_module_entry_from_parts(some("txt"), None, "r", "r/a.txt", &strings(&[]), p.clone()), Ok(None));
    assert_eq!(
        folder_module_entry_from_parts(some("sk"), None, "r", "q/a.sk", &strings(&[]), p).unwrap_err().message,
        "Failed to strip folder prefix r from q/a.sk"
    );
}
