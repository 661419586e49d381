//! The declarations of the runtime library's entry points.

use vstd::prelude::*;

verus! {

broadcast use vstd::std_specs::vec::group_vec_axioms;

/// The runtime's entry points, each with its LLVM declaration, in the order
/// they are declared.
pub open spec fn runtime_decl_table() -> Seq<(Seq<char>, Seq<char>)> {
    seq![
        ("skp_rt_string_from_utf8"@, "declare ptr @skp_rt_string_from_utf8(ptr, i64)"@),
        ("skp_rt_string_eq"@, "declare i1 @skp_rt_string_eq(ptr, ptr)"@),
        ("skp_rt_builtin_str_len"@, "declare i64 @skp_rt_builtin_str_len(ptr)"@),
        ("skp_rt_builtin_str_contains"@, "declare i1 @skp_rt_builtin_str_contains(ptr, ptr)"@),
        ("skp_rt_builtin_str_index_of"@, "declare i64 @skp_rt_builtin_str_index_of(ptr, ptr)"@),
        ("skp_rt_builtin_str_slice"@, "declare ptr @skp_rt_builtin_str_slice(ptr, i64, i64)"@),
        ("skp_rt_call_builtin"@, "declare ptr @skp_rt_call_builtin(ptr, ptr, i64, ptr)"@),
        ("skp_rt_call_function"@, "declare ptr @skp_rt_call_function(i32, i64, ptr)"@),
        ("skp_rt_abort_if_error"@, "declare void @skp_rt_abort_if_error()"@),
        ("skp_rt_value_from_int"@, "declare ptr @skp_rt_value_from_int(i64)"@),
        ("skp_rt_value_from_bool"@, "declare ptr @skp_rt_value_from_bool(i1)"@),
        ("skp_rt_value_from_float"@, "declare ptr @skp_rt_value_from_float(double)"@),
        ("skp_rt_value_from_unit"@, "declare ptr @skp_rt_value_from_unit()"@),
        ("skp_rt_value_from_string"@, "declare ptr @skp_rt_value_from_string(ptr)"@),
        ("skp_rt_value_from_array"@, "declare ptr @skp_rt_value_from_array(ptr)"@),
        ("skp_rt_value_from_vec"@, "declare ptr @skp_rt_value_from_vec(ptr)"@),
        ("skp_rt_value_from_struct"@, "declare ptr @skp_rt_value_from_struct(ptr)"@),
        ("skp_rt_value_from_function"@, "declare ptr @skp_rt_value_from_function(i32)"@),
        ("skp_rt_value_free"@, "declare void @skp_rt_value_free(ptr)"@),
        ("skp_rt_value_to_int"@, "declare i64 @skp_rt_value_to_int(ptr)"@),
        ("skp_rt_value_to_bool"@, "declare i1 @skp_rt_value_to_bool(ptr)"@),
        ("skp_rt_value_to_float"@, "declare double @skp_rt_value_to_float(ptr)"@),
        ("skp_rt_value_to_string"@, "declare ptr @skp_rt_value_to_string(ptr)"@),
        ("skp_rt_value_to_array"@, "declare ptr @skp_rt_value_to_array(ptr)"@),
        ("skp_rt_value_to_vec"@, "declare ptr @skp_rt_value_to_vec(ptr)"@),
        ("skp_rt_value_to_struct"@, "declare ptr @skp_rt_value_to_struct(ptr)"@),
        ("skp_rt_value_to_function"@, "declare i32 @skp_rt_value_to_function(ptr)"@),
        ("skp_rt_array_new"@, "declare ptr @skp_rt_array_new(i64)"@),
        ("skp_rt_array_repeat"@, "declare ptr @skp_rt_array_repeat(ptr, i64)"@),
        ("skp_rt_array_get"@, "declare ptr @skp_rt_array_get(ptr, i64)"@),
        ("skp_rt_array_set"@, "declare void @skp_rt_array_set(ptr, i64, ptr)"@),
        ("skp_rt_vec_new"@, "declare ptr @skp_rt_vec_new()"@),
        ("skp_rt_vec_len"@, "declare i64 @skp_rt_vec_len(ptr)"@),
        ("skp_rt_vec_push"@, "declare void @skp_rt_vec_push(ptr, ptr)"@),
        ("skp_rt_vec_get"@, "declare ptr @skp_rt_vec_get(ptr, i64)"@),
        ("skp_rt_vec_set"@, "declare void @skp_rt_vec_set(ptr, i64, ptr)"@),
        ("skp_rt_vec_delete"@, "declare ptr @skp_rt_vec_delete(ptr, i64)"@),
        ("skp_rt_struct_new"@, "declare ptr @skp_rt_struct_new(i64, i64)"@),
        ("skp_rt_struct_get"@, "declare ptr @skp_rt_struct_get(ptr, i64)"@),
        ("skp_rt_struct_set"@, "declare void @skp_rt_struct_set(ptr, i64, ptr)"@),
    ]
}

/// The views of a list of declarations.
pub open spec fn decl_views(v: Seq<(&'static str, &'static str)>) -> Seq<(Seq<char>, Seq<char>)> {
    v.map_values(|p: (&'static str, &'static str)| (p.0@, p.1@))
}

/// The runtime's entry points with their LLVM declarations.
pub fn runtime_declarations() -> (r: Vec<(&'static str, &'static str)>)
    ensures
        decl_views(r@) == runtime_decl_table(),
{
    let mut decls: Vec<(&'static str, &'static str)> = Vec::new();
    decls.push(("skp_rt_string_from_utf8", "declare ptr @skp_rt_string_from_utf8(ptr, i64)"));
    decls.push(("skp_rt_string_eq", "declare i1 @skp_rt_string_eq(ptr, ptr)"));
    decls.push(("skp_rt_builtin_str_len", "declare i64 @skp_rt_builtin_str_len(ptr)"));
    decls.push(("skp_rt_builtin_str_contains", "declare i1 @skp_rt_builtin_str_contains(ptr, ptr)"));
    decls.push(("skp_rt_builtin_str_index_of", "declare i64 @skp_rt_builtin_str_index_of(ptr, ptr)"));
    decls.push(("skp_rt_builtin_str_slice", "declare ptr @skp_rt_builtin_str_slice(ptr, i64, i64)"));
    decls.push(("skp_rt_call_builtin", "declare ptr @skp_rt_call_builtin(ptr, ptr, i64, ptr)"));
    decls.push(("skp_rt_call_function", "declare ptr @skp_rt_call_function(i32, i64, ptr)"));
    decls.push(("skp_rt_abort_if_error", "declare void @skp_rt_abort_if_error()"));
    decls.push(("skp_rt_value_from_int", "declare ptr @skp_rt_value_from_int(i64)"));
    decls.push(("skp_rt_value_from_bool", "declare ptr @skp_rt_value_from_bool(i1)"));
    decls.push(("skp_rt_value_from_float", "declare ptr @skp_rt_value_from_float(double)"));
    decls.push(("skp_rt_value_from_unit", "declare ptr @skp_rt_value_from_unit()"));
    decls.push(("skp_rt_value_from_string", "declare ptr @skp_rt_value_from_string(ptr)"));
    decls.push(("skp_rt_value_from_array", "declare ptr @skp_rt_value_from_array(ptr)"));
    decls.push(("skp_rt_value_from_vec", "declare ptr @skp_rt_value_from_vec(ptr)"));
    decls.push(("skp_rt_value_from_struct", "declare ptr @skp_rt_value_from_struct(ptr)"));
    decls.push(("skp_rt_value_from_function", "declare ptr @skp_rt_value_from_function(i32)"));
    decls.push(("skp_rt_value_free", "declare void @skp_rt_value_free(ptr)"));
    decls.push(("skp_rt_value_to_int", "declare i64 @skp_rt_value_to_int(ptr)"));
    decls.push(("skp_rt_value_to_bool", "declare i1 @skp_rt_value_to_bool(ptr)"));
    decls.push(("skp_rt_value_to_float", "declare double @skp_rt_value_to_float(ptr)"));
    decls.push(("skp_rt_value_to_string", "declare ptr @skp_rt_value_to_string(ptr)"));
    decls.push(("skp_rt_value_to_array", "declare ptr @skp_rt_value_to_array(ptr)"));
    decls.push(("skp_rt_value_to_vec", "declare ptr @skp_rt_value_to_vec(ptr)"));
    decls.push(("skp_rt_value_to_struct", "declare ptr @skp_rt_value_to_struct(ptr)"));
    decls.push(("skp_rt_value_to_function", "declare i32 @skp_rt_value_to_function(ptr)"));
    decls.push(("skp_rt_array_new", "declare ptr @skp_rt_array_new(i64)"));
    decls.push(("skp_rt_array_repeat", "declare ptr @skp_rt_array_repeat(ptr, i64)"));
    decls.push(("skp_rt_array_get", "declare ptr @skp_rt_array_get(ptr, i64)"));
    decls.push(("skp_rt_array_set", "declare void @skp_rt_array_set(ptr, i64, ptr)"));
    decls.push(("skp_rt_vec_new", "declare ptr @skp_rt_vec_new()"));
    decls.push(("skp_rt_vec_len", "declare i64 @skp_rt_vec_len(ptr)"));
    decls.push(("skp_rt_vec_push", "declare void @skp_rt_vec_push(ptr, ptr)"));
    decls.push(("skp_rt_vec_get", "declare ptr @skp_rt_vec_get(ptr, i64)"));
    decls.push(("skp_rt_vec_set", "declare void @skp_rt_vec_set(ptr, i64, ptr)"));
    decls.push(("skp_rt_vec_delete", "declare ptr @skp_rt_vec_delete(ptr, i64)"));
    decls.push(("skp_rt_struct_new", "declare ptr @skp_rt_struct_new(i64, i64)"));
    decls.push(("skp_rt_struct_get", "declare ptr @skp_rt_struct_get(ptr, i64)"));
    decls.push(("skp_rt_struct_set", "declare void @skp_rt_struct_set(ptr, i64, ptr)"));
    assert(decl_views(decls@) =~= runtime_decl_table());
    decls
}

} // verus!
