use lib::codegen::{link_args_for_executable, link_args_for_target};

#[test]
fn native_link_args_disable_pie_on_non_windows() {
    let args = link_args_for_executable("input.o", "libskepart.a", "out");
    if std::path::MAIN_SEPARATOR == '\\' {
        assert!(!args.iter().any(|arg| arg == "-no-pie"));
    } else {
        assert!(args.iter().any(|arg| arg == "-no-pie"));
    }
}

#[test]
fn link_args_for_unix_hosts() {
    let args = link_args_for_target("input.o", "libskepart.a", "out", false);
    assert_eq!(args, vec!["input.o", "libskepart.a", "-no-pie", "-o", "out"]);
}

#[test]
fn link_args_for_windows_hosts_group_the_runtime_and_add_system_libraries() {
    let args = link_args_for_target("input.obj", "skepart.lib", "out.exe", true);
    assert_eq!(
        args,
        vec![
            "input.obj",
            "-Wl,--start-group",
            "skepart.lib",
            "-Wl,--end-group",
            "-o",
            "out.exe",
            "-lkernel32",
            "-lntdll",
            "-luserenv",
            "-lws2_32",
            "-ldbghelp",
        ]
    );
}
