use scheme_handler::platform::{linux, macos, unsupported, windows};

#[test]
fn exec_arguments_are_quoted() {
    assert_eq!(linux::quote_exec_arg("/opt/a b/app"), "\"/opt/a b/app\"");
    assert_eq!(linux::quote_exec_arg("a\\b\"c$d`e"), "\"a\\\\b\\\"c\\$d\\`e\"");
}

#[test]
fn desktop_entry_names_the_handler() {
    let entry = linux::desktop_entry("/opt/sh/scheme-handler", "ush");
    assert_eq!(
        entry,
        "[Desktop Entry]\nVersion=1.0\nType=Application\nName=scheme-handler\nExec=\"/opt/sh/scheme-handler\" run %u\nNoDisplay=true\nTerminal=false\nMimeType=x-scheme-handler/ush;\n"
    );
    assert_eq!(linux::scheme_mime_type("ush"), "x-scheme-handler/ush");
    assert_eq!(linux::desktop_file_name(), "scheme-handler-ush.desktop");
}

#[test]
fn windows_registry_values() {
    assert_eq!(windows::class_key("ush"), "Software\\Classes\\ush");
    assert_eq!(windows::protocol_description("ush"), "URL: USH Protocol");
    assert_eq!(windows::open_command("C:\\sh.exe"), "\"C:\\sh.exe\" run \"%1\"");
    assert_eq!(windows::command_subkey(), "shell\\open\\command");
}

#[test]
fn unsupported_platforms_refuse() {
    assert_eq!(unsupported::register_scheme("ush"), Err("this platform is not supported".to_string()));
    assert_eq!(unsupported::unregister_scheme("ush"), Err("this platform is not supported".to_string()));
}

#[test]
fn macos_keeps_the_declared_scheme() {
    let err = macos::unregister_scheme("ush").unwrap_err();
    assert!(err.starts_with("macOS URL schemes are declared in the signed app bundle."));
    assert!(err.ends_with("rebuild the app to unregister ush."));
    assert_eq!(macos::bundle_template(), "packaging/macos/Info.plist");
}
