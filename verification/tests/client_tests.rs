use barcode::client::{
    delete_path, get_args, item_path, log_path, normalize_server, parse_command,
    process_new_item, resolve_location, Command,
};

#[test]
fn get_args_reads_barcodes_after_the_command() {
    assert_eq!(get_args("new 1 2 3".to_string()), Some(vec![1, 2, 3]));
    assert_eq!(get_args("delete 42".to_string()), Some(vec![42]));
    assert_eq!(get_args("all".to_string()), Some(vec![]));
    assert_eq!(get_args("".to_string()), Some(vec![]));
    assert_eq!(get_args("see  7\t8\n".to_string()), Some(vec![7, 8]));
}

#[test]
fn get_args_refuses_a_non_numeric_token() {
    assert_eq!(get_args("new 1 x 3".to_string()), None);
    assert_eq!(get_args("delete 1.5".to_string()), None);
    assert_eq!(get_args("log 18446744073709551616".to_string()), None);
}

#[test]
fn commands_dispatch_on_the_first_token() {
    assert_eq!(parse_command("new 1 2"), Some(Command::New));
    assert_eq!(parse_command("modify 3"), Some(Command::Modify));
    assert_eq!(parse_command("delete 4"), Some(Command::Delete));
    assert_eq!(parse_command("log 5"), Some(Command::Log));
    assert_eq!(parse_command("all"), Some(Command::All));
    assert_eq!(parse_command("see 6"), Some(Command::See));
    assert_eq!(parse_command("server"), Some(Command::Server));
    assert_eq!(parse_command("quit"), Some(Command::Quit));
    assert_eq!(parse_command("help me"), Some(Command::Help));
    assert_eq!(parse_command("   \n"), None);
}

#[test]
fn location_shortcuts_resolve() {
    assert_eq!(resolve_location("l\n"), "Levi Fox Hall Tech Box");
    assert_eq!(resolve_location("d"), "Drama Studio Tech Box");
    assert_eq!(resolve_location("r "), "Rig");
    assert_eq!(resolve_location("s"), "Storage outside Levi Fox Hall Tech Box");
    assert_eq!(resolve_location(" back room \n"), "back room");
}

#[test]
fn prompt_answers_build_the_request_record() {
    let it = process_new_item(42, "r\n", " Spotlight 3 \n");
    assert_eq!(it.name, "Spotlight 3");
    assert_eq!(it.barcode, 42);
    assert_eq!(it.location, "Rig");
    assert_eq!(
        it.to_json(),
        "{\"name\":\"Spotlight 3\",\"barcode\":42,\"location\":\"Rig\"}"
    );
}

#[test]
fn server_addresses_normalize_to_plain_scheme() {
    assert_eq!(normalize_server("http://host:3000"), "http://host:3000");
    assert_eq!(normalize_server("https://host:3000"), "http://host:3000");
    assert_eq!(normalize_server("host:3000"), "http://host:3000");
    assert_eq!(normalize_server(""), "http://");
    // The rewrite replaces every occurrence of the secure scheme.
    assert_eq!(
        normalize_server("https://a/https://b"),
        "http://a/http://b"
    );
}

#[test]
fn request_paths_carry_the_barcode() {
    assert_eq!(item_path(42), "/item/42");
    assert_eq!(delete_path(0), "/delete/0");
    assert_eq!(log_path(18446744073709551615), "/log/18446744073709551615");
}
