use linkerland::cli::{
    accept_extension, run_with, validate_map_path, Cli, Commands, ExportArgs, ExportFormat,
    SortKey, SortOrder, VizArgs,
};
use linkerland::display::{format_hex, objects_block_title, symbols_block_title, truncate_path};

#[test]
fn invalid_extension_rejected() {
    assert!(validate_map_path("foo.txt").is_err());
}

#[test]
fn map_extension_accepted() {
    assert_eq!(validate_map_path("out/app.map"), Ok("out/app.map".to_string()));
    assert_eq!(
        validate_map_path("map"),
        Err("expected path ending with .map".to_string())
    );
    assert!(validate_map_path(".map").is_err());
    assert!(validate_map_path("a.MAP").is_err());
}

#[test]
fn extension_decides() {
    assert_eq!(accept_extension("x", Some("map".to_string())), Ok("x".to_string()));
    assert_eq!(
        accept_extension("x.map", None),
        Err("expected path ending with .map".to_string())
    );
    assert!(accept_extension("x.map", Some("maps".to_string())).is_err());
}

#[test]
fn command_choice() {
    let viz = run_with(Cli { mapfile: Some("a.map".into()), command: None });
    assert_eq!(
        viz,
        Some(Commands::Viz(VizArgs {
            mapfile: "a.map".into(),
            filter: None,
            sort: SortKey::Size,
            order: SortOrder::Desc,
        }))
    );
    assert_eq!(run_with(Cli { mapfile: None, command: None }), None);
    let export = ExportArgs {
        mapfile: "b.map".into(),
        format: ExportFormat::Csv,
        filter: Some("^_".into()),
        out: None,
        sort: SortKey::Name,
        order: SortOrder::Asc,
    };
    let chosen = run_with(Cli { mapfile: Some("a.map".into()), command: Some(Commands::Export(export)) });
    match chosen {
        Some(Commands::Export(args)) => {
            assert_eq!(args.mapfile, "b.map");
            assert_eq!(args.format, ExportFormat::Csv);
        }
        _ => panic!("export expected"),
    }
}

#[test]
fn titles() {
    assert_eq!(objects_block_title(), " OBJECTS ");
    assert_eq!(symbols_block_title(), " SYMBOLS ");
}

#[test]
fn hex_sizes() {
    assert_eq!(format_hex(0), "0x0");
    assert_eq!(format_hex(10), "0xA");
    assert_eq!(format_hex(255), "0xFF");
    assert_eq!(format_hex(4096), "0x1000");
    assert_eq!(format_hex(u64::MAX), "0xFFFFFFFFFFFFFFFF");
    assert_eq!(format_hex(0xDEADBEEF), format!("0x{:X}", 0xDEADBEEFu64));
}

#[test]
fn truncated_paths() {
    assert_eq!(truncate_path("short", 10), "short");
    assert_eq!(truncate_path("exactly10c", 10), "exactly10c");
    assert_eq!(truncate_path("a/long/path/to/file.o", 2), "...");
    assert_eq!(truncate_path("a/long/path/to/file.o", 3), "...");
    // 13 characters: 10 are left for the path, 4 at the start and 6 at the end.
    assert_eq!(truncate_path("a/long/path/to/file.o", 13), "a/lo...file.o");
    assert_eq!(truncate_path("a/long/path/to/file.o", 13).len(), 13);
    assert_eq!(truncate_path("abcdefgh", 4), "...h");
    assert_eq!(truncate_path("", 0), "");
}
