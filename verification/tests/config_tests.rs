use mdlyricgetter::cli::{CliArgs, OutputFormat};
use mdlyricgetter::config::{parse_extensions, Config};

fn base_args() -> CliArgs {
    CliArgs {
        root: None,
        output: None,
        dry_run: false,
        artist_filter: "udio".to_string(),
        extensions: "mp3".to_string(),
        format: OutputFormat::Text,
        max_depth: None,
        follow_symlinks: false,
        summary_json: None,
        quiet: false,
    }
}

#[test]
fn defaults_to_current_directory() {
    let cwd = "/work/music".to_string();
    let config = Config::from_args(base_args(), cwd, true).expect("config");

    assert_eq!(config.root, "/work/music");
    assert_eq!(config.output, "/work/music/lyrics.txt");
    assert!(!config.dry_run);
    assert_eq!(config.artist_filter, "udio");
    assert_eq!(config.extensions, vec!["mp3"]);
    assert_eq!(config.output_format, OutputFormat::Text);
    assert_eq!(config.max_depth, None);
    assert!(!config.follow_symlinks);
    assert_eq!(config.summary_json, None);
    assert!(!config.quiet);
}

#[test]
fn relative_root_is_resolved_against_cwd() {
    let mut args = base_args();
    args.root = Some("library".to_string());
    args.output = Some("custom.txt".to_string());
    args.dry_run = true;
    args.artist_filter = "mix".to_string();
    args.extensions = "mp3,flac".to_string();
    args.format = OutputFormat::Json;
    args.max_depth = Some(2);
    args.follow_symlinks = true;
    args.summary_json = Some("summary.json".to_string());
    args.quiet = true;

    let config = Config::from_args(args, "/tmp/base".to_string(), true).expect("config");

    assert_eq!(config.root, "/tmp/base/library");
    assert_eq!(config.output, "/tmp/base/library/custom.txt");
    assert!(config.dry_run);
    assert_eq!(config.artist_filter, "mix");
    assert_eq!(config.extensions, vec!["mp3", "flac"]);
    assert_eq!(config.output_format, OutputFormat::Json);
    assert_eq!(config.max_depth, Some(2));
    assert!(config.follow_symlinks);
    assert_eq!(config.summary_json, Some("/tmp/base/library/summary.json".to_string()));
    assert!(config.quiet);
}

#[test]
fn absolute_output_is_preserved() {
    let mut args = base_args();
    args.root = Some("/tmp/base/library".to_string());
    args.output = Some("/tmp/base/lyrics/stash.txt".to_string());

    let config = Config::from_args(args, "/elsewhere".to_string(), true).expect("config");

    assert_eq!(config.root, "/tmp/base/library");
    assert_eq!(config.output, "/tmp/base/lyrics/stash.txt");
}

#[test]
fn missing_root_yields_error() {
    let mut args = base_args();
    args.root = Some("/tmp/base/missing".to_string());

    let error = Config::from_args(args, "/tmp/base".to_string(), false).unwrap_err();
    assert!(
        error.contains("/tmp/base/missing"),
        "unexpected error message: {error}"
    );
}

#[test]
fn extensions_are_trimmed_dedotted_and_lowercased() {
    assert_eq!(parse_extensions(" .MP3 , flac ,,".to_string()), vec!["mp3", "flac"]);
    assert_eq!(parse_extensions("..Ogg".to_string()), vec!["ogg"]);
}

#[test]
fn empty_extension_list_falls_back_to_mp3() {
    assert_eq!(parse_extensions("".to_string()), vec!["mp3"]);
    assert_eq!(parse_extensions(" , ,".to_string()), vec!["mp3"]);
}
