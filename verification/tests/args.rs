use pathfinder::args::{Cli, CliError};

fn parse_args(args: &[&str]) -> Result<Cli, CliError> {
    let args: Vec<String> = std::iter::once("pathfinder")
        .chain(args.iter().copied())
        .map(String::from)
        .collect();
    Cli::try_parse_from(&args)
}

#[test]
fn python_single_extension() {
    let cli = parse_args(&["-e", "py", "-s", "pyright-langserver", "--", "--stdio"]).unwrap();
    assert_eq!(cli.extension, vec!["py"]);
    assert_eq!(cli.server, vec!["pyright-langserver", "--", "--stdio"]);
}

#[test]
fn python_multiple_extensions() {
    // Python and stub files use the same LSP server
    let cli = parse_args(&[
        "-e",
        "py",
        "-e",
        "pyi",
        "-s",
        "pyright-langserver",
        "--",
        "--stdio",
    ])
    .unwrap();
    assert_eq!(cli.extension, vec!["py", "pyi"]);
    assert_eq!(cli.server, vec!["pyright-langserver", "--", "--stdio"]);
}

#[test]
fn rust_with_workspace() {
    let cli = parse_args(&["-w", "/tmp/myproject", "-e", "rs", "-s", "rust-analyzer"]).unwrap();
    assert_eq!(cli.extension, vec!["rs"]);
    assert_eq!(cli.server, vec!["rust-analyzer"]);
    assert_eq!(cli.workspace, Some(String::from("/tmp/myproject")));
}

#[test]
fn typescript_long_form() {
    // Using long-form flags
    let cli = parse_args(&[
        "--extension",
        "ts",
        "--server",
        "typescript-language-server",
        "--",
        "--stdio",
    ])
    .unwrap();
    assert_eq!(cli.extension, vec!["ts"]);
    assert_eq!(
        cli.server,
        vec!["typescript-language-server", "--", "--stdio"]
    );
}

#[test]
fn python_with_uv() {
    // Real example: using uv to run pyright
    let cli = parse_args(&[
        "-e",
        "py",
        "-s",
        "uv",
        "run",
        "pyright-langserver",
        "--",
        "--stdio",
    ])
    .unwrap();
    assert_eq!(cli.extension, vec!["py"]);
    assert_eq!(
        cli.server,
        vec!["uv", "run", "pyright-langserver", "--", "--stdio"]
    );
}

#[test]
fn javascript_react() {
    // TypeScript server handles JSX files too
    let cli = parse_args(&[
        "-e",
        "jsx",
        "-s",
        "typescript-language-server",
        "--",
        "--stdio",
    ])
    .unwrap();
    assert_eq!(cli.extension, vec!["jsx"]);
    assert_eq!(
        cli.server,
        vec!["typescript-language-server", "--", "--stdio"]
    );
}

#[test]
fn error_no_extension() {
    let result = parse_args(&["-s", "rust-analyzer"]);
    assert!(result.is_err());
}

#[test]
fn error_no_server() {
    let result = parse_args(&["-e", "py"]);
    assert!(result.is_err());
}

#[test]
fn flag_without_value_is_refused() {
    assert_eq!(parse_args(&["-e"]).unwrap_err(), CliError::MissingValue);
    assert_eq!(parse_args(&["-e", "py", "-s"]).unwrap_err(), CliError::MissingValue);
}

#[test]
fn unknown_argument_is_refused() {
    assert_eq!(
        parse_args(&["stray", "-e", "py", "-s", "x"]).unwrap_err(),
        CliError::UnknownArgument
    );
}

#[test]
fn to_server_specs_bundles_everything() {
    let cli = parse_args(&["-e", "py", "-e", "pyi", "-s", "srv", "--stdio"]).unwrap();
    let specs = cli.to_server_specs().unwrap();
    assert_eq!(specs.len(), 1);
    assert_eq!(specs[0].extensions, vec!["py", "pyi"]);
    assert_eq!(specs[0].command, vec!["srv", "--stdio"]);
}

#[test]
fn to_server_specs_refuses_empty() {
    let cli = Cli { extension: vec![], server: vec![String::from("x")], workspace: None };
    assert_eq!(cli.to_server_specs().unwrap_err(), CliError::MissingExtension);
    let cli = Cli { extension: vec![String::from("rs")], server: vec![], workspace: None };
    assert_eq!(cli.to_server_specs().unwrap_err(), CliError::MissingServer);
}
