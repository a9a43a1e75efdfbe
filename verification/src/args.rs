//! The command line: which extensions to handle, the server command, and
//! an optional workspace directory.
//!
//! The grammar: `-e`/`--extension` takes one value and may repeat;
//! `-w`/`--workspace` takes one value; `-s`/`--server` takes everything
//! after it, hyphens included, as the server command. Both an extension
//! and a server command are required. The first argument is the program
//! name and is skipped.

use vstd::prelude::*;
use crate::utils::str_eq;

verus! {

#[derive(Debug)]
pub struct Cli {
    /// File extensions to handle (can be specified multiple times)
    pub extension: Vec<String>,
    /// LSP server command and arguments
    pub server: Vec<String>,
    /// Workspace base directory (defaults to current directory)
    pub workspace: Option<String>,
}

#[derive(Debug)]
pub struct ServerSpec {
    pub extensions: Vec<String>,
    pub command: Vec<String>,
}

/// Why a command line is rejected.
#[derive(Clone, Copy, Debug, PartialEq, Eq, Structural)]
pub enum CliError {
    /// No `--extension` was given.
    MissingExtension,
    /// No `--server` command was given, or `to_server_specs` found none.
    MissingServer,
    /// A flag stands last, with no value after it.
    MissingValue,
    /// An argument that is not a known flag where one was expected.
    UnknownArgument,
}

/// The views of a sequence of strings.
pub open spec fn strs_view(v: Seq<String>) -> Seq<Seq<char>> {
    v.map_values(|s: String| s@)
}

/// The parsed command line, over plain values.
pub struct SpecCli {
    pub extension: Seq<Seq<char>>,
    pub server: Seq<Seq<char>>,
    pub workspace: Option<Seq<char>>,
}

pub open spec fn opt_str_view(w: Option<String>) -> Option<Seq<char>> {
    match w {
        None => None,
        Some(s) => Some(s@),
    }
}

pub open spec fn cli_view(c: Cli) -> SpecCli {
    SpecCli {
        extension: strs_view(c.extension@),
        server: strs_view(c.server@),
        workspace: opt_str_view(c.workspace),
    }
}

/// The required-flags check made once the arguments are consumed: an
/// extension list still empty is reported before a server command still
/// empty.
pub open spec fn finish_spec(acc: SpecCli) -> Result<SpecCli, CliError> {
    if acc.extension.len() == 0 {
        Err(CliError::MissingExtension)
    } else if acc.server.len() == 0 {
        Err(CliError::MissingServer)
    } else {
        Ok(acc)
    }
}

/// The argument parser, one flag at a time from position `i`.
pub open spec fn parse_spec(args: Seq<Seq<char>>, i: int, acc: SpecCli) -> Result<
    SpecCli,
    CliError,
>
    decreases args.len() - i,
{
    if !(0 <= i <= args.len()) {
        Err(CliError::UnknownArgument)
    } else if i == args.len() {
        finish_spec(acc)
    } else if args[i] == "-e"@ || args[i] == "--extension"@ {
        if i + 1 >= args.len() {
            Err(CliError::MissingValue)
        } else {
            parse_spec(
                args,
                i + 2,
                SpecCli {
                    extension: acc.extension.push(args[i + 1]),
                    server: acc.server,
                    workspace: acc.workspace,
                },
            )
        }
    } else if args[i] == "-w"@ || args[i] == "--workspace"@ {
        if i + 1 >= args.len() {
            Err(CliError::MissingValue)
        } else {
            parse_spec(
                args,
                i + 2,
                SpecCli {
                    extension: acc.extension,
                    server: acc.server,
                    workspace: Some(args[i + 1]),
                },
            )
        }
    } else if args[i] == "-s"@ || args[i] == "--server"@ {
        if i + 1 >= args.len() {
            Err(CliError::MissingValue)
        } else {
            finish_spec(
                SpecCli {
                    extension: acc.extension,
                    server: args.skip(i + 1),
                    workspace: acc.workspace,
                },
            )
        }
    } else {
        Err(CliError::UnknownArgument)
    }
}

/// What parsing a full argument vector (program name first) yields.
pub open spec fn cli_parse_spec(args: Seq<Seq<char>>) -> Result<SpecCli, CliError> {
    parse_spec(
        args,
        if args.len() == 0 {
            0
        } else {
            1
        },
        SpecCli { extension: Seq::empty(), server: Seq::empty(), workspace: None },
    )
}

impl Cli {
    /// Parses an argument vector, as `cli_parse_spec` describes.
    pub fn try_parse_from(args: &Vec<String>) -> (r: Result<Cli, CliError>)
        ensures
            match r {
                Ok(c) => cli_parse_spec(strs_view(args@)) == Ok::<SpecCli, CliError>(cli_view(c)),
                Err(e) => cli_parse_spec(strs_view(args@)) == Err::<SpecCli, CliError>(e),
            },
    {
        let ghost view = strs_view(args@);
        let mut ext: Vec<String> = Vec::new();
        let mut srv: Vec<String> = Vec::new();
        let mut ws: Option<String> = None;
        let mut i: usize = if args.len() == 0 {
            0
        } else {
            1
        };
        proof {
            assert(strs_view(ext@) =~= Seq::<Seq<char>>::empty());
            assert(strs_view(srv@) =~= Seq::<Seq<char>>::empty());
        }
        while i < args.len()
            invariant
                view == strs_view(args@),
                view.len() == args@.len(),
                0 <= i <= args@.len(),
                srv@.len() == 0,
                cli_parse_spec(view) == parse_spec(
                    view,
                    i as int,
                    SpecCli {
                        extension: strs_view(ext@),
                        server: strs_view(srv@),
                        workspace: opt_str_view(ws),
                    },
                ),
            decreases args@.len() - i,
        {
            let ghost acc = SpecCli {
                extension: strs_view(ext@),
                server: strs_view(srv@),
                workspace: opt_str_view(ws),
            };
            proof {
                assert(view[i as int] == args@[i as int]@);
            }
            let a = args[i].as_str();
            if str_eq(a, "-e") || str_eq(a, "--extension") {
                if i + 1 >= args.len() {
                    return Err(CliError::MissingValue);
                }
                proof {
                    assert(view[i + 1] == args@[i + 1]@);
                }
                ext.push(args[i + 1].clone());
                proof {
                    assert(strs_view(ext@) =~= acc.extension.push(view[i + 1]));
                }
                i = i + 2;
            } else if str_eq(a, "-w") || str_eq(a, "--workspace") {
                if i + 1 >= args.len() {
                    return Err(CliError::MissingValue);
                }
                proof {
                    assert(view[i + 1] == args@[i + 1]@);
                }
                ws = Some(args[i + 1].clone());
                i = i + 2;
            } else if str_eq(a, "-s") || str_eq(a, "--server") {
                if i + 1 >= args.len() {
                    return Err(CliError::MissingValue);
                }
                let mut j: usize = i + 1;
                proof {
                    assert(strs_view(srv@).len() == srv@.len());
                    assert(strs_view(srv@) =~= view.subrange(i + 1, j as int));
                }
                while j < args.len()
                    invariant
                        view == strs_view(args@),
                        view.len() == args@.len(),
                        i + 1 <= j <= args@.len(),
                        strs_view(srv@) =~= view.subrange(i + 1, j as int),
                    decreases args@.len() - j,
                {
                    let ghost srv0 = strs_view(srv@);
                    srv.push(args[j].clone());
                    proof {
                        assert(view[j as int] == args@[j as int]@);
                        assert(strs_view(srv@) =~= srv0.push(view[j as int]));
                        assert(srv0.push(view[j as int]) =~= view.subrange(i + 1, j + 1));
                    }
                    j = j + 1;
                }
                proof {
                    assert(view.subrange(i + 1, view.len() as int) =~= view.skip(i + 1));
                }
                if ext.len() == 0 {
                    proof {
                        assert(strs_view(ext@).len() == 0);
                    }
                    return Err(CliError::MissingExtension);
                }
                proof {
                    assert(strs_view(ext@).len() == ext@.len());
                    assert(strs_view(srv@).len() == srv@.len());
                    assert(srv@.len() > 0);
                }
                return Ok(Cli { extension: ext, server: srv, workspace: ws });
            } else {
                return Err(CliError::UnknownArgument);
            }
        }
        if ext.len() == 0 {
            proof {
                assert(strs_view(ext@).len() == 0);
            }
            return Err(CliError::MissingExtension);
        }
        if srv.len() == 0 {
            proof {
                assert(strs_view(ext@).len() == ext@.len());
                assert(strs_view(srv@).len() == 0);
            }
            return Err(CliError::MissingServer);
        }
        proof {
            assert(strs_view(ext@).len() == ext@.len());
            assert(strs_view(srv@).len() == srv@.len());
        }
        Ok(Cli { extension: ext, server: srv, workspace: ws })
    }

    /// Convert CLI args to server specifications: one specification
    /// carrying every extension and the whole server command. An empty
    /// extension list is refused, then an empty server command.
    pub fn to_server_specs(self) -> (r: Result<Vec<ServerSpec>, CliError>)
        ensures
            match r {
                Ok(specs) => self.extension@.len() > 0 && self.server@.len() > 0 && specs@.len()
                    == 1 && specs@[0].extensions == self.extension && specs@[0].command
                    == self.server,
                Err(e) => (e == CliError::MissingExtension && self.extension@.len() == 0) || (e
                    == CliError::MissingServer && self.extension@.len() > 0 && self.server@.len()
                    == 0),
            },
    {
        if self.extension.len() == 0 {
            return Err(CliError::MissingExtension);
        }
        if self.server.len() == 0 {
            return Err(CliError::MissingServer);
        }
        let spec = ServerSpec { extensions: self.extension, command: self.server };
        let mut specs: Vec<ServerSpec> = Vec::new();
        specs.push(spec);
        Ok(specs)
    }
}

} // verus!
