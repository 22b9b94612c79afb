//! The command line: `vdm install`, `vdm add FILE` and `vdm update FILE`, each
//! with an optional `--manifest PATH`.
use vstd::prelude::*;

use crate::error::VdmError;
use crate::text::{chars_of, eq_chars, has_prefix, slice_chars, starts_with, string_of};

verus! {

/// Where the manifest is, when not found from the current folder.
#[derive(Debug)]
pub struct VdmCliArgsManifest {
    pub manifest: Option<String>,
}

/// `vdm add [--manifest PATH] FILE`: add a dependency.
#[derive(Debug)]
pub struct VdmCliCmdAdd {
    pub manifest_args: VdmCliArgsManifest,
    pub file: String,
}

/// `vdm install [--manifest PATH] [-o|--offline]`: install dependencies.
#[derive(Debug)]
pub struct VdmCliCmdInstall {
    pub manifest_args: VdmCliArgsManifest,
    /// Never hit network, use only local cache.
    pub offline: bool,
}

/// `vdm update [--manifest PATH] [--review] FILE`: update a dependency.
#[derive(Debug)]
pub struct VdmCliCmdUpdate {
    pub manifest_args: VdmCliArgsManifest,
    pub file: String,
    /// Review each changed file before applying the update.
    pub review: bool,
}

/// The commands.
#[derive(Debug)]
pub enum VdmCliCmd {
    Install(VdmCliCmdInstall),
    Add(VdmCliCmdAdd),
    Update(VdmCliCmdUpdate),
}

/// The command line of the `vdm` program.
#[derive(Debug)]
pub struct VdmCli {
    pub command: VdmCliCmd,
}

/// Which command the first argument names.
#[derive(Debug)]
pub enum CommandKind {
    Install,
    Add,
    Update,
}

/// What the arguments after the command say so far.
pub struct CliState {
    pub manifest: Option<Seq<char>>,
    pub flag: bool,
    pub file: Option<Seq<char>>,
    pub awaiting_manifest: bool,
}

/// The mathematical form of a parsed command line.
pub enum CliView {
    Install { manifest: Option<Seq<char>>, offline: bool },
    Add { manifest: Option<Seq<char>>, file: Seq<char> },
    Update { manifest: Option<Seq<char>>, file: Seq<char>, review: bool },
}

/// The command named by `word`.
pub open spec fn spec_command_kind(word: Seq<char>) -> Option<CommandKind> {
    if word == "install"@ {
        Some(CommandKind::Install)
    } else if word == "add"@ {
        Some(CommandKind::Add)
    } else if word == "update"@ {
        Some(CommandKind::Update)
    } else {
        None
    }
}

/// The flag a command accepts: `-o`/`--offline` for install, `--review` for update.
pub open spec fn spec_is_flag(kind: CommandKind, arg: Seq<char>) -> bool {
    match kind {
        CommandKind::Install => arg == "-o"@ || arg == "--offline"@,
        CommandKind::Add => false,
        CommandKind::Update => arg == "--review"@,
    }
}

/// Reading one more argument.
pub open spec fn spec_cli_step(kind: CommandKind, st: CliState, arg: Seq<char>) -> Result<CliState, VdmError> {
    if st.awaiting_manifest {
        Ok(CliState { manifest: Some(arg), awaiting_manifest: false, ..st })
    } else if arg == "--manifest"@ {
        Ok(CliState { awaiting_manifest: true, ..st })
    } else if has_prefix(arg, "--manifest="@) {
        Ok(CliState { manifest: Some(arg.skip("--manifest="@.len() as int)), ..st })
    } else if spec_is_flag(kind, arg) {
        Ok(CliState { flag: true, ..st })
    } else if arg.len() > 1 && arg[0] == '-' {
        Err(VdmError::UnknownCliOption)
    } else if kind is Install || st.file is Some {
        Err(VdmError::UnexpectedCliArgument)
    } else {
        Ok(CliState { file: Some(arg), ..st })
    }
}

/// Reading the arguments after the command, in order.
pub open spec fn spec_cli_fold(kind: CommandKind, args: Seq<Seq<char>>) -> Result<CliState, VdmError>
    decreases args.len(),
{
    if args.len() == 0 {
        Ok(CliState { manifest: None, flag: false, file: None, awaiting_manifest: false })
    } else {
        match spec_cli_fold(kind, args.drop_last()) {
            Err(e) => Err(e),
            Ok(st) => spec_cli_step(kind, st, args.last()),
        }
    }
}

/// The command line that `args` (without the program name) spell.
pub open spec fn spec_parse_cli(args: Seq<Seq<char>>) -> Result<CliView, VdmError> {
    if args.len() == 0 {
        Err(VdmError::MissingCliCommand)
    } else {
        match spec_command_kind(args[0]) {
            None => Err(VdmError::UnknownCliCommand),
            Some(kind) => match spec_cli_fold(kind, args.skip(1)) {
                Err(e) => Err(e),
                Ok(st) => if st.awaiting_manifest {
                    Err(VdmError::MissingCliValue)
                } else {
                    match kind {
                        CommandKind::Install => Ok(CliView::Install { manifest: st.manifest, offline: st.flag }),
                        CommandKind::Add => match st.file {
                            Some(f) => Ok(CliView::Add { manifest: st.manifest, file: f }),
                            None => Err(VdmError::MissingCliArgument),
                        },
                        CommandKind::Update => match st.file {
                            Some(f) => Ok(CliView::Update { manifest: st.manifest, file: f, review: st.flag }),
                            None => Err(VdmError::MissingCliArgument),
                        },
                    }
                },
            },
        }
    }
}

/// The view of an optional string.
pub open spec fn opt_view(s: Option<String>) -> Option<Seq<char>> {
    match s {
        Some(t) => Some(t@),
        None => None,
    }
}

impl View for VdmCli {
    type V = CliView;

    open spec fn view(&self) -> CliView {
        match self.command {
            VdmCliCmd::Install(c) => CliView::Install { manifest: opt_view(c.manifest_args.manifest), offline: c.offline },
            VdmCliCmd::Add(c) => CliView::Add { manifest: opt_view(c.manifest_args.manifest), file: c.file@ },
            VdmCliCmd::Update(c) => CliView::Update {
                manifest: opt_view(c.manifest_args.manifest),
                file: c.file@,
                review: c.review,
            },
        }
    }
}

fn is_word(arg: &[char], word: &str) -> (r: bool)
    ensures
        r == (arg@ == word@),
{
    eq_chars(arg, chars_of(word).as_slice())
}

impl VdmCli {
    /// Reads the command line from its arguments (without the program name).
    pub fn parse_args(args: &Vec<String>) -> (r: Result<VdmCli, VdmError>)
        ensures
            match spec_parse_cli(args@.map_values(|a: String| a@)) {
                Ok(v) => r matches Ok(c) && c@ == v,
                Err(e) => r matches Err(x) && x == e,
            },
    {
        let ghost av = args@.map_values(|a: String| a@);
        if args.len() == 0 {
            return Err(VdmError::MissingCliCommand);
        }
        proof {
            reveal_strlit("install");
            reveal_strlit("add");
            reveal_strlit("update");
            reveal_strlit("-o");
            reveal_strlit("--offline");
            reveal_strlit("--review");
            reveal_strlit("--manifest");
            reveal_strlit("--manifest=");
        }
        let word = chars_of(args[0].as_str());
        assert(word@ == av[0]);
        let kind = if is_word(word.as_slice(), "install") {
            CommandKind::Install
        } else if is_word(word.as_slice(), "add") {
            CommandKind::Add
        } else if is_word(word.as_slice(), "update") {
            CommandKind::Update
        } else {
            return Err(VdmError::UnknownCliCommand);
        };
        let ghost rest = av.skip(1);
        let mut manifest: Option<String> = None;
        let mut flag = false;
        let mut file: Option<String> = None;
        let mut awaiting = false;
        let mut i: usize = 1;
        let manifest_eq = chars_of("--manifest=");
        assert(rest.take(0) =~= Seq::<Seq<char>>::empty());
        while i < args.len()
            invariant
                1 <= i <= args@.len(),
                av == args@.map_values(|a: String| a@),
                rest == av.skip(1),
                manifest_eq@ == "--manifest="@,
                spec_command_kind(av[0]) == Some(kind),
                spec_cli_fold(kind, rest.take(i - 1)) == Ok::<CliState, VdmError>(CliState {
                    manifest: opt_view(manifest),
                    flag: flag,
                    file: opt_view(file),
                    awaiting_manifest: awaiting,
                }),
            decreases args@.len() - i,
        {
            assert(rest.take(i as int).drop_last() =~= rest.take(i - 1));
            assert(rest.take(i as int).last() == av[i as int]);
            let arg = chars_of(args[i].as_str());
            assert(arg@ == av[i as int]);
            if awaiting {
                manifest = Some(args[i].clone());
                awaiting = false;
            } else if is_word(arg.as_slice(), "--manifest") {
                awaiting = true;
            } else if starts_with(arg.as_slice(), manifest_eq.as_slice()) {
                let value = slice_chars(arg.as_slice(), manifest_eq.len(), arg.len());
                assert(value@ =~= arg@.skip("--manifest="@.len() as int));
                manifest = Some(string_of(value.as_slice()));
            } else if match kind {
                CommandKind::Install => is_word(arg.as_slice(), "-o") || is_word(arg.as_slice(), "--offline"),
                CommandKind::Add => false,
                CommandKind::Update => is_word(arg.as_slice(), "--review"),
            } {
                flag = true;
            } else if arg.len() > 1 && arg[0] == '-' {
                proof {
                    assert(spec_cli_fold(kind, rest.take(i as int)) == Err::<CliState, VdmError>(VdmError::UnknownCliOption));
                    lemma_cli_error_stays(kind, rest, i as int);
                    assert(rest.take(rest.len() as int) =~= rest);
                }
                return Err(VdmError::UnknownCliOption);
            } else if matches!(kind, CommandKind::Install) || file.is_some() {
                proof {
                    assert(spec_cli_fold(kind, rest.take(i as int)) is Err);
                    lemma_cli_error_stays(kind, rest, i as int);
                    assert(rest.take(rest.len() as int) =~= rest);
                }
                return Err(VdmError::UnexpectedCliArgument);
            } else {
                file = Some(args[i].clone());
            }
            i += 1;
        }
        assert(rest.take(i - 1) =~= rest);
        if awaiting {
            return Err(VdmError::MissingCliValue);
        }
        let manifest_args = VdmCliArgsManifest { manifest };
        match kind {
            CommandKind::Install => Ok(VdmCli { command: VdmCliCmd::Install(VdmCliCmdInstall { manifest_args, offline: flag }) }),
            CommandKind::Add => match file {
                Some(f) => Ok(VdmCli { command: VdmCliCmd::Add(VdmCliCmdAdd { manifest_args, file: f }) }),
                None => Err(VdmError::MissingCliArgument),
            },
            CommandKind::Update => match file {
                Some(f) => Ok(VdmCli { command: VdmCliCmd::Update(VdmCliCmdUpdate { manifest_args, file: f, review: flag }) }),
                None => Err(VdmError::MissingCliArgument),
            },
        }
    }
}

proof fn lemma_cli_error_stays(kind: CommandKind, args: Seq<Seq<char>>, n: int)
    requires
        0 <= n <= args.len(),
        spec_cli_fold(kind, args.take(n)) is Err,
    ensures
        spec_cli_fold(kind, args) == spec_cli_fold(kind, args.take(n)),
    decreases args.len() - n,
{
    if n < args.len() {
        assert(args.take(n + 1).drop_last() =~= args.take(n));
        lemma_cli_error_stays(kind, args, n + 1);
    } else {
        assert(args.take(n) =~= args);
    }
}

} // verus!
