//! The command line: an optional task directory and an optional command.
use vstd::prelude::*;

use crate::text::{join_by, opt_view, owned, push_str, str_eq_lit, strings_view};

verus! {

/// A command given on the command line.
#[derive(Debug, Clone, PartialEq, Eq)]
pub enum Command {
    Add { line: String },
    List,
    Done { id: String },
    Search { query: String },
}

pub ghost enum CommandModel {
    Add { line: Seq<char> },
    List,
    Done { id: Seq<char> },
    Search { query: Seq<char> },
}

impl View for Command {
    type V = CommandModel;

    open spec fn view(&self) -> CommandModel {
        match self {
            Command::Add { line } => CommandModel::Add { line: line@ },
            Command::List => CommandModel::List,
            Command::Done { id } => CommandModel::Done { id: id@ },
            Command::Search { query } => CommandModel::Search { query: query@ },
        }
    }
}

/// The parsed command line.
#[derive(Debug, Clone, PartialEq, Eq)]
pub struct Cli {
    pub task_dir: Option<String>,
    pub command: Option<Command>,
}

/// What the command line asks for: a run, or the help or version text.
#[derive(Debug, Clone, PartialEq, Eq)]
pub enum CliRequest {
    Run(Cli),
    Help,
    Version,
}

pub ghost enum RequestModel {
    Run { task_dir: Option<Seq<char>>, command: Option<CommandModel> },
    Help,
    Version,
}

impl View for CliRequest {
    type V = RequestModel;

    open spec fn view(&self) -> RequestModel {
        match self {
            CliRequest::Run(c) => RequestModel::Run {
                task_dir: opt_view(c.task_dir),
                command: match c.command {
                    Some(x) => Some(x@),
                    None => None,
                },
            },
            CliRequest::Help => RequestModel::Help,
            CliRequest::Version => RequestModel::Version,
        }
    }
}

/// The arguments read from the left: `--task-dir <path>` sets the task
/// directory, `add` takes all remaining arguments as the task text, `list`,
/// `done <id>` and `search <query>` set the command (the last one wins),
/// `--help`/`-h` and `--version`/`-V` stop reading; anything else is an
/// error.
pub open spec fn read_args(
    args: Seq<Seq<char>>,
    task_dir: Option<Seq<char>>,
    command: Option<CommandModel>,
) -> Result<RequestModel, Seq<char>>
    decreases args.len(),
{
    if args.len() == 0 {
        Ok(RequestModel::Run { task_dir, command })
    } else {
        let a = args[0];
        let rest = args.drop_first();
        if a == "--task-dir"@ {
            if rest.len() == 0 {
                Err("--task-dir requires a value"@)
            } else {
                read_args(rest.drop_first(), Some(rest[0]), command)
            }
        } else if a == "add"@ {
            if rest.len() == 0 {
                Err("ttd add: missing task text"@)
            } else {
                Ok(RequestModel::Run { task_dir, command: Some(CommandModel::Add { line: join_by(rest, ' ') }) })
            }
        } else if a == "list"@ {
            read_args(rest, task_dir, Some(CommandModel::List))
        } else if a == "done"@ {
            if rest.len() == 0 {
                Err("ttd done: missing task identifier"@)
            } else {
                read_args(rest.drop_first(), task_dir, Some(CommandModel::Done { id: rest[0] }))
            }
        } else if a == "search"@ {
            if rest.len() == 0 {
                Err("ttd search: missing search query"@)
            } else {
                read_args(rest.drop_first(), task_dir, Some(CommandModel::Search { query: rest[0] }))
            }
        } else if a == "--help"@ || a == "-h"@ {
            Ok(RequestModel::Help)
        } else if a == "--version"@ || a == "-V"@ {
            Ok(RequestModel::Version)
        } else {
            Err("unknown option or command: "@ + a)
        }
    }
}

fn join_args(args: &[String], from: usize) -> (r: String)
    requires
        from <= args.len(),
    ensures
        r@ == join_by(strings_view(args@).subrange(from as int, args.len() as int), ' '),
{
    let ghost all = strings_view(args@).subrange(from as int, args.len() as int);
    let mut r = String::new();
    let mut i = from;
    while i < args.len()
        invariant
            from <= i <= args.len(),
            all == strings_view(args@).subrange(from as int, args.len() as int),
            r@ == join_by(all.subrange(0, i - from), ' '),
        decreases args.len() - i,
    {
        let ghost before = r@;
        if i > from {
            crate::text::push_char(&mut r, ' ');
        }
        push_str(&mut r, args[i].as_str());
        proof {
            let s = all.subrange(0, i + 1 - from);
            assert(s.drop_last() =~= all.subrange(0, i - from));
            assert(s.last() == args@[i as int]@);
            if i == from {
                assert(r@ =~= s[0]);
            } else {
                assert(r@ =~= join_by(s.drop_last(), ' ') + seq![' '] + s.last());
            }
        }
        i = i + 1;
    }
    assert(all.subrange(0, args.len() - from) =~= all);
    r
}

impl Cli {
    /// Reads the command line (the arguments after the program's name).
    pub fn parse_args(args: &[String]) -> (r: Result<CliRequest, String>)
        ensures
            match read_args(strings_view(args@), None, None) {
                Ok(m) => r matches Ok(x) && x@ == m,
                Err(msg) => r matches Err(e) && e@ == msg,
            },
    {
        let ghost all = strings_view(args@);
        let mut task_dir: Option<String> = None;
        let mut command: Option<Command> = None;
        let mut i: usize = 0;
        proof {
            assert(all.subrange(0, all.len() as int) =~= all);
        }
        while i < args.len()
            invariant
                i <= args.len(),
                all == strings_view(args@),
                read_args(all, None, None) == read_args(
                    all.subrange(i as int, all.len() as int),
                    opt_view(task_dir),
                    match command {
                        Some(x) => Some(x@),
                        None => None,
                    },
                ),
            decreases args.len() - i,
        {
            let ghost rest = all.subrange(i as int, all.len() as int);
            let a = args[i].as_str();
            assert(rest[0] == a@);
            assert(rest.drop_first() =~= all.subrange(i + 1, all.len() as int));
            proof {
                reveal_strlit("--task-dir");
                reveal_strlit("add");
                reveal_strlit("list");
                reveal_strlit("done");
                reveal_strlit("search");
                reveal_strlit("--help");
                reveal_strlit("-h");
                reveal_strlit("--version");
                reveal_strlit("-V");
            }
            if str_eq_lit(a, "--task-dir") {
                if i + 1 >= args.len() {
                    return Err(owned("--task-dir requires a value"));
                }
                assert(rest.drop_first().drop_first() =~= all.subrange(i + 2, all.len() as int));
                task_dir = Some(args[i + 1].clone());
                i = i + 2;
            } else if str_eq_lit(a, "add") {
                if i + 1 >= args.len() {
                    return Err(owned("ttd add: missing task text"));
                }
                assert(all.subrange(i + 1, all.len() as int) =~= strings_view(args@).subrange(i + 1, args.len() as int));
                let line = join_args(args, i + 1);
                return Ok(CliRequest::Run(Cli { task_dir, command: Some(Command::Add { line }) }));
            } else if str_eq_lit(a, "list") {
                command = Some(Command::List);
                i = i + 1;
            } else if str_eq_lit(a, "done") {
                if i + 1 >= args.len() {
                    return Err(owned("ttd done: missing task identifier"));
                }
                assert(rest.drop_first().drop_first() =~= all.subrange(i + 2, all.len() as int));
                command = Some(Command::Done { id: args[i + 1].clone() });
                i = i + 2;
            } else if str_eq_lit(a, "search") {
                if i + 1 >= args.len() {
                    return Err(owned("ttd search: missing search query"));
                }
                assert(rest.drop_first().drop_first() =~= all.subrange(i + 2, all.len() as int));
                command = Some(Command::Search { query: args[i + 1].clone() });
                i = i + 2;
            } else if str_eq_lit(a, "--help") || str_eq_lit(a, "-h") {
                return Ok(CliRequest::Help);
            } else if str_eq_lit(a, "--version") || str_eq_lit(a, "-V") {
                return Ok(CliRequest::Version);
            } else {
                let mut msg = owned("unknown option or command: ");
                push_str(&mut msg, a);
                return Err(msg);
            }
        }
        assert(all.subrange(i as int, all.len() as int) =~= Seq::<Seq<char>>::empty());
        Ok(CliRequest::Run(Cli { task_dir, command }))
    }
}

} // verus!
