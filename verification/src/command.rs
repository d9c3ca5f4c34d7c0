use vstd::prelude::*;
use vstd::string::StrSliceExecFns;
use vstd::string::StringExecFns;

verus! {

/// The verbs of the interactive command line; only one is recognized.
pub enum CommandName {
    MkDir,
}

/// A command-line failure: the verb is not a valid command.
#[derive(Debug, PartialEq, Eq, Structural)]
pub enum CommandError {
    NotACommand,
}

/// The split of a line on single spaces: always at least one token, with
/// empty tokens where spaces meet or border the line.
pub open spec fn split_spaces(s: Seq<char>) -> Seq<Seq<char>>
    decreases s.len(),
{
    if s.len() == 0 {
        seq![Seq::<char>::empty()]
    } else if s[0] == ' ' {
        seq![Seq::<char>::empty()] + split_spaces(s.drop_first())
    } else {
        let rest = split_spaces(s.drop_first());
        seq![seq![s[0]] + rest[0]] + rest.drop_first()
    }
}

/// Splitting yields at least one token.
pub proof fn lemma_split_spaces_nonempty(s: Seq<char>)
    ensures
        split_spaces(s).len() >= 1,
    decreases s.len(),
{
    if s.len() > 0 {
        lemma_split_spaces_nonempty(s.drop_first());
    }
}

/// Splits a command line on single spaces.
pub fn split_line(s: &str) -> (r: Vec<String>)
    ensures
        r.deep_view() == split_spaces(s@),
    decreases s@.len(),
{
    let n = s.unicode_len();
    if n == 0 {
        let mut r: Vec<String> = Vec::new();
        r.push(String::new());
        proof {
            assert(r.deep_view() =~= split_spaces(s@));
        }
        r
    } else {
        let c = s.get_char(0);
        let tail = s.substring_char(1, n);
        proof {
            assert(tail@ =~= s@.drop_first());
        }
        let mut rv = split_line(tail);
        let ghost rest = split_spaces(s@.drop_first());
        proof {
            lemma_split_spaces_nonempty(s@.drop_first());
        }
        if c == ' ' {
            let ghost r0 = rv.deep_view();
            rv.insert(0, String::new());
            proof {
                assert(rv.deep_view() =~= seq![Seq::<char>::empty()] + rest);
            }
            rv
        } else {
            let head = s.substring_char(0, 1);
            let joined = head.to_owned().concat(rv[0].as_str());
            proof {
                assert(head@ =~= seq![s@[0]]);
                assert(joined@ == seq![s@[0]] + rest[0]);
            }
            let ghost r0 = rv.deep_view();
            rv.remove(0);
            rv.insert(0, joined);
            proof {
                assert(rv.deep_view() =~= seq![seq![s@[0]] + rest[0]] + rest.drop_first());
                assert(split_spaces(s@) == seq![seq![s@[0]] + rest[0]] + rest.drop_first());
            }
            rv
        }
    }
}

impl CommandName {
    /// Parses a verb; `mkdir` is the only valid one.
    pub fn try_from(value: &str) -> (r: Result<CommandName, CommandError>)
        ensures
            r is Ok <==> value@ == "mkdir"@,
            r is Ok ==> (r matches Ok(n) && n is MkDir),
    {
        let owned = value.to_owned();
        let verb = String::from_str("mkdir");
        if owned == verb {
            Ok(CommandName::MkDir)
        } else {
            Err(CommandError::NotACommand)
        }
    }
}

/// A parsed command line: a verb and its positional arguments.
pub struct Command {
    pub name: CommandName,
    pub arguments: Vec<String>,
}

impl Command {
    /// Parses a command line: the first space-delimited token must be a
    /// valid verb; the remaining tokens become the arguments.
    pub fn try_from(s: &str) -> (r: Result<Command, CommandError>)
        ensures
            r is Ok <==> split_spaces(s@)[0] == "mkdir"@,
            r matches Ok(c) ==> (c.name is MkDir && c.arguments.deep_view() == split_spaces(
                s@,
            ).drop_first()),
    {
        let tokens = split_line(s);
        proof {
            lemma_split_spaces_nonempty(s@);
        }
        match CommandName::try_from(tokens[0].as_str()) {
            Ok(name) => {
                let mut args: Vec<String> = Vec::new();
                let n = tokens.len();
                let mut i: usize = 1;
                while i < n
                    invariant
                        1 <= i <= n,
                        n == tokens.len(),
                        args.len() == i - 1,
                        forall|j: int|
                            0 <= j < i - 1 ==> args.deep_view()[j] == tokens.deep_view()[j + 1],
                    decreases n - i,
                {
                    let ghost a0 = args.deep_view();
                    args.push(tokens[i].clone());
                    proof {
                        assert(args.deep_view() =~= a0.push(tokens.deep_view()[i as int]));
                    }
                    i += 1;
                }
                proof {
                    assert(args.deep_view() =~= split_spaces(s@).drop_first());
                }
                Ok(Command { name, arguments: args })
            },
            Err(e) => Err(e),
        }
    }
}

/// The effect of a parsed command: the one verb orders a directory created
/// for each argument, relative to the directory the process started in. The
/// caller performs the creations, then refreshes the listing.
pub fn execute_command(cmd: Command) -> (r: Vec<String>)
    ensures
        r.deep_view() == cmd.arguments.deep_view(),
{
    match cmd.name {
        CommandName::MkDir => cmd.arguments,
    }
}

} // verus!
