//! What the logger is asked to do by its arguments and its environment.

use vstd::prelude::*;

use crate::text::{push_str, same_str, strings, text_option_view};

verus! {

/// Where the log goes, and from which argument on the command stands. The flag
/// counts only in front, so that one behind the command is left to the command;
/// without it, or with nothing behind it, the environment decides.
pub open spec fn log_dir_of(args: Seq<Seq<char>>, env: Option<Seq<char>>) -> (
    Option<Seq<char>>,
    nat,
) {
    if args.len() > 0 && args[0] == "--log-dir"@ {
        if args.len() > 1 {
            (Some(args[1]), 2)
        } else {
            (env, 1)
        }
    } else {
        (env, 0)
    }
}

/// Reads a leading `--log-dir` and its value. Gives the directory and how many
/// arguments that took. A flag with nothing behind it counts as none.
pub fn resolve_log_dir(args: &Vec<String>, env: Option<String>) -> (r: (Option<String>, usize))
    ensures
        (text_option_view(r.0), r.1 as nat) == log_dir_of(
            strings(args@),
            text_option_view(env),
        ),
        r.1 <= args.len(),
{
    let ghost all = strings(args@);
    if args.len() == 0 {
        return (env, 0);
    }
    assert(all[0] == args@[0]@);
    if same_str(args[0].as_str(), "--log-dir") {
        if args.len() == 1 {
            return (env, 1);
        }
        assert(all[1] == args@[1]@);
        return (Some(args[1].clone()), 2);
    }
    (env, 0)
}

/// What is logged: a shell that someone uses, or a command that runs by
/// itself.
pub enum Mode {
    Interactive { shell: String },
    Headless { command: String, args: Vec<String> },
}

pub enum ModeView {
    Interactive { shell: Seq<char> },
    Headless { command: Seq<char>, args: Seq<Seq<char>> },
}

impl View for Mode {
    type V = ModeView;

    open spec fn view(&self) -> ModeView {
        match self {
            Mode::Interactive { shell } => ModeView::Interactive { shell: shell@ },
            Mode::Headless { command, args } => {
                ModeView::Headless { command: command@, args: strings(args@) }
            },
        }
    }
}

/// The shell of the environment, or the standard one, where no command is
/// given; the command otherwise.
pub open spec fn mode_of(args: Seq<Seq<char>>, shell: Option<Seq<char>>) -> ModeView {
    if args.len() == 0 {
        ModeView::Interactive {
            shell: match shell {
                Some(s) => s,
                None => "/bin/sh"@,
            },
        }
    } else {
        ModeView::Headless { command: args[0], args: args.skip(1) }
    }
}

/// What the arguments from `start` on ask for.
pub fn choose_mode(args: &Vec<String>, start: usize, shell: Option<String>) -> (r: Mode)
    requires
        start <= args.len(),
    ensures
        r@ == mode_of(strings(args@).skip(start as int), text_option_view(shell)),
{
    let ghost all = strings(args@);
    if start == args.len() {
        return Mode::Interactive {
            shell: match shell {
                Some(s) => s,
                None => "/bin/sh".to_owned(),
            },
        };
    }
    let command = args[start].clone();
    let mut rest: Vec<String> = Vec::new();
    let mut i: usize = start + 1;
    assert(strings(rest@) == all.subrange(start + 1, i as int));
    while i < args.len()
        invariant
            start < i <= args.len(),
            all == strings(args@),
            strings(rest@) == all.subrange(start + 1, i as int),
        decreases args.len() - i,
    {
        let ghost before = strings(rest@);
        rest.push(args[i].clone());
        assert(strings(rest@) == before.push(all[i as int]));
        i = i + 1;
        assert(strings(rest@) == all.subrange(start + 1, i as int));
    }
    assert(all.subrange(start + 1, i as int) == all.skip(start as int).skip(1));
    assert(all.skip(start as int)[0] == args@[start as int]@);
    Mode::Headless { command, args: rest }
}

/// The command and its arguments with a space between each two.
pub open spec fn spaced(command: Seq<char>, args: Seq<Seq<char>>) -> Seq<char>
    decreases args.len(),
{
    if args.len() == 0 {
        command
    } else {
        spaced(command, args.drop_last()) + " "@ + args.last()
    }
}

/// The command line, for the log's header.
pub fn command_line(command: &str, args: &Vec<String>) -> (r: String)
    ensures
        r@ == spaced(command@, strings(args@)),
{
    let ghost all = strings(args@);
    let mut out: String = command.to_owned();
    let mut i: usize = 0;
    while i < args.len()
        invariant
            i <= args.len(),
            all == strings(args@),
            out@ == spaced(command@, all.take(i as int)),
        decreases args.len() - i,
    {
        push_str(&mut out, " ");
        push_str(&mut out, args[i].as_str());
        assert(all.take(i + 1).drop_last() == all.take(i as int));
        assert(all.take(i + 1).last() == args@[i as int]@);
        i = i + 1;
    }
    assert(all.take(i as int) == all);
    out
}

/// What stands behind the command is the command's own, the flag included.
pub proof fn arguments_behind_the_command_are_its_own(args: Seq<Seq<char>>, env: Option<Seq<char>>)
    requires
        args.len() > 0,
        args[0] != "--log-dir"@,
    ensures
        log_dir_of(args, env) == (env, 0nat),
        mode_of(args.skip(log_dir_of(args, env).1 as int), None) == (ModeView::Headless {
            command: args[0],
            args: args.skip(1),
        }),
{
    assert(args.skip(0) == args);
}

/// The command line is shown with one space between each two of its words, in their
/// order.
pub proof fn words_are_shown_in_their_order(
    command: Seq<char>,
    a: Seq<Seq<char>>,
    b: Seq<Seq<char>>,
    word: Seq<char>,
)
    ensures
        spaced(command, seq![]) == command,
        spaced(command, seq![word]) == command + " "@ + word,
        spaced(command, a + b) == spaced(spaced(command, a), b),
    decreases b.len(),
{
    assert(seq![word].drop_last() =~= Seq::<Seq<char>>::empty());
    reveal_with_fuel(spaced, 2);
    if b.len() == 0 {
        assert(a + b == a);
    } else {
        assert((a + b).drop_last() =~= a + b.drop_last());
        words_are_shown_in_their_order(command, a, b.drop_last(), word);
    }
}

/// Without a command the shell of the environment runs, or the standard one; with
/// one, the first word is the command and the others are its arguments.
pub proof fn the_first_word_is_the_command(
    command: Seq<char>,
    args: Seq<Seq<char>>,
    shell: Seq<char>,
    env: Option<Seq<char>>,
)
    ensures
        mode_of(seq![command] + args, env) == (ModeView::Headless { command, args }),
        mode_of(seq![], Some(shell)) == (ModeView::Interactive { shell }),
        mode_of(seq![], None) == (ModeView::Interactive { shell: "/bin/sh"@ }),
{
    assert((seq![command] + args).skip(1) =~= args);
}

/// The directory behind the flag wins over the environment, and the command stands
/// behind it; without the flag the environment decides and nothing is taken away.
pub proof fn the_flag_wins_over_the_environment(
    dir: Seq<char>,
    rest: Seq<Seq<char>>,
    env: Option<Seq<char>>,
)
    ensures
        log_dir_of(seq!["--log-dir"@, dir] + rest, env) == (Some(dir), 2nat),
        rest.len() == 0 || rest[0] != "--log-dir"@ ==> log_dir_of(rest, env) == (env, 0nat),
        (seq!["--log-dir"@, dir] + rest).skip(2) == rest,
{
    assert((seq!["--log-dir"@, dir] + rest).skip(2) =~= rest);
}

} // verus!
