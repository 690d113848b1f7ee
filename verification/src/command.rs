//! The template resolver: a named command pairing declared argument names
//! with a shell-command template, validated and substituted against the
//! argument values a caller supplies positionally.

use vstd::prelude::*;
use vstd::string::StringExecFns;

use crate::text::chars_of;
use crate::text::dec_str;
use crate::text::eq_chars;
use crate::text::lemma_replace_absent;
use crate::text::lemma_replace_present;
use crate::text::lemma_replace_self;
use crate::text::occurs;
use crate::text::push_all;
use crate::text::push_dec;
use crate::text::replace_all;
use crate::text::replace_chars;
use crate::text::string_of_chars;

verus! {

/// The placeholder token for an argument name: `%` followed by the name.
pub open spec fn placeholder(name: Seq<char>) -> Seq<char> {
    seq!['%'] + name
}

/// One sequential substitution pass: the placeholder of each declared
/// argument, in declared order, is replaced everywhere by the value at
/// the same position; a step that leaves the string unchanged is the
/// error, reported as the index of the offending argument.
pub open spec fn subst_all(cmd: Seq<char>, args: Seq<Seq<char>>, vals: Seq<Seq<char>>) -> Result<
    Seq<char>,
    int,
>
    decreases args.len(),
{
    if args.len() == 0 {
        Ok(cmd)
    } else {
        let next = replace_all(cmd, placeholder(args[0]), vals[0]);
        if next == cmd {
            Err(0)
        } else {
            match subst_all(next, args.skip(1), vals.skip(1)) {
                Ok(s) => Ok(s),
                Err(i) => Err(i + 1),
            }
        }
    }
}

/// `r` with its error index moved up by `k`.
pub open spec fn shift_err(r: Result<Seq<char>, int>, k: int) -> Result<Seq<char>, int> {
    match r {
        Ok(s) => Ok(s),
        Err(i) => Err(i + k),
    }
}

/// The outcome of resolving a command against supplied values, stated
/// over the views of the strings involved.
pub enum Resolution {
    /// Every placeholder substituted; carries the final command string.
    Resolved { text: Seq<char> },
    /// Fewer values supplied than arguments declared.
    TooFew { required: int, given: int },
    /// Substituting the argument at `index` changed nothing.
    NotSubstituted { index: int },
}

/// What resolving declared arguments `args` and template `cmd` against
/// supplied values `vals` yields: the count is validated first, then the
/// arguments are substituted in declared order. Values beyond the
/// declared count are never consulted.
pub open spec fn resolve_spec(args: Seq<Seq<char>>, cmd: Seq<char>, vals: Seq<Seq<char>>) -> Resolution {
    if vals.len() < args.len() {
        Resolution::TooFew { required: args.len() as int, given: vals.len() as int }
    } else {
        match subst_all(cmd, args, vals) {
            Ok(s) => Resolution::Resolved { text: s },
            Err(i) => Resolution::NotSubstituted { index: i },
        }
    }
}

/// A failure of resolution or of launching, carrying the data its
/// user-facing message reports.
#[derive(Debug)]
pub enum CommandError {
    /// Fewer values were supplied than the command declares.
    TooFewArguments { name: String, required: usize, given: usize },
    /// A declared argument's placeholder changed nothing when
    /// substituted: it never appears in the (partially resolved) template.
    SubstitutionFailed { name: String, arg: String },
    /// The operating system could not start the shell process at all.
    SpawnFailed { command: String },
}

/// The message shown when too few values are supplied.
pub open spec fn too_few_message(name: Seq<char>, required: nat, given: nat) -> Seq<char> {
    "The command '"@ + name + "' requires "@ + dec_str(required) + " argument(s), but "@ + dec_str(
        given,
    ) + " argument(s) were provided (too few). Please provide all the required arguments."@
}

/// The warning shown when more values are supplied than declared.
pub open spec fn extra_args_message(name: Seq<char>, required: nat, given: nat) -> Seq<char> {
    "Warning: The command '"@ + name + "' only needs "@ + dec_str(required)
        + " argument(s), but "@ + dec_str(given)
        + " argument(s) were provided (too many). Your command will still run, this warning is just here to save time in debugging!"@
}

/// The message shown when a declared argument cannot be substituted.
pub open spec fn substitution_failed_message(arg: Seq<char>, name: Seq<char>) -> Seq<char> {
    "The argument '"@ + arg + "' could not be substituted into the command '"@ + name
        + "'. This probably means there's a typo somewhere in your command definition."@
}

/// The message shown when the shell process could not be started.
pub open spec fn spawn_failed_message(command: Seq<char>) -> Seq<char> {
    "Command '"@ + command
        + "' failed to run. This doesn't mean the command produced an error, but that the process couldn't even be initialised."@
}

impl CommandError {
    /// The exact message this error displays.
    pub open spec fn message_view(&self) -> Seq<char> {
        match *self {
            CommandError::TooFewArguments { name, required, given } => too_few_message(
                name@,
                required as nat,
                given as nat,
            ),
            CommandError::SubstitutionFailed { name, arg } => substitution_failed_message(
                arg@,
                name@,
            ),
            CommandError::SpawnFailed { command } => spawn_failed_message(command@),
        }
    }

    /// Renders the ready-to-display message for this error.
    pub fn message(&self) -> (r: String)
        ensures
            r@ == self.message_view(),
    {
        match self {
            CommandError::TooFewArguments { name, required, given } => {
                let mut r = String::from_str("The command '");
                r.append(name.as_str());
                r.append("' requires ");
                push_dec(&mut r, *required);
                r.append(" argument(s), but ");
                push_dec(&mut r, *given);
                r.append(
                    " argument(s) were provided (too few). Please provide all the required arguments.",
                );
                r
            },
            CommandError::SubstitutionFailed { name, arg } => {
                let mut r = String::from_str("The argument '");
                r.append(arg.as_str());
                r.append("' could not be substituted into the command '");
                r.append(name.as_str());
                r.append(
                    "'. This probably means there's a typo somewhere in your command definition.",
                );
                r
            },
            CommandError::SpawnFailed { command } => {
                let mut r = String::from_str("Command '");
                r.append(command.as_str());
                r.append(
                    "' failed to run. This doesn't mean the command produced an error, but that the process couldn't even be initialised.",
                );
                r
            },
        }
    }
}

/// One named, reusable shell-command template: a display name, the
/// declared argument names in positional order, and the raw template.
pub struct Command {
    name: String,
    args: Vec<String>,
    cmd: String,
}

impl Command {
    /// The command's display name, used only in messages.
    pub closed spec fn name_view(&self) -> Seq<char> {
        self.name@
    }

    /// The declared argument names, in positional order.
    pub closed spec fn args_view(&self) -> Seq<Seq<char>> {
        self.args.deep_view()
    }

    /// The raw template string.
    pub closed spec fn template_view(&self) -> Seq<char> {
        self.cmd@
    }

    /// Builds a command definition; it owns its strings outright and is
    /// never mutated afterwards.
    pub fn new(name: &str, args: Vec<String>, cmd: &str) -> (r: Command)
        ensures
            r.name_view() == name@,
            r.args_view() == args.deep_view(),
            r.template_view() == cmd@,
    {
        Command { name: name.to_owned(), args, cmd: cmd.to_owned() }
    }

    /// How many argument values this command requires.
    pub fn required_args(&self) -> (r: usize)
        ensures
            r == self.args_view().len(),
    {
        self.args.len()
    }

    /// The warning shown when `given` values were supplied but fewer are
    /// declared; the command still runs on the declared prefix.
    pub fn extra_args_warning(&self, given: usize) -> (r: String)
        ensures
            r@ == extra_args_message(self.name_view(), self.args_view().len(), given as nat),
    {
        let mut r = String::from_str("Warning: The command '");
        r.append(self.name.as_str());
        r.append("' only needs ");
        push_dec(&mut r, self.args.len());
        r.append(" argument(s), but ");
        push_dec(&mut r, given);
        r.append(
            " argument(s) were provided (too many). Your command will still run, this warning is just here to save time in debugging!",
        );
        r
    }

    /// Validates the number of supplied values, then substitutes every
    /// declared argument's placeholder in declared order, each occurrence
    /// at once, exactly as `resolve_spec` describes. Surplus values are
    /// ignored; a count shortfall or an argument whose substitution
    /// changes nothing is the matching error, naming this command.
    pub fn insert_args(&self, arg_values: &[String]) -> (r: Result<String, CommandError>)
        ensures
            match r {
                Ok(s) => resolve_spec(
                    self.args_view(),
                    self.template_view(),
                    arg_values.deep_view(),
                ) == (Resolution::Resolved { text: s@ }),
                Err(e) => match e {
                    CommandError::TooFewArguments { name, required, given } => name@
                        == self.name_view() && resolve_spec(
                        self.args_view(),
                        self.template_view(),
                        arg_values.deep_view(),
                    ) == (Resolution::TooFew {
                        required: required as int,
                        given: given as int,
                    }),
                    CommandError::SubstitutionFailed { name, arg } => name@ == self.name_view()
                        && (resolve_spec(
                        self.args_view(),
                        self.template_view(),
                        arg_values.deep_view(),
                    ) matches Resolution::NotSubstituted { index } && 0 <= index
                        < self.args_view().len() && arg@ == self.args_view()[index]),
                    CommandError::SpawnFailed { .. } => false,
                },
            },
    {
        let ghost argsv = self.args_view();
        let ghost valsv = arg_values.deep_view();
        let ghost cmdv = self.template_view();
        let required: usize = self.args.len();
        let given: usize = arg_values.len();
        if required > given {
            return Err(
                CommandError::TooFewArguments { name: self.name.clone(), required, given },
            );
        }
        let mut cur: Vec<char> = chars_of(self.cmd.as_str());
        proof {
            assert(argsv.skip(0) =~= argsv);
            assert(valsv.skip(0) =~= valsv);
        }
        let mut i: usize = 0;
        while i < required
            invariant
                required == argsv.len(),
                given == valsv.len(),
                required <= given,
                i <= required,
                argsv == self.args_view(),
                valsv == arg_values.deep_view(),
                cmdv == self.template_view(),
                required == self.args@.len(),
                subst_all(cmdv, argsv, valsv) == shift_err(
                    subst_all(cur@, argsv.skip(i as int), valsv.skip(i as int)),
                    i as int,
                ),
            decreases required - i,
        {
            let mut pat: Vec<char> = Vec::new();
            pat.push('%');
            let name_chars = chars_of(self.args[i].as_str());
            push_all(&mut pat, &name_chars);
            proof {
                assert(argsv[i as int] == self.args@[i as int]@);
                assert(pat@ =~= placeholder(argsv[i as int]));
            }
            let val = chars_of(arg_values[i].as_str());
            proof {
                assert(valsv[i as int] == arg_values@[i as int]@);
            }
            let next = replace_chars(&cur, &pat, &val);
            proof {
                assert(argsv.skip(i as int)[0] == argsv[i as int]);
                assert(valsv.skip(i as int)[0] == valsv[i as int]);
            }
            if eq_chars(&next, &cur) {
                proof {
                    assert(subst_all(cur@, argsv.skip(i as int), valsv.skip(i as int)) == Err::<
                        Seq<char>,
                        int,
                    >(0));
                    assert(subst_all(cmdv, argsv, valsv) == Err::<Seq<char>, int>(i as int));
                }
                return Err(
                    CommandError::SubstitutionFailed {
                        name: self.name.clone(),
                        arg: self.args[i].clone(),
                    },
                );
            }
            proof {
                assert(argsv.skip(i as int).skip(1) =~= argsv.skip(i as int + 1));
                assert(valsv.skip(i as int).skip(1) =~= valsv.skip(i as int + 1));
                let inner = subst_all(next@, argsv.skip(i as int + 1), valsv.skip(i as int + 1));
                assert(subst_all(cur@, argsv.skip(i as int), valsv.skip(i as int)) == shift_err(
                    inner,
                    1,
                ));
                assert(shift_err(shift_err(inner, 1), i as int) == shift_err(inner, i as int + 1));
            }
            cur = next;
            i += 1;
        }
        proof {
            assert(argsv.skip(required as int) =~= Seq::<Seq<char>>::empty());
            assert(subst_all(cur@, argsv.skip(required as int), valsv.skip(required as int))
                == Ok::<Seq<char>, int>(cur@));
            assert(subst_all(cmdv, argsv, valsv) == Ok::<Seq<char>, int>(cur@));
        }
        Ok(string_of_chars(&cur))
    }
}

/// Too few supplied values fail the count check before any substitution
/// is attempted: whatever the template holds, the outcome is the count
/// error, carrying the declared and the supplied count.
pub proof fn law_too_few_precedes_substitution(
    args: Seq<Seq<char>>,
    cmd: Seq<char>,
    vals: Seq<Seq<char>>,
)
    requires
        vals.len() < args.len(),
    ensures
        resolve_spec(args, cmd, vals) == (Resolution::TooFew {
            required: args.len() as int,
            given: vals.len() as int,
        }),
{
}

/// A declared argument whose placeholder occurs nowhere in the template
/// cannot be substituted: with enough values supplied, a command whose
/// first declared argument is absent from the template reports that
/// argument. It is stated of the first argument because a later one is
/// substituted into the already-rewritten string, where an earlier
/// value may have introduced its placeholder.
pub proof fn law_missing_placeholder(args: Seq<Seq<char>>, cmd: Seq<char>, vals: Seq<Seq<char>>)
    requires
        args.len() >= 1,
        vals.len() >= args.len(),
        !occurs(cmd, placeholder(args[0])),
    ensures
        resolve_spec(args, cmd, vals) == (Resolution::NotSubstituted { index: 0 }),
{
    assert(placeholder(args[0]).len() >= 1);
    lemma_replace_absent(cmd, placeholder(args[0]), vals[0]);
}

/// A failing substitution pass always names one of the declared
/// arguments, by its position.
pub proof fn lemma_subst_err_range(cmd: Seq<char>, args: Seq<Seq<char>>, vals: Seq<Seq<char>>)
    ensures
        subst_all(cmd, args, vals) matches Err(i) ==> 0 <= i < args.len(),
    decreases args.len(),
{
    if args.len() == 0 {
    } else {
        let next = replace_all(cmd, placeholder(args[0]), vals[0]);
        if next == cmd {
        } else {
            lemma_subst_err_range(next, args.skip(1), vals.skip(1));
        }
    }
}

/// Substituting the first declared argument fails exactly when its
/// placeholder occurs nowhere in the template, or the supplied value is
/// the placeholder token itself, so that replacing it changes nothing.
pub proof fn law_first_substitution_failure(
    args: Seq<Seq<char>>,
    cmd: Seq<char>,
    vals: Seq<Seq<char>>,
)
    requires
        args.len() >= 1,
        vals.len() >= args.len(),
    ensures
        resolve_spec(args, cmd, vals) == (Resolution::NotSubstituted { index: 0 }) <==> (!occurs(
            cmd,
            placeholder(args[0]),
        ) || vals[0] == placeholder(args[0])),
{
    let pat = placeholder(args[0]);
    assert(pat.len() >= 1);
    let next = replace_all(cmd, pat, vals[0]);
    if !occurs(cmd, pat) {
        lemma_replace_absent(cmd, pat, vals[0]);
    } else if vals[0] == pat {
        lemma_replace_self(cmd, pat);
    } else {
        lemma_replace_present(cmd, pat, vals[0]);
        lemma_subst_err_range(next, args.skip(1), vals.skip(1));
    }
}

/// Values beyond the declared count are never consulted: resolution with
/// surplus values equals resolution with exactly the declared prefix.
pub proof fn law_surplus_values_ignored(args: Seq<Seq<char>>, cmd: Seq<char>, vals: Seq<Seq<char>>)
    requires
        vals.len() >= args.len(),
    ensures
        resolve_spec(args, cmd, vals) == resolve_spec(args, cmd, vals.take(args.len() as int)),
{
    lemma_subst_all_prefix(cmd, args, vals);
}

proof fn lemma_subst_all_prefix(cmd: Seq<char>, args: Seq<Seq<char>>, vals: Seq<Seq<char>>)
    requires
        vals.len() >= args.len(),
    ensures
        subst_all(cmd, args, vals) == subst_all(cmd, args, vals.take(args.len() as int)),
    decreases args.len(),
{
    let pre = vals.take(args.len() as int);
    if args.len() == 0 {
    } else {
        assert(pre[0] == vals[0]);
        let next = replace_all(cmd, placeholder(args[0]), vals[0]);
        if next == cmd {
        } else {
            lemma_subst_all_prefix(next, args.skip(1), vals.skip(1));
            assert(vals.skip(1).take(args.skip(1).len() as int) =~= pre.skip(1));
        }
    }
}

} // verus!
