use vstd::prelude::*;
use crate::types::LaunchData;

verus! {

/// The words that `shlex::split` makes of a command line, or `None` where its
/// quoting is malformed.
pub uninterp spec fn shell_words(command: Seq<char>) -> Option<Seq<Seq<char>>>;

/// Relies on `shlex::split`: splits a command line into words under POSIX
/// shell quoting rules, or returns `None` for malformed quoting; the result
/// depends on the text alone.
#[verifier::external_body]
fn split_shell_words(command: &str) -> (r: Option<Vec<String>>)
    ensures
        match r {
            Some(v) => shell_words(command@) == Some(words_of(v@)),
            None => shell_words(command@) is None,
        },
{
    shlex::split(command)
}

/// The text of each word of a list.
pub open spec fn words_of(v: Seq<String>) -> Seq<Seq<char>> {
    v.map_values(|w: String| w@)
}

/// Why preparing or running a launch failed.
#[derive(Debug, Clone, Copy, PartialEq, Eq, Structural)]
pub enum LaunchError {
    /// The pre-launch command line could not be split into words.
    InvalidCommandFormat,
    /// The pre-launch command ended with a nonzero or missing exit code.
    PreLaunchExit(Option<i32>),
}

/// The program and arguments of a pre-launch command.
#[derive(Debug)]
pub struct PreLaunchPlan {
    pub program: String,
    pub args: Vec<String>,
}

/// The plan for the words of a pre-launch command: the first word is the
/// program and the rest its arguments; no words means nothing to run.
pub open spec fn plan_of(words: Option<Seq<Seq<char>>>) -> Result<
    Option<(Seq<char>, Seq<Seq<char>>)>,
    LaunchError,
> {
    match words {
        None => Err(LaunchError::InvalidCommandFormat),
        Some(w) => if w.len() == 0 {
            Ok(None)
        } else {
            Ok(Some((w[0], w.drop_first())))
        },
    }
}

/// The mathematical value of a planning result.
pub open spec fn plan_view(r: Result<Option<PreLaunchPlan>, LaunchError>) -> Result<
    Option<(Seq<char>, Seq<Seq<char>>)>,
    LaunchError,
> {
    match r {
        Ok(Some(p)) => Ok(Some((p.program@, words_of(p.args@)))),
        Ok(None) => Ok(None),
        Err(e) => Err(e),
    }
}

/// Plans a pre-launch command from the words of its command line, as split
/// by the shell rules (`None` where the quoting was malformed).
pub fn plan_from_words(words: Option<Vec<String>>) -> (r: Result<Option<PreLaunchPlan>, LaunchError>)
    ensures
        plan_view(r) == plan_of(
            match words {
                Some(v) => Some(words_of(v@)),
                None => None,
            },
        ),
{
    match words {
        None => Err(LaunchError::InvalidCommandFormat),
        Some(v) => {
            if v.len() == 0 {
                Ok(None)
            } else {
                let mut args = v;
                let ghost all = args@;
                let program = args.remove(0);
                assert(words_of(args@) =~= words_of(all).drop_first());
                Ok(Some(PreLaunchPlan { program, args }))
            }
        },
    }
}

/// Plans the pre-launch command line `command`.
pub fn plan_pre_launch(command: &str) -> (r: Result<Option<PreLaunchPlan>, LaunchError>)
    ensures
        plan_view(r) == plan_of(shell_words(command@)),
{
    plan_from_words(split_shell_words(command))
}

/// The verdict on a pre-launch command that the caller waited for: success
/// only on exit code zero; a missing code counts as failure.
pub fn pre_launch_exit(code: Option<i32>) -> (r: Result<(), LaunchError>)
    ensures
        r == (if code == Some(0i32) {
            Ok::<(), LaunchError>(())
        } else {
            Err::<(), LaunchError>(LaunchError::PreLaunchExit(code))
        }),
{
    match code {
        Some(c) => if c == 0 {
            Ok(())
        } else {
            Err(LaunchError::PreLaunchExit(code))
        },
        None => Err(LaunchError::PreLaunchExit(code)),
    }
}

/// Appends a copy of each word of `src` to `dst`.
fn append_words(dst: &mut Vec<String>, src: &Vec<String>)
    ensures
        words_of(final(dst)@) == words_of(old(dst)@) + words_of(src@),
{
    let ghost start = dst@;
    let mut i: usize = 0;
    while i < src.len()
        invariant
            i <= src.len(),
            words_of(dst@) == words_of(start) + words_of(src@.take(i as int)),
        decreases src.len() - i,
    {
        let ghost before = dst@;
        dst.push(src[i].clone());
        assert(words_of(dst@) =~= words_of(before).push(src[i as int]@));
        assert(words_of(src@.take(i + 1)) =~= words_of(src@.take(i as int)).push(src[i as int]@));
        i = i + 1;
    }
    assert(src@.take(src.len() as int) =~= src@);
}

/// The arguments of the application: its own parameters, then the user's,
/// then those of the store.
pub fn launch_arguments(data: &LaunchData) -> (r: Vec<String>)
    ensures
        words_of(r@) == words_of(data.game_parameters@) + words_of(data.user_parameters@) + words_of(
            data.egl_parameters@,
        ),
{
    let mut r: Vec<String> = Vec::new();
    assert(words_of(r@) =~= Seq::<Seq<char>>::empty());
    append_words(&mut r, &data.game_parameters);
    append_words(&mut r, &data.user_parameters);
    append_words(&mut r, &data.egl_parameters);
    assert(words_of(data.game_parameters@) =~= Seq::<Seq<char>>::empty() + words_of(data.game_parameters@));
    r
}

/// Whether a command runs in the configured working directory: only a
/// directory that is named and exists is used.
pub fn uses_working_directory(dir: &str, exists: bool) -> (r: bool)
    ensures
        r == (dir@.len() > 0 && exists),
{
    !dir.is_empty() && exists
}

} // verus!
