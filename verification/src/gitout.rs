//! What a run of the version-control tool came to, and how its failures
//! are reported.

use vstd::prelude::*;
use crate::error::StackError;
use crate::names::name_seq;
use crate::operation::RebaseOutcome;
use crate::text::{decimal, decimal_string, join_names, joined, trim_text, trimmed};

verus! {

/// The result of one run of the tool: whether it succeeded, its exit
/// code where it has one, and what it printed.
#[derive(Debug)]
pub struct GitOutput {
    pub success: bool,
    pub code: Option<i32>,
    pub stdout: String,
    pub stderr: String,
}

/// An exit code in decimal, with a minus sign where it is negative.
pub open spec fn signed_decimal(code: int) -> Seq<char> {
    if code < 0 {
        "-"@ + decimal((-code) as nat)
    } else {
        decimal(code as nat)
    }
}

/// What the tool printed, for a report: its error stream without the
/// white space around it or, where that is empty, its output stream
/// likewise.
pub open spec fn details_text(stdout: Seq<char>, stderr: Seq<char>) -> Seq<char> {
    if trimmed(stderr).len() > 0 {
        trimmed(stderr)
    } else {
        trimmed(stdout)
    }
}

/// The report of a failed run of the tool with the arguments `args`.
pub open spec fn git_error_text(
    args: Seq<Seq<char>>,
    code: Option<i32>,
    stdout: Seq<char>,
    stderr: Seq<char>,
) -> Seq<char> {
    let head = "`git "@ + joined(args, " "@) + "` failed"@ + (match code {
        Some(c) => " with exit code "@ + signed_decimal(c as int),
        None => Seq::empty(),
    }) + "."@;
    if trimmed(stderr).len() > 0 {
        head + "\n\nGit stderr:\n"@ + trimmed(stderr)
    } else if trimmed(stdout).len() > 0 {
        head + "\n\nGit stdout:\n"@ + trimmed(stdout)
    } else {
        head
    }
}

fn signed_decimal_string(code: i32) -> (r: String)
    ensures
        r@ == signed_decimal(code as int),
{
    if code < 0 {
        let magnitude: u32 = (-(code as i64)) as u32;
        String::from_str("-").concat(decimal_string(magnitude as usize).as_str())
    } else {
        decimal_string(code as usize)
    }
}

/// What the tool printed, for a report.
pub fn output_details(output: &GitOutput) -> (r: String)
    ensures
        r@ == details_text(output.stdout@, output.stderr@),
{
    let err = trim_text(output.stderr.as_str());
    if err.as_str().unicode_len() > 0 {
        err
    } else {
        trim_text(output.stdout.as_str())
    }
}

/// Classifies a run of the rebase: any failure of the rebase itself
/// counts as a conflict, reported with what the tool printed.
pub fn rebase_outcome(output: &GitOutput) -> (r: RebaseOutcome)
    ensures
        match r {
            RebaseOutcome::Success => output.success,
            RebaseOutcome::Conflict { diagnostics } => !output.success && diagnostics@
                == details_text(output.stdout@, output.stderr@),
            RebaseOutcome::Fatal { diagnostics } => false,
        },
{
    if output.success {
        RebaseOutcome::Success
    } else {
        RebaseOutcome::Conflict { diagnostics: output_details(output) }
    }
}

/// The report of a failed run of the tool: the command, its exit code
/// where it has one, and what it printed.
pub fn format_git_error(args: &Vec<String>, output: &GitOutput) -> (r: String)
    ensures
        r@ == git_error_text(name_seq(args@), output.code, output.stdout@, output.stderr@),
{
    let list = join_names(args, " ");
    let mut message = String::from_str("`git ").concat(list.as_str()).concat("` failed");
    match output.code {
        Some(code) => {
            let n = signed_decimal_string(code);
            message = message.concat(" with exit code ").concat(n.as_str());
            proof {
                assert(message@ =~= "`git "@ + joined(name_seq(args@), " "@) + "` failed"@ + (
                " with exit code "@ + signed_decimal(code as int)));
            }
        },
        None => {
            proof {
                assert(message@ =~= "`git "@ + joined(name_seq(args@), " "@) + "` failed"@
                    + Seq::<char>::empty());
            }
        },
    }
    message = message.concat(".");
    let err = trim_text(output.stderr.as_str());
    let out = trim_text(output.stdout.as_str());
    if err.as_str().unicode_len() > 0 {
        message.concat("\n\nGit stderr:\n").concat(err.as_str())
    } else if out.as_str().unicode_len() > 0 {
        message.concat("\n\nGit stdout:\n").concat(out.as_str())
    } else {
        message
    }
}

/// Turns a run of the tool into success or a reported failure.
pub fn run_git_checked(args: &Vec<String>, output: &GitOutput) -> (r: Result<(), StackError>)
    ensures
        match r {
            Ok(_) => output.success,
            Err(StackError::ExternalToolFailure { diagnostics }) => !output.success
                && diagnostics@ == git_error_text(
                name_seq(args@),
                output.code,
                output.stdout@,
                output.stderr@,
            ),
            Err(_) => false,
        },
{
    if output.success {
        Ok(())
    } else {
        Err(StackError::ExternalToolFailure { diagnostics: format_git_error(args, output) })
    }
}

/// The arguments that check out `branch`.
pub fn checkout_args(branch: &str) -> (r: Vec<String>)
    ensures
        name_seq(r@) == seq!["checkout"@, branch@],
{
    let mut args: Vec<String> = Vec::new();
    args.push(String::from_str("checkout"));
    args.push(branch.to_owned());
    proof {
        assert(name_seq(args@) =~= seq!["checkout"@, branch@]);
    }
    args
}

/// Turns a run of the checkout of `branch` into success or a reported
/// failure.
pub fn checkout_git_branch(branch: &str, output: &GitOutput) -> (r: Result<(), StackError>)
    ensures
        match r {
            Ok(_) => output.success,
            Err(StackError::ExternalToolFailure { diagnostics }) => !output.success
                && diagnostics@ == git_error_text(
                seq!["checkout"@, branch@],
                output.code,
                output.stdout@,
                output.stderr@,
            ),
            Err(_) => false,
        },
{
    let args = checkout_args(branch);
    run_git_checked(&args, output)
}

} // verus!
