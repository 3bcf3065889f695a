//! The messages of the shell about what failed.
use vstd::prelude::*;
use vstd::string::*;

verus! {

/// A program that was not found.
pub fn command_not_found(name: &str) -> (r: String)
    ensures
        r@ == name@ + ": command not found\n"@,
{
    let mut r = name.to_owned();
    r.append(": command not found\n");
    r
}

/// A program that could not be started.
pub fn execution_failed(name: &str, reason: &str) -> (r: String)
    ensures
        r@ == name@ + ": failed to execute: "@ + reason@ + "\n"@,
{
    let mut r = name.to_owned();
    r.append(": failed to execute: ");
    r.append(reason);
    r.append("\n");
    r
}

/// A file of a redirection that could not be opened.
pub fn redirect_failed(path: &str, reason: &str) -> (r: String)
    ensures
        r@ == path@ + ": "@ + reason@ + "\n"@,
{
    let mut r = path.to_owned();
    r.append(": ");
    r.append(reason);
    r.append("\n");
    r
}

/// A directory that could not be changed to. The argument is shown as it was given.
pub fn cd_failed(arg: &str) -> (r: String)
    ensures
        r@ == "cd: "@ + arg@ + ": No such file or directory\n"@,
{
    let mut r = "cd: ".to_owned();
    r.append(arg);
    r.append(": No such file or directory\n");
    r
}

/// A history file that could not be written.
pub fn history_failed(path: &str, reason: &str) -> (r: String)
    ensures
        r@ == "history: "@ + path@ + ": "@ + reason@ + "\n"@,
{
    let mut r = "history: ".to_owned();
    r.append(path);
    r.append(": ");
    r.append(reason);
    r.append("\n");
    r
}

} // verus!
