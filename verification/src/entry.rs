//! What the program answers: the text for standard output and standard error,
//! and the exit status.

use vstd::prelude::*;

use crate::cli::{
    copy_arg, Action, Command, Mode, OsArg, OutputFormat, UsageError, UsageErrorView,
};
use crate::error::RunError;
use crate::input::{
    check_path, compression_of, outer_compression, path_names_stdin, stdin_refusal_text,
    Compression,
};
use crate::text::push_str;

verus! {

/// Text for standard output, text for standard error, and the exit status.
pub struct Response {
    pub stdout: String,
    pub stderr: String,
    pub exit_code: u8,
}

/// What to do after the command line is read.
pub enum Next {
    /// Answer at once.
    Respond(Response),
    /// Read the file that the command names.
    Run(Command),
}

pub open spec fn usage_report(e: UsageErrorView) -> Seq<char> {
    "error: "@ + e.message + "\n\n"@ + e.help
}

/// Help goes to standard output as it is, the version with a newline, both
/// with status 0; a usage error goes to standard error, with its help, with
/// status 2; a command is run.
pub fn respond(parsed: Result<Action, UsageError>) -> (next: Next)
    ensures
        match parsed {
            Ok(Action::Help(h)) => next matches Next::Respond(r) && r.stdout@ == h@ && r.stderr@
                == Seq::<char>::empty() && r.exit_code == 0,
            Ok(Action::Version(v)) => next matches Next::Respond(r) && r.stdout@ == v@ + "\n"@
                && r.stderr@ == Seq::<char>::empty() && r.exit_code == 0,
            Ok(Action::Run(c)) => next matches Next::Run(d) && d@ == c@,
            Err(e) => next matches Next::Respond(r) && r.stdout@ == Seq::<char>::empty()
                && r.stderr@ == usage_report(e@) && r.exit_code == 2,
        },
{
    match parsed {
        Ok(Action::Help(help)) => Next::Respond(
            Response { stdout: help, stderr: String::new(), exit_code: 0 },
        ),
        Ok(Action::Version(version)) => {
            let mut stdout = version;
            push_str(&mut stdout, "\n");
            Next::Respond(Response { stdout, stderr: String::new(), exit_code: 0 })
        },
        Ok(Action::Run(command)) => Next::Run(command),
        Err(err) => {
            let mut stderr = String::from_str("error: ");
            push_str(&mut stderr, err.message.as_str());
            push_str(&mut stderr, "\n\n");
            push_str(&mut stderr, err.help.as_str());
            Next::Respond(Response { stdout: String::new(), stderr, exit_code: 2 })
        },
    }
}

/// The answer to a failure while running a command: nothing at all, with
/// status 0, when the reader of the output went away; otherwise the message
/// on standard error, with status 1.
pub fn failure_response(message: &str, broken_pipe: bool) -> (r: Response)
    ensures
        r.stdout@ == Seq::<char>::empty(),
        broken_pipe ==> r.stderr@ == Seq::<char>::empty() && r.exit_code == 0,
        !broken_pipe ==> r.stderr@ == "error: "@ + message@ + "\n"@ && r.exit_code == 1,
{
    if broken_pipe {
        Response { stdout: String::new(), stderr: String::new(), exit_code: 0 }
    } else {
        let mut stderr = String::from_str("error: ");
        push_str(&mut stderr, message);
        push_str(&mut stderr, "\n");
        Response { stdout: String::new(), stderr, exit_code: 1 }
    }
}

/// A command ready to read its file: the path, the outer wrapper its name
/// announces, what to show and how rows are written.
#[derive(Debug)]
pub struct Request {
    pub path: OsArg,
    pub compression: Compression,
    pub mode: Mode,
    pub format: OutputFormat,
}

/// The checks and choices made before the file is opened: a path that names
/// standard input (`-`, also as `-/` or `-/.`) is refused; otherwise the
/// request carries the command's path, the wrapper that its name announces,
/// its mode, and the format it asked for or else `default_format`.
pub fn run_command(command: &Command, default_format: OutputFormat) -> (r: Result<
    Request,
    RunError,
>)
    ensures
        path_names_stdin(command@.file) ==> (r matches Err(RunError::Unsupported(m)) && m@
            == stdin_refusal_text()),
        !path_names_stdin(command@.file) ==> (r matches Ok(q) && q.path@ == command@.file
            && q.compression == compression_of(command@.file) && q.mode == command@.mode
            && q.format == match command@.output_format {
            Some(f) => f,
            None => default_format,
        }),
{
    let file = command.file();
    check_path(file)?;
    Ok(
        Request {
            path: copy_arg(file),
            compression: outer_compression(file),
            mode: command.mode(),
            format: command.output_format(default_format),
        },
    )
}

} // verus!
